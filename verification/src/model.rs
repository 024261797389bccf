//! The values that a successful match produces, and their mathematical views.

use vstd::prelude::*;

verus! {

/// An IPv4 address as its four octets, or an IPv6 address as its 128 bits.
#[derive(Clone, Copy, Debug, PartialEq, Eq, Structural)]
pub enum IpAddress {
    V4(u8, u8, u8, u8),
    V6(u128),
}

impl View for IpAddress {
    type V = IpAddress;

    open spec fn view(&self) -> IpAddress {
        *self
    }
}

/// One ESMTP parameter: a keyword and, after `=`, an optional value.
#[derive(Clone, Debug, PartialEq)]
pub struct EsmtpParam(pub String, pub Option<String>);

pub struct EsmtpParamView {
    pub name: Seq<char>,
    pub value: Option<Seq<char>>,
}

impl View for EsmtpParam {
    type V = EsmtpParamView;

    open spec fn view(&self) -> EsmtpParamView {
        EsmtpParamView {
            name: self.0@,
            value: match self.1 {
                Some(v) => Some(v@),
                None => None,
            },
        }
    }
}

/// The views of a list of parameters, in the list's order.
pub open spec fn params_view(v: Seq<EsmtpParam>) -> Seq<EsmtpParamView> {
    Seq::new(v.len(), |j: int| v[j]@)
}

/// The local part of an address, before the `@`.
#[derive(Clone, Debug, PartialEq)]
pub enum LocalPart {
    /// Atoms joined by dots, as written.
    Atom(String),
    /// The content of a quoted string, with the escapes taken out.
    Quoted(String),
}

pub enum LocalPartView {
    Atom(Seq<char>),
    Quoted(Seq<char>),
}

impl View for LocalPart {
    type V = LocalPartView;

    open spec fn view(&self) -> LocalPartView {
        match self {
            LocalPart::Atom(a) => LocalPartView::Atom(a@),
            LocalPart::Quoted(q) => LocalPartView::Quoted(q@),
        }
    }
}

/// A network address literal, written between square brackets.
#[derive(Clone, Debug, PartialEq)]
pub enum AddressLiteral {
    /// An IPv4 or IPv6 address.
    IpAddr(IpAddress),
    /// A literal of the form `tag:value`.
    Tagged(String, String),
    /// Text found between brackets that has none of the formal shapes.
    FreeForm(String),
}

pub enum AddressLiteralView {
    IpAddr(IpAddress),
    Tagged(Seq<char>, Seq<char>),
    FreeForm(Seq<char>),
}

impl View for AddressLiteral {
    type V = AddressLiteralView;

    open spec fn view(&self) -> AddressLiteralView {
        match self {
            AddressLiteral::IpAddr(ip) => AddressLiteralView::IpAddr(*ip),
            AddressLiteral::Tagged(t, v) => AddressLiteralView::Tagged(t@, v@),
            AddressLiteral::FreeForm(v) => AddressLiteralView::FreeForm(v@),
        }
    }
}

/// The domain part of an address, after the `@`.
#[derive(Clone, Debug, PartialEq)]
pub enum DomainPart {
    /// A DNS domain name such as `example.org`.
    Domain(String),
    /// An address literal.
    AddressLiteral(AddressLiteral),
}

pub enum DomainPartView {
    Domain(Seq<char>),
    AddressLiteral(AddressLiteralView),
}

impl View for DomainPart {
    type V = DomainPartView;

    open spec fn view(&self) -> DomainPartView {
        match self {
            DomainPart::Domain(d) => DomainPartView::Domain(d@),
            DomainPart::AddressLiteral(a) => DomainPartView::AddressLiteral(a@),
        }
    }
}

/// A local part and a domain part.
#[derive(Clone, Debug, PartialEq)]
pub struct Mailbox(pub LocalPart, pub DomainPart);

pub struct MailboxView {
    pub local: LocalPartView,
    pub domain: DomainPartView,
}

impl View for Mailbox {
    type V = MailboxView;

    open spec fn view(&self) -> MailboxView {
        MailboxView { local: self.0@, domain: self.1@ }
    }
}

/// The forward path of a `RCPT TO` command.
#[derive(Clone, Debug, PartialEq)]
pub enum Path {
    /// `<person@example.org>`
    Mailbox(Mailbox),
    /// `<postmaster>`
    PostMaster,
}

pub enum PathView {
    Mailbox(MailboxView),
    PostMaster,
}

impl View for Path {
    type V = PathView;

    open spec fn view(&self) -> PathView {
        match self {
            Path::Mailbox(m) => PathView::Mailbox(m@),
            Path::PostMaster => PathView::PostMaster,
        }
    }
}

/// The reverse path of a `MAIL FROM` command.
#[derive(Clone, Debug, PartialEq)]
pub enum ReversePath {
    /// `<person@example.org>`
    Mailbox(Mailbox),
    /// `<>`
    Null,
}

pub enum ReversePathView {
    Mailbox(MailboxView),
    Null,
}

impl View for ReversePath {
    type V = ReversePathView;

    open spec fn view(&self) -> ReversePathView {
        match self {
            ReversePath::Mailbox(m) => ReversePathView::Mailbox(m@),
            ReversePath::Null => ReversePathView::Null,
        }
    }
}

/// What is known of the text that may be an IPv6 address: nothing yet, that it
/// is none, or the address that it denotes.
#[derive(Clone, Copy, Debug, PartialEq, Eq, Structural)]
pub enum Ipv6Answer {
    Unknown,
    Invalid,
    Valid(u128),
}

/// Why a parse gave no value.
#[derive(Clone, Copy, Debug, PartialEq, Eq, Structural)]
pub enum ParseError {
    /// The input does not match the grammar.
    NoMatch,
    /// The outcome depends on whether the bytes of the input from `start` up
    /// to `end` are the text of an IPv6 address, and the answer is unknown.
    Ipv6Query { start: usize, end: usize },
}

/// The outcome of a rule at a position, as the contracts speak of it: a match
/// with its end and value, no match, or a question about the bytes from the
/// first position up to the second.
pub enum Step<T> {
    Match(int, T),
    Fail,
    Ask(int, int),
}

/// The outcome that the result of a rule's function stands for.
pub open spec fn step_of<T: View>(r: Result<(usize, T), ParseError>) -> Step<T::V> {
    match r {
        Ok((e, v)) => Step::Match(e as int, v@),
        Err(ParseError::NoMatch) => Step::Fail,
        Err(ParseError::Ipv6Query { start, end }) => Step::Ask(start as int, end as int),
    }
}

/// The outcome of a whole-input parse, as the contracts speak of it.
pub enum Outcome<T> {
    Value(T),
    NoMatch,
    Ask(int, int),
}

/// The outcome that the result of a whole-input parse stands for.
pub open spec fn outcome_of<T: View>(r: Result<T, ParseError>) -> Outcome<T::V> {
    match r {
        Ok(v) => Outcome::Value(v@),
        Err(ParseError::NoMatch) => Outcome::NoMatch,
        Err(ParseError::Ipv6Query { start, end }) => Outcome::Ask(start as int, end as int),
    }
}

/// A rule's outcome with the whole input consumed, or no match.
pub open spec fn exactly<T>(st: Step<T>, len: int) -> Outcome<T> {
    match st {
        Step::Match(e, v) => if e == len {
            Outcome::Value(v)
        } else {
            Outcome::NoMatch
        },
        Step::Fail => Outcome::NoMatch,
        Step::Ask(a, b) => Outcome::Ask(a, b),
    }
}

/// The end that an optional position stands for.
pub open spec fn end_of(r: Option<usize>) -> Option<int> {
    match r {
        Some(e) => Some(e as int),
        None => None,
    }
}

/// The end and the view that an optional match stands for.
pub open spec fn found_of<T: View>(r: Option<(usize, T)>) -> Option<(int, T::V)> {
    match r {
        Some((e, v)) => Some((e as int, v@)),
        None => None,
    }
}

} // verus!
