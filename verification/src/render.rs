//! The canonical text of each value.

use vstd::prelude::*;
use vstd::string::StringExecFns;
use vstd::std_specs::iter::IteratorSpec;
use crate::model::{
    AddressLiteral, AddressLiteralView, DomainPart, DomainPartView, IpAddress, LocalPart,
    LocalPartView, Mailbox, MailboxView,
};

verus! {

broadcast use vstd::string::group_string_axioms;

/// A character of a quoted string as it is written: `"` and `\` behind a
/// backslash, any other as it is.
pub open spec fn escaped_char(c: char) -> Seq<char> {
    if c == '"' || c == '\\' {
        seq!['\\', c]
    } else {
        seq![c]
    }
}

/// The text `t` with a backslash before each `"` and each `\`.
pub open spec fn escaped(t: Seq<char>) -> Seq<char>
    decreases t.len(),
{
    if t.len() == 0 {
        Seq::empty()
    } else {
        escaped_char(t[0]) + escaped(t.drop_first())
    }
}

/// Appends one character.
pub fn push_char(out: &mut String, c: char)
    ensures
        final(out)@ == old(out)@ + seq![c],
{
    out.push(c);
    assert(out@ =~= old(out)@ + seq![c]);
}

/// Escapes the content of a quoted local part: a backslash goes before each
/// `"` and each `\`.
pub fn quote_localpart(input: &str) -> (out: String)
    ensures
        out@ == escaped(input@),
{
    let mut out = String::new();
    let mut it = input.chars();
    let ghost mut k: int = 0;
    assert(input@.subrange(0, input@.len() as int) =~= input@);
    assert(out@ + escaped(input@) =~= escaped(input@));
    loop
        invariant
            0 <= k <= input@.len(),
            it.remaining() == input@.subrange(k, input@.len() as int),
            out@ + escaped(input@.subrange(k, input@.len() as int)) == escaped(input@),
        ensures
            out@ == escaped(input@),
        decreases input@.len() - k,
    {
        let ghost before = out@;
        let ghost rest = input@.subrange(k, input@.len() as int);
        match it.next() {
            Some(c) => {
                if c == '"' || c == '\\' {
                    out.push('\\');
                    out.push(c);
                } else {
                    out.push(c);
                }
                proof {
                    assert(c == rest[0]);
                    assert(rest.drop_first() =~= input@.subrange(k + 1, input@.len() as int));
                    assert(out@ =~= before + escaped_char(c));
                    assert((before + escaped_char(c)) + escaped(rest.drop_first()) =~= before + (
                    escaped_char(c) + escaped(rest.drop_first())));
                    k = k + 1;
                }
            },
            None => {
                proof {
                    assert(rest.len() == 0);
                    assert(out@ + Seq::<char>::empty() =~= out@);
                }
                break ;
            },
        }
    }
    out
}

/// The decimal digit `d` as a character.
pub open spec fn digit_char(d: int) -> char {
    (48 + d) as u8 as char
}

/// The decimal text of an octet, without leading zeros.
pub open spec fn decimal_text(n: u8) -> Seq<char> {
    if n >= 100 {
        seq![digit_char(n as int / 100), digit_char(n as int / 10 % 10), digit_char(n as int % 10)]
    } else if n >= 10 {
        seq![digit_char(n as int / 10), digit_char(n as int % 10)]
    } else {
        seq![digit_char(n as int)]
    }
}

/// Appends the decimal text of an octet.
pub fn push_decimal(out: &mut String, n: u8)
    ensures
        final(out)@ == old(out)@ + decimal_text(n),
{
    if n >= 100 {
        out.push((48 + n / 100) as char);
    }
    if n >= 10 {
        out.push((48 + n / 10 % 10) as char);
    }
    out.push((48 + n % 10) as char);
    assert(out@ =~= old(out)@ + decimal_text(n));
}

/// The text of a local part: an atom as it is, a quoted string between
/// double quotes with its content escaped.
pub open spec fn local_part_text(v: LocalPartView) -> Seq<char> {
    match v {
        LocalPartView::Atom(a) => a,
        LocalPartView::Quoted(q) => seq!['"'] + escaped(q) + seq!['"'],
    }
}

/// The text of an address literal between its brackets. The text of an IPv6
/// address is `v6_text`, behind `IPv6:`.
pub open spec fn address_literal_text(v: AddressLiteralView, v6_text: Seq<char>) -> Seq<char> {
    match v {
        AddressLiteralView::IpAddr(IpAddress::V4(a, b, c, d)) => seq!['['] + decimal_text(a)
            + seq!['.'] + decimal_text(b) + seq!['.'] + decimal_text(c) + seq!['.']
            + decimal_text(d) + seq![']'],
        AddressLiteralView::IpAddr(IpAddress::V6(_)) => seq!['['] + seq!['I', 'P', 'v', '6', ':']
            + v6_text + seq![']'],
        AddressLiteralView::Tagged(t, value) => seq!['['] + t + seq![':'] + value + seq![']'],
        AddressLiteralView::FreeForm(value) => seq!['['] + value + seq![']'],
    }
}

/// The text of a domain part: a domain as it is, or the text of the literal.
pub open spec fn domain_part_text(v: DomainPartView, v6_text: Seq<char>) -> Seq<char> {
    match v {
        DomainPartView::Domain(d) => d,
        DomainPartView::AddressLiteral(lit) => address_literal_text(lit, v6_text),
    }
}

/// `local@domain`
pub open spec fn mailbox_text(v: MailboxView, v6_text: Seq<char>) -> Seq<char> {
    local_part_text(v.local) + seq!['@'] + domain_part_text(v.domain, v6_text)
}

impl LocalPart {
    /// The canonical text of this local part.
    pub fn to_text(&self) -> (out: String)
        ensures
            out@ == local_part_text(self@),
    {
        match self {
            LocalPart::Atom(a) => a.clone(),
            LocalPart::Quoted(q) => {
                let mut out = String::new();
                push_char(&mut out, '"');
                let body = quote_localpart(q.as_str());
                out.append(body.as_str());
                push_char(&mut out, '"');
                assert(out@ =~= local_part_text(self@));
                out
            },
        }
    }
}

impl AddressLiteral {
    /// The canonical text of this literal, brackets included. `v6_text` is
    /// the canonical text of the address where this is an IPv6 address, and is
    /// not read where it is none.
    pub fn to_text(&self, v6_text: &str) -> (out: String)
        ensures
            out@ == address_literal_text(self@, v6_text@),
    {
        let mut out = String::new();
        push_char(&mut out, '[');
        match self {
            AddressLiteral::IpAddr(IpAddress::V4(a, b, c, d)) => {
                push_decimal(&mut out, *a);
                push_char(&mut out, '.');
                push_decimal(&mut out, *b);
                push_char(&mut out, '.');
                push_decimal(&mut out, *c);
                push_char(&mut out, '.');
                push_decimal(&mut out, *d);
            },
            AddressLiteral::IpAddr(IpAddress::V6(_)) => {
                push_char(&mut out, 'I');
                push_char(&mut out, 'P');
                push_char(&mut out, 'v');
                push_char(&mut out, '6');
                push_char(&mut out, ':');
                out.append(v6_text);
            },
            AddressLiteral::Tagged(t, value) => {
                out.append(t.as_str());
                push_char(&mut out, ':');
                out.append(value.as_str());
            },
            AddressLiteral::FreeForm(value) => {
                out.append(value.as_str());
            },
        }
        push_char(&mut out, ']');
        assert(out@ =~= address_literal_text(self@, v6_text@));
        out
    }
}

impl DomainPart {
    /// The canonical text of this domain part; `v6_text` as for a literal.
    pub fn to_text(&self, v6_text: &str) -> (out: String)
        ensures
            out@ == domain_part_text(self@, v6_text@),
    {
        match self {
            DomainPart::Domain(d) => d.clone(),
            DomainPart::AddressLiteral(lit) => lit.to_text(v6_text),
        }
    }
}

impl Mailbox {
    /// The canonical text of this mailbox; `v6_text` as for a literal.
    pub fn to_text(&self, v6_text: &str) -> (out: String)
        ensures
            out@ == mailbox_text(self@, v6_text@),
    {
        let mut out = self.0.to_text();
        push_char(&mut out, '@');
        let dom = self.1.to_text(v6_text);
        out.append(dom.as_str());
        out
    }
}

} // verus!
