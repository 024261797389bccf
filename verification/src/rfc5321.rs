//! The entry points: whole-input parsers for the two envelope commands, for a
//! mailbox and for an address literal.
//!
//! Whether a run of hexadecimal digits, colons and dots is the text of an
//! IPv6 address is not decided here. A parse that depends on it returns
//! [`ParseError::Ipv6Query`] with the place of the run; the caller has the
//! run parsed and calls again with the answer.

use vstd::prelude::*;
use vstd::string::StrSliceExecFns;
use vstd::utf8::encode_utf8;
use crate::model::{exactly, outcome_of, params_view, Outcome, Step};
use crate::parser::{
    address_literal, forward_path, inner_address_literal, mailbox, opt_params, reverse_path,
    tag_no_case,
};
use crate::syntax::{
    spec_address_literal, spec_forward_path, spec_inner_address_literal, spec_mailbox,
    spec_opt_params, spec_reverse_path, tag_at,
};
pub use crate::model::{
    AddressLiteral, DomainPart, EsmtpParam, IpAddress, Ipv6Answer, LocalPart, Mailbox, ParseError,
    Path, ReversePath,
};
pub use crate::render::quote_localpart;
use crate::model::{AddressLiteralView, EsmtpParamView, PathView, ReversePathView};
use crate::shape::{law_values_well_formed, params_wf};

verus! {

/// `"MAIL FROM:" reverse-path [" " params]`, the keyword in any case.
pub open spec fn spec_mail_command(s: Seq<u8>, v6: Ipv6Answer) -> Step<
    (ReversePathView, Seq<EsmtpParamView>),
> {
    if tag_at(s, 0, "mail from:"@) {
        match spec_reverse_path(s, "mail from:"@.len() as int, v6) {
            Step::Match(e, p) => {
                let tail = spec_opt_params(s, e);
                Step::Match(tail.0, (p, tail.1))
            },
            Step::Ask(a, b) => Step::Ask(a, b),
            Step::Fail => Step::Fail,
        }
    } else {
        Step::Fail
    }
}

/// `"RCPT TO:" forward-path [" " params]`, the keyword in any case.
pub open spec fn spec_rcpt_command(s: Seq<u8>, v6: Ipv6Answer) -> Step<
    (PathView, Seq<EsmtpParamView>),
> {
    if tag_at(s, 0, "rcpt to:"@) {
        match spec_forward_path(s, "rcpt to:"@.len() as int, v6) {
            Step::Match(e, p) => {
                let tail = spec_opt_params(s, e);
                Step::Match(tail.0, (p, tail.1))
            },
            Step::Ask(a, b) => Step::Ask(a, b),
            Step::Fail => Step::Fail,
        }
    } else {
        Step::Fail
    }
}

/// Parses a whole `MAIL FROM` command: the reverse path and the parameters in
/// the order of the input, the empty list where there are none. Input that
/// is left over is no match.
pub fn mail_command(i: &[u8], v6: Ipv6Answer) -> (r: Result<
    (ReversePath, Vec<EsmtpParam>),
    ParseError,
>)
    ensures
        match r {
            Ok((p, params)) => exactly(spec_mail_command(i@, v6), i@.len() as int)
                == Outcome::Value((p@, params_view(params@))),
            Err(ParseError::NoMatch) => exactly(spec_mail_command(i@, v6), i@.len() as int)
                == Outcome::<(ReversePathView, Seq<EsmtpParamView>)>::NoMatch,
            Err(ParseError::Ipv6Query { start, end }) => exactly(
                spec_mail_command(i@, v6),
                i@.len() as int,
            ) == Outcome::<(ReversePathView, Seq<EsmtpParamView>)>::Ask(start as int, end as int),
        },
        v6 != Ipv6Answer::Unknown ==> !(r matches Err(ParseError::Ipv6Query { .. })),
        r matches Ok((p, params)) ==> p@.wf() && params_wf(params_view(params@)),
{
    let keyword = "mail from:";
    if !tag_no_case(i, 0, keyword) {
        return Err(ParseError::NoMatch);
    }
    match reverse_path(i, keyword.unicode_len(), v6) {
        Ok((e, p)) => {
            proof {
                law_values_well_formed(i@, keyword@.len() as int, v6);
                law_values_well_formed(i@, e as int, v6);
            }
            let (end, params) = opt_params(i, e);
            if end == i.len() {
                Ok((p, params))
            } else {
                Err(ParseError::NoMatch)
            }
        },
        Err(err) => Err(err),
    }
}

/// Parses a whole `RCPT TO` command: the forward path and the parameters in
/// the order of the input, the empty list where there are none. Input that
/// is left over is no match.
pub fn rcpt_command(i: &[u8], v6: Ipv6Answer) -> (r: Result<(Path, Vec<EsmtpParam>), ParseError>)
    ensures
        match r {
            Ok((p, params)) => exactly(spec_rcpt_command(i@, v6), i@.len() as int)
                == Outcome::Value((p@, params_view(params@))),
            Err(ParseError::NoMatch) => exactly(spec_rcpt_command(i@, v6), i@.len() as int)
                == Outcome::<(PathView, Seq<EsmtpParamView>)>::NoMatch,
            Err(ParseError::Ipv6Query { start, end }) => exactly(
                spec_rcpt_command(i@, v6),
                i@.len() as int,
            ) == Outcome::<(PathView, Seq<EsmtpParamView>)>::Ask(start as int, end as int),
        },
        v6 != Ipv6Answer::Unknown ==> !(r matches Err(ParseError::Ipv6Query { .. })),
        r matches Ok((p, params)) ==> p@.wf() && params_wf(params_view(params@)),
{
    let keyword = "rcpt to:";
    if !tag_no_case(i, 0, keyword) {
        return Err(ParseError::NoMatch);
    }
    match forward_path(i, keyword.unicode_len(), v6) {
        Ok((e, p)) => {
            proof {
                law_values_well_formed(i@, keyword@.len() as int, v6);
                law_values_well_formed(i@, e as int, v6);
            }
            let (end, params) = opt_params(i, e);
            if end == i.len() {
                Ok((p, params))
            } else {
                Err(ParseError::NoMatch)
            }
        },
        Err(err) => Err(err),
    }
}

/// Whether the whole of `s` is a mailbox, or the question that decides it.
pub open spec fn spec_validate_address(s: Seq<u8>, v6: Ipv6Answer) -> Result<bool, ParseError> {
    match exactly(spec_mailbox(s, 0, v6), s.len() as int) {
        Outcome::Value(_) => Ok(true),
        Outcome::NoMatch => Ok(false),
        Outcome::Ask(a, b) => Err(ParseError::Ipv6Query { start: a as usize, end: b as usize }),
    }
}

/// Validates an address: `Ok(true)` where the whole input is a mailbox,
/// `Ok(false)` where it is not, and the question where the answer is needed
/// and `v6` is unknown. The empty input is no address.
pub fn validate_address(i: &[u8], v6: Ipv6Answer) -> (r: Result<bool, ParseError>)
    ensures
        r == spec_validate_address(i@, v6),
        r == Ok::<bool, ParseError>(true) <==> exactly(spec_mailbox(i@, 0, v6), i@.len() as int)
            is Value,
        i@.len() == 0 ==> r == Ok::<bool, ParseError>(false),
        v6 != Ipv6Answer::Unknown ==> r is Ok,
{
    match mailbox(i, 0, v6) {
        Ok((e, _)) => Ok(e == i.len()),
        Err(ParseError::NoMatch) => Ok(false),
        Err(ParseError::Ipv6Query { start, end }) => Err(ParseError::Ipv6Query { start, end }),
    }
}

/// The literal that a text between brackets denotes: what the formal shapes
/// give where one of them matches all that stands between the brackets, else
/// that text kept as it is.
pub open spec fn spec_literal_from_text(t: Seq<char>, v6: Ipv6Answer) -> Outcome<
    AddressLiteralView,
> {
    let s = encode_utf8(t);
    match exactly(spec_address_literal(s, 0, v6), s.len() as int) {
        Outcome::Value(v) => Outcome::Value(v),
        Outcome::Ask(a, b) => Outcome::Ask(a, b),
        Outcome::NoMatch => if t.len() >= 2 && t[0] == '[' && t[t.len() - 1] == ']' {
            Outcome::Value(AddressLiteralView::FreeForm(t.subrange(1, t.len() - 1)))
        } else {
            Outcome::NoMatch
        },
    }
}

/// What the formal shapes make of the text of a free-form literal, all of it
/// consumed; no match for a literal of another kind.
pub open spec fn spec_upgrade(lit: AddressLiteralView, v6: Ipv6Answer) -> Outcome<
    AddressLiteralView,
> {
    match lit {
        AddressLiteralView::FreeForm(t) => exactly(
            spec_inner_address_literal(encode_utf8(t), 0, v6),
            encode_utf8(t).len() as int,
        ),
        _ => Outcome::NoMatch,
    }
}

impl AddressLiteral {
    /// Tries to turn a free-form literal into one of the formal kinds. The
    /// receiver is left as it is.
    pub fn upgrade(&self, v6: Ipv6Answer) -> (r: Result<AddressLiteral, ParseError>)
        ensures
            outcome_of(r) == spec_upgrade(self@, v6),
            v6 != Ipv6Answer::Unknown ==> !(r matches Err(ParseError::Ipv6Query { .. })),
            r matches Ok(lit) ==> lit@.wf() && !(lit@ is FreeForm),
    {
        match self {
            AddressLiteral::FreeForm(t) => {
                let bytes = t.as_str().as_bytes();
                proof {
                    law_values_well_formed(bytes@, 0, v6);
                }
                match inner_address_literal(bytes, 0, v6) {
                    Ok((e, lit)) => if e == bytes.len() {
                        Ok(lit)
                    } else {
                        Err(ParseError::NoMatch)
                    },
                    Err(err) => Err(err),
                }
            },
            _ => Err(ParseError::NoMatch),
        }
    }

    /// Parses a whole address literal, brackets included.
    pub fn from_str(s: &str, v6: Ipv6Answer) -> (r: Result<AddressLiteral, ParseError>)
        ensures
            outcome_of(r) == spec_literal_from_text(s@, v6),
            v6 != Ipv6Answer::Unknown ==> !(r matches Err(ParseError::Ipv6Query { .. })),
            r matches Ok(lit) ==> lit@.wf(),
    {
        let bytes = s.as_bytes();
        proof {
            law_values_well_formed(bytes@, 0, v6);
        }
        match address_literal(bytes, 0, v6) {
            Ok((e, lit)) => if e == bytes.len() {
                return Ok(lit);
            },
            Err(ParseError::Ipv6Query { start, end }) => {
                return Err(ParseError::Ipv6Query { start, end });
            },
            Err(ParseError::NoMatch) => {},
        }
        let n = s.unicode_len();
        if n >= 2 && s.get_char(0) == '[' && s.get_char(n - 1) == ']' {
            Ok(AddressLiteral::FreeForm(s.substring_char(1, n - 1).to_owned()))
        } else {
            Err(ParseError::NoMatch)
        }
    }
}

} // verus!
