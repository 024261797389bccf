//! The grammar, as functions from an input and a position to the outcome of
//! each rule there. Alternatives are ordered and repetitions are greedy: a rule
//! that has matched is not tried again in another way.

use vstd::prelude::*;
use crate::classes::{ByteClass, is_alnum, is_qtext, is_escapable, run_end};
use crate::text::slice_text;
use crate::model::{
    AddressLiteralView, DomainPartView, EsmtpParamView, IpAddress, Ipv6Answer, LocalPartView,
    MailboxView, PathView, ReversePathView, Step,
};

verus! {

/// The byte `c` stands at position `i`.
pub open spec fn byte_at(s: Seq<u8>, i: int, c: u8) -> bool {
    0 <= i < s.len() && s[i] == c
}

/// An upper-case ASCII letter as its lower-case form, any other byte as it is.
pub open spec fn fold_case(c: u8) -> u8 {
    if 65 <= c <= 90 {
        (c + 32) as u8
    } else {
        c
    }
}

/// The lower-case text `t` stands at position `i`, in any mix of cases.
pub open spec fn tag_at(s: Seq<u8>, i: int, t: Seq<char>) -> bool {
    &&& 0 <= i
    &&& i + t.len() <= s.len()
    &&& forall|j: int| 0 <= j < t.len() ==> (#[trigger] fold_case(s[i + j])) as char == t[j]
}

/// `keyword ["=" value]`
pub open spec fn spec_esmtp_param(s: Seq<u8>, i: int) -> Option<(int, EsmtpParamView)> {
    let k = run_end(s, i, ByteClass::Alnum);
    let v = run_end(s, k + 1, ByteClass::EsmtpValue);
    if k <= i {
        None
    } else if byte_at(s, k, 61) && v > k + 1 {
        Some((v, EsmtpParamView { name: slice_text(s, i, k), value: Some(slice_text(s, k + 1, v)) }))
    } else {
        Some((k, EsmtpParamView { name: slice_text(s, i, k), value: None }))
    }
}

/// Zero or more `wsp+ param`: where they end, and the parameters in order.
pub open spec fn spec_params_rest(s: Seq<u8>, i: int) -> (int, Seq<EsmtpParamView>)
    decreases s.len() - i,
{
    let w = run_end(s, i, ByteClass::Wsp);
    if 0 <= i < w {
        match spec_esmtp_param(s, w) {
            Some((e, p)) => if w < e <= s.len() {
                let rest = spec_params_rest(s, e);
                (rest.0, seq![p] + rest.1)
            } else {
                (i, Seq::empty())
            },
            None => (i, Seq::empty()),
        }
    } else {
        (i, Seq::empty())
    }
}

/// `param (wsp+ param)*`
pub open spec fn spec_esmtp_params(s: Seq<u8>, i: int) -> Option<(int, Seq<EsmtpParamView>)> {
    match spec_esmtp_param(s, i) {
        Some((e, p)) => {
            let rest = spec_params_rest(s, e);
            Some((rest.0, seq![p] + rest.1))
        },
        None => None,
    }
}

/// `[" " params]`: the parameters, and the empty list where there are none.
pub open spec fn spec_opt_params(s: Seq<u8>, i: int) -> (int, Seq<EsmtpParamView>) {
    if byte_at(s, i, 32) && spec_esmtp_params(s, i + 1) is Some {
        spec_esmtp_params(s, i + 1)->0
    } else {
        (i, Seq::empty())
    }
}

/// A run of letters, digits and hyphens that does not end in a hyphen.
pub open spec fn spec_ldh_str(s: Seq<u8>, i: int) -> Option<int> {
    let e = run_end(s, i, ByteClass::Ldh);
    if 0 <= i < e && s[e - 1] != 45 {
        Some(e)
    } else {
        None
    }
}

/// A label: a letter or digit, then such a run where one follows.
pub open spec fn spec_sub_domain(s: Seq<u8>, i: int) -> Option<int> {
    if 0 <= i < s.len() && is_alnum(s[i]) {
        match spec_ldh_str(s, i + 1) {
            Some(e) => Some(e),
            None => Some(i + 1),
        }
    } else {
        None
    }
}

/// Zero or more `"." label`.
pub open spec fn spec_labels_rest(s: Seq<u8>, i: int) -> int
    decreases s.len() - i,
{
    if byte_at(s, i, 46) {
        match spec_sub_domain(s, i + 1) {
            Some(e) => if i < e <= s.len() {
                spec_labels_rest(s, e)
            } else {
                i
            },
            None => i,
        }
    } else {
        i
    }
}

/// `label ("." label)*`
pub open spec fn spec_domain(s: Seq<u8>, i: int) -> Option<int> {
    match spec_sub_domain(s, i) {
        Some(e) => Some(spec_labels_rest(s, e)),
        None => None,
    }
}

/// `"@" domain`
pub open spec fn spec_at_domain(s: Seq<u8>, i: int) -> Option<int> {
    if byte_at(s, i, 64) {
        spec_domain(s, i + 1)
    } else {
        None
    }
}

/// Zero or more `"," "@" domain`.
pub open spec fn spec_route_rest(s: Seq<u8>, i: int) -> int
    decreases s.len() - i,
{
    if byte_at(s, i, 44) {
        match spec_at_domain(s, i + 1) {
            Some(e) => if i < e <= s.len() {
                spec_route_rest(s, e)
            } else {
                i
            },
            None => i,
        }
    } else {
        i
    }
}

/// A source route: `"@" domain ("," "@" domain)*`
pub open spec fn spec_a_d_l(s: Seq<u8>, i: int) -> Option<int> {
    match spec_at_domain(s, i) {
        Some(e) => Some(spec_route_rest(s, e)),
        None => None,
    }
}

/// A non-empty run of atom text.
pub open spec fn spec_atom(s: Seq<u8>, i: int) -> Option<int> {
    let e = run_end(s, i, ByteClass::Atext);
    if 0 <= i < e {
        Some(e)
    } else {
        None
    }
}

/// Zero or more `"." atom`.
pub open spec fn spec_atoms_rest(s: Seq<u8>, i: int) -> int
    decreases s.len() - i,
{
    if byte_at(s, i, 46) {
        match spec_atom(s, i + 1) {
            Some(e) => if i < e <= s.len() {
                spec_atoms_rest(s, e)
            } else {
                i
            },
            None => i,
        }
    } else {
        i
    }
}

/// `atom ("." atom)*`
pub open spec fn spec_dot_string(s: Seq<u8>, i: int) -> Option<int> {
    match spec_atom(s, i) {
        Some(e) => Some(spec_atoms_rest(s, e)),
        None => None,
    }
}

/// Zero or more of a plain byte of quoted text or a backslash with the byte
/// that it escapes: where they end, and the text without the backslashes.
pub open spec fn spec_qcontent_rest(s: Seq<u8>, i: int) -> (int, Seq<char>)
    decreases s.len() - i,
{
    if 0 <= i < s.len() && is_qtext(s[i]) {
        let rest = spec_qcontent_rest(s, i + 1);
        (rest.0, seq![s[i] as char] + rest.1)
    } else if byte_at(s, i, 92) && i + 1 < s.len() && is_escapable(s[i + 1]) {
        let rest = spec_qcontent_rest(s, i + 2);
        (rest.0, seq![s[i + 1] as char] + rest.1)
    } else {
        (i, Seq::empty())
    }
}

/// `'"' content '"'`, with the unescaped content.
pub open spec fn spec_quoted_string(s: Seq<u8>, i: int) -> Option<(int, Seq<char>)> {
    let body = spec_qcontent_rest(s, i + 1);
    if byte_at(s, i, 34) && byte_at(s, body.0, 34) {
        Some((body.0 + 1, body.1))
    } else {
        None
    }
}

/// A dot string, or else a quoted string.
pub open spec fn spec_local_part(s: Seq<u8>, i: int) -> Option<(int, LocalPartView)> {
    match spec_dot_string(s, i) {
        Some(e) => Some((e, LocalPartView::Atom(slice_text(s, i, e)))),
        None => match spec_quoted_string(s, i) {
            Some((e, q)) => Some((e, LocalPartView::Quoted(q))),
            None => None,
        },
    }
}

/// The number that the decimal digits from `i` up to `e` denote.
pub open spec fn decimal_value(s: Seq<u8>, i: int, e: int) -> int
    decreases e - i,
{
    if e <= i {
        0
    } else {
        decimal_value(s, i, e - 1) * 10 + (s[e - 1] - 48)
    }
}

/// Where the digits of an octet end: after the third digit at the latest.
pub open spec fn octet_end(s: Seq<u8>, i: int) -> int {
    let e = run_end(s, i, ByteClass::Digit);
    if e > i + 3 {
        i + 3
    } else {
        e
    }
}

/// One to three decimal digits that denote a number up to 255.
pub open spec fn spec_ip_int(s: Seq<u8>, i: int) -> Option<(int, u8)> {
    let e = octet_end(s, i);
    if 0 <= i < e && decimal_value(s, i, e) <= 255 {
        Some((e, decimal_value(s, i, e) as u8))
    } else {
        None
    }
}

/// `"." octet`
pub open spec fn spec_dot_octet(s: Seq<u8>, i: int) -> Option<(int, u8)> {
    if byte_at(s, i, 46) {
        spec_ip_int(s, i + 1)
    } else {
        None
    }
}

/// Four octets joined by dots.
pub open spec fn spec_ipv4_literal(s: Seq<u8>, i: int) -> Option<(int, IpAddress)> {
    match spec_ip_int(s, i) {
        Some((e1, a)) => match spec_dot_octet(s, e1) {
            Some((e2, b)) => match spec_dot_octet(s, e2) {
                Some((e3, c)) => match spec_dot_octet(s, e3) {
                    Some((e4, d)) => Some((e4, IpAddress::V4(a, b, c, d))),
                    None => None,
                },
                None => None,
            },
            None => None,
        },
        None => None,
    }
}

/// `IPv6:` in any case, then a non-empty run of hexadecimal digits, colons
/// and dots: a match with the address where `v6` gives one, no match where
/// `v6` says the run is no address, and a question about the run where `v6`
/// knows nothing.
pub open spec fn spec_ipv6_literal(s: Seq<u8>, i: int, v6: Ipv6Answer) -> Step<IpAddress> {
    let start = i + "ipv6:"@.len();
    let e = run_end(s, start, ByteClass::Ipv6Text);
    if tag_at(s, i, "ipv6:"@) && e > start {
        match v6 {
            Ipv6Answer::Unknown => Step::Ask(start, e),
            Ipv6Answer::Invalid => Step::Fail,
            Ipv6Answer::Valid(bits) => Step::Match(e, IpAddress::V6(bits)),
        }
    } else {
        Step::Fail
    }
}

/// `tag ":" content`
pub open spec fn spec_general_address_literal(s: Seq<u8>, i: int) -> Option<
    (int, AddressLiteralView),
> {
    match spec_ldh_str(s, i) {
        Some(t) => {
            let e = run_end(s, t + 1, ByteClass::Dcontent);
            if byte_at(s, t, 58) && e > t + 1 {
                Some((e, AddressLiteralView::Tagged(slice_text(s, i, t), slice_text(s, t + 1, e))))
            } else {
                None
            }
        },
        None => None,
    }
}

/// What stands between the brackets of an address literal: an IPv4 address,
/// or else an IPv6 address, or else a tagged literal.
pub open spec fn spec_inner_address_literal(s: Seq<u8>, i: int, v6: Ipv6Answer) -> Step<
    AddressLiteralView,
> {
    match spec_ipv4_literal(s, i) {
        Some((e, ip)) => Step::Match(e, AddressLiteralView::IpAddr(ip)),
        None => match spec_ipv6_literal(s, i, v6) {
            Step::Match(e, ip) => Step::Match(e, AddressLiteralView::IpAddr(ip)),
            Step::Ask(a, b) => Step::Ask(a, b),
            Step::Fail => match spec_general_address_literal(s, i) {
                Some((e, lit)) => Step::Match(e, lit),
                None => Step::Fail,
            },
        },
    }
}

/// `"[" inner "]"`
pub open spec fn spec_address_literal(s: Seq<u8>, i: int, v6: Ipv6Answer) -> Step<
    AddressLiteralView,
> {
    if byte_at(s, i, 91) {
        match spec_inner_address_literal(s, i + 1, v6) {
            Step::Match(e, lit) => if byte_at(s, e, 93) {
                Step::Match(e + 1, lit)
            } else {
                Step::Fail
            },
            Step::Ask(a, b) => Step::Ask(a, b),
            Step::Fail => Step::Fail,
        }
    } else {
        Step::Fail
    }
}

/// A domain, or else an address literal.
pub open spec fn spec_domain_part(s: Seq<u8>, i: int, v6: Ipv6Answer) -> Step<DomainPartView> {
    match spec_domain(s, i) {
        Some(e) => Step::Match(e, DomainPartView::Domain(slice_text(s, i, e))),
        None => match spec_address_literal(s, i, v6) {
            Step::Match(e, lit) => Step::Match(e, DomainPartView::AddressLiteral(lit)),
            Step::Ask(a, b) => Step::Ask(a, b),
            Step::Fail => Step::Fail,
        },
    }
}

/// `local-part "@" domain-part`
pub open spec fn spec_mailbox(s: Seq<u8>, i: int, v6: Ipv6Answer) -> Step<MailboxView> {
    match spec_local_part(s, i) {
        Some((l, local)) => if byte_at(s, l, 64) {
            match spec_domain_part(s, l + 1, v6) {
                Step::Match(e, domain) => Step::Match(e, MailboxView { local, domain }),
                Step::Ask(a, b) => Step::Ask(a, b),
                Step::Fail => Step::Fail,
            }
        } else {
            Step::Fail
        },
        None => Step::Fail,
    }
}

/// Where the mailbox of a path starts: after a source route and its colon,
/// or at once where there is none.
pub open spec fn spec_route_skip(s: Seq<u8>, i: int) -> int {
    match spec_a_d_l(s, i) {
        Some(r) => if byte_at(s, r, 58) {
            r + 1
        } else {
            i
        },
        None => i,
    }
}

/// `"<" [source-route ":"] mailbox ">"`
pub open spec fn spec_path(s: Seq<u8>, i: int, v6: Ipv6Answer) -> Step<MailboxView> {
    if byte_at(s, i, 60) {
        match spec_mailbox(s, spec_route_skip(s, i + 1), v6) {
            Step::Match(e, m) => if byte_at(s, e, 62) {
                Step::Match(e + 1, m)
            } else {
                Step::Fail
            },
            Step::Ask(a, b) => Step::Ask(a, b),
            Step::Fail => Step::Fail,
        }
    } else {
        Step::Fail
    }
}

/// A path, or else `<>`.
pub open spec fn spec_reverse_path(s: Seq<u8>, i: int, v6: Ipv6Answer) -> Step<ReversePathView> {
    match spec_path(s, i, v6) {
        Step::Match(e, m) => Step::Match(e, ReversePathView::Mailbox(m)),
        Step::Ask(a, b) => Step::Ask(a, b),
        Step::Fail => if byte_at(s, i, 60) && byte_at(s, i + 1, 62) {
            Step::Match(i + 2, ReversePathView::Null)
        } else {
            Step::Fail
        },
    }
}

/// `<postmaster>` in any case, or else a path.
pub open spec fn spec_forward_path(s: Seq<u8>, i: int, v6: Ipv6Answer) -> Step<PathView> {
    if tag_at(s, i, "<postmaster>"@) {
        Step::Match(i + "<postmaster>"@.len(), PathView::PostMaster)
    } else {
        match spec_path(s, i, v6) {
            Step::Match(e, m) => Step::Match(e, PathView::Mailbox(m)),
            Step::Ask(a, b) => Step::Ask(a, b),
            Step::Fail => Step::Fail,
        }
    }
}

} // verus!
