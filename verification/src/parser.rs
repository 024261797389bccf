//! The rules of the grammar as functions on a byte slice and a position.

use vstd::prelude::*;
use vstd::string::StrSliceExecFns;
use crate::classes::{
    class_has, escapable_byte, is_decimal, lemma_run_end, qtext_byte, scan, ByteClass,
};
use crate::text::text_of;
use crate::shape::{
    lemma_atoms_text, lemma_domain, lemma_dot_string, lemma_labels_text, lemma_run_ascii,
};
use crate::model::{
    end_of, found_of, params_view, step_of, AddressLiteral, DomainPart, EsmtpParam,
    EsmtpParamView, IpAddress, Ipv6Answer, LocalPart, Mailbox, ParseError, Path, ReversePath,
};
use crate::syntax::{
    decimal_value, fold_case, spec_a_d_l, spec_address_literal, spec_at_domain, spec_atom,
    spec_atoms_rest, spec_domain, spec_domain_part, spec_dot_octet, spec_dot_string,
    spec_esmtp_param, spec_esmtp_params, spec_forward_path, spec_general_address_literal,
    spec_inner_address_literal, spec_ip_int, spec_ipv4_literal, spec_ipv6_literal,
    spec_labels_rest, spec_ldh_str, spec_local_part, spec_mailbox, spec_opt_params,
    spec_params_rest, spec_path, spec_qcontent_rest, spec_quoted_string, spec_reverse_path,
    spec_route_rest, spec_route_skip, spec_sub_domain, tag_at,
};

verus! {

/// Whether the lower-case text `t` stands at position `i`, in any mix of cases.
pub fn tag_no_case(s: &[u8], i: usize, t: &str) -> (b: bool)
    requires
        i <= s.len(),
    ensures
        b == tag_at(s@, i as int, t@),
{
    let n = t.unicode_len();
    if n > s.len() - i {
        return false;
    }
    let mut j: usize = 0;
    while j < n
        invariant
            i + n <= s.len(),
            n == t@.len(),
            j <= n,
            forall|m: int| 0 <= m < j ==> (#[trigger] fold_case(s@[i + m])) as char == t@[m],
        decreases n - j,
    {
        let c = s[i + j];
        let folded: u8 = if 65 <= c && c <= 90 {
            c + 32
        } else {
            c
        };
        if folded as char != t.get_char(j) {
            assert(fold_case(s@[i + j]) as char != t@[j as int]);
            return false;
        }
        j = j + 1;
    }
    true
}

/// Matches `keyword ["=" value]` at `i`.
pub fn esmtp_param(s: &[u8], i: usize) -> (r: Option<(usize, EsmtpParam)>)
    requires
        i <= s.len(),
    ensures
        found_of(r) == spec_esmtp_param(s@, i as int),
        r matches Some((e, _)) ==> i < e <= s.len(),
{
    let k = scan(s, i, ByteClass::Alnum);
    if k <= i {
        return None;
    }
    proof {
        lemma_run_ascii(s@, i as int, ByteClass::Alnum);
    }
    let name = text_of(s, i, k);
    if k < s.len() && s[k] == 61 {
        let v = scan(s, k + 1, ByteClass::EsmtpValue);
        if v > k + 1 {
            proof {
                lemma_run_ascii(s@, k + 1, ByteClass::EsmtpValue);
            }
            let value = text_of(s, k + 1, v);
            return Some((v, EsmtpParam(name, Some(value))));
        }
    }
    Some((k, EsmtpParam(name, None)))
}

/// Matches `param (wsp+ param)*` at `i`: the parameters in the order of the input.
pub fn esmtp_params(s: &[u8], i: usize) -> (r: Option<(usize, Vec<EsmtpParam>)>)
    requires
        i <= s.len(),
    ensures
        match r {
            Some((e, v)) => spec_esmtp_params(s@, i as int) == Some((e as int, params_view(v@)))
                && i < e <= s.len() && v@.len() >= 1,
            None => spec_esmtp_params(s@, i as int) is None,
        },
{
    match esmtp_param(s, i) {
        None => None,
        Some((first, p)) => {
            let ghost head = p@;
            let mut out: Vec<EsmtpParam> = Vec::new();
            out.push(p);
            assert(params_view(out@) =~= seq![head]);
            let mut e: usize = first;
            loop
                invariant
                    i < first <= e <= s.len(),
                    out@.len() >= 1,
                    spec_esmtp_param(s@, i as int) == Some((first as int, head)),
                    spec_params_rest(s@, first as int).0 == spec_params_rest(s@, e as int).0,
                    seq![head] + spec_params_rest(s@, first as int).1 == params_view(out@)
                        + spec_params_rest(s@, e as int).1,
                ensures
                    i < e <= s.len(),
                    out@.len() >= 1,
                    spec_esmtp_params(s@, i as int) == Some((e as int, params_view(out@))),
                decreases s.len() - e,
            {
                let w = scan(s, e, ByteClass::Wsp);
                let next = if w > e {
                    esmtp_param(s, w)
                } else {
                    None
                };
                match next {
                    Some((n, q)) => {
                        let ghost before = params_view(out@);
                        let ghost qv = q@;
                        out.push(q);
                        proof {
                            assert(params_view(out@) =~= before + seq![qv]);
                            assert((before + seq![qv]) + spec_params_rest(s@, n as int).1
                                =~= before + (seq![qv] + spec_params_rest(s@, n as int).1));
                        }
                        e = n;
                    },
                    None => {
                        proof {
                            assert(spec_params_rest(s@, e as int).1 =~= Seq::empty());
                            assert(params_view(out@) + Seq::<EsmtpParamView>::empty()
                                =~= params_view(out@));
                        }
                        break ;
                    },
                }
            }
            Some((e, out))
        },
    }
}

/// The parameters after a space, or the empty list where none follow.
pub fn opt_params(s: &[u8], i: usize) -> (r: (usize, Vec<EsmtpParam>))
    requires
        i <= s.len(),
    ensures
        spec_opt_params(s@, i as int) == (r.0 as int, params_view(r.1@)),
        i <= r.0 <= s.len(),
{
    if i < s.len() && s[i] == 32 {
        match esmtp_params(s, i + 1) {
            Some((e, v)) => {
                return (e, v);
            },
            None => {},
        }
    }
    let none: Vec<EsmtpParam> = Vec::new();
    assert(params_view(none@) =~= Seq::empty());
    (i, none)
}

/// Matches a run of letters, digits and hyphens that does not end in a hyphen.
pub fn ldh_str(s: &[u8], i: usize) -> (r: Option<usize>)
    requires
        i <= s.len(),
    ensures
        end_of(r) == spec_ldh_str(s@, i as int),
        r matches Some(e) ==> i < e <= s.len(),
{
    let e = scan(s, i, ByteClass::Ldh);
    if e > i && s[e - 1] != 45 {
        Some(e)
    } else {
        None
    }
}

/// Matches one label of a domain.
pub fn sub_domain(s: &[u8], i: usize) -> (r: Option<usize>)
    requires
        i <= s.len(),
    ensures
        end_of(r) == spec_sub_domain(s@, i as int),
        r matches Some(e) ==> i < e <= s.len(),
{
    if i < s.len() && class_has(ByteClass::Alnum, s[i]) {
        match ldh_str(s, i + 1) {
            Some(e) => Some(e),
            None => Some(i + 1),
        }
    } else {
        None
    }
}

/// Matches `label ("." label)*` at `i` and returns where the domain ends.
pub fn domain(s: &[u8], i: usize) -> (r: Option<usize>)
    requires
        i <= s.len(),
    ensures
        end_of(r) == spec_domain(s@, i as int),
        r matches Some(e) ==> i < e <= s.len(),
{
    match sub_domain(s, i) {
        None => None,
        Some(first) => {
            let mut e: usize = first;
            loop
                invariant
                    i < first <= e <= s.len(),
                    spec_labels_rest(s@, first as int) == spec_labels_rest(s@, e as int),
                ensures
                    i < e <= s.len(),
                    spec_labels_rest(s@, first as int) == e,
                decreases s.len() - e,
            {
                let next = if e < s.len() && s[e] == 46 {
                    sub_domain(s, e + 1)
                } else {
                    None
                };
                match next {
                    Some(n) => {
                        e = n;
                    },
                    None => {
                        break ;
                    },
                }
            }
            Some(e)
        },
    }
}

/// Matches `"@" domain` at `i`.
pub fn at_domain(s: &[u8], i: usize) -> (r: Option<usize>)
    requires
        i <= s.len(),
    ensures
        end_of(r) == spec_at_domain(s@, i as int),
        r matches Some(e) ==> i < e <= s.len(),
{
    if i < s.len() && s[i] == 64 {
        domain(s, i + 1)
    } else {
        None
    }
}

/// Matches a source route, `"@" domain ("," "@" domain)*`, at `i`.
pub fn a_d_l(s: &[u8], i: usize) -> (r: Option<usize>)
    requires
        i <= s.len(),
    ensures
        end_of(r) == spec_a_d_l(s@, i as int),
        r matches Some(e) ==> i < e <= s.len(),
{
    match at_domain(s, i) {
        None => None,
        Some(first) => {
            let mut e: usize = first;
            loop
                invariant
                    i < first <= e <= s.len(),
                    spec_route_rest(s@, first as int) == spec_route_rest(s@, e as int),
                ensures
                    i < e <= s.len(),
                    spec_route_rest(s@, first as int) == e,
                decreases s.len() - e,
            {
                let next = if e < s.len() && s[e] == 44 {
                    at_domain(s, e + 1)
                } else {
                    None
                };
                match next {
                    Some(n) => {
                        e = n;
                    },
                    None => {
                        break ;
                    },
                }
            }
            Some(e)
        },
    }
}

/// Matches a non-empty run of atom text at `i`.
pub fn atom(s: &[u8], i: usize) -> (r: Option<usize>)
    requires
        i <= s.len(),
    ensures
        end_of(r) == spec_atom(s@, i as int),
        r matches Some(e) ==> i < e <= s.len(),
{
    let e = scan(s, i, ByteClass::Atext);
    if e > i {
        Some(e)
    } else {
        None
    }
}

/// Matches `atom ("." atom)*` at `i`.
pub fn dot_string(s: &[u8], i: usize) -> (r: Option<usize>)
    requires
        i <= s.len(),
    ensures
        end_of(r) == spec_dot_string(s@, i as int),
        r matches Some(e) ==> i < e <= s.len(),
{
    match atom(s, i) {
        None => None,
        Some(first) => {
            let mut e: usize = first;
            loop
                invariant
                    i < first <= e <= s.len(),
                    spec_atoms_rest(s@, first as int) == spec_atoms_rest(s@, e as int),
                ensures
                    i < e <= s.len(),
                    spec_atoms_rest(s@, first as int) == e,
                decreases s.len() - e,
            {
                let next = if e < s.len() && s[e] == 46 {
                    atom(s, e + 1)
                } else {
                    None
                };
                match next {
                    Some(n) => {
                        e = n;
                    },
                    None => {
                        break ;
                    },
                }
            }
            Some(e)
        },
    }
}

/// Matches a quoted string at `i` and returns its content with the escapes taken out.
pub fn quoted_string(s: &[u8], i: usize) -> (r: Option<(usize, String)>)
    requires
        i <= s.len(),
    ensures
        found_of(r) == spec_quoted_string(s@, i as int),
        r matches Some((e, _)) ==> i < e <= s.len(),
{
    if !(i < s.len() && s[i] == 34) {
        return None;
    }
    let mut out = String::new();
    let mut e: usize = i + 1;
    loop
        invariant
            i < e <= s.len(),
            spec_qcontent_rest(s@, i + 1).0 == spec_qcontent_rest(s@, e as int).0,
            spec_qcontent_rest(s@, i + 1).1 == out@ + spec_qcontent_rest(s@, e as int).1,
        ensures
            i < e <= s.len(),
            spec_qcontent_rest(s@, i + 1) == (e as int, out@),
        decreases s.len() - e,
    {
        let ghost before = out@;
        if e < s.len() && qtext_byte(s[e]) {
            out.push(s[e] as char);
            proof {
                assert(before + (seq![s@[e as int] as char] + spec_qcontent_rest(s@, e + 1).1)
                    =~= out@ + spec_qcontent_rest(s@, e + 1).1);
            }
            e = e + 1;
        } else if e < s.len() && s[e] == 92 && e + 1 < s.len() && escapable_byte(s[e + 1]) {
            out.push(s[e + 1] as char);
            proof {
                assert(before + (seq![s@[e + 1] as char] + spec_qcontent_rest(s@, e + 2).1)
                    =~= out@ + spec_qcontent_rest(s@, e + 2).1);
            }
            e = e + 2;
        } else {
            proof {
                assert(out@ + Seq::<char>::empty() =~= out@);
            }
            break ;
        }
    }
    if e < s.len() && s[e] == 34 {
        Some((e + 1, out))
    } else {
        None
    }
}

/// Matches a local part at `i`: a dot string, or else a quoted string.
pub fn local_part(s: &[u8], i: usize) -> (r: Option<(usize, LocalPart)>)
    requires
        i <= s.len(),
    ensures
        found_of(r) == spec_local_part(s@, i as int),
        r matches Some((e, _)) ==> i < e <= s.len(),
{
    match dot_string(s, i) {
        Some(e) => {
            proof {
                lemma_dot_string(s@, i as int);
                lemma_atoms_text(s@, i as int, e as int);
            }
            Some((e, LocalPart::Atom(text_of(s, i, e))))
        },
        None => match quoted_string(s, i) {
            Some((e, q)) => Some((e, LocalPart::Quoted(q))),
            None => None,
        },
    }
}

/// Matches one to three decimal digits that denote a number up to 255.
pub fn ip_int(s: &[u8], i: usize) -> (r: Option<(usize, u8)>)
    requires
        i <= s.len(),
    ensures
        match r {
            Some((e, v)) => spec_ip_int(s@, i as int) == Some((e as int, v)) && i < e <= s.len(),
            None => spec_ip_int(s@, i as int) is None,
        },
{
    let run = scan(s, i, ByteClass::Digit);
    let e: usize = if run - i > 3 {
        i + 3
    } else {
        run
    };
    if e == i {
        return None;
    }
    proof {
        lemma_run_end(s@, i as int, ByteClass::Digit);
    }
    let mut v: u32 = 0;
    let mut j: usize = i;
    while j < e
        invariant
            i <= j <= e <= run <= s.len(),
            e - i <= 3,
            forall|m: int| i <= m < run ==> is_decimal(#[trigger] s@[m]),
            v == decimal_value(s@, i as int, j as int),
            j - i == 0 ==> v == 0,
            j - i == 1 ==> v <= 9,
            j - i == 2 ==> v <= 99,
            j - i == 3 ==> v <= 999,
        decreases e - j,
    {
        let d: u8 = s[j] - 48;
        v = v * 10 + d as u32;
        j = j + 1;
    }
    if v <= 255 {
        Some((e, v as u8))
    } else {
        None
    }
}

/// Matches `"." octet` at `i`.
pub fn dot_octet(s: &[u8], i: usize) -> (r: Option<(usize, u8)>)
    requires
        i <= s.len(),
    ensures
        match r {
            Some((e, v)) => spec_dot_octet(s@, i as int) == Some((e as int, v)) && i < e <= s.len(),
            None => spec_dot_octet(s@, i as int) is None,
        },
{
    if i < s.len() && s[i] == 46 {
        ip_int(s, i + 1)
    } else {
        None
    }
}

/// Matches four octets joined by dots at `i`.
pub fn ipv4_literal(s: &[u8], i: usize) -> (r: Option<(usize, IpAddress)>)
    requires
        i <= s.len(),
    ensures
        found_of(r) == spec_ipv4_literal(s@, i as int),
        r matches Some((e, _)) ==> i < e <= s.len(),
{
    match ip_int(s, i) {
        Some((e1, a)) => match dot_octet(s, e1) {
            Some((e2, b)) => match dot_octet(s, e2) {
                Some((e3, c)) => match dot_octet(s, e3) {
                    Some((e4, d)) => Some((e4, IpAddress::V4(a, b, c, d))),
                    None => None,
                },
                None => None,
            },
            None => None,
        },
        None => None,
    }
}

/// Matches `IPv6:` in any case and a run of IPv6 text at `i`; what it gives depends on `v6`.
pub fn ipv6_literal(s: &[u8], i: usize, v6: Ipv6Answer) -> (r: Result<
    (usize, IpAddress),
    ParseError,
>)
    requires
        i <= s.len(),
    ensures
        step_of(r) == spec_ipv6_literal(s@, i as int, v6),
        r matches Ok((e, _)) ==> i < e <= s.len(),
{
    let prefix = "ipv6:";
    if !tag_no_case(s, i, prefix) {
        return Err(ParseError::NoMatch);
    }
    let start = i + prefix.unicode_len();
    let e = scan(s, start, ByteClass::Ipv6Text);
    if e <= start {
        return Err(ParseError::NoMatch);
    }
    match v6 {
        Ipv6Answer::Unknown => Err(ParseError::Ipv6Query { start, end: e }),
        Ipv6Answer::Invalid => Err(ParseError::NoMatch),
        Ipv6Answer::Valid(bits) => Ok((e, IpAddress::V6(bits))),
    }
}

/// Matches `tag ":" content` at `i`.
pub fn general_address_literal(s: &[u8], i: usize) -> (r: Option<(usize, AddressLiteral)>)
    requires
        i <= s.len(),
    ensures
        found_of(r) == spec_general_address_literal(s@, i as int),
        r matches Some((e, _)) ==> i < e <= s.len(),
{
    match ldh_str(s, i) {
        Some(t) => {
            if t < s.len() && s[t] == 58 {
                let e = scan(s, t + 1, ByteClass::Dcontent);
                if e > t + 1 {
                    proof {
                        lemma_run_ascii(s@, i as int, ByteClass::Ldh);
                        lemma_run_ascii(s@, t + 1, ByteClass::Dcontent);
                    }
                    let tag = text_of(s, i, t);
                    let value = text_of(s, t + 1, e);
                    return Some((e, AddressLiteral::Tagged(tag, value)));
                }
            }
            None
        },
        None => None,
    }
}

/// Matches what stands between the brackets of an address literal: an IPv4
/// address, or else an IPv6 address, or else a tagged literal.
pub fn inner_address_literal(s: &[u8], i: usize, v6: Ipv6Answer) -> (r: Result<
    (usize, AddressLiteral),
    ParseError,
>)
    requires
        i <= s.len(),
    ensures
        step_of(r) == spec_inner_address_literal(s@, i as int, v6),
        r matches Ok((e, _)) ==> i < e <= s.len(),
{
    match ipv4_literal(s, i) {
        Some((e, ip)) => Ok((e, AddressLiteral::IpAddr(ip))),
        None => match ipv6_literal(s, i, v6) {
            Ok((e, ip)) => Ok((e, AddressLiteral::IpAddr(ip))),
            Err(ParseError::Ipv6Query { start, end }) => Err(ParseError::Ipv6Query { start, end }),
            Err(ParseError::NoMatch) => match general_address_literal(s, i) {
                Some((e, lit)) => Ok((e, lit)),
                None => Err(ParseError::NoMatch),
            },
        },
    }
}

/// Matches `"[" inner "]"` at `i`.
pub fn address_literal(s: &[u8], i: usize, v6: Ipv6Answer) -> (r: Result<
    (usize, AddressLiteral),
    ParseError,
>)
    requires
        i <= s.len(),
    ensures
        step_of(r) == spec_address_literal(s@, i as int, v6),
        r matches Ok((e, _)) ==> i < e <= s.len(),
{
    if !(i < s.len() && s[i] == 91) {
        return Err(ParseError::NoMatch);
    }
    match inner_address_literal(s, i + 1, v6) {
        Ok((e, lit)) => if e < s.len() && s[e] == 93 {
            Ok((e + 1, lit))
        } else {
            Err(ParseError::NoMatch)
        },
        Err(err) => Err(err),
    }
}

/// Matches a domain part at `i`: a domain, or else an address literal.
pub fn domain_part(s: &[u8], i: usize, v6: Ipv6Answer) -> (r: Result<
    (usize, DomainPart),
    ParseError,
>)
    requires
        i <= s.len(),
    ensures
        step_of(r) == spec_domain_part(s@, i as int, v6),
        r matches Ok((e, _)) ==> i < e <= s.len(),
{
    match domain(s, i) {
        Some(e) => {
            proof {
                lemma_domain(s@, i as int);
                lemma_labels_text(s@, i as int, e as int);
            }
            Ok((e, DomainPart::Domain(text_of(s, i, e))))
        },
        None => match address_literal(s, i, v6) {
            Ok((e, lit)) => Ok((e, DomainPart::AddressLiteral(lit))),
            Err(err) => Err(err),
        },
    }
}

/// Matches `local-part "@" domain-part` at `i`.
pub fn mailbox(s: &[u8], i: usize, v6: Ipv6Answer) -> (r: Result<(usize, Mailbox), ParseError>)
    requires
        i <= s.len(),
    ensures
        step_of(r) == spec_mailbox(s@, i as int, v6),
        r matches Ok((e, _)) ==> i < e <= s.len(),
{
    match local_part(s, i) {
        Some((l, local)) => {
            if !(l < s.len() && s[l] == 64) {
                return Err(ParseError::NoMatch);
            }
            match domain_part(s, l + 1, v6) {
                Ok((e, dom)) => Ok((e, Mailbox(local, dom))),
                Err(err) => Err(err),
            }
        },
        None => Err(ParseError::NoMatch),
    }
}

/// Where the mailbox of a path starts: after a source route and its colon,
/// or at `i` where there is none.
pub fn route_skip(s: &[u8], i: usize) -> (j: usize)
    requires
        i <= s.len(),
    ensures
        j as int == spec_route_skip(s@, i as int),
        i <= j <= s.len(),
{
    match a_d_l(s, i) {
        Some(r) => if r < s.len() && s[r] == 58 {
            r + 1
        } else {
            i
        },
        None => i,
    }
}

/// Matches `"<" [source-route ":"] mailbox ">"` at `i`.
pub fn path(s: &[u8], i: usize, v6: Ipv6Answer) -> (r: Result<(usize, Mailbox), ParseError>)
    requires
        i <= s.len(),
    ensures
        step_of(r) == spec_path(s@, i as int, v6),
        r matches Ok((e, _)) ==> i < e <= s.len(),
{
    if !(i < s.len() && s[i] == 60) {
        return Err(ParseError::NoMatch);
    }
    let start = route_skip(s, i + 1);
    match mailbox(s, start, v6) {
        Ok((e, m)) => if e < s.len() && s[e] == 62 {
            Ok((e + 1, m))
        } else {
            Err(ParseError::NoMatch)
        },
        Err(err) => Err(err),
    }
}

/// Matches a reverse path at `i`: a path, or else `<>`.
pub fn reverse_path(s: &[u8], i: usize, v6: Ipv6Answer) -> (r: Result<
    (usize, ReversePath),
    ParseError,
>)
    requires
        i <= s.len(),
    ensures
        step_of(r) == spec_reverse_path(s@, i as int, v6),
        r matches Ok((e, _)) ==> i < e <= s.len(),
{
    match path(s, i, v6) {
        Ok((e, m)) => Ok((e, ReversePath::Mailbox(m))),
        Err(ParseError::Ipv6Query { start, end }) => Err(ParseError::Ipv6Query { start, end }),
        Err(ParseError::NoMatch) => if i < s.len() && s[i] == 60 && i + 1 < s.len() && s[i + 1]
            == 62 {
            Ok((i + 2, ReversePath::Null))
        } else {
            Err(ParseError::NoMatch)
        },
    }
}

/// Matches a forward path at `i`: `<postmaster>` in any case, or else a path.
pub fn forward_path(s: &[u8], i: usize, v6: Ipv6Answer) -> (r: Result<(usize, Path), ParseError>)
    requires
        i <= s.len(),
    ensures
        step_of(r) == spec_forward_path(s@, i as int, v6),
        r matches Ok((e, _)) ==> i <= e <= s.len(),
{
    let special = "<postmaster>";
    if tag_no_case(s, i, special) {
        return Ok((i + special.unicode_len(), Path::PostMaster));
    }
    match path(s, i, v6) {
        Ok((e, m)) => Ok((e, Path::Mailbox(m))),
        Err(err) => Err(err),
    }
}

} // verus!
