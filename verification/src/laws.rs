//! What holds of the grammar as a whole.

use vstd::prelude::*;
use crate::classes::{in_class, is_alnum, is_decimal, lemma_run_end, run_end, ByteClass};
use crate::model::{
    exactly, AddressLiteralView, DomainPartView, IpAddress, Ipv6Answer, LocalPartView,
    MailboxView, ParseError, Step,
};
use crate::render::{
    address_literal_text, decimal_text, domain_part_text, escaped, escaped_char, local_part_text,
    mailbox_text,
};
use crate::text::{ascii_text, slice_text};
use crate::rfc5321::{spec_mail_command, spec_rcpt_command, spec_validate_address};
use crate::shape::{
    atoms_range, atoms_text, char_in, labels_range, labels_text, printable_text,
};
use crate::syntax::{
    decimal_value, spec_address_literal, spec_domain, spec_domain_part, spec_dot_octet,
    spec_dot_string, spec_inner_address_literal, spec_ip_int, spec_ipv4_literal, spec_local_part,
    spec_mailbox, spec_qcontent_rest, spec_quoted_string, spec_sub_domain,
};

verus! {

/// A question is about a non-empty run of hexadecimal digits, colons and
/// dots that lies inside the input and is as long as it can be.
pub open spec fn is_ipv6_run(s: Seq<u8>, a: int, b: int) -> bool {
    &&& 0 <= a < b <= s.len()
    &&& b == run_end(s, a, ByteClass::Ipv6Text)
    &&& forall|j: int| a <= j < b ==> in_class(ByteClass::Ipv6Text, #[trigger] s[j])
    &&& (b < s.len() ==> !in_class(ByteClass::Ipv6Text, s[b]))
}

/// What a rule's outcome says of the question that it may hold: it is asked
/// only while the answer is unknown, and it names a run of IPv6 text.
pub open spec fn asks_well<T>(st: Step<T>, s: Seq<u8>, v6: Ipv6Answer) -> bool {
    match st {
        Step::Ask(a, b) => v6 == Ipv6Answer::Unknown && is_ipv6_run(s, a, b),
        _ => true,
    }
}

/// With an answer at hand no rule asks, and a rule that asks names a run of
/// IPv6 text inside the input: a caller that has the run parsed and calls
/// again gets a value or no match.
pub proof fn law_questions(s: Seq<u8>, i: int, v6: Ipv6Answer)
    requires
        0 <= i <= s.len(),
    ensures
        asks_well(spec_inner_address_literal(s, i, v6), s, v6),
        asks_well(spec_address_literal(s, i, v6), s, v6),
        asks_well(spec_mailbox(s, i, v6), s, v6),
        asks_well(spec_mail_command(s, v6), s, v6),
        asks_well(spec_rcpt_command(s, v6), s, v6),
{
    assert forall|a: int| 0 <= a <= s.len() && run_end(s, a, ByteClass::Ipv6Text) > a
        implies #[trigger] is_ipv6_run(s, a, run_end(s, a, ByteClass::Ipv6Text)) by {
        lemma_run_end(s, a, ByteClass::Ipv6Text);
    }
}

/// Where a rule does not ask while the answer is unknown, its outcome is the
/// same under every answer.
pub proof fn law_unasked_is_final(s: Seq<u8>, i: int, v6: Ipv6Answer)
    ensures
        !(spec_inner_address_literal(s, i, Ipv6Answer::Unknown) is Ask)
            ==> spec_inner_address_literal(s, i, v6) == spec_inner_address_literal(
            s,
            i,
            Ipv6Answer::Unknown,
        ),
        !(spec_address_literal(s, i, Ipv6Answer::Unknown) is Ask) ==> spec_address_literal(s, i, v6)
            == spec_address_literal(s, i, Ipv6Answer::Unknown),
        !(spec_mailbox(s, i, Ipv6Answer::Unknown) is Ask) ==> spec_mailbox(s, i, v6)
            == spec_mailbox(s, i, Ipv6Answer::Unknown),
        !(spec_mail_command(s, Ipv6Answer::Unknown) is Ask) ==> spec_mail_command(s, v6)
            == spec_mail_command(s, Ipv6Answer::Unknown),
        !(spec_rcpt_command(s, Ipv6Answer::Unknown) is Ask) ==> spec_rcpt_command(s, v6)
            == spec_rcpt_command(s, Ipv6Answer::Unknown),
{
}

/// A command is accepted only where its rule ends at the end of the input:
/// input that is left over behind a match makes the whole no match.
pub proof fn law_commands_consume_all(s: Seq<u8>, v6: Ipv6Answer)
    ensures
        exactly(spec_mail_command(s, v6), s.len() as int) is Value <==> (spec_mail_command(s, v6)
            matches Step::Match(e, _) && e == s.len()),
        exactly(spec_rcpt_command(s, v6), s.len() as int) is Value <==> (spec_rcpt_command(s, v6)
            matches Step::Match(e, _) && e == s.len()),
        spec_validate_address(s, v6) == Ok::<bool, ParseError>(true) <==> (spec_mailbox(s, 0, v6)
            matches Step::Match(e, _) && e == s.len()),
{
}

/// Where the escaped form of `t` stands at `i` with a double quote behind
/// it, the content of a quoted string read from `i` is `t` and ends at that
/// quote.
pub proof fn lemma_escaped_reads_back(s: Seq<u8>, i: int, t: Seq<char>)
    requires
        printable_text(t),
        0 <= i,
        i + escaped(t).len() < s.len(),
        forall|j: int| 0 <= j < escaped(t).len() ==> (#[trigger] s[i + j]) as char == escaped(t)[j],
        s[i + escaped(t).len()] == 34,
    ensures
        spec_qcontent_rest(s, i) == (i + escaped(t).len() as int, t),
    decreases t.len(),
{
    if t.len() == 0 {
        assert(t =~= Seq::empty());
    } else {
        let c = t[0];
        let rest = t.drop_first();
        let head = escaped_char(c);
        let next = i + head.len() as int;
        assert(escaped(t) == head + escaped(rest));
        assert(32 <= c as u32 <= 126);
        assert forall|j: int| 0 <= j < rest.len() implies 32 <= (#[trigger] rest[j]) as u32
            <= 126 by {
            assert(rest[j] == t[j + 1]);
        }
        assert forall|j: int| 0 <= j < escaped(rest).len() implies (#[trigger] s[next + j]) as char
            == escaped(rest)[j] by {
            assert(escaped(t)[head.len() + j] == escaped(rest)[j]);
            assert(s[i + (head.len() + j)] as char == escaped(t)[head.len() + j]);
        }
        assert(s[i + 0] as char == escaped(t)[0]);
        assert(escaped(t)[0] == head[0]);
        if c == '"' || c == '\\' {
            assert(s[i + 1] as char == escaped(t)[1]);
            assert(escaped(t)[1] == c);
            assert(s[i] == 92);
            assert(s[i + 1] as char == c);
        } else {
            assert(s[i] as char == c);
        }
        lemma_escaped_reads_back(s, next, rest);
        assert(seq![c] + rest =~= t);
    }
}

/// The text of a quoted local part of printable characters reads back as
/// that local part: what is escaped when it is written is taken out again
/// when it is read.
pub proof fn law_quoted_round_trip(s: Seq<u8>, t: Seq<char>)
    requires
        printable_text(t),
        ascii_text(s) == local_part_text(LocalPartView::Quoted(t)),
    ensures
        spec_local_part(s, 0) == Some((s.len() as int, LocalPartView::Quoted(t))),
{
    let written = local_part_text(LocalPartView::Quoted(t));
    assert(written.len() == escaped(t).len() + 2);
    assert(s.len() == written.len());
    assert(s[0] as char == written[0]);
    assert(s[0] == 34);
    assert forall|j: int| 0 <= j < escaped(t).len() implies (#[trigger] s[1 + j]) as char
        == escaped(t)[j] by {
        assert(ascii_text(s)[1 + j] == s[1 + j] as char);
        assert(written[1 + j] == escaped(t)[j]);
    }
    assert(ascii_text(s)[s.len() - 1] == s[s.len() - 1] as char);
    assert(s[1 + escaped(t).len() as int] == 34);
    lemma_escaped_reads_back(s, 1, t);
    assert(spec_quoted_string(s, 0) == Some((s.len() as int, t)));
}

/// Where the decimal text of `n` stands at `i` and no digit follows it, an
/// octet read from `i` is `n` and ends behind that text.
pub proof fn lemma_octet_reads_back(s: Seq<u8>, i: int, n: u8)
    requires
        0 <= i,
        i + decimal_text(n).len() < s.len(),
        forall|j: int|
            0 <= j < decimal_text(n).len() ==> (#[trigger] s[i + j]) as char == decimal_text(n)[j],
        !is_decimal(s[i + decimal_text(n).len()]),
    ensures
        spec_ip_int(s, i) == Some((i + decimal_text(n).len() as int, n)),
{
    reveal_with_fuel(run_end, 5);
    reveal_with_fuel(decimal_value, 5);
    let len = decimal_text(n).len() as int;
    assert(s[i + 0] as char == decimal_text(n)[0]);
    if len >= 2 {
        assert(s[i + 1] as char == decimal_text(n)[1]);
    }
    if len >= 3 {
        assert(s[i + 2] as char == decimal_text(n)[2]);
    }
    assert(run_end(s, i, ByteClass::Digit) == i + len);
    assert(decimal_value(s, i, i + len) == n);
}

/// The text of an IPv4 literal reads back as that literal, whatever is known
/// of IPv6 text.
pub proof fn law_ipv4_round_trip(s: Seq<u8>, a: u8, b: u8, c: u8, d: u8, v6: Ipv6Answer)
    requires
        ascii_text(s) == address_literal_text(
            AddressLiteralView::IpAddr(IpAddress::V4(a, b, c, d)),
            Seq::empty(),
        ),
    ensures
        spec_address_literal(s, 0, v6) == Step::Match(
            s.len() as int,
            AddressLiteralView::IpAddr(IpAddress::V4(a, b, c, d)),
        ),
{
    let w = address_literal_text(
        AddressLiteralView::IpAddr(IpAddress::V4(a, b, c, d)),
        Seq::empty(),
    );
    let p1 = 1int;
    let p2 = p1 + decimal_text(a).len() + 1;
    let p3 = p2 + decimal_text(b).len() + 1;
    let p4 = p3 + decimal_text(c).len() + 1;
    let end = p4 + decimal_text(d).len();
    assert(w.len() == end + 1);
    assert(s.len() == w.len());
    assert forall|k: int| 0 <= k < s.len() implies (#[trigger] s[k]) as char == w[k] by {
        assert(ascii_text(s)[k] == s[k] as char);
    }
    assert(s[0] as char == '[');
    assert(s[p2 - 1] as char == '.');
    assert(s[p3 - 1] as char == '.');
    assert(s[p4 - 1] as char == '.');
    assert(s[end] as char == ']');
    assert forall|j: int| 0 <= j < decimal_text(a).len() implies (#[trigger] s[p1 + j]) as char
        == decimal_text(a)[j] by {
        assert(w[p1 + j] == decimal_text(a)[j]);
    }
    assert forall|j: int| 0 <= j < decimal_text(b).len() implies (#[trigger] s[p2 + j]) as char
        == decimal_text(b)[j] by {
        assert(w[p2 + j] == decimal_text(b)[j]);
    }
    assert forall|j: int| 0 <= j < decimal_text(c).len() implies (#[trigger] s[p3 + j]) as char
        == decimal_text(c)[j] by {
        assert(w[p3 + j] == decimal_text(c)[j]);
    }
    assert forall|j: int| 0 <= j < decimal_text(d).len() implies (#[trigger] s[p4 + j]) as char
        == decimal_text(d)[j] by {
        assert(w[p4 + j] == decimal_text(d)[j]);
    }
    lemma_octet_reads_back(s, p1, a);
    lemma_octet_reads_back(s, p2, b);
    lemma_octet_reads_back(s, p3, c);
    lemma_octet_reads_back(s, p4, d);
    assert(spec_dot_octet(s, p2 - 1) == Some((p3 - 1, b)));
    assert(spec_dot_octet(s, p3 - 1) == Some((p4 - 1, c)));
    assert(spec_dot_octet(s, p4 - 1) == Some((end, d)));
    assert(spec_ipv4_literal(s, 1) == Some((end, IpAddress::V4(a, b, c, d))));
}

/// Labels joined by dots that are followed by no further letter, digit,
/// hyphen or dot are read as one domain, up to their end.
pub proof fn lemma_labels_read_back(s: Seq<u8>, i: int, e: int)
    requires
        labels_range(s, i, e),
        e < s.len() ==> s[e] != 46 && !in_class(ByteClass::Ldh, s[e]),
    ensures
        spec_domain(s, i) == Some(e),
    decreases e - i,
{
    let m = run_end(s, i, ByteClass::Ldh);
    lemma_run_end(s, i, ByteClass::Ldh);
    lemma_run_end(s, i + 1, ByteClass::Ldh);
    assert(in_class(ByteClass::Ldh, s[i]));
    assert(m == run_end(s, i + 1, ByteClass::Ldh));
    if m > e {
        assert(in_class(ByteClass::Ldh, s[e]));
    }
    if m < e {
        assert(s[m] == 46);
        assert(s[m - 1] != 46);
        assert(is_alnum(s[m - 1]));
        assert(is_alnum(s[m + 1]));
        assert(m + 1 < e);
        assert(labels_range(s, m + 1, e));
        lemma_labels_read_back(s, m + 1, e);
        assert(spec_sub_domain(s, i) == Some(m));
    } else {
        assert(is_alnum(s[m - 1]));
        assert(spec_sub_domain(s, i) == Some(m));
    }
}

/// Atoms joined by dots that are followed by no further atom text or dot are
/// read as one dot string, up to their end.
pub proof fn lemma_atoms_read_back(s: Seq<u8>, i: int, e: int)
    requires
        atoms_range(s, i, e),
        e < s.len() ==> s[e] != 46 && !in_class(ByteClass::Atext, s[e]),
    ensures
        spec_dot_string(s, i) == Some(e),
    decreases e - i,
{
    let m = run_end(s, i, ByteClass::Atext);
    lemma_run_end(s, i, ByteClass::Atext);
    assert(in_class(ByteClass::Atext, s[i]));
    if m > e {
        assert(in_class(ByteClass::Atext, s[e]));
    }
    if m < e {
        assert(s[m] == 46);
        assert(s[m + 1] != 46);
        assert(m + 1 < e);
        assert(atoms_range(s, m + 1, e));
        lemma_atoms_read_back(s, m + 1, e);
    }
}

/// Bytes that stand for a text of atoms joined by dots are atoms joined by
/// dots.
pub proof fn lemma_atoms_bytes(s: Seq<u8>, i: int, a: Seq<char>)
    requires
        atoms_text(a),
        0 <= i,
        i + a.len() <= s.len(),
        forall|j: int| 0 <= j < a.len() ==> (#[trigger] s[i + j]) as char == a[j],
    ensures
        atoms_range(s, i, i + a.len()),
        slice_text(s, i, i + a.len()) == a,
{
    let e = i + a.len();
    assert forall|j: int| i <= j < e implies (#[trigger] s[j]) == 46 || in_class(
        ByteClass::Atext,
        s[j],
    ) by {
        assert(s[i + (j - i)] as char == a[j - i]);
        if a[j - i] != '.' {
            assert(char_in(ByteClass::Atext, a[j - i]));
        }
    }
    assert(s[i + 0] as char == a[0]);
    assert(s[i + (a.len() - 1)] as char == a[a.len() - 1]);
    assert forall|j: int| i <= j < e - 1 && (#[trigger] s[j]) == 46 implies s[j + 1] != 46 by {
        assert(s[i + (j - i)] as char == a[j - i]);
        assert(s[i + (j - i + 1)] as char == a[j - i + 1]);
    }
    assert forall|j: int| 0 <= j < a.len() implies slice_text(s, i, e)[j] == a[j] by {
        assert(s[i + j] as char == a[j]);
    }
    assert(slice_text(s, i, e) =~= a);
}

/// Bytes that stand for a text of labels joined by dots are labels joined by
/// dots.
pub proof fn lemma_labels_bytes(s: Seq<u8>, i: int, d: Seq<char>)
    requires
        labels_text(d),
        0 <= i,
        i + d.len() <= s.len(),
        forall|j: int| 0 <= j < d.len() ==> (#[trigger] s[i + j]) as char == d[j],
    ensures
        labels_range(s, i, i + d.len()),
        slice_text(s, i, i + d.len()) == d,
{
    let e = i + d.len();
    assert forall|j: int| i <= j < e implies (#[trigger] s[j]) == 46 || in_class(
        ByteClass::Ldh,
        s[j],
    ) by {
        assert(s[i + (j - i)] as char == d[j - i]);
        if d[j - i] != '.' {
            assert(char_in(ByteClass::Ldh, d[j - i]));
        }
    }
    assert(s[i + 0] as char == d[0] && char_in(ByteClass::Alnum, d[0]));
    assert(s[i + (d.len() - 1)] as char == d[d.len() - 1] && char_in(
        ByteClass::Alnum,
        d[d.len() - 1],
    ));
    assert(in_class(ByteClass::Alnum, s[i]) && in_class(ByteClass::Alnum, s[e - 1]));
    assert forall|j: int| i <= j < e - 1 implies ((#[trigger] s[j]) == 46 ==> is_alnum(s[j + 1]))
        && (s[j + 1] == 46 ==> is_alnum(s[j])) by {
        let k = j - i;
        assert(s[i + k] as char == d[k]);
        assert(s[i + (k + 1)] as char == d[k + 1]);
        if d[k] == '.' {
            assert(char_in(ByteClass::Alnum, d[k + 1]));
            assert(in_class(ByteClass::Alnum, s[j + 1]));
        }
        if d[k + 1] == '.' {
            assert(char_in(ByteClass::Alnum, d[k]));
            assert(in_class(ByteClass::Alnum, s[j]));
        }
    }
    assert forall|j: int| 0 <= j < d.len() implies slice_text(s, i, e)[j] == d[j] by {
        assert(s[i + j] as char == d[j]);
    }
    assert(slice_text(s, i, e) =~= d);
}

/// A text of atoms joined by single dots reads back as that local part.
pub proof fn law_atom_round_trip(s: Seq<u8>, a: Seq<char>)
    requires
        atoms_text(a),
        ascii_text(s) == local_part_text(LocalPartView::Atom(a)),
    ensures
        spec_local_part(s, 0) == Some((s.len() as int, LocalPartView::Atom(a))),
{
    assert(s.len() == a.len());
    assert forall|j: int| 0 <= j < a.len() implies (#[trigger] s[0 + j]) as char == a[j] by {
        assert(ascii_text(s)[j] == s[j] as char);
    }
    lemma_atoms_bytes(s, 0, a);
    lemma_atoms_read_back(s, 0, s.len() as int);
}

/// A text of labels joined by single dots reads back as that domain.
pub proof fn law_domain_round_trip(s: Seq<u8>, d: Seq<char>, v6: Ipv6Answer)
    requires
        labels_text(d),
        ascii_text(s) == domain_part_text(DomainPartView::Domain(d), Seq::empty()),
    ensures
        spec_domain_part(s, 0, v6) == Step::Match(s.len() as int, DomainPartView::Domain(d)),
{
    assert(s.len() == d.len());
    assert forall|j: int| 0 <= j < d.len() implies (#[trigger] s[0 + j]) as char == d[j] by {
        assert(ascii_text(s)[j] == s[j] as char);
    }
    lemma_labels_bytes(s, 0, d);
    lemma_labels_read_back(s, 0, s.len() as int);
}

/// The text of a well-formed mailbox with a domain name reads back as that
/// mailbox: writing is the inverse of reading.
pub proof fn law_mailbox_round_trip(s: Seq<u8>, m: MailboxView, v6: Ipv6Answer)
    requires
        m.wf(),
        m.domain is Domain,
        ascii_text(s) == mailbox_text(m, Seq::empty()),
    ensures
        spec_mailbox(s, 0, v6) == Step::Match(s.len() as int, m),
{
    let w = mailbox_text(m, Seq::empty());
    let local = local_part_text(m.local);
    let d = m.domain->Domain_0;
    let n = local.len() as int;
    assert(w.len() == n + 1 + d.len());
    assert(s.len() == w.len());
    assert forall|k: int| 0 <= k < s.len() implies (#[trigger] s[k]) as char == w[k] by {
        assert(ascii_text(s)[k] == s[k] as char);
    }
    assert(s[n] as char == '@');
    assert forall|j: int| 0 <= j < d.len() implies (#[trigger] s[n + 1 + j]) as char == d[j] by {
        assert(w[n + 1 + j] == d[j]);
    }
    lemma_labels_bytes(s, n + 1, d);
    lemma_labels_read_back(s, n + 1, s.len() as int);
    match m.local {
        LocalPartView::Atom(a) => {
            assert forall|j: int| 0 <= j < a.len() implies (#[trigger] s[0 + j]) as char
                == a[j] by {
                assert(w[j] == a[j]);
            }
            lemma_atoms_bytes(s, 0, a);
            lemma_atoms_read_back(s, 0, n);
        },
        LocalPartView::Quoted(q) => {
            assert(n == escaped(q).len() + 2);
            assert(s[0] as char == w[0]);
            assert(s[0] == 34);
            assert forall|j: int| 0 <= j < escaped(q).len() implies (#[trigger] s[1 + j]) as char
                == escaped(q)[j] by {
                assert(w[1 + j] == escaped(q)[j]);
            }
            assert(s[n - 1] as char == w[n - 1]);
            assert(s[1 + escaped(q).len() as int] == 34);
            lemma_escaped_reads_back(s, 1, q);
            assert(spec_quoted_string(s, 0) == Some((n, q)));
        },
    }
}

} // verus!
