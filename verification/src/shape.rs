//! The shape of the values that the grammar produces: which characters a
//! matched text is made of, and where its dots and hyphens may stand.

use vstd::prelude::*;
use crate::classes::{
    in_class, is_alnum, is_escapable, is_qtext, lemma_run_end, run_end, ByteClass,
};
use crate::model::{
    AddressLiteralView, DomainPartView, EsmtpParamView, Ipv6Answer, LocalPartView, MailboxView,
    PathView, ReversePathView, Step,
};
use crate::text::{ascii_range, slice_text};
use crate::syntax::{
    byte_at, spec_address_literal, spec_atom, spec_atoms_rest, spec_domain, spec_domain_part,
    spec_dot_string, spec_esmtp_param, spec_esmtp_params, spec_forward_path,
    spec_general_address_literal, spec_inner_address_literal, spec_labels_rest, spec_ldh_str,
    spec_local_part, spec_mailbox, spec_opt_params, spec_params_rest, spec_path,
    spec_qcontent_rest, spec_reverse_path, spec_route_skip, spec_sub_domain,
};

verus! {

/// The character is an ASCII character whose byte belongs to the class.
pub open spec fn char_in(k: ByteClass, c: char) -> bool {
    exists|b: u8| in_class(k, b) && #[trigger] (b as char) == c
}

/// A non-empty text of characters of one class.
pub open spec fn text_in(k: ByteClass, t: Seq<char>) -> bool {
    t.len() > 0 && forall|j: int| 0 <= j < t.len() ==> char_in(k, #[trigger] t[j])
}

/// Atoms joined by single dots: atom text and dots, no dot at either end and
/// no two dots in a row.
pub open spec fn atoms_text(t: Seq<char>) -> bool {
    &&& t.len() > 0
    &&& forall|j: int| 0 <= j < t.len() ==> (#[trigger] t[j]) == '.' || char_in(ByteClass::Atext, t[j])
    &&& t[0] != '.'
    &&& t[t.len() - 1] != '.'
    &&& forall|j: int| 0 <= j < t.len() - 1 && (#[trigger] t[j]) == '.' ==> t[j + 1] != '.'
}

/// Labels joined by single dots: letters, digits, hyphens and dots, with a
/// letter or digit at both ends of the text and on both sides of each dot.
pub open spec fn labels_text(t: Seq<char>) -> bool {
    &&& t.len() > 0
    &&& forall|j: int| 0 <= j < t.len() ==> (#[trigger] t[j]) == '.' || char_in(ByteClass::Ldh, t[j])
    &&& char_in(ByteClass::Alnum, t[0])
    &&& char_in(ByteClass::Alnum, t[t.len() - 1])
    &&& forall|j: int|
        0 <= j < t.len() - 1 ==> ((#[trigger] t[j]) == '.' ==> char_in(ByteClass::Alnum, t[j + 1]))
            && (t[j + 1] == '.' ==> char_in(ByteClass::Alnum, t[j]))
}

/// Printable ASCII characters and spaces only.
pub open spec fn printable_text(t: Seq<char>) -> bool {
    forall|j: int| 0 <= j < t.len() ==> 32 <= (#[trigger] t[j]) as u32 <= 126
}

impl EsmtpParamView {
    /// A keyword of letters and digits, and a value, where there is one, of
    /// value bytes.
    pub open spec fn wf(self) -> bool {
        &&& text_in(ByteClass::Alnum, self.name)
        &&& self.value matches Some(v) ==> text_in(ByteClass::EsmtpValue, v)
    }
}

/// Every parameter of the list is well formed.
pub open spec fn params_wf(ps: Seq<EsmtpParamView>) -> bool {
    forall|j: int| 0 <= j < ps.len() ==> (#[trigger] ps[j]).wf()
}

impl LocalPartView {
    pub open spec fn wf(self) -> bool {
        match self {
            LocalPartView::Atom(a) => atoms_text(a),
            LocalPartView::Quoted(q) => printable_text(q),
        }
    }
}

impl AddressLiteralView {
    /// A tag of letters, digits and hyphens that does not end in a hyphen,
    /// and a value of literal content. Nothing is asked of the other kinds.
    pub open spec fn wf(self) -> bool {
        match self {
            AddressLiteralView::Tagged(t, v) => text_in(ByteClass::Ldh, t) && t[t.len() - 1] != '-'
                && text_in(ByteClass::Dcontent, v),
            _ => true,
        }
    }
}

impl DomainPartView {
    pub open spec fn wf(self) -> bool {
        match self {
            DomainPartView::Domain(d) => labels_text(d),
            DomainPartView::AddressLiteral(lit) => lit.wf() && !(lit is FreeForm),
        }
    }
}

impl MailboxView {
    pub open spec fn wf(self) -> bool {
        self.local.wf() && self.domain.wf()
    }
}

impl PathView {
    pub open spec fn wf(self) -> bool {
        self matches PathView::Mailbox(m) ==> m.wf()
    }
}

impl ReversePathView {
    pub open spec fn wf(self) -> bool {
        self matches ReversePathView::Mailbox(m) ==> m.wf()
    }
}

/// The bytes from `a` up to `e` are atoms joined by single dots.
pub open spec fn atoms_range(s: Seq<u8>, a: int, e: int) -> bool {
    &&& 0 <= a < e <= s.len()
    &&& forall|j: int| a <= j < e ==> (#[trigger] s[j]) == 46 || in_class(ByteClass::Atext, s[j])
    &&& s[a] != 46
    &&& s[e - 1] != 46
    &&& forall|j: int| a <= j < e - 1 && (#[trigger] s[j]) == 46 ==> s[j + 1] != 46
}

/// The bytes from `a` up to `e` are labels joined by single dots.
pub open spec fn labels_range(s: Seq<u8>, a: int, e: int) -> bool {
    &&& 0 <= a < e <= s.len()
    &&& forall|j: int| a <= j < e ==> (#[trigger] s[j]) == 46 || in_class(ByteClass::Ldh, s[j])
    &&& is_alnum(s[a])
    &&& is_alnum(s[e - 1])
    &&& forall|j: int|
        a <= j < e - 1 ==> ((#[trigger] s[j]) == 46 ==> is_alnum(s[j + 1])) && (s[j + 1] == 46
            ==> is_alnum(s[j]))
}

/// A run of any class is ASCII.
pub proof fn lemma_run_ascii(s: Seq<u8>, a: int, k: ByteClass)
    requires
        0 <= a <= s.len(),
    ensures
        ascii_range(s, a, run_end(s, a, k)),
{
    lemma_run_end(s, a, k);
    let e = run_end(s, a, k);
    assert forall|j: int| a <= j < e implies (#[trigger] s[j]) < 128 by {
        assert(in_class(k, s[j]));
    }
}

/// A run of one class, read as text, is a text of that class.
pub proof fn lemma_run_text(s: Seq<u8>, a: int, e: int, k: ByteClass)
    requires
        0 <= a < e <= s.len(),
        forall|j: int| a <= j < e ==> in_class(k, #[trigger] s[j]),
    ensures
        text_in(k, slice_text(s, a, e)),
{
    let t = slice_text(s, a, e);
    assert forall|j: int| 0 <= j < t.len() implies char_in(k, #[trigger] t[j]) by {
        assert(in_class(k, s[a + j]) && s[a + j] as char == t[j]);
    }
}

pub proof fn lemma_atoms_text(s: Seq<u8>, a: int, e: int)
    requires
        atoms_range(s, a, e),
    ensures
        atoms_text(slice_text(s, a, e)),
        ascii_range(s, a, e),
{
    let t = slice_text(s, a, e);
    assert forall|j: int| 0 <= j < t.len() implies (#[trigger] t[j]) == '.' || char_in(
        ByteClass::Atext,
        t[j],
    ) by {
        assert(s[a + j] as char == t[j]);
        if s[a + j] != 46 {
            assert(in_class(ByteClass::Atext, s[a + j]));
        }
    }
    assert forall|j: int| 0 <= j < t.len() - 1 && (#[trigger] t[j]) == '.' implies t[j + 1]
        != '.' by {
        assert(s[a + j] as char == t[j]);
        assert(s[a + j + 1] as char == t[j + 1]);
    }
    assert(s[a] as char == t[0]);
    assert(s[e - 1] as char == t[t.len() - 1]);
}

pub proof fn lemma_labels_text(s: Seq<u8>, a: int, e: int)
    requires
        labels_range(s, a, e),
    ensures
        labels_text(slice_text(s, a, e)),
        ascii_range(s, a, e),
{
    let t = slice_text(s, a, e);
    assert forall|j: int| 0 <= j < t.len() implies (#[trigger] t[j]) == '.' || char_in(
        ByteClass::Ldh,
        t[j],
    ) by {
        assert(s[a + j] as char == t[j]);
        if s[a + j] != 46 {
            assert(in_class(ByteClass::Ldh, s[a + j]));
        }
    }
    assert forall|j: int| 0 <= j < t.len() - 1 implies ((#[trigger] t[j]) == '.' ==> char_in(
        ByteClass::Alnum,
        t[j + 1],
    )) && (t[j + 1] == '.' ==> char_in(ByteClass::Alnum, t[j])) by {
        assert(s[a + j] as char == t[j]);
        assert(s[a + j + 1] as char == t[j + 1]);
        assert(in_class(ByteClass::Alnum, s[a + j]) == is_alnum(s[a + j]));
        assert(in_class(ByteClass::Alnum, s[a + j + 1]) == is_alnum(s[a + j + 1]));
    }
    assert(s[a] as char == t[0] && in_class(ByteClass::Alnum, s[a]));
    assert(s[e - 1] as char == t[t.len() - 1] && in_class(ByteClass::Alnum, s[e - 1]));
}

/// Atoms joined by dots stay so when more of them follow.
pub proof fn lemma_atoms_rest(s: Seq<u8>, a: int, i: int)
    requires
        atoms_range(s, a, i),
    ensures
        atoms_range(s, a, spec_atoms_rest(s, i)),
    decreases s.len() - i,
{
    if byte_at(s, i, 46) {
        lemma_run_end(s, i + 1, ByteClass::Atext);
        match spec_atom(s, i + 1) {
            Some(e) => {
                assert(atoms_range(s, a, e));
                lemma_atoms_rest(s, a, e);
            },
            None => {},
        }
    }
}

/// A dot string is made of atoms joined by single dots.
pub proof fn lemma_dot_string(s: Seq<u8>, i: int)
    requires
        0 <= i <= s.len(),
    ensures
        spec_dot_string(s, i) matches Some(e) ==> atoms_range(s, i, e),
{
    lemma_run_end(s, i, ByteClass::Atext);
    match spec_atom(s, i) {
        Some(e) => {
            assert(atoms_range(s, i, e));
            lemma_atoms_rest(s, i, e);
        },
        None => {},
    }
}

/// A label starts and ends with a letter or digit and holds letters, digits
/// and hyphens only.
pub proof fn lemma_sub_domain(s: Seq<u8>, i: int)
    requires
        0 <= i <= s.len(),
    ensures
        spec_sub_domain(s, i) matches Some(e) ==> i < e <= s.len() && is_alnum(s[i]) && is_alnum(
            s[e - 1],
        ) && forall|j: int| i <= j < e ==> in_class(ByteClass::Ldh, #[trigger] s[j]),
{
    if i < s.len() {
        lemma_run_end(s, i + 1, ByteClass::Ldh);
    }
}

/// Labels joined by dots stay so when more of them follow.
pub proof fn lemma_labels_rest(s: Seq<u8>, a: int, i: int)
    requires
        labels_range(s, a, i),
    ensures
        labels_range(s, a, spec_labels_rest(s, i)),
    decreases s.len() - i,
{
    if byte_at(s, i, 46) {
        lemma_sub_domain(s, i + 1);
        match spec_sub_domain(s, i + 1) {
            Some(e) => {
                assert(labels_range(s, a, e));
                lemma_labels_rest(s, a, e);
            },
            None => {},
        }
    }
}

/// A domain is made of labels joined by single dots.
pub proof fn lemma_domain(s: Seq<u8>, i: int)
    requires
        0 <= i <= s.len(),
    ensures
        spec_domain(s, i) matches Some(e) ==> labels_range(s, i, e),
{
    lemma_sub_domain(s, i);
    match spec_sub_domain(s, i) {
        Some(e) => {
            assert(labels_range(s, i, e));
            lemma_labels_rest(s, i, e);
        },
        None => {},
    }
}

/// The content of a quoted string is printable.
pub proof fn lemma_qcontent(s: Seq<u8>, i: int)
    requires
        0 <= i,
    ensures
        printable_text(spec_qcontent_rest(s, i).1),
        spec_qcontent_rest(s, i).0 >= i,
    decreases s.len() - i,
{
    if 0 <= i < s.len() && is_qtext(s[i]) {
        lemma_qcontent(s, i + 1);
    } else if byte_at(s, i, 92) && i + 1 < s.len() && is_escapable(s[i + 1]) {
        lemma_qcontent(s, i + 2);
    }
}

/// A parameter that the grammar produces is well formed.
pub proof fn lemma_param(s: Seq<u8>, i: int)
    requires
        0 <= i <= s.len(),
    ensures
        spec_esmtp_param(s, i) matches Some((e, p)) ==> p.wf() && i < e <= s.len(),
{
    lemma_run_end(s, i, ByteClass::Alnum);
    let k = run_end(s, i, ByteClass::Alnum);
    if k > i {
        lemma_run_text(s, i, k, ByteClass::Alnum);
        if k < s.len() {
            lemma_run_end(s, k + 1, ByteClass::EsmtpValue);
            let v = run_end(s, k + 1, ByteClass::EsmtpValue);
            if v > k + 1 {
                lemma_run_text(s, k + 1, v, ByteClass::EsmtpValue);
            }
        }
    }
}

/// The parameters that follow the first are well formed.
pub proof fn lemma_params_rest(s: Seq<u8>, i: int)
    requires
        0 <= i <= s.len(),
    ensures
        params_wf(spec_params_rest(s, i).1),
    decreases s.len() - i,
{
    lemma_run_end(s, i, ByteClass::Wsp);
    let w = run_end(s, i, ByteClass::Wsp);
    if i < w {
        lemma_param(s, w);
        match spec_esmtp_param(s, w) {
            Some((e, p)) => {
                lemma_params_rest(s, e);
                let rest = spec_params_rest(s, e).1;
                let all = seq![p] + rest;
                assert forall|j: int| 0 <= j < all.len() implies (#[trigger] all[j]).wf() by {
                    if j > 0 {
                        assert(all[j] == rest[j - 1]);
                    }
                }
            },
            None => {},
        }
    }
}

/// The values that the rules produce have the shape that their kind asks
/// for: a keyword of letters and digits, a parameter value of value bytes,
/// atoms joined by single dots, a printable quoted text, labels that neither
/// start nor end with a hyphen, a tag and a value of their classes; and no
/// rule but the constructor of a literal from text gives a free-form literal.
pub proof fn law_values_well_formed(s: Seq<u8>, i: int, v6: Ipv6Answer)
    requires
        0 <= i <= s.len(),
    ensures
        spec_esmtp_params(s, i) matches Some((_, ps)) ==> params_wf(ps),
        params_wf(spec_opt_params(s, i).1),
        spec_local_part(s, i) matches Some((_, l)) ==> l.wf(),
        spec_general_address_literal(s, i) matches Some((_, lit)) ==> lit.wf(),
        spec_inner_address_literal(s, i, v6) matches Step::Match(_, lit) ==> lit.wf() && !(lit
            is FreeForm),
        spec_address_literal(s, i, v6) matches Step::Match(_, lit) ==> lit.wf() && !(lit
            is FreeForm),
        spec_domain_part(s, i, v6) matches Step::Match(_, d) ==> d.wf(),
        spec_mailbox(s, i, v6) matches Step::Match(_, m) ==> m.wf(),
        spec_path(s, i, v6) matches Step::Match(_, m) ==> m.wf(),
        spec_reverse_path(s, i, v6) matches Step::Match(_, p) ==> p.wf(),
        spec_forward_path(s, i, v6) matches Step::Match(_, p) ==> p.wf(),
{
    lemma_values(s, i, v6);
    if i < s.len() {
        lemma_values(s, i + 1, v6);
        lemma_params(s, i + 1);
        let j = spec_route_skip(s, i + 1);
        if 0 <= j <= s.len() {
            lemma_values(s, j, v6);
        }
    }
    lemma_params(s, i);
    assert(params_wf(Seq::<EsmtpParamView>::empty()));
}

/// A parameter list that the grammar produces is well formed.
pub proof fn lemma_params(s: Seq<u8>, i: int)
    requires
        0 <= i <= s.len(),
    ensures
        spec_esmtp_params(s, i) matches Some((_, ps)) ==> params_wf(ps),
{
    lemma_param(s, i);
    match spec_esmtp_param(s, i) {
        Some((e, p)) => {
            lemma_params_rest(s, e);
            let rest = spec_params_rest(s, e).1;
            let all = seq![p] + rest;
            assert forall|j: int| 0 <= j < all.len() implies (#[trigger] all[j]).wf() by {
                if j > 0 {
                    assert(all[j] == rest[j - 1]);
                }
            }
        },
        None => {},
    }
}

/// A tagged literal has a tag and a value of their classes.
pub proof fn lemma_general(s: Seq<u8>, i: int)
    requires
        0 <= i <= s.len(),
    ensures
        spec_general_address_literal(s, i) matches Some((_, lit)) ==> lit.wf() && lit is Tagged,
{
    lemma_run_end(s, i, ByteClass::Ldh);
    match spec_ldh_str(s, i) {
        Some(t) => {
            lemma_run_text(s, i, t, ByteClass::Ldh);
            assert(slice_text(s, i, t)[t - i - 1] == s[t - 1] as char);
            if t < s.len() {
                lemma_run_end(s, t + 1, ByteClass::Dcontent);
                let e = run_end(s, t + 1, ByteClass::Dcontent);
                if e > t + 1 {
                    lemma_run_text(s, t + 1, e, ByteClass::Dcontent);
                }
            }
        },
        None => {},
    }
}

/// A domain part is a well-formed domain or a literal of a formal kind.
pub proof fn lemma_domain_part(s: Seq<u8>, i: int, v6: Ipv6Answer)
    requires
        0 <= i <= s.len(),
    ensures
        spec_domain_part(s, i, v6) matches Step::Match(_, d) ==> d.wf(),
{
    lemma_domain(s, i);
    match spec_domain(s, i) {
        Some(e) => {
            lemma_labels_text(s, i, e);
        },
        None => {
            if i < s.len() {
                lemma_general(s, i + 1);
            }
        },
    }
}

/// The rules from the local part up to the mailbox give well-formed values.
pub proof fn lemma_values(s: Seq<u8>, i: int, v6: Ipv6Answer)
    requires
        0 <= i <= s.len(),
    ensures
        spec_local_part(s, i) matches Some((e, l)) ==> l.wf() && i < e <= s.len(),
        spec_general_address_literal(s, i) matches Some((_, lit)) ==> lit.wf() && lit is Tagged,
        spec_inner_address_literal(s, i, v6) matches Step::Match(_, lit) ==> lit.wf() && !(lit
            is FreeForm),
        spec_domain_part(s, i, v6) matches Step::Match(_, d) ==> d.wf(),
        spec_mailbox(s, i, v6) matches Step::Match(_, m) ==> m.wf(),
{
    lemma_dot_string(s, i);
    match spec_dot_string(s, i) {
        Some(e) => {
            lemma_atoms_text(s, i, e);
        },
        None => {
            lemma_qcontent(s, i + 1);
        },
    }
    lemma_general(s, i);
    lemma_domain_part(s, i, v6);
    match spec_local_part(s, i) {
        Some((l, _)) => {
            if l + 1 <= s.len() {
                lemma_domain_part(s, l + 1, v6);
            }
        },
        None => {},
    }
}

} // verus!
