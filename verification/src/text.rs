//! Text made from matched bytes.

use vstd::prelude::*;

verus! {

/// `String::push` appends the given character to the end of the string.
pub assume_specification[ String::push ](s: &mut String, c: char)
    ensures
        final(s)@ == old(s)@.push(c),
;

/// The characters that a sequence of bytes stands for, one for each byte.
pub open spec fn ascii_text(b: Seq<u8>) -> Seq<char> {
    Seq::new(b.len(), |j: int| b[j] as char)
}

/// The text of the bytes of `s` from `i` up to `e`.
pub open spec fn slice_text(s: Seq<u8>, i: int, e: int) -> Seq<char> {
    ascii_text(s.subrange(i, e))
}

/// The bytes from `a` up to `e` are ASCII.
pub open spec fn ascii_range(s: Seq<u8>, a: int, e: int) -> bool {
    &&& 0 <= a <= e <= s.len()
    &&& forall|j: int| a <= j < e ==> (#[trigger] s[j]) < 128
}

/// Copies the ASCII bytes of `s` from `i` up to `e` into a string, one
/// character for each byte.
pub fn text_of(s: &[u8], i: usize, e: usize) -> (out: String)
    requires
        ascii_range(s@, i as int, e as int),
    ensures
        out@ == slice_text(s@, i as int, e as int),
{
    let mut out = String::new();
    let mut j: usize = i;
    while j < e
        invariant
            i <= j <= e <= s.len(),
            out@ == slice_text(s@, i as int, j as int),
        decreases e - j,
    {
        out.push(s[j] as char);
        j = j + 1;
        assert(out@ =~= slice_text(s@, i as int, j as int));
    }
    assert(out@ =~= slice_text(s@, i as int, e as int));
    out
}

} // verus!
