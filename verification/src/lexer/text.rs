use vstd::prelude::*;
use vstd::string::StringSliceAdditionalSpecFns;

verus! {

/// Whether a text can be cut before a byte without cutting through a character.
pub open spec fn is_cut(bytes: Seq<u8>, index: int) -> bool {
    &&& 0 <= index <= bytes.len()
    &&& index < bytes.len() ==> !vstd::utf8::is_continuation_byte(bytes[index])
}

/// A text can be cut behind each of its ASCII characters.
pub proof fn lemma_cut_after_ascii(bytes: Seq<u8>, index: int)
    requires
        vstd::utf8::valid_utf8(bytes),
        0 <= index < bytes.len(),
        bytes[index] < 0x80,
    ensures
        is_cut(bytes, index + 1),
{
    let rest = bytes.subrange(index, bytes.len() as int);
    assert(vstd::utf8::valid_utf8(rest)) by {
        vstd::utf8::is_char_boundary_iff_not_is_continuation_byte(bytes, index);
        vstd::utf8::valid_utf8_split(bytes, index);
    }
    assert(rest[0] == bytes[index]);
    let tail = vstd::utf8::pop_first_scalar(rest);
    assert(vstd::utf8::valid_utf8(tail));
    if index + 1 < bytes.len() {
        assert(tail[0] == bytes[index + 1]);
    }
}

/// The bytes of a text between two cuts, as a text.
pub fn slice_text<'s>(source: &'s str, start: usize, end: usize) -> (slice: &'s str)
    requires
        start <= end,
        is_cut(source.spec_bytes(), start as int),
        is_cut(source.spec_bytes(), end as int),
    ensures
        slice.spec_bytes() == source.spec_bytes().subrange(start as int, end as int),
{
    proof {
        lemma_cut_is_char_boundary(source, start as int);
    }
    let (_, rest) = source.split_at(start);
    proof {
        lemma_cut_is_char_boundary(rest, end - start);
    }
    let (slice, _) = rest.split_at(end - start);
    assert(slice.spec_bytes() =~= source.spec_bytes().subrange(start as int, end as int));
    slice
}

proof fn lemma_cut_is_char_boundary(text: &str, index: int)
    requires
        is_cut(text.spec_bytes(), index),
    ensures
        vstd::utf8::is_char_boundary(text.spec_bytes(), index),
{
    let bytes = text.spec_bytes();
    vstd::utf8::encode_utf8_valid_utf8(text@);
    if index < bytes.len() {
        vstd::utf8::is_char_boundary_iff_not_is_continuation_byte(bytes, index);
    } else {
        vstd::utf8::is_char_boundary_start_end_of_seq(bytes);
    }
}

/// Whether two byte strings are the same.
pub fn same_bytes(left: &[u8], right: &[u8]) -> (same: bool)
    ensures
        same == (left@ == right@),
{
    if left.len() != right.len() {
        return false;
    }
    let mut i: usize = 0;
    while i < left.len()
        invariant
            left.len() == right.len(),
            i <= left.len(),
            forall|k: int| 0 <= k < i ==> left@[k] == right@[k],
        decreases left.len() - i,
    {
        if left[i] != right[i] {
            return false;
        }
        i += 1;
    }
    assert(left@ =~= right@);
    true
}

} // verus!
