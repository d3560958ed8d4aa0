//! Cutting text at single-byte characters.
//!
//! A byte below 0x80 in well-formed UTF-8 is a character of its own, so text
//! can be cut in front of it and behind it.

use vstd::prelude::*;
use vstd::string::StringSliceAdditionalSpecFns;
use vstd::utf8::{
    encode_utf8_valid_utf8, is_char_boundary, is_char_boundary_iff_not_is_continuation_byte,
    is_char_boundary_start_end_of_seq, is_continuation_byte, pop_first_scalar, valid_utf8,
    valid_utf8_split,
};

verus! {

/// Whether `b` is a character of its own in UTF-8.
pub open spec fn is_single(b: u8) -> bool {
    b < 0x80
}

/// Well-formed UTF-8 can be cut in front of a single-byte character and
/// behind it.
pub proof fn lemma_cut_at_single(bytes: Seq<u8>, i: int)
    requires
        valid_utf8(bytes),
        0 <= i < bytes.len(),
        is_single(bytes[i]),
    ensures
        is_char_boundary(bytes, i),
        is_char_boundary(bytes, i + 1),
{
    is_char_boundary_iff_not_is_continuation_byte(bytes, i);
    assert(!is_continuation_byte(bytes[i]));
    if i + 1 == bytes.len() {
        is_char_boundary_start_end_of_seq(bytes);
    } else {
        let from = bytes.subrange(i, bytes.len() as int);
        valid_utf8_split(bytes, i);
        assert(from[0] == bytes[i]);
        let behind = pop_first_scalar(from);
        assert(valid_utf8(behind));
        assert(behind =~= bytes.subrange(i + 1, bytes.len() as int));
        assert(behind[0] == bytes[i + 1]);
        assert(!is_continuation_byte(behind[0]));
        is_char_boundary_iff_not_is_continuation_byte(bytes, i + 1);
    }
}

/// The text in front of the `i`-th byte of `s`, where that byte is a
/// single-byte character or the end of the text.
pub(crate) fn text_before<'a>(s: &'a str, i: usize) -> (r: &'a str)
    requires
        i <= s.spec_bytes().len(),
        i < s.spec_bytes().len() ==> is_single(s.spec_bytes()[i as int]),
    ensures
        r.spec_bytes() == s.spec_bytes().take(i as int),
{
    proof {
        encode_utf8_valid_utf8(s@);
        if i < s.spec_bytes().len() {
            lemma_cut_at_single(s.spec_bytes(), i as int);
        } else {
            is_char_boundary_start_end_of_seq(s.spec_bytes());
        }
    }
    s.split_at(i).0
}

/// The text from the `i`-th byte of `s` on, where the byte in front of it
/// is a single-byte character.
pub(crate) fn text_from<'a>(s: &'a str, i: usize) -> (r: &'a str)
    requires
        0 < i <= s.spec_bytes().len(),
        is_single(s.spec_bytes()[i - 1]),
    ensures
        r.spec_bytes() == s.spec_bytes().skip(i as int),
{
    proof {
        encode_utf8_valid_utf8(s@);
        lemma_cut_at_single(s.spec_bytes(), i - 1);
    }
    s.split_at(i).1
}

} // verus!
