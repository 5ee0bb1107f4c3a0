//! Facts about UTF-8 that let the parser cut a document at its ASCII
//! delimiters and decode the pieces.

use vstd::prelude::*;
use vstd::utf8::*;

verus! {

/// True for the bytes below 128, each of which encodes one character.
pub open spec fn is_ascii_byte(b: u8) -> bool {
    b <= 0x7f
}

/// The characters that the bytes of `s` from `from` up to `to` encode.
pub open spec fn text(s: Seq<u8>, from: int, to: int) -> Seq<char> {
    decode_utf8(s.subrange(from, to))
}

/// In well-formed UTF-8 an ASCII byte starts a character, and the next
/// character starts right after it.
pub proof fn lemma_ascii_boundaries(s: Seq<u8>, i: int)
    requires
        valid_utf8(s),
        0 <= i < s.len(),
        is_ascii_byte(s[i]),
    ensures
        is_char_boundary(s, i),
        is_char_boundary(s, i + 1),
{
    is_char_boundary_iff_not_is_continuation_byte(s, i);
    valid_utf8_split(s, i);
    let tail = s.subrange(i, s.len() as int);
    assert(tail[0] == s[i]);
    assert(is_leading_byte_width_1(tail[0]));
    assert(valid_first_scalar(tail));
    assert(length_of_first_scalar(tail) == 1);
    let after = pop_first_scalar(tail);
    assert(valid_utf8(after));
    assert(after =~= s.subrange(i + 1, s.len() as int));
    if i + 1 == s.len() {
        is_char_boundary_start_end_of_seq(s);
    } else {
        assert(after[0] == s[i + 1]);
        assert(valid_first_scalar(after));
        assert(!is_continuation_byte(after[0]));
        is_char_boundary_iff_not_is_continuation_byte(s, i + 1);
    }
}

/// What lies between two character boundaries of well-formed UTF-8 is
/// well-formed UTF-8.
pub proof fn lemma_piece_is_valid(s: Seq<u8>, from: int, to: int)
    requires
        valid_utf8(s),
        0 <= from <= to <= s.len(),
        is_char_boundary(s, from),
        is_char_boundary(s, to),
    ensures
        valid_utf8(s.subrange(from, to)),
{
    valid_utf8_split(s, to);
    let head = s.subrange(0, to);
    if from == to {
        is_char_boundary_start_end_of_seq(head);
    } else {
        is_char_boundary_iff_not_is_continuation_byte(s, from);
        assert(head[from] == s[from]);
        is_char_boundary_iff_not_is_continuation_byte(head, from);
    }
    valid_utf8_split(head, from);
    assert(head.subrange(from, head.len() as int) =~= s.subrange(from, to));
}

} // verus!
