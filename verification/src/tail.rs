//! Facts about the last scalar of a valid UTF-8 byte sequence.
//!
//! `vstd::utf8` describes a valid sequence from the front: a first scalar
//! encoding followed by a valid remainder. Removing the last character needs
//! the mirrored view: in a nonempty valid sequence, scanning backwards over
//! continuation bytes finds the leading byte of the last scalar within at
//! most four bytes, the cut there is a character boundary, and the bytes cut
//! off are exactly one scalar's encoding.

use vstd::prelude::*;
use vstd::utf8::decode_first_scalar;
use vstd::utf8::decode_last_scalar;
use vstd::utf8::is_char_boundary;
use vstd::utf8::is_continuation_byte;
use vstd::utf8::is_scalar;
use vstd::utf8::length_of_first_scalar;
use vstd::utf8::length_of_last_scalar;
use vstd::utf8::pop_first_scalar;
use vstd::utf8::valid_first_scalar;
use vstd::utf8::valid_utf8;

verus! {

broadcast use vstd::utf8::group_utf8_lib;

/// The scalar at the front of a single well-formed encoding is a Unicode
/// scalar value: in range for its width, not overlong, not a surrogate.
pub proof fn lemma_first_scalar_is_scalar(bytes: Seq<u8>)
    requires
        valid_first_scalar(bytes),
    ensures
        is_scalar(decode_first_scalar(bytes)),
{
    let b0: u8 = bytes[0];
    if vstd::utf8::is_leading_byte_width_1(b0) {
        assert(vstd::utf8::codepoint_width_1(b0) <= 0x7F) by (bit_vector);
    } else if vstd::utf8::is_leading_byte_width_2(b0) {
        let b1: u8 = bytes[1];
        assert(vstd::utf8::codepoint_width_2(b0, b1) <= 0x7FF) by (bit_vector);
    } else if vstd::utf8::is_leading_byte_width_3(b0) {
        let b1: u8 = bytes[1];
        let b2: u8 = bytes[2];
        assert(vstd::utf8::codepoint_width_3(b0, b1, b2) <= 0xFFFF) by (bit_vector);
    }
}

/// In a nonempty valid UTF-8 sequence, the last scalar's encoding is found
/// by scanning backwards: at most three continuation bytes, then its leading
/// byte. The cut before it is a character boundary, and what is cut off is a
/// single well-formed scalar encoding whose value is `decode_last_scalar`.
pub proof fn lemma_last_scalar(s: Seq<u8>)
    requires
        valid_utf8(s),
        s.len() > 0,
    ensures
        1 <= length_of_last_scalar(s),
        length_of_last_scalar(s) <= 4,
        length_of_last_scalar(s) <= s.len(),
        !is_continuation_byte(s[s.len() - length_of_last_scalar(s)]),
        forall|j: int|
            s.len() - length_of_last_scalar(s) < j < s.len() ==> is_continuation_byte(s[j]),
        is_char_boundary(s, s.len() - length_of_last_scalar(s)),
        valid_first_scalar(s.subrange(s.len() - length_of_last_scalar(s), s.len() as int)),
        length_of_first_scalar(s.subrange(s.len() - length_of_last_scalar(s), s.len() as int))
            == length_of_last_scalar(s),
        decode_first_scalar(s.subrange(s.len() - length_of_last_scalar(s), s.len() as int))
            == decode_last_scalar(s),
    decreases s.len(),
{
    let n: int = s.len() as int;
    let w1: int = length_of_first_scalar(s);
    let rest: Seq<u8> = pop_first_scalar(s);
    assert(valid_first_scalar(s) && valid_utf8(rest));
    if rest.len() == 0 {
        assert(w1 == n);
        assert(s.subrange(0, n) =~= s);
    } else {
        lemma_last_scalar(rest);
        let wr: int = length_of_last_scalar(rest);
        assert forall|j: int| 0 <= j < rest.len() implies rest[j] == s[w1 + j] by {}
        assert(!is_continuation_byte(s[n - wr]));
        assert forall|j: int| n - wr < j < n implies is_continuation_byte(s[j]) by {
            assert(s[j] == rest[j - w1]);
        }
        assert(length_of_last_scalar(s) == wr);
        assert(decode_last_scalar(s) == decode_last_scalar(rest));
        assert(s.subrange(n - wr, n) =~= rest.subrange(rest.len() - wr, rest.len() as int));
        assert(is_char_boundary(s, n - wr));
    }
}

} // verus!
