//! Facts that tie the characters of a string to the bytes of its UTF-8 form.
//!
//! Strings are searched byte by byte, while what the search finds is stated
//! over characters. The lemmas here carry a fact from one side to the other.

use vstd::prelude::*;
use vstd::utf8::*;

verus! {

/// A scalar below 0x80 is encoded as the one byte of the same value.
pub proof fn lemma_encode_ascii_scalar(scalar: u32)
    requires
        scalar < 0x80,
    ensures
        encode_scalar(scalar) == seq![scalar as u8],
{
    assert(leading_byte_width_1(scalar) == scalar as u8) by (bit_vector)
        requires
            scalar < 0x80,
    ;
}

/// The first byte of a scalar's encoding is below 0x80 only where the scalar
/// itself is, and a scalar's encoding is never empty.
pub proof fn lemma_encode_scalar_first_byte(scalar: u32)
    requires
        is_scalar(scalar),
    ensures
        1 <= encode_scalar(scalar).len() <= 4,
        !is_continuation_byte(encode_scalar(scalar)[0]),
        encode_scalar(scalar)[0] < 0x80 <==> scalar < 0x80,
{
    if has_width_1_encoding(scalar) {
        assert(leading_byte_width_1(scalar) < 0x80) by (bit_vector)
            requires
                scalar <= 0x7F,
        ;
    } else if has_width_2_encoding(scalar) {
        assert(leading_byte_width_2(scalar) >= 0xC0) by (bit_vector);
    } else if has_width_3_encoding(scalar) {
        assert(leading_byte_width_3(scalar) >= 0xE0) by (bit_vector);
    } else {
        assert(leading_byte_width_4(scalar) >= 0xF0) by (bit_vector);
    }
}

/// The encoding of a concatenation is the concatenation of the encodings.
pub proof fn lemma_encode_concat(left: Seq<char>, right: Seq<char>)
    ensures
        encode_utf8(left + right) == encode_utf8(left) + encode_utf8(right),
    decreases left.len(),
{
    if left.len() == 0 {
        assert(left + right =~= right);
        assert(encode_utf8(left) + encode_utf8(right) =~= encode_utf8(right));
    } else {
        lemma_encode_concat(left.drop_first(), right);
        assert((left + right).drop_first() =~= left.drop_first() + right);
        assert((left + right)[0] == left[0]);
        assert(encode_utf8(left + right) =~= encode_utf8(left) + encode_utf8(right));
    }
}

/// Every character takes at least one byte.
pub proof fn lemma_encode_len(chars: Seq<char>)
    ensures
        chars.len() <= encode_utf8(chars).len(),
    decreases chars.len(),
{
    if chars.len() > 0 {
        char_is_scalar(chars[0]);
        lemma_encode_scalar_first_byte(chars[0] as u32);
        lemma_encode_len(chars.drop_first());
    }
}

/// A string begins with the ASCII character `ascii` exactly where its
/// encoding begins with that character's byte, and the bytes after it then
/// encode the characters after it.
pub proof fn lemma_ascii_first_byte(chars: Seq<char>, ascii: char)
    requires
        chars.len() > 0,
        (ascii as u32) < 0x80,
    ensures
        encode_utf8(chars).len() > 0,
        encode_utf8(chars)[0] == ascii as u8 <==> chars[0] == ascii,
        chars[0] == ascii ==> encode_utf8(chars).skip(1) == encode_utf8(chars.drop_first()),
{
    let scalar = chars[0] as u32;
    char_is_scalar(chars[0]);
    char_u32_cast(chars[0], scalar);
    char_u32_cast(ascii, ascii as u32);
    lemma_encode_scalar_first_byte(scalar);
    if scalar < 0x80 {
        lemma_encode_ascii_scalar(scalar);
        assert(encode_utf8(chars).skip(1) =~= encode_utf8(chars.drop_first()));
    }
}

/// An ASCII character at offset `at` shows as its byte in the encoding, at
/// the offset where the encoding of the characters before it ends.
pub proof fn lemma_ascii_char_byte(chars: Seq<char>, at: int)
    requires
        0 <= at < chars.len(),
        (chars[at] as u32) < 0x80,
    ensures
        encode_utf8(chars.take(at)).len() < encode_utf8(chars).len(),
        encode_utf8(chars)[encode_utf8(chars.take(at)).len() as int] == chars[at] as u8,
{
    lemma_encode_concat(chars.take(at), chars.skip(at));
    assert(chars.take(at) + chars.skip(at) =~= chars);
    lemma_ascii_first_byte(chars.skip(at), chars[at]);
}

/// Where a valid encoding continues a valid encoding, the seam between the two
/// falls between characters.
pub proof fn lemma_seam_is_boundary(head: Seq<u8>, tail: Seq<u8>)
    requires
        valid_utf8(head),
        valid_utf8(head + tail),
    ensures
        is_char_boundary(head + tail, head.len() as int),
    decreases head.len(),
{
    if head.len() > 0 {
        let whole = head + tail;
        assert(valid_first_scalar(head));
        assert(length_of_first_scalar(whole) == length_of_first_scalar(head));
        assert(length_of_first_scalar(head) <= head.len());
        assert(pop_first_scalar(whole) =~= pop_first_scalar(head) + tail);
        lemma_seam_is_boundary(pop_first_scalar(head), tail);
    }
}

/// A string ends with the ASCII character `ascii` exactly where its encoding
/// ends with that character's byte, and the bytes before it then encode the
/// characters before it.
pub proof fn lemma_ascii_last_byte(chars: Seq<char>, ascii: char)
    requires
        chars.len() > 0,
        (ascii as u32) < 0x80,
    ensures
        encode_utf8(chars).len() > 0,
        encode_utf8(chars).last() == ascii as u8 <==> chars.last() == ascii,
        chars.last() == ascii ==> encode_utf8(chars).drop_last() == encode_utf8(
            chars.drop_last(),
        ),
{
    let front = chars.drop_last();
    let back = seq![chars.last()];
    assert(front + back =~= chars);
    lemma_encode_concat(front, back);
    lemma_encode_len(chars);
    let scalar = chars.last() as u32;
    char_is_scalar(chars.last());
    char_u32_cast(chars.last(), scalar);
    char_u32_cast(ascii, ascii as u32);
    lemma_encode_scalar_first_byte(scalar);
    assert(encode_utf8(back) =~= encode_scalar(scalar)) by {
        reveal_with_fuel(encode_utf8, 2);
    }
    if scalar < 0x80 {
        lemma_encode_ascii_scalar(scalar);
        assert(encode_utf8(chars).drop_last() =~= encode_utf8(front));
    } else {
        lemma_last_byte_of_wide_scalar(scalar);
    }
}

/// The encoding of a scalar from 0x80 on ends with a continuation byte.
pub proof fn lemma_last_byte_of_wide_scalar(scalar: u32)
    requires
        is_scalar(scalar),
        scalar >= 0x80,
    ensures
        encode_scalar(scalar).last() >= 0x80,
{
    assert(last_continuation_byte(scalar) >= 0x80) by (bit_vector);
}

/// Cutting an encoding between two characters cuts the string: the characters
/// of the two parts, one after the other, are those of the whole.
pub proof fn lemma_split_chars(whole: Seq<char>, left: Seq<char>, right: Seq<char>, mid: int)
    requires
        is_char_boundary(encode_utf8(whole), mid),
        0 <= mid <= encode_utf8(whole).len(),
        encode_utf8(left) =~= encode_utf8(whole).take(mid),
        encode_utf8(right) =~= encode_utf8(whole).skip(mid),
    ensures
        whole == left + right,
{
    let bytes = encode_utf8(whole);
    encode_utf8_valid_utf8(whole);
    decode_utf8_split(bytes, mid);
    encode_utf8_decode_utf8(whole);
    encode_utf8_decode_utf8(left);
    encode_utf8_decode_utf8(right);
    assert(bytes.take(mid) == bytes.subrange(0, mid));
    assert(bytes.skip(mid) == bytes.subrange(mid, bytes.len() as int));
}

} // verus!
