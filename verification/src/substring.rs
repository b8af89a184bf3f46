//! Occurrence of one sequence inside another, and the search for it in strings.

use crate::encoding::{lemma_encode_concat, lemma_encode_len, lemma_encode_scalar_first_byte, lemma_seam_is_boundary, lemma_split_chars};
use vstd::prelude::*;
use vstd::string::*;
use vstd::utf8::*;

verus! {

/// `needle` stands in `hay` at offset `at`.
pub open spec fn occurs_at<T>(needle: Seq<T>, hay: Seq<T>, at: int) -> bool {
    &&& 0 <= at
    &&& at + needle.len() <= hay.len()
    &&& hay.subrange(at, at + needle.len()) == needle
}

/// `needle` is a contiguous part of `hay`.
pub open spec fn occurs_in<T>(needle: Seq<T>, hay: Seq<T>) -> bool {
    exists|at: int| occurs_at(needle, hay, at)
}

/// The empty sequence occurs in every sequence.
pub proof fn lemma_empty_occurs<T>(hay: Seq<T>)
    ensures
        occurs_in(Seq::<T>::empty(), hay),
{
    assert(hay.subrange(0, 0) =~= Seq::<T>::empty());
    assert(occurs_at(Seq::<T>::empty(), hay, 0));
}

/// A string occurs in another exactly where its encoding occurs in the
/// encoding of the other.
pub proof fn lemma_occurs_in_encoding(needle: Seq<char>, hay: Seq<char>)
    ensures
        occurs_in(encode_utf8(needle), encode_utf8(hay)) <==> occurs_in(needle, hay),
{
    let needle_bytes = encode_utf8(needle);
    let hay_bytes = encode_utf8(hay);
    if occurs_in(needle, hay) {
        let at = choose|at: int| occurs_at(needle, hay, at);
        let before = hay.take(at);
        let after = hay.skip(at + needle.len());
        assert(hay =~= before + needle + after);
        lemma_encode_concat(before + needle, after);
        lemma_encode_concat(before, needle);
        let byte_at = encode_utf8(before).len() as int;
        assert(hay_bytes.subrange(byte_at, byte_at + needle_bytes.len()) =~= needle_bytes);
        assert(occurs_at(needle_bytes, hay_bytes, byte_at));
    }
    if occurs_in(needle_bytes, hay_bytes) {
        if needle.len() == 0 {
            lemma_empty_occurs(hay);
            assert(needle =~= Seq::<char>::empty());
        } else {
            let byte_at = choose|at: int| occurs_at(needle_bytes, hay_bytes, at);
            let found = hay_bytes.subrange(byte_at, byte_at + needle_bytes.len());
            encode_utf8_valid_utf8(hay);
            encode_utf8_valid_utf8(needle);
            lemma_encode_len(needle);
            char_is_scalar(needle[0]);
            lemma_encode_scalar_first_byte(needle[0] as u32);
            assert(hay_bytes[byte_at] == found[0]);
            is_char_boundary_iff_not_is_continuation_byte(hay_bytes, byte_at);
            valid_utf8_split(hay_bytes, byte_at);
            let front_bytes = hay_bytes.take(byte_at);
            let back_bytes = hay_bytes.skip(byte_at);
            assert(front_bytes == hay_bytes.subrange(0, byte_at));
            assert(back_bytes == hay_bytes.subrange(byte_at, hay_bytes.len() as int));
            let rest_bytes = hay_bytes.skip(byte_at + needle_bytes.len());
            assert(back_bytes =~= needle_bytes + rest_bytes);
            lemma_seam_is_boundary(needle_bytes, rest_bytes);
            valid_utf8_split(back_bytes, needle_bytes.len() as int);
            assert(rest_bytes =~= back_bytes.subrange(
                needle_bytes.len() as int,
                back_bytes.len() as int,
            ));
            let front = decode_utf8(front_bytes);
            let back = decode_utf8(back_bytes);
            let rest = decode_utf8(rest_bytes);
            decode_utf8_encode_utf8(front_bytes);
            decode_utf8_encode_utf8(back_bytes);
            decode_utf8_encode_utf8(rest_bytes);
            lemma_split_chars(hay, front, back, byte_at);
            assert(needle_bytes =~= back_bytes.take(needle_bytes.len() as int));
            assert(rest_bytes =~= back_bytes.skip(needle_bytes.len() as int));
            lemma_split_chars(back, needle, rest, needle_bytes.len() as int);
            assert(hay.subrange(front.len() as int, front.len() as int + needle.len()) =~= needle);
            assert(occurs_at(needle, hay, front.len() as int));
        }
    }
}

/// Whether `needle` stands in `hay` at offset `at`.
fn stands_at(hay: &[u8], needle: &[u8], at: usize) -> (same: bool)
    requires
        at + needle.len() <= hay.len(),
    ensures
        same == occurs_at(needle@, hay@, at as int),
{
    let mut i: usize = 0;
    while i < needle.len()
        invariant
            i <= needle.len(),
            at + needle.len() <= hay.len(),
            forall|j: int| 0 <= j < i ==> hay@[at + j] == needle@[j],
        decreases needle.len() - i,
    {
        if hay[at + i] != needle[i] {
            proof {
                assert(hay@.subrange(at as int, at + needle.len())[i as int] == hay@[at + i]);
            }
            return false;
        }
        i = i + 1;
    }
    proof {
        assert(hay@.subrange(at as int, at + needle.len()) =~= needle@);
    }
    true
}

/// Whether `needle` occurs in `hay`, tried at each offset in turn.
fn occurs(hay: &[u8], needle: &[u8]) -> (found: bool)
    ensures
        found == occurs_in(needle@, hay@),
{
    if needle.len() > hay.len() {
        return false;
    }
    let last: usize = hay.len() - needle.len();
    let mut at: usize = 0;
    loop
        invariant
            at <= last,
            last == hay.len() - needle.len(),
            forall|i: int| 0 <= i < at ==> !occurs_at(needle@, hay@, i),
        decreases last - at,
    {
        if stands_at(hay, needle, at) {
            return true;
        }
        if at == last {
            return false;
        }
        at = at + 1;
    }
}

/// Whether `needle` occurs in `hay`. The empty string occurs in every string.
pub fn contains(hay: &str, needle: &str) -> (found: bool)
    ensures
        found == occurs_in(needle@, hay@),
{
    proof {
        lemma_occurs_in_encoding(needle@, hay@);
    }
    occurs(hay.as_bytes(), needle.as_bytes())
}

} // verus!
