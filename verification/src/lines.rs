//! The lines of a text.
//!
//! A line ends at a line feed. A carriage return that stands directly before
//! that line feed belongs to the line ending, not to the line. What follows the
//! last line feed is a line too, unless it is empty.

use crate::encoding::{
    lemma_ascii_char_byte, lemma_ascii_first_byte, lemma_ascii_last_byte, lemma_encode_len,
    lemma_split_chars,
};
use vstd::prelude::*;
use vstd::string::*;
use vstd::utf8::*;

verus! {

/// Offset of the first line feed in `text`, or the length of `text` where it
/// holds none.
pub open spec fn line_end(text: Seq<char>) -> nat
    decreases text.len(),
{
    if text.len() == 0 || text[0] == '\n' {
        0
    } else {
        1 + line_end(text.drop_first())
    }
}

/// The first line of `text`, without its line ending.
pub open spec fn first_line(text: Seq<char>) -> Seq<char> {
    let end = line_end(text) as int;
    if 0 < end < text.len() && text[end - 1] == '\r' {
        text.take(end - 1)
    } else {
        text.take(end)
    }
}

/// What follows the first line of `text` and its line ending.
pub open spec fn after_first_line(text: Seq<char>) -> Seq<char> {
    let end = line_end(text) as int;
    if end < text.len() {
        text.skip(end + 1)
    } else {
        Seq::empty()
    }
}

/// The lines of `text`, in order.
pub open spec fn lines_of(text: Seq<char>) -> Seq<Seq<char>>
    decreases text.len(),
{
    if text.len() == 0 {
        Seq::empty()
    } else {
        seq![first_line(text)] + lines_of(after_first_line(text))
    }
}

/// The first line ends inside the text or at its end.
pub proof fn lemma_line_end_bound(text: Seq<char>)
    ensures
        line_end(text) <= text.len(),
    decreases text.len(),
{
    if text.len() > 0 && text[0] != '\n' {
        lemma_line_end_bound(text.drop_first());
    }
}

/// `line_end` is the one offset with no line feed before it and either a line
/// feed at it or the end of the text.
pub proof fn lemma_line_end_is(text: Seq<char>, end: int)
    requires
        0 <= end <= text.len(),
        forall|i: int| 0 <= i < end ==> text[i] != '\n',
        end < text.len() ==> text[end] == '\n',
    ensures
        line_end(text) == end,
    decreases text.len(),
{
    if end > 0 {
        let rest = text.drop_first();
        assert forall|i: int| 0 <= i < end - 1 implies rest[i] != '\n' by {
            assert(rest[i] == text[i + 1]);
        }
        lemma_line_end_is(rest, end - 1);
    }
}

/// Offset of the first `wanted` in `bytes`, or the length of `bytes`.
fn find_byte(bytes: &[u8], wanted: u8) -> (at: usize)
    ensures
        at <= bytes@.len(),
        forall|i: int| 0 <= i < at ==> bytes@[i] != wanted,
        at < bytes@.len() ==> bytes@[at as int] == wanted,
{
    let mut at: usize = 0;
    while at < bytes.len() && bytes[at] != wanted
        invariant
            at <= bytes@.len(),
            forall|i: int| 0 <= i < at ==> bytes@[i] != wanted,
        decreases bytes@.len() - at,
    {
        at = at + 1;
    }
    at
}

/// Cuts `text` at byte offset `mid`, which falls between two characters.
fn cut<'a>(text: &'a str, mid: usize) -> (parts: (&'a str, &'a str))
    requires
        mid <= text.spec_bytes().len(),
        is_char_boundary(text.spec_bytes(), mid as int),
    ensures
        text@ == parts.0@ + parts.1@,
        parts.0.spec_bytes() == text.spec_bytes().take(mid as int),
        parts.1.spec_bytes() == text.spec_bytes().skip(mid as int),
{
    let parts = text.split_at(mid);
    proof {
        lemma_split_chars(text@, parts.0@, parts.1@, mid as int);
    }
    parts
}

/// Takes the first line off `text`: the line without its ending, and what
/// follows the ending. A text with no characters has no first line.
pub fn next_line<'a>(text: &'a str) -> (parts: Option<(&'a str, &'a str)>)
    ensures
        parts is None <==> text@.len() == 0,
        parts matches Some((line, rest)) ==> line@ == first_line(text@) && rest@
            == after_first_line(text@),
{
    if text.is_empty() {
        return None;
    }
    let bytes = text.as_bytes();
    let end = find_byte(bytes, 0x0A);
    proof {
        encode_utf8_valid_utf8(text@);
        if end < bytes@.len() {
            is_char_boundary_iff_not_is_continuation_byte(bytes@, end as int);
        } else {
            is_char_boundary_start_end_of_seq(bytes@);
        }
    }
    let (head, tail) = cut(text, end);
    proof {
        assert forall|i: int| 0 <= i < head@.len() implies head@[i] != '\n' by {
            if head@[i] == '\n' {
                lemma_ascii_char_byte(head@, i);
            }
        }
        if end < bytes@.len() {
            assert(tail.spec_bytes()[0] == bytes@[end as int]);
            lemma_ascii_first_byte(tail@, '\n');
            assert(tail@[0] == '\n');
        } else {
            lemma_encode_len(tail@);
        }
        lemma_line_end_is(text@, head@.len() as int);
        assert(text@.take(head@.len() as int) =~= head@);
    }
    if end == bytes.len() {
        proof {
            assert(tail@ =~= Seq::<char>::empty());
        }
        return Some((head, tail));
    }
    proof {
        encode_utf8_valid_utf8(tail@);
        reveal_with_fuel(is_char_boundary, 2);
    }
    let (feed, rest) = cut(tail, 1);
    proof {
        lemma_encode_len(feed@);
        assert(feed@.len() == 1);
        assert(rest@ =~= tail@.skip(1));
        assert(text@.skip(head@.len() as int + 1) =~= tail@.skip(1));
    }
    if end > 0 && bytes[end - 1] == 0x0D {
        proof {
            encode_utf8_valid_utf8(head@);
            is_char_boundary_iff_not_is_continuation_byte(head.spec_bytes(), end - 1);
        }
        let (line, back) = cut(head, end - 1);
        proof {
            lemma_encode_len(head@);
            lemma_ascii_last_byte(head@, '\r');
            assert(head@.last() == '\r');
            lemma_encode_len(back@);
            lemma_encode_len(line@);
            assert(back@.len() == 1);
            assert(line@ =~= head@.drop_last());
            assert(text@.take(head@.len() - 1) =~= head@.drop_last());
        }
        Some((line, rest))
    } else {
        proof {
            if head@.len() > 0 {
                lemma_ascii_last_byte(head@, '\r');
            }
        }
        Some((head, rest))
    }
}

} // verus!
