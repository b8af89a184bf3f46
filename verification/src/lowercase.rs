//! The lowercase form of a text.
//!
//! Lowercasing follows Unicode: it is not a map over single characters (a
//! character may turn into several, and a capital sigma turns into one of two
//! letters by its place in the word), so this library does not spell it out.
//! It takes the standard library's answer and gives that answer a name.

use vstd::prelude::*;
use vstd::string::*;

verus! {

/// What `str::to_lowercase` returns for a string with the characters `text`.
pub uninterp spec fn lowercase(text: Seq<char>) -> Seq<char>;

/// Calls `str::to_lowercase` of the standard library.
///
/// Not proved, but taken from that function: what it returns depends on the
/// characters of `text` alone, so it is `lowercase` of them. Nothing else is
/// claimed of it.
#[verifier::external_body]
fn to_lowercase(text: &str) -> (lowered: String)
    ensures
        lowered@ == lowercase(text@),
{
    text.to_lowercase()
}

/// The form in which a text is compared where case does not count: its
/// lowercase form. A text without characters has none to lower and is its own
/// folded form.
pub open spec fn folded(text: Seq<char>) -> Seq<char> {
    if text.len() == 0 {
        text
    } else {
        lowercase(text)
    }
}

/// Folds `text` for a comparison in which case does not count.
pub fn fold(text: &str) -> (out: String)
    ensures
        out@ == folded(text@),
{
    if text.is_empty() {
        String::new()
    } else {
        to_lowercase(text)
    }
}

} // verus!
