//! Literal substring matching on status texts.

use vstd::prelude::*;

verus! {

/// `pattern` stands somewhere in `text` as a contiguous run of characters.
pub open spec fn occurs_in(pattern: Seq<char>, text: Seq<char>) -> bool {
    exists|i: int|
        0 <= i && i + pattern.len() <= text.len() && #[trigger] text.subrange(i, i + pattern.len())
            == pattern
}

/// The characters of an optional text.
pub open spec fn text_option(s: Option<String>) -> Option<Seq<char>> {
    match s {
        Some(v) => Some(v@),
        None => None,
    }
}

/// Relies on `str::contains` with a `&str` pattern: true exactly when the
/// pattern matches a sub-slice of the text (case-sensitive, literal).
#[verifier::external_body]
pub(crate) fn contains_text(text: &str, pattern: &str) -> (r: bool)
    ensures
        r == occurs_in(pattern@, text@),
{
    text.contains(pattern)
}

/// Whether some text of `texts` contains `pattern`.
pub fn any_contains(texts: &Vec<String>, pattern: &str) -> (r: bool)
    ensures
        r == exists|j: int| 0 <= j < texts@.len() && occurs_in(pattern@, #[trigger] texts@[j]@),
{
    let mut i: usize = 0;
    while i < texts.len()
        invariant
            i <= texts@.len(),
            forall|j: int| 0 <= j < i ==> !occurs_in(pattern@, #[trigger] texts@[j]@),
        decreases texts@.len() - i,
    {
        if contains_text(texts[i].as_str(), pattern) {
            return true;
        }
        i += 1;
    }
    false
}

} // verus!
