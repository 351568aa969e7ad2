//! Regular expressions, matched by the `regex` crate.
use vstd::prelude::*;

verus! {

/// A Windows absolute path begins with a drive letter, a colon and a backslash.
pub const WINDOWS_PATH_PATTERN: &'static str = "^[a-zA-Z]:\\\\";

/// A URL import begins with `http://` or `https://`.
pub const URL_PATTERN: &'static str = "^(http|https)://";

/// Whether `text` begins with `http://` or `https://`.
pub open spec fn url_prefixed(text: Seq<char>) -> bool {
    "http://"@.is_prefix_of(text) || "https://"@.is_prefix_of(text)
}

/// Whether `text` begins with an ASCII letter, a colon and a backslash.
pub open spec fn drive_prefixed(text: Seq<char>) -> bool {
    &&& text.len() >= 3
    &&& (('a' <= text[0] && text[0] <= 'z') || ('A' <= text[0] && text[0] <= 'Z'))
    &&& text[1] == ':'
    &&& text[2] == '\\'
}

/// What the two patterns of this library mean, by the syntax of the `regex`
/// crate: `^` is the start of the text, `(a|b)` is either, `[a-zA-Z]` is one
/// ASCII letter, `\\` is a backslash, and every other character is itself.
pub open spec fn known_answer(pattern: Seq<char>, text: Seq<char>, r: Option<bool>) -> bool {
    &&& pattern == URL_PATTERN@ ==> r == Some(url_prefixed(text))
    &&& pattern == WINDOWS_PATH_PATTERN@ ==> r == Some(drive_prefixed(text))
}

/// What the `regex` crate answers for a pattern and a text: `None` where
/// `Regex::new` rejects the pattern, else whether `Regex::is_match` finds a
/// match anywhere in the text.
pub uninterp spec fn regex_is_match(pattern: Seq<char>, text: Seq<char>) -> Option<bool>;

/// Compiles `pattern` with `Regex::new` and asks `Regex::is_match` about
/// `text`. The contract names the answer, and says what it is for the two
/// patterns of this library; of any other pattern nothing more is claimed.
#[verifier::external_body]
pub(crate) fn regex_search(pattern: &str, text: &str) -> (r: Option<bool>)
    ensures
        r == regex_is_match(pattern@, text@),
        known_answer(pattern@, text@, r),
{
    regex::Regex::new(pattern).ok().map(|re| re.is_match(text))
}

/// Whether `text` matches `pattern`. A pattern that does not compile matches
/// nothing.
pub open spec fn pattern_matches(pattern: Seq<char>, text: Seq<char>) -> bool {
    regex_is_match(pattern, text) == Some(true)
}

/// Whether `text` matches `pattern`.
pub fn is_match(pattern: &str, text: &str) -> (r: bool)
    ensures
        r == pattern_matches(pattern@, text@),
        pattern@ == URL_PATTERN@ ==> r == url_prefixed(text@),
        pattern@ == WINDOWS_PATH_PATTERN@ ==> r == drive_prefixed(text@),
{
    match regex_search(pattern, text) {
        Some(found) => found,
        None => false,
    }
}

} // verus!
