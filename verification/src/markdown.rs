//! Finding the fenced block of release notes in the body of a tracking issue.

use vstd::prelude::*;

verus! {

/// The pattern of a fenced block tagged `markdown`: at the start of a line a
/// fence of three or more backticks and the tag, then the block's text up to
/// the nearest line that repeats the fence. Lines may end in LF or CRLF. The
/// block's text is the second group.
pub const MARKDOWN_PATTERN: &'static str = "(?ms)^(`{3,})markdown\\r?\\n(.*?)^\\1\\r?\\n";

/// The group of `MARKDOWN_PATTERN` that holds the block's text.
pub const MARKDOWN_GROUP: usize = 2;

/// What capture group `group` holds in the first match of `pattern` in
/// `text`: `None` where the pattern is not a regular expression, where it does
/// not match, where the search is given up, and where the group took no part
/// in the match.
pub uninterp spec fn regex_capture(pattern: Seq<char>, text: Seq<char>, group: nat) -> Option<
    Seq<char>,
>;

/// `fancy_regex::Regex::new`, `Regex::captures` and `Captures::get`: compiles
/// the pattern, searches the text for its first match and copies what the
/// group captured. The contract only gives that result its name; nothing is
/// claimed of what the pattern matches. `Captures::get` doubles the number of
/// the group, so the number must leave room for that.
#[verifier::external_body]
fn capture_group(pattern: &str, text: &str, group: usize) -> (found: Option<String>)
    requires
        group <= usize::MAX / 2,
    ensures
        match found {
            Some(s) => regex_capture(pattern@, text@, group as nat) == Some(s@),
            None => regex_capture(pattern@, text@, group as nat) is None,
        },
{
    match fancy_regex::Regex::new(pattern) {
        Ok(re) => match re.captures(text) {
            Ok(Some(captures)) => match captures.get(group) {
                Some(m) => Some(m.as_str().to_owned()),
                None => None,
            },
            _ => None,
        },
        Err(_) => None,
    }
}

/// The text of the first fenced `markdown` block of a body, if there is one.
pub open spec fn markdown_block(body: Seq<char>) -> Option<Seq<char>> {
    regex_capture(MARKDOWN_PATTERN@, body, MARKDOWN_GROUP as nat)
}

/// Finds the first fenced `markdown` block of a body and returns its text.
pub fn find_markdown_block(body: &str) -> (block: Option<String>)
    ensures
        match block {
            Some(s) => markdown_block(body@) == Some(s@),
            None => markdown_block(body@) is None,
        },
{
    capture_group(MARKDOWN_PATTERN, body, MARKDOWN_GROUP)
}

} // verus!
