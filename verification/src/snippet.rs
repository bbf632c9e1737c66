//! Finding a caption request in a chat message.

use vstd::prelude::*;

verus! {

/// Whether `needle` occurs somewhere in `text`.
pub open spec fn occurs_in(needle: Seq<char>, text: Seq<char>) -> bool {
    exists|i: int|
        0 <= i <= text.len() - needle.len() && #[trigger] text.subrange(i, i + needle.len())
            == needle
}

/// The leftmost match of the regular expression `pattern` in `text`, a dot
/// matching every character, line breaks too, and the repetitions taking as
/// much as they can. `None` where nothing matches, or where `pattern` is no
/// regular expression.
pub uninterp spec fn first_match(pattern: Seq<char>, text: Seq<char>) -> Option<Seq<char>>;

/// What every request holds: the name of the description language, up to
/// the minor version.
pub open spec fn language_mark() -> Seq<char> {
    "MDL/1."@
}

/// What a dump of a parsed request starts with. A message that holds it is
/// an answer of this program, not a request.
pub open spec fn dump_mark() -> Seq<char> {
    "// MDLChef MDIR"@
}

/// The shape of a request: from an opening brace to a closing one, with the
/// language mark in between.
pub open spec fn request_pattern() -> Seq<char> {
    "\\{.*MDL/1\\..*\\}"@
}

/// The request that a message holds, if it holds one: the match of the
/// request pattern, in a message that has the language mark and is not a
/// dump.
pub open spec fn snippet_of(content: Seq<char>) -> Option<Seq<char>> {
    if occurs_in(language_mark(), content) && !occurs_in(dump_mark(), content) {
        first_match(request_pattern(), content)
    } else {
        None
    }
}

/// Calls `str::contains` with a string as the pattern, which tells whether
/// the pattern matches a part of the text.
#[verifier::external_body]
fn contains_text(text: &str, needle: &str) -> (found: bool)
    ensures
        found == occurs_in(needle@, text@),
{
    text.contains(needle)
}

/// Builds a `regex::Regex` from `pattern` with `dot_matches_new_line` set,
/// and calls `find` on `text`. The contract names the match, and counts a
/// pattern that does not build as one that matches nothing.
#[verifier::external_body]
fn match_across_lines(pattern: &str, text: &str) -> (found: Option<String>)
    ensures
        match found {
            Some(matched) => first_match(pattern@, text@) == Some(matched@),
            None => first_match(pattern@, text@) is None,
        },
{
    match regex::RegexBuilder::new(pattern).dot_matches_new_line(true).build() {
        Ok(expression) => match expression.find(text) {
            Some(whole) => Some(whole.as_str().to_owned()),
            None => None,
        },
        Err(_) => None,
    }
}

/// Looks for a request in a message. A message without the language mark,
/// or with the mark of a dump, holds none.
pub fn find_mdl_snippet(content: &str) -> (snippet: Option<String>)
    ensures
        match snippet {
            Some(found) => snippet_of(content@) == Some(found@),
            None => snippet_of(content@) is None,
        },
{
    if !contains_text(content, "MDL/1.") {
        return None;
    }
    if contains_text(content, "// MDLChef MDIR") {
        return None;
    }
    match_across_lines("\\{.*MDL/1\\..*\\}", content)
}

} // verus!
