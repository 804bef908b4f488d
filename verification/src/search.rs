//! Searching lines with regular expressions.

use std::ops::Range;

use fancy_regex::Regex;

use vstd::prelude::*;

use crate::common::{char_index_at_byte, char_index_for_byte};

verus! {

#[verifier::external_type_specification]
#[verifier::external_body]
pub struct ExRegex(Regex);

#[verifier::external_type_specification]
#[verifier::external_body]
pub struct ExRegexError(fancy_regex::Error);

/// Whether `pattern` is a regular expression that fancy-regex compiles.
pub uninterp spec fn regex_compiles(pattern: Seq<char>) -> bool;

/// The byte range of the first match of `pattern` in `text`, as fancy-regex finds it.
pub uninterp spec fn regex_first_match(pattern: Seq<char>, text: Seq<char>) -> Option<(usize, usize)>;

/// The byte range of the last of the successive matches of `pattern` in `text`, as
/// fancy-regex finds them.
pub uninterp spec fn regex_last_match(pattern: Seq<char>, text: Seq<char>) -> Option<(usize, usize)>;

/// The byte range of capture group `group` of the first match of `pattern` in `text`, as
/// fancy-regex finds it.
pub uninterp spec fn regex_group(pattern: Seq<char>, text: Seq<char>, group: usize) -> Option<(usize, usize)>;

/// The capture groups, as byte ranges, of each of the successive non-overlapping matches
/// of `pattern` in `text`, as fancy-regex's `captures_iter` yields them; `None` when a
/// search fails.
pub uninterp spec fn regex_all_captures(pattern: Seq<char>, text: Seq<char>) -> Option<Seq<Seq<Option<(usize, usize)>>>>;

/// Whether byte `b` of `text` is at a character boundary.
pub open spec fn at_boundary(text: Seq<char>, b: usize) -> bool {
    char_index_at_byte(text, b as int) is Some
}

/// Whether a capture group, when it took part in the match, is a byte range between
/// character boundaries of `text`.
pub open spec fn group_placed(text: Seq<char>, g: Option<(usize, usize)>) -> bool {
    g matches Some((s, e)) ==> s <= e && at_boundary(text, s) && at_boundary(text, e)
}

/// The capture groups of each match, seen as values.
pub open spec fn captures_view(caps: Seq<Vec<Option<(usize, usize)>>>) -> Seq<Seq<Option<(usize, usize)>>> {
    caps.map_values(|c: Vec<Option<(usize, usize)>>| c@)
}

/// Each match has its whole range as group 0, every group lies between character
/// boundaries, and each match ends before the next one starts.
pub open spec fn captures_placed(text: Seq<char>, caps: Seq<Seq<Option<(usize, usize)>>>) -> bool {
    &&& forall|i: int| 0 <= i < caps.len() ==> #[trigger] caps[i].len() > 0 && caps[i][0] is Some
    &&& forall|i: int, j: int| 0 <= i < caps.len() && 0 <= j < caps[i].len() ==> group_placed(text, #[trigger] caps[i][j])
    &&& forall|i: int, k: int|
        0 <= i < k < caps.len() ==> ((#[trigger] caps[i])[0]->0).1 <= ((#[trigger] caps[k])[0]->0).0
}

/// A compiled regular expression, with the pattern it was compiled from.
pub struct SearchRegex {
    pattern: String,
    regex: Regex,
}

impl View for SearchRegex {
    type V = Seq<char>;

    /// The pattern.
    closed spec fn view(&self) -> Seq<char> {
        self.pattern@
    }
}

/// Why a search could not be made.
#[derive(Debug, PartialEq, Eq, Structural)]
pub enum SearchError {
    /// The pattern is not a regular expression.
    InvalidPattern,
}

/// `fancy_regex::Regex::new`: compiles `pattern`; it succeeds exactly for the patterns
/// that compile.
#[verifier::external_body]
fn compile_regex(pattern: &str) -> (r: Result<Regex, fancy_regex::Error>)
    ensures
        r is Ok <==> regex_compiles(pattern@),
{
    Regex::new(pattern)
}

/// `Regex::find_from_pos` from the start of `text`: the byte range of the first match of
/// the regex, which `SearchRegex::new` compiled from the pattern `s@`. A search that fails
/// (the backtracking limit is reached) gives `None`, as no match does.
#[verifier::external_body]
fn find_first(s: &SearchRegex, text: &str) -> (r: Option<(usize, usize)>)
    ensures
        r == regex_first_match(s@, text@),
{
    match s.regex.find_from_pos(text, 0) {
        Ok(Some(m)) => Some((m.start(), m.end())),
        _ => None,
    }
}

/// `Regex::find_iter`, taking the last item: the byte range of the last match of the
/// regex compiled from `s@`. A failed search as the last item gives `None`.
#[verifier::external_body]
fn find_last(s: &SearchRegex, text: &str) -> (r: Option<(usize, usize)>)
    ensures
        r == regex_last_match(s@, text@),
{
    match s.regex.find_iter(text).last() {
        Some(Ok(m)) => Some((m.start(), m.end())),
        _ => None,
    }
}

/// `Regex::captures` and `Captures::get`: the byte range of capture group `group` of the
/// first match of the regex compiled from `s@`; `None` when there is no match, the group
/// did not take part in it, or the search failed.
#[verifier::external_body]
fn capture_group(s: &SearchRegex, text: &str, group: usize) -> (r: Option<(usize, usize)>)
    ensures
        r == regex_group(s@, text@, group),
{
    match s.regex.captures(text) {
        Ok(Some(c)) => match c.get(group) {
            Some(m) => Some((m.start(), m.end())),
            None => None,
        },
        _ => None,
    }
}

/// `Regex::captures_iter`: the capture groups of each successive non-overlapping match
/// of the regex compiled from `s@`, as byte ranges; `None` when a search fails. Each match
/// has group 0, the groups lie between character boundaries of `text`, and the matches
/// come in order without overlapping.
#[verifier::external_body]
pub(crate) fn all_captures(s: &SearchRegex, text: &str) -> (r: Option<Vec<Vec<Option<(usize, usize)>>>>)
    ensures
        match r {
            Some(v) => regex_all_captures(s@, text@) == Some(captures_view(v@)),
            None => regex_all_captures(s@, text@) is None,
        },
        r matches Some(v) ==> captures_placed(text@, captures_view(v@)),
{
    let mut all = Vec::new();
    for c in s.regex.captures_iter(text) {
        match c {
            Ok(c) => all.push((0..c.len()).map(|i| c.get(i).map(|m| (m.start(), m.end()))).collect()),
            Err(_) => return None,
        }
    }
    Some(all)
}

/// The character range for a byte range of `text`, when both ends are character
/// boundaries.
pub open spec fn char_range_for(text: Seq<char>, bytes: Option<(usize, usize)>) -> Option<(int, int)> {
    match bytes {
        Some((s, e)) => match (char_index_at_byte(text, s as int), char_index_at_byte(text, e as int)) {
            (Some(cs), Some(ce)) => Some((cs, ce)),
            _ => None,
        },
        None => None,
    }
}

pub proof fn lemma_char_index_bounds(s: Seq<char>, b: int)
    ensures
        char_index_at_byte(s, b) matches Some(k) ==> 0 <= k <= s.len(),
    decreases s.len(),
{
    if b != 0 && s.len() > 0 && b >= 0 {
        lemma_char_index_bounds(s.drop_first(), b - crate::strings::utf8_width(s[0]));
    }
}

fn char_range(text: &str, bytes: Option<(usize, usize)>) -> (r: Option<(usize, usize)>)
    ensures
        match r {
            Some((s, e)) => char_range_for(text@, bytes) == Some((s as int, e as int)),
            None => char_range_for(text@, bytes) is None,
        },
        r matches Some((s, e)) ==> s <= text@.len() && e <= text@.len(),
{
    match bytes {
        Some((s, e)) => {
            proof {
                lemma_char_index_bounds(text@, s as int);
                lemma_char_index_bounds(text@, e as int);
            }
            match (char_index_for_byte(text, s), char_index_for_byte(text, e)) {
                (Some(cs), Some(ce)) => Some((cs, ce)),
                _ => None,
            }
        },
        None => None,
    }
}

impl SearchRegex {
    /// Compiles `pattern`.
    pub fn new(pattern: &str) -> (r: Result<SearchRegex, SearchError>)
        ensures
            r is Ok <==> regex_compiles(pattern@),
            r matches Ok(s) ==> s@ == pattern@,
            r matches Err(e) ==> e == SearchError::InvalidPattern,
    {
        match compile_regex(pattern) {
            Ok(regex) => Ok(SearchRegex { pattern: pattern.to_owned(), regex }),
            Err(_) => Err(SearchError::InvalidPattern),
        }
    }

    /// The character range of the first match in `text`.
    pub fn first_match(&self, text: &str) -> (r: Option<(usize, usize)>)
        ensures
            match r {
                Some((s, e)) => char_range_for(text@, regex_first_match(self@, text@)) == Some((s as int, e as int)),
                None => char_range_for(text@, regex_first_match(self@, text@)) is None,
            },
            r matches Some((s, e)) ==> s <= text@.len() && e <= text@.len(),
    {
        char_range(text, find_first(self, text))
    }

    /// The character range of the last match in `text`.
    pub fn last_match(&self, text: &str) -> (r: Option<(usize, usize)>)
        ensures
            match r {
                Some((s, e)) => char_range_for(text@, regex_last_match(self@, text@)) == Some((s as int, e as int)),
                None => char_range_for(text@, regex_last_match(self@, text@)) is None,
            },
            r matches Some((s, e)) ==> s <= text@.len() && e <= text@.len(),
    {
        char_range(text, find_last(self, text))
    }

    /// The character range of capture group `group` of the first match in `text`.
    pub fn group(&self, text: &str, group: usize) -> (r: Option<(usize, usize)>)
        ensures
            match r {
                Some((s, e)) => char_range_for(text@, regex_group(self@, text@, group)) == Some((s as int, e as int)),
                None => char_range_for(text@, regex_group(self@, text@, group)) is None,
            },
            r matches Some((s, e)) ==> s <= text@.len() && e <= text@.len(),
    {
        char_range(text, capture_group(self, text, group))
    }
}

} // verus!
