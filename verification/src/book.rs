//! Lines of styled text, and what a book offers its readers.

use std::ops::Range;

use vstd::prelude::*;

use crate::common::Position;
use crate::controller::{HighlightInfo, HighlightMode};
use crate::color::Color32;
use crate::html_parser::TextStyle;
use crate::search::{char_range_for, regex_first_match, regex_last_match, SearchRegex};
use crate::terminal::Listable;
use crate::strings::{
    ascii_lower, is_ascii_white_space, is_white_space, is_whitespace, str_chars, string_clear,
    string_from_chars, string_push,
};

verus! {

/// The character shown in place of an image.
pub const IMAGE_CHAR: char = '\u{1f5bc}';

/// The text of a chapter that has none.
pub const EMPTY_CHAPTER_CONTENT: &'static str = "No content.";

/// A line of text: its characters and the styles of ranges of them.
pub struct Line {
    chars: Vec<char>,
    styles: Vec<(TextStyle, Range<usize>)>,
}

impl View for Line {
    type V = Seq<char>;

    closed spec fn view(&self) -> Seq<char> {
        self.chars@
    }
}

/// Two lines are equal when they hold the same number of characters; the characters
/// themselves are not compared.
impl PartialEq for Line {
    fn eq(&self, other: &Self) -> (r: bool) {
        self.chars.len() == other.chars.len()
    }
}

impl vstd::std_specs::cmp::PartialEqSpecImpl for Line {
    open spec fn obeys_eq_spec() -> bool {
        true
    }

    open spec fn eq_spec(&self, other: &Self) -> bool {
        self@.len() == other@.len()
    }
}

/// A link of a line: its index among the line's styles, its target and its range.
pub struct Link<'a> {
    pub index: usize,
    pub target: &'a String,
    pub range: &'a Range<usize>,
}

/// The characters that `Line::concat` keeps of `s`: carriage returns go, and so does
/// ASCII white space at the start and after each line feed; line feeds themselves go too.
pub open spec fn concat_chars(s: Seq<char>, ignore_whitespace: bool) -> Seq<char>
    decreases s.len(),
{
    if s.len() == 0 {
        Seq::empty()
    } else {
        let c = s[0];
        let rest = s.drop_first();
        if c == '\r' {
            concat_chars(rest, ignore_whitespace)
        } else if c == '\n' {
            concat_chars(rest, true)
        } else if ignore_whitespace && is_ascii_white_space(c) {
            concat_chars(rest, true)
        } else {
            seq![c] + concat_chars(rest, false)
        }
    }
}

/// The href of the last image style whose range holds `offset`, looking at `styles[..n]`.
pub open spec fn image_at_spec(styles: Seq<(TextStyle, Range<usize>)>, n: int, offset: usize) -> Option<
    Seq<char>,
>
    decreases n,
{
    if n <= 0 {
        None
    } else {
        let (style, range) = styles[n - 1];
        if style is Image && range.start <= offset && offset < range.end {
            Some(style->Image_0.href@)
        } else {
            image_at_spec(styles, n - 1, offset)
        }
    }
}

/// The characters at which a word selection stops.
pub open spec fn is_selection_splitter(c: char) -> bool {
    ||| c == ' ' || c == '#' || c == '%' || c == '&' || c == '(' || c == ')' || c == '+'
    ||| c == ',' || c == '-' || c == '.' || c == '/' || c == ';' || c == '<' || c == '='
    ||| c == '>' || c == '?' || c == '@' || c == '[' || c == '\\' || c == '\t' || c == ']'
    ||| c == '_' || c == '{' || c == '}' || c == '~' || c == '\u{2014}' || c == '\u{2018}'
    ||| c == '\u{2019}' || c == '\u{201c}' || c == '\u{201d}' || c == '\u{2026}'
    ||| c == '\u{2500}' || c == '\u{2e2f}' || c == '\u{3000}' || c == '\u{3001}'
    ||| c == '\u{3002}' || c == '\u{3008}' || c == '\u{3009}' || c == '\u{300a}'
    ||| c == '\u{300b}' || c == '\u{300c}' || c == '\u{300d}' || c == '\u{300e}'
    ||| c == '\u{300f}' || c == '\u{3010}' || c == '\u{3011}' || c == '\u{3014}'
    ||| c == '\u{3015}' || c == '\u{3016}' || c == '\u{3017}' || c == '\u{fe17}'
    ||| c == '\u{fe18}' || c == '\u{fe19}' || c == '\u{fe31}' || c == '\u{fe35}'
    ||| c == '\u{fe36}' || c == '\u{fe37}' || c == '\u{fe38}' || c == '\u{fe39}'
    ||| c == '\u{fe3a}' || c == '\u{fe3b}' || c == '\u{fe3c}' || c == '\u{fe3d}'
    ||| c == '\u{fe3e}' || c == '\u{fe3f}' || c == '\u{fe40}' || c == '\u{fe41}'
    ||| c == '\u{fe42}' || c == '\u{fe43}' || c == '\u{fe44}' || c == '\u{ff01}'
    ||| c == '\u{ff03}' || c == '\u{ff05}' || c == '\u{ff06}' || c == '\u{ff08}'
    ||| c == '\u{ff09}' || c == '\u{ff0a}' || c == '\u{ff0b}' || c == '\u{ff0c}'
    ||| c == '\u{ff0d}' || c == '\u{ff0f}' || c == '\u{ff1a}' || c == '\u{ff1b}'
    ||| c == '\u{ff1d}' || c == '\u{ff1f}' || c == '\u{ff3b}' || c == '\u{ff3d}'
    ||| c == '\u{ff40}' || c == '\u{ff5b}' || c == '\u{ff5c}' || c == '\u{ff5d}'
    ||| c == '\u{ff5e}'
}

/// Whether `c` ends a word for text selection.
pub fn is_text_selection_splitter(c: char) -> (r: bool)
    ensures
        r == is_selection_splitter(c),
{
    match c {
        ' ' | '#' | '%' | '&' | '(' | ')' | '+' | ',' | '-' | '.' | '/' | ';' | '<' | '='
        | '>' | '?' | '@' | '[' | '\\' | '\t' | ']' | '_' | '{' | '}' | '~' | '\u{2014}'
        | '\u{2018}' | '\u{2019}' | '\u{201c}' | '\u{201d}' | '\u{2026}' | '\u{2500}'
        | '\u{2e2f}' | '\u{3000}' | '\u{3001}' | '\u{3002}' | '\u{3008}' | '\u{3009}'
        | '\u{300a}' | '\u{300b}' | '\u{300c}' | '\u{300d}' | '\u{300e}' | '\u{300f}'
        | '\u{3010}' | '\u{3011}' | '\u{3014}' | '\u{3015}' | '\u{3016}' | '\u{3017}'
        | '\u{fe17}' | '\u{fe18}' | '\u{fe19}' | '\u{fe31}' | '\u{fe35}' | '\u{fe36}'
        | '\u{fe37}' | '\u{fe38}' | '\u{fe39}' | '\u{fe3a}' | '\u{fe3b}' | '\u{fe3c}'
        | '\u{fe3d}' | '\u{fe3e}' | '\u{fe3f}' | '\u{fe40}' | '\u{fe41}' | '\u{fe42}'
        | '\u{fe43}' | '\u{fe44}' | '\u{ff01}' | '\u{ff03}' | '\u{ff05}' | '\u{ff06}'
        | '\u{ff08}' | '\u{ff09}' | '\u{ff0a}' | '\u{ff0b}' | '\u{ff0c}' | '\u{ff0d}'
        | '\u{ff0f}' | '\u{ff1a}' | '\u{ff1b}' | '\u{ff1d}' | '\u{ff1f}' | '\u{ff3b}'
        | '\u{ff3d}' | '\u{ff40}' | '\u{ff5b}' | '\u{ff5c}' | '\u{ff5d}' | '\u{ff5e}' => true,
        _ => false,
    }
}

/// `(from, to)` is the word around `offset` in `s`: the longest run of characters that are
/// not splitters and that holds `offset`.
pub open spec fn is_word_around(s: Seq<char>, offset: int, from: int, to: int) -> bool {
    &&& 0 <= from <= offset <= to < s.len()
    &&& forall|k: int| from <= k <= to ==> !is_selection_splitter(#[trigger] s[k])
    &&& (from == 0 || is_selection_splitter(s[from - 1]))
    &&& (to == s.len() - 1 || is_selection_splitter(s[to + 1]))
}

/// A test that a link's range meets, when looking for a link of a line.
pub enum LinkTest {
    /// The range starts at or after the position.
    StartsFrom(usize),
    /// The range ends at or before the position.
    EndsBy(usize),
    /// The range holds `start..end`.
    Covers(usize, usize),
    /// The range holds the position.
    Holds(usize),
}

/// Whether `range` meets `test`.
pub open spec fn link_test_accepts(test: LinkTest, range: Range<usize>) -> bool {
    match test {
        LinkTest::StartsFrom(position) => range.start >= position,
        LinkTest::EndsBy(position) => range.end <= position,
        LinkTest::Covers(start, end) => range.start <= start && range.end >= end,
        LinkTest::Holds(position) => range.start <= position && range.end > position,
    }
}

/// The characters of `chars` from `start` up to `stop`; none when `start` is not before
/// `stop`.
pub open spec fn chars_between(chars: Seq<char>, start: int, stop: int) -> Seq<char> {
    if start < stop {
        chars.subrange(start, stop)
    } else {
        Seq::empty()
    }
}

/// The character range, within the whole line, of the first (or, with `rev`, the last)
/// match of `pattern` in the characters of the line from `start` up to `stop`.
pub open spec fn search_spec(chars: Seq<char>, pattern: Seq<char>, start: usize, stop: usize, rev: bool) -> Option<
    Range<usize>,
> {
    let hay = chars_between(chars, start as int, stop as int);
    let m = if rev {
        regex_last_match(pattern, hay)
    } else {
        regex_first_match(pattern, hay)
    };
    match char_range_for(hay, m) {
        Some((s, e)) => Some(Range { start: (s + start) as usize, end: (e + start) as usize }),
        None => None,
    }
}

/// Whether the style at `i` is a link whose range meets `test`.
pub open spec fn link_where(styles: Seq<(TextStyle, Range<usize>)>, i: int, test: LinkTest) -> bool {
    0 <= i < styles.len() && styles[i].0 is Link && link_test_accepts(test, styles[i].1)
}

/// The index of the first link among `styles` whose range meets `test`.
pub open spec fn first_link_where(styles: Seq<(TextStyle, Range<usize>)>, test: LinkTest) -> Option<
    usize,
> {
    if exists|i: int| #[trigger] link_where(styles, i, test) {
        let i = choose|i: int|
            #[trigger] link_where(styles, i, test) && forall|j: int|
                0 <= j < i ==> !#[trigger] link_where(styles, j, test);
        Some(i as usize)
    } else {
        None
    }
}

/// The index of the last link among `styles` whose range meets `test`.
pub open spec fn last_link_where(styles: Seq<(TextStyle, Range<usize>)>, test: LinkTest) -> Option<
    usize,
> {
    if exists|i: int| #[trigger] link_where(styles, i, test) {
        let i = choose|i: int|
            #[trigger] link_where(styles, i, test) && forall|j: int|
                i < j < styles.len() ==> !#[trigger] link_where(styles, j, test);
        Some(i as usize)
    } else {
        None
    }
}

proof fn lemma_first_link_at(styles: Seq<(TextStyle, Range<usize>)>, test: LinkTest, i: int)
    requires
        link_where(styles, i, test),
        forall|j: int| 0 <= j < i ==> !#[trigger] link_where(styles, j, test),
    ensures
        first_link_where(styles, test) == Some(i as usize),
{
    let c = choose|c: int|
        #[trigger] link_where(styles, c, test) && forall|j: int|
            0 <= j < c ==> !#[trigger] link_where(styles, j, test);
    assert(link_where(styles, c, test));
    if c < i {
        assert(!link_where(styles, c, test));
    }
    if c > i {
        assert(!link_where(styles, i, test));
    }
}

proof fn lemma_last_link_at(styles: Seq<(TextStyle, Range<usize>)>, test: LinkTest, i: int)
    requires
        link_where(styles, i, test),
        forall|j: int| i < j < styles.len() ==> !#[trigger] link_where(styles, j, test),
    ensures
        last_link_where(styles, test) == Some(i as usize),
{
    let c = choose|c: int|
        #[trigger] link_where(styles, c, test) && forall|j: int|
            c < j < styles.len() ==> !#[trigger] link_where(styles, j, test);
    assert(link_where(styles, c, test));
    if c < i {
        assert(!link_where(styles, i, test));
    }
    if c > i {
        assert(!link_where(styles, c, test));
    }
}

impl Line {
    /// The styles of the line, in the order they were pushed.
    pub closed spec fn styles(&self) -> Seq<(TextStyle, Range<usize>)> {
        self.styles@
    }

    /// A line of the characters of `str`, with no style.
    pub fn new(str: &str) -> (l: Self)
        ensures
            l@ == str@,
            l.styles().len() == 0,
    {
        Line { chars: str_chars(str), styles: Vec::new() }
    }

    /// Appends the characters of `str`, leaving out carriage returns, line feeds, and
    /// ASCII white space at the start and after each line feed.
    pub fn concat(&mut self, str: &str)
        ensures
            final(self)@ == old(self)@ + concat_chars(str@, true),
            final(self).styles() == old(self).styles(),
    {
        let chars = str_chars(str);
        let mut ignore_whitespace = true;
        let mut i: usize = 0;
        assert(chars@.skip(0) =~= chars@);
        while i < chars.len()
            invariant
                i <= chars.len(),
                chars@ == str@,
                self@ + concat_chars(chars@.skip(i as int), ignore_whitespace) == old(self)@
                    + concat_chars(str@, true),
                self.styles() == old(self).styles(),
            decreases chars.len() - i,
        {
            let ch = chars[i];
            let ghost old_ignore = ignore_whitespace;
            let ghost rest = chars@.skip(i as int);
            assert(rest.drop_first() == chars@.skip(i + 1));
            assert(rest[0] == ch);
            if ch == '\r' {
            } else if ch == '\n' {
                ignore_whitespace = true;
            } else if ignore_whitespace && (ch == ' ' || ch == '\t' || ch == '\n' || ch == '\x0C'
                || ch == '\r') {
            } else {
                let ghost before = self@;
                ignore_whitespace = false;
                self.chars.push(ch);
                assert(self@ == before.push(ch));
                assert(concat_chars(rest, old_ignore) == seq![ch] + concat_chars(rest.drop_first(), false));
                assert(before + (seq![ch] + concat_chars(rest.drop_first(), false)) == before.push(ch)
                    + concat_chars(rest.drop_first(), false));
            }
            i = i + 1;
        }
        assert(chars@.skip(chars.len() as int) =~= Seq::<char>::empty());
    }

    /// Adds a style for a range of characters.
    #[inline]
    pub fn push_style(&mut self, style: TextStyle, range: Range<usize>)
        ensures
            final(self)@ == old(self)@,
            final(self).styles() == old(self).styles().push((style, range)),
    {
        self.styles.push((style, range));
    }

    /// Appends a character; the NUL character is left out.
    #[inline]
    pub fn push(&mut self, ch: char)
        ensures
            final(self)@ == (if ch == '\0' { old(self)@ } else { old(self)@.push(ch) }),
            final(self).styles() == old(self).styles(),
    {
        if ch == '\0' {
            return;
        }
        self.chars.push(ch);
    }

    /// The characters of the line as a string.
    pub fn to_string(&self) -> (s: String)
        ensures
            s@ == self@,
    {
        string_from_chars(&self.chars)
    }

    #[inline]
    pub fn len(&self) -> (n: usize)
        ensures
            n == self@.len(),
    {
        self.chars.len()
    }

    #[inline]
    pub fn is_empty(&self) -> (e: bool)
        ensures
            e == (self@.len() == 0),
    {
        self.chars.len() == 0
    }

    /// Whether every character is white space (true of an empty line).
    #[inline]
    pub fn is_blank(&self) -> (b: bool)
        ensures
            b == (forall|i: int| 0 <= i < self@.len() ==> is_white_space(#[trigger] self@[i])),
    {
        let mut i: usize = 0;
        while i < self.chars.len()
            invariant
                i <= self.chars.len(),
                forall|j: int| 0 <= j < i ==> is_white_space(#[trigger] self@[j]),
            decreases self.chars.len() - i,
        {
            if !is_whitespace(self.chars[i]) {
                assert(!is_white_space(self@[i as int]));
                return false;
            }
            i = i + 1;
        }
        true
    }

    #[inline]
    pub fn char_at(&self, index: usize) -> (c: Option<char>)
        ensures
            c == (if index < self@.len() { Some(self@[index as int]) } else { None::<char> }),
    {
        if index < self.chars.len() {
            Some(self.chars[index])
        } else {
            None
        }
    }

    /// The range of the style at `index`.
    pub fn style_range(&self, index: usize) -> (r: &Range<usize>)
        requires
            index < self.styles().len(),
        ensures
            *r == self.styles()[index as int].1,
    {
        &self.styles[index].1
    }

    /// The index of the first link among the styles whose range starts at or after
    /// `position`.
    pub fn first_link_from(&self, position: usize) -> (r: Option<usize>)
        ensures
            r == first_link_where(self.styles(), LinkTest::StartsFrom(position)),
            r matches Some(i) ==> link_where(self.styles(), i as int, LinkTest::StartsFrom(position)),
    {
        let mut i: usize = 0;
        while i < self.styles.len()
            invariant
                i <= self.styles().len(),
                forall|j: int| 0 <= j < i ==> !#[trigger] link_where(self.styles(), j, LinkTest::StartsFrom(position)),
            decreases self.styles().len() - i,
        {
            let (style, range) = &self.styles[i];
            if let TextStyle::Link(_) = style {
                if range.start >= position {
                    proof {
                        lemma_first_link_at(self.styles(), LinkTest::StartsFrom(position), i as int);
                    }
                    return Some(i);
                }
            }
            i = i + 1;
        }
        None
    }

    /// The index of the first link among the styles whose range holds `start..end`.
    pub fn link_covering(&self, start: usize, end: usize) -> (r: Option<usize>)
        ensures
            r == first_link_where(self.styles(), LinkTest::Covers(start, end)),
            r matches Some(i) ==> link_where(self.styles(), i as int, LinkTest::Covers(start, end)),
    {
        let mut i: usize = 0;
        while i < self.styles.len()
            invariant
                i <= self.styles().len(),
                forall|j: int| 0 <= j < i ==> !#[trigger] link_where(self.styles(), j, LinkTest::Covers(start, end)),
            decreases self.styles().len() - i,
        {
            let (style, range) = &self.styles[i];
            if let TextStyle::Link(_) = style {
                if range.start <= start && range.end >= end {
                    proof {
                        lemma_first_link_at(self.styles(), LinkTest::Covers(start, end), i as int);
                    }
                    return Some(i);
                }
            }
            i = i + 1;
        }
        None
    }

    /// The index of the first link among the styles whose range holds `position`.
    pub fn first_link_holding(&self, position: usize) -> (r: Option<usize>)
        ensures
            r == first_link_where(self.styles(), LinkTest::Holds(position)),
            r matches Some(i) ==> link_where(self.styles(), i as int, LinkTest::Holds(position)),
    {
        let mut i: usize = 0;
        while i < self.styles.len()
            invariant
                i <= self.styles().len(),
                forall|j: int| 0 <= j < i ==> !#[trigger] link_where(self.styles(), j, LinkTest::Holds(position)),
            decreases self.styles().len() - i,
        {
            let (style, range) = &self.styles[i];
            if let TextStyle::Link(_) = style {
                if range.start <= position && range.end > position {
                    proof {
                        lemma_first_link_at(self.styles(), LinkTest::Holds(position), i as int);
                    }
                    return Some(i);
                }
            }
            i = i + 1;
        }
        None
    }

    /// The index of the last link among the styles whose range ends at or before
    /// `position`.
    pub fn last_link_before(&self, position: usize) -> (r: Option<usize>)
        ensures
            r == last_link_where(self.styles(), LinkTest::EndsBy(position)),
            r matches Some(i) ==> link_where(self.styles(), i as int, LinkTest::EndsBy(position)),
    {
        let mut n: usize = self.styles.len();
        while n > 0
            invariant
                n <= self.styles().len(),
                forall|j: int| n <= j < self.styles().len() ==> !#[trigger] link_where(self.styles(), j, LinkTest::EndsBy(position)),
            decreases n,
        {
            let (style, range) = &self.styles[n - 1];
            if let TextStyle::Link(_) = style {
                if range.end <= position {
                    proof {
                        lemma_last_link_at(self.styles(), LinkTest::EndsBy(position), n - 1);
                    }
                    return Some(n - 1);
                }
            }
            n = n - 1;
        }
        None
    }

    /// The character range of the first match of `regex` (or, with `rev`, the last) in the
    /// line from `start` (its start when `None`) up to `stop` (its end when `None`).
    pub fn search_pattern(&self, regex: &SearchRegex, start: Option<usize>, stop: Option<usize>,
        rev: bool) -> (r: Option<Range<usize>>)
        requires
            ({
                let from = match start {
                    Some(s) => s,
                    None => 0,
                };
                let to = match stop {
                    Some(s) => s,
                    None => self@.len() as usize,
                };
                from < to ==> to <= self@.len()
            }),
        ensures
            r == search_spec(
                self@,
                regex@,
                match start {
                    Some(s) => s,
                    None => 0,
                },
                match stop {
                    Some(s) => s,
                    None => self@.len() as usize,
                },
                rev,
            ),
    {
        let start = match start {
            Some(s) => s,
            None => 0,
        };
        let stop = match stop {
            Some(s) => s,
            None => self.chars.len(),
        };
        let mut line = String::new();
        let mut index = start;
        while index < stop
            invariant
                start <= index,
                start <= stop ==> index <= stop,
                start < stop ==> stop <= self@.len(),
                start < stop ==> line@ == self@.subrange(start as int, index as int),
                start >= stop ==> line@ == Seq::<char>::empty(),
            decreases stop - index,
        {
            string_push(&mut line, self.chars[index]);
            index = index + 1;
            assert(line@ =~= self@.subrange(start as int, index as int));
        }
        assert(line@ =~= chars_between(self@, start as int, stop as int));
        let m = if rev {
            regex.last_match(line.as_str())
        } else {
            regex.first_match(line.as_str())
        };
        match m {
            Some((s, e)) => {
                proof {
                    if start < stop {
                        assert(line@.len() == stop - start);
                    }
                }
                Some(Range { start: s + start, end: e + start })
            },
            None => None,
        }
    }

    /// The link style at `link_index` among the styles, if that style is a link.
    pub fn link_at(&self, link_index: usize) -> (l: Option<Link>)
        ensures
            match l {
                Some(link) => {
                    &&& link_index < self.styles().len()
                    &&& self.styles()[link_index as int].0 is Link
                    &&& link.index == link_index
                    &&& link.target@ == self.styles()[link_index as int].0->Link_0@
                    &&& *link.range == self.styles()[link_index as int].1
                },
                None => link_index >= self.styles().len() || !(self.styles()[
                    link_index as int].0 is Link),
            },
    {
        if link_index < self.styles.len() {
            let (style, range) = &self.styles[link_index];
            match style {
                TextStyle::Link(target) => Some(Link { index: link_index, target, range }),
                _ => None,
            }
        } else {
            None
        }
    }

    /// The href of the last image style whose range holds `char_offset`.
    pub fn image_at(&self, char_offset: usize) -> (href: Option<&str>)
        ensures
            match href {
                Some(h) => image_at_spec(self.styles(), self.styles().len() as int, char_offset)
                    == Some(h@),
                None => image_at_spec(self.styles(), self.styles().len() as int, char_offset)
                    is None,
            },
    {
        let mut n: usize = self.styles.len();
        while n > 0
            invariant
                n <= self.styles.len(),
                image_at_spec(self.styles(), self.styles().len() as int, char_offset)
                    == image_at_spec(self.styles(), n as int, char_offset),
            decreases n,
        {
            let (style, range) = &self.styles[n - 1];
            if let TextStyle::Image(image) = style {
                if range.start <= char_offset && char_offset < range.end {
                    return Some(image.href.as_str());
                }
            }
            n = n - 1;
        }
        None
    }

    /// The word around `offset`: `(offset, offset)` when the character there is a
    /// splitter, `None` when `offset` is past the end.
    pub fn word_at_offset(&self, offset: usize) -> (w: Option<(usize, usize)>)
        ensures
            offset >= self@.len() ==> w is None,
            offset < self@.len() && is_selection_splitter(self@[offset as int]) ==> w == Some(
                (offset, offset),
            ),
            offset < self@.len() && !is_selection_splitter(self@[offset as int]) ==> (w matches Some(
                (from, to),
            ) && is_word_around(self@, offset as int, from as int, to as int)),
    {
        if offset >= self.chars.len() {
            return None;
        }
        if is_text_selection_splitter(self.chars[offset]) {
            return Some((offset, offset));
        }
        let mut from = offset;
        while from > 0 && !is_text_selection_splitter(self.chars[from - 1])
            invariant
                from <= offset < self.chars.len(),
                forall|k: int| from <= k <= offset ==> !is_selection_splitter(#[trigger] self@[k]),
            decreases from,
        {
            from = from - 1;
        }
        let mut to = offset;
        while to + 1 < self.chars.len() && !is_text_selection_splitter(self.chars[to + 1])
            invariant
                from <= offset <= to < self.chars.len(),
                forall|k: int| from <= k <= to ==> !is_selection_splitter(#[trigger] self@[k]),
                from == 0 || is_selection_splitter(self@[from - 1]),
            decreases self.chars.len() - to,
        {
            to = to + 1;
        }
        Some((from, to))
    }

    /// Replaces the contents of `target` by the characters in `range`.
    pub fn sub_str(&self, target: &mut String, range: Range<usize>)
        requires
            range.start < range.end ==> range.end <= self@.len(),
        ensures
            final(target)@ == (if range.start < range.end {
                self@.subrange(range.start as int, range.end as int)
            } else {
                Seq::<char>::empty()
            }),
    {
        string_clear(target);
        let mut idx = range.start;
        while idx < range.end
            invariant
                range.start <= idx,
                range.start < range.end ==> idx <= range.end <= self@.len(),
                target@ == (if range.start < range.end {
                    self@.subrange(range.start as int, idx as int)
                } else {
                    Seq::<char>::empty()
                }),
            decreases range.end - idx,
        {
            string_push(target, self.chars[idx]);
            idx = idx + 1;
        }
    }
}

impl Default for Line {
    fn default() -> (l: Self)
        ensures
            l@.len() == 0,
            l.styles().len() == 0,
    {
        Line { chars: Vec::new(), styles: Vec::new() }
    }
}

/// The characters of each line.
pub open spec fn lines_view(lines: Seq<Line>) -> Seq<Seq<char>> {
    lines.map_values(|l: Line| l@)
}

/// Adds the characters `line[from..to]` to a selection, after a line feed when the
/// selection already holds text.
pub open spec fn push_range(acc: Seq<char>, line: Seq<char>, from: int, to: int) -> Seq<char> {
    (if acc.len() > 0 {
        acc.push('\n')
    } else {
        acc
    }) + (if from < to {
        line.subrange(from, to)
    } else {
        Seq::<char>::empty()
    })
}

/// The text selected from `offset1` in line `line1` through the ends of the lines before
/// line `k`.
pub open spec fn selection_prefix(lines: Seq<Seq<char>>, line1: int, offset1: int, k: int) -> Seq<
    char,
>
    decreases k - line1,
{
    if k <= line1 {
        Seq::empty()
    } else {
        push_range(
            selection_prefix(lines, line1, offset1, k - 1),
            lines[k - 1],
            if k - 1 == line1 {
                offset1
            } else {
                0
            },
            lines[k - 1].len() as int,
        )
    }
}

/// The two ends of a selection between `from` and `to`, in reading order:
/// `(first line, first offset, last line, offset after the last character)`.
pub open spec fn selection_bounds(from: Position, to: Position) -> (int, int, int, int) {
    if from.line > to.line {
        (to.line as int, to.offset as int, from.line as int, from.offset + 1)
    } else if from.line == to.line {
        if from.offset >= to.offset {
            (to.line as int, to.offset as int, from.line as int, from.offset + 1)
        } else {
            (from.line as int, from.offset as int, to.line as int, to.offset + 1)
        }
    } else {
        (from.line as int, from.offset as int, to.line as int, to.offset + 1)
    }
}

/// The end offset `selection_bounds` computes fits in a `usize`.
pub open spec fn selection_fits(from: Position, to: Position) -> bool {
    selection_bounds(from, to).3 <= usize::MAX
}

/// What `range_highlight` selects: `(line, start, end, text, last line)`, or nothing when
/// the selected text is empty.
pub open spec fn range_highlight_spec(lines: Seq<Seq<char>>, from: Position, to: Position) -> Option<
    (int, int, int, Seq<char>, int),
> {
    let (line1, offset1, line2, offset2) = selection_bounds(from, to);
    if lines.len() == 0 {
        None
    } else {
        let line_to = if line2 >= lines.len() {
            lines.len() - 1
        } else {
            line2
        };
        let offset_to0 = if line2 >= lines.len() {
            usize::MAX as int
        } else {
            offset2
        };
        let last = lines[line_to];
        let offset_to = if last.len() <= offset_to0 {
            last.len() as int
        } else {
            offset_to0
        };
        let offset_from = if line1 < line_to {
            0
        } else {
            offset1
        };
        let text = push_range(
            selection_prefix(lines, line1, offset1, line_to),
            last,
            offset_from,
            offset_to,
        );
        if text.len() == 0 {
            None
        } else {
            Some((line1, offset1, offset_to, text, line_to))
        }
    }
}

fn push_chars(line: &Line, from: usize, to: usize, text: &mut String)
    requires
        from < to ==> to <= line@.len(),
    ensures
        final(text)@ == push_range(old(text)@, line@, from as int, to as int),
{
    if !text.as_str().is_empty() {
        string_push(text, '\n');
    }
    let mut offset = from;
    let ghost head = text@;
    while offset < to
        invariant
            from <= offset,
            from < to ==> offset <= to <= line@.len(),
            text@ == head + (if from < to {
                line@.subrange(from as int, offset as int)
            } else {
                Seq::<char>::empty()
            }),
        decreases to - offset,
    {
        string_push(text, line.chars[offset]);
        offset = offset + 1;
        assert(line@.subrange(from as int, offset as int) == line@.subrange(
            from as int,
            offset - 1,
        ).push(line@[offset - 1]));
    }
}

/// Whether `h` is the selection highlight of the text from `from` to `to`, both ends
/// included, in `lines`: what `range_highlight_spec` selects, or nothing when it selects
/// nothing.
pub open spec fn is_range_highlight(h: Option<HighlightInfo>, lines: Seq<Line>, from: Position, to: Position) -> bool {
    match (h, range_highlight_spec(lines_view(lines), from, to)) {
        (None, None) => true,
        (Some(hi), Some((line, start, end, text, line_to))) => {
            &&& hi.line == line
            &&& hi.start == start
            &&& hi.end == end
            &&& hi.mode matches HighlightMode::Selection(t, lt) && t@ == text && lt == line_to
        },
        _ => false,
    }
}

/// The text between two positions, both ends included, as a selection highlight;
/// `None` when nothing is selected.
pub fn range_highlight(lines: &Vec<Line>, from: Position, to: Position) -> (h: Option<
    HighlightInfo,
>)
    requires
        selection_fits(from, to),
    ensures
        is_range_highlight(h, lines@, from, to),
{
    let (line1, offset1, line2, offset2) = if from.line > to.line {
        (to.line, to.offset, from.line, from.offset + 1)
    } else if from.line == to.line {
        if from.offset >= to.offset {
            (to.line, to.offset, from.line, from.offset + 1)
        } else {
            (from.line, from.offset, to.line, to.offset + 1)
        }
    } else {
        (from.line, from.offset, to.line, to.offset + 1)
    };
    let ghost lv = lines_view(lines@);
    let lines_count = lines.len();
    if lines_count == 0 {
        return None;
    }
    let mut selected_text = String::new();
    let (line_to, offset_to) = if line2 >= lines_count {
        (lines_count - 1, usize::MAX)
    } else {
        (line2, offset2)
    };
    let mut offset_from = offset1;
    let mut line = line1;
    while line < line_to
        invariant
            line_to < lines.len(),
            lv == lines_view(lines@),
            line1 <= line || line_to <= line1,
            line1 < line_to ==> line <= line_to,
            line1 >= line_to ==> line == line1,
            offset_from == (if line == line1 { offset1 } else { 0 }),
            selected_text@ == selection_prefix(lv, line1 as int, offset1 as int, line as int),
        decreases line_to - line,
    {
        let text = &lines[line];
        assert(lv[line as int] == text@);
        push_chars(text, offset_from, text.len(), &mut selected_text);
        offset_from = 0;
        line = line + 1;
    }
    let last_text = &lines[line_to];
    assert(lv[line_to as int] == last_text@);
    let offset_to = if last_text.len() <= offset_to {
        last_text.len()
    } else {
        offset_to
    };
    push_chars(last_text, offset_from, offset_to, &mut selected_text);
    if selected_text.as_str().is_empty() {
        None
    } else {
        Some(
            HighlightInfo {
                line: line1,
                start: offset1,
                end: offset_to,
                mode: HighlightMode::Selection(selected_text, line_to),
            },
        )
    }
}

/// The path and bytes of an image of a book, borrowed from the book or owned.
pub enum ImageData<'a> {
    Borrowed((String, &'a [u8])),
    Owned((String, Vec<u8>)),
}

impl<'a> ImageData<'a> {
    pub open spec fn path_view(&self) -> Seq<char> {
        match self {
            ImageData::Borrowed((path, _)) => path@,
            ImageData::Owned((path, _)) => path@,
        }
    }

    pub open spec fn bytes_view(&self) -> Seq<u8> {
        match self {
            ImageData::Borrowed((_, bytes)) => bytes@,
            ImageData::Owned((_, vec)) => vec@,
        }
    }

    /// A copy of the image's path.
    #[inline]
    pub fn path_dup(&self) -> (p: String)
        ensures
            p@ == self.path_view(),
    {
        match self {
            ImageData::Borrowed((path, _)) => path.clone(),
            ImageData::Owned((path, _)) => path.clone(),
        }
    }

    /// The image's path.
    #[inline]
    pub fn path(self) -> (p: String)
        ensures
            p@ == self.path_view(),
    {
        match self {
            ImageData::Borrowed((path, _)) => path,
            ImageData::Owned((path, _)) => path,
        }
    }

    /// The image's bytes.
    #[inline]
    pub fn bytes(&self) -> (b: &[u8])
        ensures
            b@ == self.bytes_view(),
    {
        match self {
            ImageData::Borrowed((_, bytes)) => bytes,
            ImageData::Owned((_, vec)) => vec.as_slice(),
        }
    }
}

/// The colors of the reading view.
#[derive(Clone, Copy)]
pub struct Colors {
    pub color: Color32,
    pub background: Color32,
    pub highlight: Color32,
    pub highlight_background: Color32,
    pub link: Color32,
}

impl Default for Colors {
    fn default() -> (c: Self)
        ensures
            c.color.rgba() == (0u8, 0u8, 0u8, 255u8),
            c.background.rgba() == (255u8, 255u8, 255u8, 255u8),
            c.highlight.rgba() == (255u8, 128u8, 128u8, 255u8),
            c.highlight_background.rgba() == (0x90u8, 0xEEu8, 0x90u8, 255u8),
            c.link.rgba() == (0u8, 0u8, 255u8, 255u8),
    {
        Colors {
            color: Color32::black(),
            background: Color32::white(),
            highlight: Color32::light_red(),
            highlight_background: Color32::light_green(),
            link: Color32::blue(),
        }
    }
}

/// Which chapter to open a book at.
#[derive(Clone, Copy)]
pub enum LoadingChapter {
    Index(usize),
    Last,
}

/// An entry of a table of contents.
pub struct TocInfo<'a> {
    pub title: &'a str,
    pub index: usize,
    pub level: usize,
}

impl<'a> Listable for TocInfo<'a> {
    #[inline]
    fn title(&self) -> (t: &str)
        ensures
            t@ == self.title@,
    {
        self.title
    }

    #[inline]
    fn id(&self) -> (i: usize)
        ensures
            i == self.index,
    {
        self.index
    }
}

/// An error in loading or reading a chapter.
pub struct ChapterError {
    msg: String,
}

impl ChapterError {
    pub closed spec fn message(&self) -> Seq<char> {
        self.msg@
    }

    #[inline]
    pub fn new(msg: String) -> (e: Self)
        ensures
            e.message() == msg@,
    {
        ChapterError { msg }
    }

    /// The error for a message, as callers return it.
    #[inline]
    pub fn anyhow(msg: String) -> (e: Self)
        ensures
            e.message() == msg@,
    {
        ChapterError::new(msg)
    }

    /// The text form: `Chapter error: ` and the message.
    pub fn to_string(&self) -> (s: String)
        ensures
            s@ == "Chapter error: "@ + self.message(),
    {
        let mut s = String::new();
        crate::strings::string_push_str(&mut s, "Chapter error: ");
        crate::strings::string_push_str(&mut s, self.msg.as_str());
        s
    }
}

/// The chapter `goto_chapter` of a plain book reaches: the index, when it is below the
/// chapter count.
pub open spec fn plain_goto_chapter(chapter_index: usize, chapter_count: usize) -> Option<usize> {
    if chapter_index >= chapter_count {
        None
    } else {
        Some(chapter_index)
    }
}

/// A book: its lines in the current chapter, and how to move between chapters.
pub trait Book: Sized {
    fn lines(&self) -> &Vec<Line>;

    #[inline]
    fn name(&self) -> (n: Option<&str>)
        default_ensures
            n is None,
    {
        None
    }

    #[inline]
    fn chapter_count(&self) -> (n: usize)
        default_ensures
            n == 1,
    {
        1
    }

    #[inline]
    fn current_chapter(&self) -> (c: usize)
        default_ensures
            c == 0,
    {
        0
    }

    /// Goes to a chapter: `None` when there is no such chapter.
    fn goto_chapter(&mut self, chapter_index: usize) -> (r: Result<Option<usize>, ChapterError>)
        ensures
            r matches Ok(Some(i)) ==> i == chapter_index,
        default_ensures
            *final(self) == *old(self),
            exists|n: usize|
                #[trigger] call_ensures(Self::chapter_count, (&*old(self),), n) && r == Ok::<
                    Option<usize>,
                    ChapterError,
                >(plain_goto_chapter(chapter_index, n)),
    {
        if chapter_index >= self.chapter_count() {
            Ok(None)
        } else {
            Ok(Some(chapter_index))
        }
    }

    /// Goes to the chapter before the current one: `None` at the first chapter, else what
    /// `goto_chapter` gives for the index before.
    fn prev_chapter(&mut self) -> (r: Result<Option<usize>, ChapterError>)
        default_ensures
            exists|c: usize|
                #[trigger] call_ensures(Self::current_chapter, (&*old(self),), c) && (c == 0 ==> r == Ok::<
                    Option<usize>,
                    ChapterError,
                >(None) && *final(self) == *old(self)) && (c > 0 ==> (r matches Ok(Some(i)) ==> i == c - 1)),
    {
        let current = self.current_chapter();
        if current == 0 {
            Ok(None)
        } else {
            self.goto_chapter(current - 1)
        }
    }

    /// Goes to the chapter after the current one: `None` when the current index is the
    /// largest there is, else what `goto_chapter` gives for the index after.
    fn next_chapter(&mut self) -> (r: Result<Option<usize>, ChapterError>)
        default_ensures
            exists|c: usize|
                #[trigger] call_ensures(Self::current_chapter, (&*old(self),), c) && (c == usize::MAX
                    ==> r == Ok::<Option<usize>, ChapterError>(None) && *final(self) == *old(self)) && (c
                    < usize::MAX ==> (r matches Ok(Some(i)) ==> i == c + 1)),
    {
        let current = self.current_chapter();
        if current == usize::MAX {
            Ok(None)
        } else {
            self.goto_chapter(current + 1)
        }
    }

    #[inline]
    fn title(&self, _line: usize, _offset: usize) -> (t: Option<&str>)
        default_ensures
            t is None,
    {
        None
    }

    #[inline]
    fn toc_index(&self, _line: usize, _offset: usize) -> (i: usize)
        default_ensures
            i == 0,
    {
        0
    }

    #[inline]
    fn leading_space(&self) -> (n: usize)
        default_ensures
            n == 2,
    {
        2
    }

    #[inline]
    fn color_customizable(&self) -> (b: bool)
        default_ensures
            !b,
    {
        false
    }

    #[inline]
    fn fonts_customizable(&self) -> (b: bool)
        default_ensures
            !b,
    {
        false
    }

    #[inline]
    fn style_customizable(&self) -> (b: bool)
        default_ensures
            !b,
    {
        false
    }

    /// The selection highlight of the text from `from` to `to` in the current lines.
    fn range_highlight(&self, from: Position, to: Position) -> (h: Option<HighlightInfo>)
        requires
            selection_fits(from, to),
        default_ensures
            exists|l: &Vec<Line>| #[trigger] call_ensures(Self::lines, (self,), l) && is_range_highlight(h, l@, from, to),
    {
        range_highlight(self.lines(), from, to)
    }
}

} // verus!
