//! Positions in a book, ranges, character widths and plain text handling.

use std::ops::Range;

use encoding_rs::Encoding;
use chardetng::EncodingDetector;

use vstd::prelude::*;

use crate::book::Line;
use crate::strings::{is_white_space, is_whitespace, len_utf8, str_chars, utf8_width};

verus! {

/// A place in the lines of a chapter: a line index and a character offset in it.
#[derive(Clone, Copy, Debug, PartialEq, Eq, Structural)]
pub struct Position {
    pub line: usize,
    pub offset: usize,
}

impl Position {
    pub fn new(line: usize, offset: usize) -> (p: Self)
        ensures
            p.line == line,
            p.offset == offset,
    {
        Position { line, offset }
    }
}

/// A visited place in a book: a chapter, a line and an offset.
#[derive(Clone, Copy, Debug, PartialEq, Eq, Structural)]
pub struct TraceInfo {
    pub chapter: usize,
    pub line: usize,
    pub offset: usize,
}

/// The overlap of two ranges, when it holds at least one element.
pub open spec fn overlap_spec(a: Range<usize>, b: Range<usize>) -> Option<Range<usize>> {
    if a.start >= b.start {
        if a.start < b.end {
            Some(a.start..(if a.end <= b.end { a.end } else { b.end }))
        } else {
            None
        }
    } else if a.end > b.start {
        Some(b.start..(if a.end <= b.end { a.end } else { b.end }))
    } else {
        None
    }
}

/// Whether `a` and `b` share an element, for a non-empty `a`.
pub open spec fn overlap_test(a: Range<usize>, b: Range<usize>) -> bool {
    if a.start >= b.start {
        a.start < b.end
    } else {
        a.end > b.start
    }
}

/// The overlap of `a` and `b`: from the larger start to the smaller end.
pub fn overlap_range(a: &Range<usize>, b: &Range<usize>) -> (r: Option<Range<usize>>)
    ensures
        r == overlap_spec(*a, *b),
{
    let a_start = a.start;
    let a_stop = a.end;
    let b_start = b.start;
    let b_stop = b.end;
    if a_start >= b_start {
        if a_start < b_stop {
            let stop = if a_stop <= b_stop { a_stop } else { b_stop };
            Some(a_start..stop)
        } else {
            None
        }
    } else if a_stop > b_start {
        let stop = if a_stop <= b_stop { a_stop } else { b_stop };
        Some(b_start..stop)
    } else {
        None
    }
}

/// Whether the ranges overlap.
pub fn is_overlap(a: &Range<usize>, b: &Range<usize>) -> (r: bool)
    ensures
        r == overlap_test(*a, *b),
{
    let a_start = a.start;
    let a_stop = a.end;
    let b_start = b.start;
    let b_stop = b.end;
    if a_start >= b_start {
        a_start < b_stop
    } else {
        a_stop > b_start
    }
}

/// Whether `x` lies in `r`.
pub open spec fn in_range(x: int, r: Range<usize>) -> bool {
    r.start <= x < r.end
}

/// The overlap of two ranges holds exactly the elements that lie in both, and there is
/// none when no element lies in both; `is_overlap` says whether there is one.
pub proof fn law_overlap_is_common_part(a: Range<usize>, b: Range<usize>)
    ensures
        overlap_test(a, b) == overlap_spec(a, b) is Some,
        overlap_spec(a, b) matches Some(r) ==> forall|x: int| #[trigger] in_range(x, r) <==> (in_range(x, a) && in_range(x, b)),
        overlap_spec(a, b) is None ==> forall|x: int| !(#[trigger] in_range(x, a) && in_range(x, b)),
{
}

/// For ranges that are not empty, whether they overlap does not depend on their order.
pub proof fn law_overlap_symmetric(a: Range<usize>, b: Range<usize>)
    requires
        a.start < a.end,
        b.start < b.end,
    ensures
        overlap_test(a, b) == overlap_test(b, a),
{
}

/// The character drawn in vertical (han) layout in place of `ch`.
pub open spec fn han_render_map(ch: char) -> char {
    match ch {
        '\t' => '\u{3000}',
        ' ' => '\u{3000}',
        '(' => '\u{fe35}',
        ')' => '\u{fe36}',
        '-' => '\u{fe31}',
        '<' => '\u{fe3b}',
        '>' => '\u{fe3c}',
        '[' => '\u{fe39}',
        ']' => '\u{fe3a}',
        '{' => '\u{fe37}',
        '}' => '\u{fe38}',
        '~' => '\u{2e2f}',
        '\u{2014}' => '\u{fe31}',
        '\u{2026}' => '\u{fe19}',
        '\u{2500}' => '\u{fe31}',
        '\u{3008}' => '\u{fe3f}',
        '\u{3009}' => '\u{fe40}',
        '\u{300a}' => '\u{fe3d}',
        '\u{300b}' => '\u{fe3e}',
        '\u{300c}' => '\u{fe41}',
        '\u{300d}' => '\u{fe42}',
        '\u{300e}' => '\u{fe43}',
        '\u{300f}' => '\u{fe44}',
        '\u{3010}' => '\u{fe3b}',
        '\u{3011}' => '\u{fe3c}',
        '\u{3014}' => '\u{fe39}',
        '\u{3015}' => '\u{fe3a}',
        '\u{3016}' => '\u{fe18}',
        '\u{3017}' => '\u{fe17}',
        '\u{ff08}' => '\u{fe35}',
        '\u{ff09}' => '\u{fe36}',
        '\u{ff3b}' => '\u{fe39}',
        '\u{ff3d}' => '\u{fe3a}',
        '\u{ff5b}' => '\u{fe37}',
        '\u{ff5d}' => '\u{fe38}',
        '\u{ff5e}' => '\u{2e2f}',
        _ => ch,
    }
}

/// The characters that vertical layout draws in a compact cell.
pub open spec fn is_han_compact(ch: char) -> bool {
    ||| ch == '\u{b7}' || ch == '\u{3001}' || ch == '\u{fe17}' || ch == '\u{fe18}'
    ||| ch == '\u{fe35}' || ch == '\u{fe36}' || ch == '\u{fe37}' || ch == '\u{fe38}'
    ||| ch == '\u{fe39}' || ch == '\u{fe3a}' || ch == '\u{fe3b}' || ch == '\u{fe3c}'
    ||| ch == '\u{fe3d}' || ch == '\u{fe3e}' || ch == '\u{fe3f}' || ch == '\u{fe40}'
    ||| ch == '\u{fe41}' || ch == '\u{fe42}' || ch == '\u{fe43}' || ch == '\u{fe44}'
    ||| ch == '\u{ff0c}' || ch == '\u{ff1a}'
}

/// Whether `ch` takes a compact cell in vertical layout.
#[inline]
pub fn is_compact_for_han(ch: char) -> (r: bool)
    ensures
        r == is_han_compact(ch),
{
    match ch {
        '\u{b7}' | '\u{3001}' | '\u{fe17}' | '\u{fe18}' | '\u{fe35}' | '\u{fe36}' | '\u{fe37}'
        | '\u{fe38}' | '\u{fe39}' | '\u{fe3a}' | '\u{fe3b}' | '\u{fe3c}' | '\u{fe3d}'
        | '\u{fe3e}' | '\u{fe3f}' | '\u{fe40}' | '\u{fe41}' | '\u{fe42}' | '\u{fe43}'
        | '\u{fe44}' | '\u{ff0c}' | '\u{ff1a}' => true,
        _ => false,
    }
}

/// The character to draw for `ch` in vertical layout.
#[inline]
pub fn han_render_char(ch: char) -> (r: char)
    ensures
        r == han_render_map(ch),
{
    match ch {
        '\t' => '\u{3000}',
        ' ' => '\u{3000}',
        '(' => '\u{fe35}',
        ')' => '\u{fe36}',
        '-' => '\u{fe31}',
        '<' => '\u{fe3b}',
        '>' => '\u{fe3c}',
        '[' => '\u{fe39}',
        ']' => '\u{fe3a}',
        '{' => '\u{fe37}',
        '}' => '\u{fe38}',
        '~' => '\u{2e2f}',
        '\u{2014}' => '\u{fe31}',
        '\u{2026}' => '\u{fe19}',
        '\u{2500}' => '\u{fe31}',
        '\u{3008}' => '\u{fe3f}',
        '\u{3009}' => '\u{fe40}',
        '\u{300a}' => '\u{fe3d}',
        '\u{300b}' => '\u{fe3e}',
        '\u{300c}' => '\u{fe41}',
        '\u{300d}' => '\u{fe42}',
        '\u{300e}' => '\u{fe43}',
        '\u{300f}' => '\u{fe44}',
        '\u{3010}' => '\u{fe3b}',
        '\u{3011}' => '\u{fe3c}',
        '\u{3014}' => '\u{fe39}',
        '\u{3015}' => '\u{fe3a}',
        '\u{3016}' => '\u{fe18}',
        '\u{3017}' => '\u{fe17}',
        '\u{ff08}' => '\u{fe35}',
        '\u{ff09}' => '\u{fe36}',
        '\u{ff3b}' => '\u{fe39}',
        '\u{ff3d}' => '\u{fe3a}',
        '\u{ff5b}' => '\u{fe37}',
        '\u{ff5d}' => '\u{fe38}',
        '\u{ff5e}' => '\u{2e2f}',
        _ => ch,
    }
}

/// Whether a line starts with a character that is not white space, so that it gets the
/// book's leading space.
pub open spec fn has_leading(text: Seq<char>) -> bool {
    text.len() > 0 && !is_white_space(text[0])
}

/// Whether the line gets the book's leading space.
pub fn with_leading(text: &Line) -> (r: bool)
    ensures
        r == has_leading(text@),
{
    if let Some(leader) = text.char_at(0) {
        !crate::strings::is_whitespace(leader)
    } else {
        false
    }
}

/// The length of a line with its leading space, if it gets one.
pub fn length_with_leading(text: &Line, leading_space: usize) -> (n: usize)
    requires
        text@.len() + leading_space <= usize::MAX,
    ensures
        n == text@.len() + (if has_leading(text@) { leading_space } else { 0 }),
{
    let length = text.len();
    if with_leading(text) {
        length + leading_space
    } else {
        length
    }
}

/// The display width of a character above U+00A0, as the Unicode width tables give it.
pub uninterp spec fn unicode_width_above_latin1(c: char) -> usize;

/// `UnicodeWidthChar::width`: `None` for control characters (below U+0020 and from U+007F
/// to U+009F), one column for the other ASCII characters, and the width of Unicode's
/// tables above, at most three columns.
#[verifier::external_body]
pub(crate) fn unicode_char_width(c: char) -> (width: Option<usize>)
    ensures
        width == unicode_width_result(c),
        (c as u32) >= 0xa0 ==> width == Some(unicode_width_above_latin1(c)),
        width is Some ==> width.unwrap() <= 3,
{
    unicode_width::UnicodeWidthChar::width(c)
}

/// A control character: below U+0020, or from U+007F to U+009F.
pub open spec fn is_control(c: char) -> bool {
    (c as u32) < 0x20 || (0x7f <= (c as u32) && (c as u32) < 0xa0)
}

/// What `UnicodeWidthChar::width` gives for `c`.
pub open spec fn unicode_width_result(c: char) -> Option<usize> {
    if is_control(c) {
        None
    } else if (c as u32) < 0x7f {
        Some(1)
    } else {
        Some(unicode_width_above_latin1(c))
    }
}

/// The display width of a character in columns; control characters take none.
pub open spec fn char_width_spec(c: char) -> nat {
    if (c as u32) < 0x20 || (0x7f <= (c as u32) && (c as u32) < 0xa0) {
        0
    } else if (c as u32) < 0x7f {
        1
    } else {
        unicode_width_above_latin1(c) as nat
    }
}

/// The display width of a character in columns.
#[inline]
pub fn char_width(ch: char) -> (w: usize)
    ensures
        w == char_width_spec(ch),
        w <= 3,
{
    match unicode_char_width(ch) {
        Some(w) => w,
        None => 0,
    }
}

/// The index of the character that starts at byte `b` of the UTF-8 encoding of `s`, or
/// the character count when `b` is the length of the encoding.
pub open spec fn char_index_at_byte(s: Seq<char>, b: int) -> Option<int>
    decreases s.len(),
{
    if b == 0 {
        Some(0)
    } else if s.len() == 0 || b < 0 {
        None
    } else {
        match char_index_at_byte(s.drop_first(), b - utf8_width(s[0])) {
            Some(k) => Some(k + 1),
            None => None,
        }
    }
}

proof fn lemma_char_index_step(s: Seq<char>, i: int, pos: int, b: int)
    requires
        0 <= i < s.len(),
        pos < b,
    ensures
        char_index_at_byte(s.skip(i), b - pos) == (match char_index_at_byte(
            s.skip(i + 1),
            b - pos - utf8_width(s[i]),
        ) {
            Some(k) => Some(k + 1),
            None => None,
        }),
{
    assert(s.skip(i).drop_first() == s.skip(i + 1));
}

/// The character index for a byte index of `text`: `None` when the byte index is not at
/// a character boundary.
pub fn char_index_for_byte(text: &str, byte_index: usize) -> (r: Option<usize>)
    ensures
        match r {
            Some(k) => char_index_at_byte(text@, byte_index as int) == Some(k as int),
            None => char_index_at_byte(text@, byte_index as int) is None,
        },
{
    let chars = str_chars(text);
    let mut pos: usize = 0;
    let mut i: usize = 0;
    assert(chars@.skip(0) == chars@);
    while i < chars.len()
        invariant
            chars@ == text@,
            i <= chars.len(),
            pos <= byte_index,
            char_index_at_byte(text@, byte_index as int) == (match char_index_at_byte(
                text@.skip(i as int),
                byte_index - pos,
            ) {
                Some(k) => Some(k + i),
                None => None,
            }),
        decreases chars.len() - i,
    {
        if pos == byte_index {
            return Some(i);
        }
        let w = len_utf8(chars[i]);
        proof {
            lemma_char_index_step(text@, i as int, pos as int, byte_index as int);
        }
        if w > byte_index - pos {
            return None;
        }
        pos = pos + w;
        i = i + 1;
    }
    assert(text@.skip(i as int) =~= Seq::<char>::empty());
    if pos == byte_index {
        Some(i)
    } else {
        None
    }
}

/// The lines of a plain text, as `txt_lines` splits it: `done` holds the finished lines
/// and `cur` the characters of the line in progress.
pub open spec fn txt_step(state: (Seq<Seq<char>>, Seq<char>), c: char) -> (Seq<Seq<char>>, Seq<
    char,
>) {
    let (done, cur) = state;
    if c == '\r' {
        state
    } else if c == '\n' {
        (done.push(cur), Seq::empty())
    } else if (cur.len() > 0 || !is_white_space(c)) && c != '\0' {
        (done, cur.push(c))
    } else {
        state
    }
}

/// The state after splitting the characters of `s`.
pub open spec fn txt_state(s: Seq<char>) -> (Seq<Seq<char>>, Seq<char>)
    decreases s.len(),
{
    if s.len() == 0 {
        (Seq::empty(), Seq::empty())
    } else {
        txt_step(txt_state(s.drop_last()), s.last())
    }
}

/// The lines of a plain text: split at line feeds, carriage returns and NUL characters
/// dropped, and white space at the start of each line dropped.
pub open spec fn txt_lines_spec(s: Seq<char>) -> Seq<Seq<char>> {
    let (done, cur) = txt_state(s);
    done.push(cur)
}

/// A line of plain text holds no line feed, carriage return or NUL, and does not start
/// with white space.
pub open spec fn clean_line(line: Seq<char>) -> bool {
    &&& forall|j: int| 0 <= j < line.len() ==> #[trigger] line[j] != '\n' && line[j] != '\r' && line[j] != '\0'
    &&& line.len() > 0 ==> !is_white_space(line[0])
}

/// Every line that plain text is split into is clean: no line feed, carriage return or
/// NUL in it, and no white space at its start.
pub proof fn law_txt_lines_clean(s: Seq<char>)
    ensures
        forall|i: int| 0 <= i < txt_lines_spec(s).len() ==> clean_line(#[trigger] txt_lines_spec(s)[i]),
    decreases s.len(),
{
    lemma_txt_state_clean(s);
    let (done, cur) = txt_state(s);
    assert forall|i: int| 0 <= i < txt_lines_spec(s).len() implies clean_line(#[trigger] txt_lines_spec(s)[i]) by {
        if i < done.len() {
            assert(txt_lines_spec(s)[i] == done[i]);
        } else {
            assert(txt_lines_spec(s)[i] == cur);
        }
    }
}

proof fn lemma_txt_state_clean(s: Seq<char>)
    ensures
        forall|i: int| 0 <= i < txt_state(s).0.len() ==> clean_line(#[trigger] txt_state(s).0[i]),
        clean_line(txt_state(s).1),
    decreases s.len(),
{
    if s.len() > 0 {
        lemma_txt_state_clean(s.drop_last());
        let (done, cur) = txt_state(s.drop_last());
        let c = s.last();
        if c != '\r' && c != '\n' && (cur.len() > 0 || !is_white_space(c)) && c != '\0' {
            let next = cur.push(c);
            assert forall|j: int| 0 <= j < next.len() implies #[trigger] next[j] != '\n' && next[j] != '\r' && next[j] != '\0' by {
                if j < cur.len() {
                    assert(next[j] == cur[j]);
                }
            }
            if cur.len() > 0 {
                assert(next[0] == cur[0]);
            }
        }
        if c == '\n' {
            let next = done.push(cur);
            assert forall|i: int| 0 <= i < next.len() implies clean_line(#[trigger] next[i]) by {
                if i < done.len() {
                    assert(next[i] == done[i]);
                }
            }
        }
    }
}

/// Splits plain text into lines.
pub fn txt_lines(txt: &str) -> (lines: Vec<Line>)
    ensures
        lines@.len() == txt_lines_spec(txt@).len(),
        forall|i: int| 0 <= i < lines@.len() ==> #[trigger] lines@[i]@ == txt_lines_spec(txt@)[i],
        forall|i: int| 0 <= i < lines@.len() ==> #[trigger] lines@[i].styles().len() == 0,
{
    let chars = str_chars(txt);
    let mut lines: Vec<Line> = Vec::new();
    let mut line = Line::default();
    let mut i: usize = 0;
    while i < chars.len()
        invariant
            chars@ == txt@,
            i <= chars.len(),
            txt_state(txt@.take(i as int)).0.len() == lines@.len(),
            forall|k: int|
                0 <= k < lines@.len() ==> #[trigger] lines@[k]@ == txt_state(txt@.take(i as int)).0[k],
            forall|k: int| 0 <= k < lines@.len() ==> #[trigger] lines@[k].styles().len() == 0,
            line@ == txt_state(txt@.take(i as int)).1,
            line.styles().len() == 0,
        decreases chars.len() - i,
    {
        let c = chars[i];
        assert(txt@.take(i + 1).drop_last() == txt@.take(i as int));
        assert(txt@.take(i + 1).last() == c);
        if c == '\r' {
        } else if c == '\n' {
            lines.push(line);
            line = Line::default();
        } else if line.len() > 0 || !is_whitespace(c) {
            line.push(c);
        }
        i = i + 1;
    }
    assert(txt@.take(chars.len() as int) == txt@);
    lines.push(line);
    lines
}

#[verifier::external_type_specification]
#[verifier::external_body]
pub struct ExEncoding(Encoding);

#[verifier::external_type_specification]
#[verifier::external_body]
pub struct ExEncodingDetector(EncodingDetector);

/// Why bytes could not be read as text.
#[derive(Clone, Copy, PartialEq, Eq, Structural, Debug)]
pub enum TextError {
    /// The bytes were taken for UTF-8 but are not valid UTF-8.
    InvalidUtf8,
}

/// The bytes fed to `detector` so far, in order.
pub uninterp spec fn detector_fed(detector: EncodingDetector) -> Seq<u8>;

/// Whether `detector` has been fed the end of its stream.
pub uninterp spec fn detector_finished(detector: EncodingDetector) -> bool;

/// The encoding that `EncodingDetector::guess`, with no top-level domain and UTF-8
/// allowed, gives after `bytes` were fed, the end of the stream included when `finished`.
pub uninterp spec fn guessed_encoding(bytes: Seq<u8>, finished: bool) -> &'static Encoding;

/// Whether some byte is not ASCII.
pub open spec fn has_non_ascii(bytes: Seq<u8>) -> bool {
    exists|i: int| 0 <= i < bytes.len() && bytes[i] >= 0x80
}

/// `EncodingDetector::new`: a detector that has seen no bytes.
#[verifier::external_body]
fn new_detector() -> (d: EncodingDetector)
    ensures
        detector_fed(d) == Seq::<u8>::empty(),
        !detector_finished(d),
{
    EncodingDetector::new()
}

/// `EncodingDetector::feed`: `buffer` is added to the stream, which ends with it when
/// `last`; true when the stream so far holds a non-ASCII byte. It panics once the end of
/// the stream has been fed, so that is ruled out.
#[verifier::external_body]
fn feed_detector(detector: &mut EncodingDetector, buffer: &[u8], last: bool) -> (non_ascii: bool)
    requires
        !detector_finished(*old(detector)),
    ensures
        detector_fed(*final(detector)) == detector_fed(*old(detector)) + buffer@,
        detector_finished(*final(detector)) == last,
        non_ascii == has_non_ascii(detector_fed(*final(detector))),
{
    detector.feed(buffer, last)
}

/// `EncodingDetector::guess` with no top-level domain and UTF-8 allowed: the guess for the
/// bytes fed so far.
#[verifier::external_body]
fn guess_encoding(detector: &EncodingDetector) -> (e: &'static Encoding)
    ensures
        e == guessed_encoding(detector_fed(*detector), detector_finished(*detector)),
{
    detector.guess(None, true)
}

/// Whether `encoding` is UTF-8: what `Encoding::eq` against `encoding_rs::UTF_8` gives.
pub uninterp spec fn is_utf8_encoding(encoding: &'static Encoding) -> bool;

/// `encoding_rs::UTF_8`.
#[verifier::external_body]
fn utf_8() -> (e: &'static Encoding)
    ensures
        is_utf8_encoding(e),
{
    encoding_rs::UTF_8
}

/// `Encoding::eq` against UTF-8.
#[verifier::external_body]
fn is_utf_8(encoding: &'static Encoding) -> (r: bool)
    ensures
        r == is_utf8_encoding(encoding),
{
    encoding.eq(encoding_rs::UTF_8)
}

/// What `Encoding::decode` gives for `bytes` in `encoding`: the text, with malformed
/// sequences replaced.
pub uninterp spec fn decoded_text(encoding: &'static Encoding, bytes: Seq<u8>) -> Seq<char>;

/// `Encoding::decode`: the text of `bytes` in `encoding`, malformed sequences replaced.
#[verifier::external_body]
pub(crate) fn decode_with(encoding: &'static Encoding, bytes: &[u8]) -> (text: String)
    ensures
        text@ == decoded_text(encoding, bytes@),
{
    encoding.decode(bytes).0.into_owned()
}

/// `String::from_utf8`: the text when the bytes are valid UTF-8.
#[verifier::external_body]
fn string_from_utf8(bytes: Vec<u8>) -> (r: Result<String, TextError>)
    ensures
        r is Ok <==> vstd::utf8::valid_utf8(bytes@),
        r matches Ok(s) ==> s@ == vstd::utf8::decode_utf8(bytes@),
{
    String::from_utf8(bytes).map_err(|_| TextError::InvalidUtf8)
}

/// The encoding of `content` as detection guesses it; UTF-8 when the content is all
/// ASCII, as the detector then gives no guess.
#[inline]
pub fn detect_charset(content: &Vec<u8>, full_scan: bool) -> (e: &'static Encoding)
    ensures
        all_ascii(content@) ==> is_utf8_encoding(e),
        !all_ascii(content@) ==> e == guessed_encoding(content@, full_scan),
{
    let mut detector = new_detector();
    proof {
        assert(Seq::<u8>::empty() + content@ =~= content@);
        assert(all_ascii(content@) <==> !has_non_ascii(content@));
    }
    if feed_detector(&mut detector, content.as_slice(), full_scan) {
        guess_encoding(&detector)
    } else {
        utf_8()
    }
}

/// The text of `content` in `encoding`: strict UTF-8 for UTF-8, an error when the bytes
/// are not valid; decoding with replacement for the other encodings.
pub open spec fn text_in(encoding: &'static Encoding, content: Seq<u8>) -> Result<Seq<char>, TextError> {
    if is_utf8_encoding(encoding) {
        if vstd::utf8::valid_utf8(content) {
            Ok(vstd::utf8::decode_utf8(content))
        } else {
            Err(TextError::InvalidUtf8)
        }
    } else {
        Ok(decoded_text(encoding, content))
    }
}

/// The view of a text result.
pub open spec fn text_result_view(r: Result<String, TextError>) -> Result<Seq<char>, TextError> {
    match r {
        Ok(s) => Ok(s@),
        Err(e) => Err(e),
    }
}

/// The text of `content` in `encoding`: strict UTF-8 for UTF-8 (an error when the bytes
/// are not valid), and decoding with replacement for the other encodings.
#[inline]
pub fn decode_text(content: Vec<u8>, encoding: &'static Encoding) -> (r: Result<String, TextError>)
    ensures
        r matches Err(e) ==> e == TextError::InvalidUtf8 && !vstd::utf8::valid_utf8(content@),
        is_utf8_encoding(encoding) ==> (r is Ok <==> vstd::utf8::valid_utf8(content@)),
        is_utf8_encoding(encoding) ==> (r matches Ok(s) ==> s@ == vstd::utf8::decode_utf8(content@)),
        !is_utf8_encoding(encoding) ==> (r matches Ok(s) && s@ == decoded_text(encoding, content@)),
        text_result_view(r) == text_in(encoding, content@),
{
    if is_utf_8(encoding) {
        string_from_utf8(content)
    } else {
        Ok(decode_with(encoding, content.as_slice()))
    }
}

/// Whether every byte is ASCII.
pub open spec fn all_ascii(bytes: Seq<u8>) -> bool {
    forall|i: int| 0 <= i < bytes.len() ==> bytes[i] < 0x80
}

fn is_ascii_bytes(content: &Vec<u8>) -> (r: bool)
    ensures
        r == all_ascii(content@),
{
    let mut i: usize = 0;
    while i < content.len()
        invariant
            i <= content@.len(),
            forall|k: int| 0 <= k < i ==> content@[k] < 0x80,
        decreases content@.len() - i,
    {
        if content[i] >= 0x80 {
            return false;
        }
        i = i + 1;
    }
    true
}

/// The text of `content`, in the encoding that detection guesses: ASCII content is read
/// as UTF-8.
pub fn plain_text(content: Vec<u8>, full_scan: bool) -> (r: Result<String, TextError>)
    ensures
        r matches Err(e) ==> e == TextError::InvalidUtf8 && !vstd::utf8::valid_utf8(content@),
        all_ascii(content@) ==> (r matches Ok(s) && s@ == vstd::utf8::decode_utf8(content@)),
        !all_ascii(content@) ==> text_result_view(r) == text_in(guessed_encoding(content@, full_scan), content@),
{
    if is_ascii_bytes(&content) {
        proof {
            lemma_ascii_is_utf8(content@);
        }
        return string_from_utf8(content);
    }
    let encoding = detect_charset(&content, full_scan);
    decode_text(content, encoding)
}

proof fn lemma_ascii_is_utf8(bytes: Seq<u8>)
    requires
        all_ascii(bytes),
    ensures
        vstd::utf8::valid_utf8(bytes),
    decreases bytes.len(),
{
    if bytes.len() > 0 {
        let b = bytes[0];
        assert(b & 0x7f == b) by (bit_vector)
            requires
                b < 0x80,
        ;
        assert(vstd::utf8::valid_first_scalar(bytes));
        let rest = vstd::utf8::pop_first_scalar(bytes);
        assert(rest =~= bytes.subrange(1, bytes.len() as int));
        lemma_ascii_is_utf8(rest);
    }
}

/// The lines of `content` read as plain text; for ASCII content, the lines of its text.
pub fn plain_text_lines(content: Vec<u8>) -> (r: Result<Vec<Line>, TextError>)
    ensures
        r matches Err(e) ==> e == TextError::InvalidUtf8 && !vstd::utf8::valid_utf8(content@),
        all_ascii(content@) ==> (r matches Ok(lines) && lines@.len() == txt_lines_spec(
            vstd::utf8::decode_utf8(content@),
        ).len() && forall|i: int|
            0 <= i < lines@.len() ==> #[trigger] lines@[i]@ == txt_lines_spec(vstd::utf8::decode_utf8(content@))[i]),
        !all_ascii(content@) ==> match (r, text_in(guessed_encoding(content@, false), content@)) {
            (Ok(lines), Ok(text)) => lines@.len() == txt_lines_spec(text).len() && forall|i: int|
                0 <= i < lines@.len() ==> #[trigger] lines@[i]@ == txt_lines_spec(text)[i],
            (Err(e), Err(f)) => e == f,
            _ => false,
        },
{
    let text = plain_text(content, false)?;
    Ok(txt_lines(text.as_str()))
}

} // verus!
