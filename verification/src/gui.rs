//! Decisions of the graphical view that do not depend on how it draws: highlight colours,
//! the parts of bordered blocks, and search results.

use std::ops::Range;

use vstd::prelude::*;

use crate::book::{Colors, Line};
use crate::common::{char_width, char_width_spec, Position};
use crate::strings::{len_utf8, string_push, utf8_width};
use crate::color::Color32;
use crate::controller::{HighlightInfo, HighlightMode};

verus! {

/// Which part of a bordered block a run of drawn lines is: where the border is open.
#[derive(Clone, Copy, Debug, PartialEq, Eq, Structural)]
pub enum BlockStylePart {
    Begin,
    End,
    Middle,
    Single,
}

/// Whether the border of a block part is drawn at its start and at its end.
pub fn block_part_edges(part: BlockStylePart) -> (r: (bool, bool))
    ensures
        r == (match part {
            BlockStylePart::Begin => (true, false),
            BlockStylePart::End => (false, true),
            BlockStylePart::Middle => (false, false),
            BlockStylePart::Single => (true, true),
        }),
{
    match part {
        BlockStylePart::Begin => (true, false),
        BlockStylePart::End => (false, true),
        BlockStylePart::Middle => (false, false),
        BlockStylePart::Single => (true, true),
    }
}

/// The part of a block drawn from one of its lines: the border is open at the start when
/// the line is drawn from its start, and at the end when the line does not overflow the
/// view.
pub fn block_part(from_start: bool, overflow: bool) -> (p: BlockStylePart)
    ensures
        block_part_edges_spec(p) == (from_start, !overflow),
{
    if from_start {
        if overflow {
            BlockStylePart::Begin
        } else {
            BlockStylePart::Single
        }
    } else {
        if overflow {
            BlockStylePart::Middle
        } else {
            BlockStylePart::End
        }
    }
}

/// Whether the border of a block part is drawn at its start and at its end.
pub open spec fn block_part_edges_spec(part: BlockStylePart) -> (bool, bool) {
    match part {
        BlockStylePart::Begin => (true, false),
        BlockStylePart::End => (false, true),
        BlockStylePart::Middle => (false, false),
        BlockStylePart::Single => (true, true),
    }
}

/// The part drawn at the last line of a block, given the part that its first drawn line
/// opened (`None` when the block started before this screen): open at the start unless
/// that was a middle part or there was none.
pub fn closing_block_part(opened: Option<BlockStylePart>, overflow: bool) -> (p: BlockStylePart)
    ensures
        block_part_edges_spec(p) == (match opened {
            Some(BlockStylePart::Middle) => (false, !overflow),
            Some(_) => (true, !overflow),
            None => (false, !overflow),
        }),
{
    match opened {
        Some(BlockStylePart::Middle) => block_part(false, overflow),
        Some(_) => block_part(true, overflow),
        None => block_part(false, overflow),
    }
}

/// Where a pointer is in a drawn line: before its first character, at one, or after its
/// last.
#[derive(Clone, Copy, Debug, PartialEq, Eq, Structural)]
pub enum PointerPosition {
    Head,
    Exact(usize),
    Tail,
}

/// A search result: where the match is and the text shown for it.
pub struct FoundEntry {
    pub inner_book: usize,
    pub chapter: usize,
    pub chapter_title: Option<String>,
    pub toc_title: Option<String>,
    pub line: usize,
    pub range: Range<usize>,
    pub display_text: String,
    pub highlight_display_bytes: Range<usize>,
}

/// Whether the character at `offset` of line `render_line` lies in the highlight.
pub open spec fn in_highlight(render_line: usize, offset: usize, h: HighlightInfo) -> bool {
    match h.mode {
        HighlightMode::Selection(_, line2) => {
            ||| (h.line == render_line && line2 == render_line && h.start <= offset && h.end > offset)
            ||| (h.line == render_line && line2 > render_line && h.start <= offset)
            ||| (h.line < render_line && line2 == render_line && h.end > offset)
            ||| (h.line < render_line && line2 > render_line)
        },
        _ => h.line == render_line && h.start <= offset && h.end > offset,
    }
}

/// The background of the character at `offset` of line `render_line`: the highlight
/// background inside the highlight, else `background`.
pub fn update_for_highlight(render_line: usize, offset: usize, background: Option<Color32>,
    colors: &Colors, highlight: &Option<HighlightInfo>) -> (r: Option<Color32>)
    ensures
        r == (match highlight {
            Some(h) => if in_highlight(render_line, offset, *h) {
                Some(colors.highlight_background)
            } else {
                background
            },
            None => background,
        }),
{
    match highlight {
        Some(h) => {
            let inside = match &h.mode {
                HighlightMode::Selection(_, line2) => {
                    let line2 = *line2;
                    (h.line == render_line && line2 == render_line && h.start <= offset && h.end > offset)
                        || (h.line == render_line && line2 > render_line && h.start <= offset)
                        || (h.line < render_line && line2 == render_line && h.end > offset)
                        || (h.line < render_line && line2 > render_line)
                },
                _ => h.line == render_line && h.start <= offset && h.end > offset,
            };
            if inside {
                Some(colors.highlight_background)
            } else {
                background
            }
        },
        None => background,
    }
}

/// The columns of text shown around a search result on each side.
pub const PADDING_SIZE: usize = 20;

/// The start of the text shown before a match that starts at `start`: characters are taken
/// back one by one while the widths taken so far add up to less than `PADDING_SIZE`.
pub open spec fn pad_start(s: Seq<char>, start: int, padding: int) -> int
    decreases start,
{
    if start > 0 && padding < PADDING_SIZE && start - 1 < s.len() {
        pad_start(s, start - 1, padding + char_width_spec(s[start - 1]))
    } else {
        start
    }
}

/// The end of the text shown after a match that ends at `end`: characters are taken one by
/// one until the widths taken reach `PADDING_SIZE`, that last one left out.
pub open spec fn pad_end(s: Seq<char>, end: int, padding: int) -> int
    decreases s.len() - end,
{
    if 0 <= end < s.len() {
        if padding + char_width_spec(s[end]) >= PADDING_SIZE {
            end
        } else {
            pad_end(s, end + 1, padding + char_width_spec(s[end]))
        }
    } else {
        end
    }
}

/// The number of bytes of the UTF-8 encoding of `s`.
pub open spec fn utf8_len(s: Seq<char>) -> int
    decreases s.len(),
{
    if s.len() == 0 {
        0
    } else {
        utf8_len(s.drop_last()) + utf8_width(s.last())
    }
}

proof fn lemma_pad_start_bounds(s: Seq<char>, start: int, padding: int)
    requires
        0 <= start,
    ensures
        0 <= pad_start(s, start, padding) <= start,
    decreases start,
{
    if start > 0 && padding < PADDING_SIZE && start - 1 < s.len() {
        lemma_pad_start_bounds(s, start - 1, padding + char_width_spec(s[start - 1]));
    }
}

proof fn lemma_pad_end_bounds(s: Seq<char>, end: int, padding: int)
    requires
        0 <= end <= s.len(),
    ensures
        end <= pad_end(s, end, padding) <= s.len(),
    decreases s.len() - end,
{
    if end < s.len() && padding + char_width_spec(s[end]) < PADDING_SIZE {
        lemma_pad_end_bounds(s, end + 1, padding + char_width_spec(s[end]));
    }
}

/// The text shown for a search result of `line` at `range`: the match with up to
/// `PADDING_SIZE` columns of text on each side, and the byte range of the match in it;
/// `None` when the range lies past the line.
pub fn make_display_text(line: &Line, range: &Range<usize>) -> (r: Option<(String, Range<usize>)>)
    requires
        range.start <= range.end,
        line@.len() <= usize::MAX / 4,
    ensures
        range.end > line@.len() ==> r is None,
        range.end <= line@.len() ==> ({
            let s = line@;
            let start = pad_start(s, range.start as int, 0);
            let end = pad_end(s, range.end as int, 0);
            r matches Some((text, bytes)) && text@ == s.subrange(start, end) && bytes.start
                == utf8_len(s.subrange(start, range.start as int)) && bytes.end == utf8_len(
                s.subrange(start, range.end as int),
            )
        }),
{
    if range.end > line.len() {
        return None;
    }
    let ghost s = line@;
    let mut padding: usize = 0;
    let mut start = range.start;
    while start > 0 && padding < PADDING_SIZE
        invariant
            start <= range.start <= range.end <= s.len(),
            s == line@,
            padding <= PADDING_SIZE + 3,
            pad_start(s, range.start as int, 0) == pad_start(s, start as int, padding as int),
        ensures
            start <= range.start,
            pad_start(s, range.start as int, 0) == start,
        decreases start,
    {
        let idx = start - 1;
        match line.char_at(idx) {
            Some(c) => {
                padding = padding + char_width(c);
            },
            None => {
                break;
            },
        }
        start = idx;
    }
    let mut padding: usize = 0;
    let mut end = range.end;
    loop
        invariant_except_break
            padding < PADDING_SIZE,
            pad_end(s, range.end as int, 0) == pad_end(s, end as int, padding as int),
        invariant
            range.end <= end <= s.len(),
            s == line@,
            s.len() <= usize::MAX / 4,
        ensures
            pad_end(s, range.end as int, 0) == end,
        decreases s.len() - end,
    {
        match line.char_at(end) {
            Some(c) => {
                padding = padding + char_width(c);
                if padding >= PADDING_SIZE {
                    break;
                }
                end = end + 1;
            },
            None => {
                break;
            },
        }
    }
    proof {
        lemma_pad_start_bounds(s, range.start as int, 0);
        lemma_pad_end_bounds(s, range.end as int, 0);
    }
    let mut text = String::new();
    let mut byte_count: usize = 0;
    let mut highlight_start: usize = 0;
    let mut highlight_end: usize = 0;
    let mut i = start;
    while i < end
        invariant
            start <= i <= end <= s.len(),
            start <= range.start <= range.end <= end,
            s == line@,
            text@ == s.subrange(start as int, i as int),
            byte_count == utf8_len(s.subrange(start as int, i as int)),
            i > range.start ==> highlight_start == utf8_len(s.subrange(start as int, range.start as int)),
            i > range.end ==> highlight_end == utf8_len(s.subrange(start as int, range.end as int)),
            byte_count <= 4 * (i - start),
            s.len() <= usize::MAX / 4,
        decreases end - i,
    {
        if i == range.start {
            highlight_start = byte_count;
        }
        if i == range.end {
            highlight_end = byte_count;
        }
        let c = match line.char_at(i) {
            Some(c) => c,
            None => ' ',
        };
        string_push(&mut text, c);
        byte_count = byte_count + len_utf8(c);
        i = i + 1;
        assert(s.subrange(start as int, i as int).drop_last() =~= s.subrange(start as int, i - 1));
        assert(text@ =~= s.subrange(start as int, i as int));
    }
    if i == range.start {
        highlight_start = byte_count;
    }
    if i == range.end {
        highlight_end = byte_count;
    }
    Some((text, Range { start: highlight_start, end: highlight_end }))
}

/// A base colour of a terminal theme's palette.
#[derive(Clone, Copy, Debug, PartialEq, Eq, Structural)]
pub enum BaseColor {
    Black,
    Red,
    Green,
    Yellow,
    Blue,
    Magenta,
    Cyan,
    White,
}

/// A colour of a terminal theme.
#[derive(Clone, Copy, Debug, PartialEq, Eq, Structural)]
pub enum ThemeColor {
    TerminalDefault,
    Dark(BaseColor),
    Light(BaseColor),
    Rgb(u8, u8, u8),
    RgbLowRes(u8, u8, u8),
}

/// The colours of a terminal theme's palette that the reader takes over.
#[derive(Clone, Copy, Debug)]
pub struct ThemePalette {
    pub primary: ThemeColor,
    pub background: ThemeColor,
    pub highlight_text: ThemeColor,
    pub highlight: ThemeColor,
    pub secondary: ThemeColor,
}

/// The opaque colour of a base colour.
pub open spec fn base_rgb(b: BaseColor) -> (u8, u8, u8) {
    match b {
        BaseColor::Black => (0, 0, 0),
        BaseColor::Red => (255, 0, 0),
        BaseColor::Green => (0, 255, 0),
        BaseColor::Yellow => (255, 255, 0),
        BaseColor::Blue => (0, 0, 255),
        BaseColor::Magenta => (255, 0, 255),
        BaseColor::Cyan => (0, 255, 255),
        BaseColor::White => (255, 255, 255),
    }
}

/// The opaque colour of a theme colour: black for the terminal's default, the base colour
/// for dark and light variants, the components for RGB.
pub open spec fn theme_rgb(c: ThemeColor) -> (u8, u8, u8) {
    match c {
        ThemeColor::TerminalDefault => (0, 0, 0),
        ThemeColor::Dark(b) => base_rgb(b),
        ThemeColor::Light(b) => base_rgb(b),
        ThemeColor::Rgb(r, g, b) => (r, g, b),
        ThemeColor::RgbLowRes(r, g, b) => (r, g, b),
    }
}

/// Whether `c` is the opaque colour `rgb`.
pub open spec fn is_opaque_rgb(c: Color32, rgb: (u8, u8, u8)) -> bool {
    c.rgba() == (rgb.0, rgb.1, rgb.2, 255u8)
}

fn convert_base(b: BaseColor) -> (c: Color32)
    ensures
        is_opaque_rgb(c, base_rgb(b)),
{
    match b {
        BaseColor::Black => Color32::black(),
        BaseColor::Red => Color32::red(),
        BaseColor::Green => Color32::green(),
        BaseColor::Yellow => Color32::yellow(),
        BaseColor::Blue => Color32::blue(),
        BaseColor::Magenta => Color32::from_rgb(255, 0, 255),
        BaseColor::Cyan => Color32::from_rgb(0, 255, 255),
        BaseColor::White => Color32::white(),
    }
}

/// The colour of the reader for a theme colour.
pub fn convert_color(color: ThemeColor) -> (c: Color32)
    ensures
        is_opaque_rgb(c, theme_rgb(color)),
{
    match color {
        ThemeColor::TerminalDefault => Color32::black(),
        ThemeColor::Dark(b) => convert_base(b),
        ThemeColor::Light(b) => convert_base(b),
        ThemeColor::Rgb(r, g, b) => Color32::from_rgb(r, g, b),
        ThemeColor::RgbLowRes(r, g, b) => Color32::from_rgb(r, g, b),
    }
}

/// The reader's colours from a terminal theme: text from the primary colour, background
/// from the background, highlighted text and its background from the highlight colours,
/// links from the secondary colour.
pub fn convert_colors(palette: &ThemePalette) -> (colors: Colors)
    ensures
        is_opaque_rgb(colors.color, theme_rgb(palette.primary)),
        is_opaque_rgb(colors.background, theme_rgb(palette.background)),
        is_opaque_rgb(colors.highlight, theme_rgb(palette.highlight_text)),
        is_opaque_rgb(colors.highlight_background, theme_rgb(palette.highlight)),
        is_opaque_rgb(colors.link, theme_rgb(palette.secondary)),
{
    Colors {
        color: convert_color(palette.primary),
        background: convert_color(palette.background),
        highlight: convert_color(palette.highlight_text),
        highlight_background: convert_color(palette.highlight),
        link: convert_color(palette.secondary),
    }
}

/// A line as the graphical view drew it: the line of the book it shows, and the offset in
/// that line of each character drawn.
pub struct DrawnLine {
    pub line: usize,
    pub offsets: Vec<usize>,
}

/// The offset of the first character drawn, 0 when none is.
pub open spec fn first_offset(l: DrawnLine) -> usize {
    if l.offsets@.len() > 0 {
        l.offsets@[0]
    } else {
        0
    }
}

/// The offset of the last character drawn, 0 when none is.
pub open spec fn last_offset(l: DrawnLine) -> usize {
    if l.offsets@.len() > 0 {
        l.offsets@.last()
    } else {
        0
    }
}

/// The offset a pointer is at within a drawn line: before its first character, at a
/// character, or after its last one.
pub open spec fn pointer_offset(l: DrawnLine, p: PointerPosition) -> usize {
    match p {
        PointerPosition::Head => first_offset(l),
        PointerPosition::Exact(i) => l.offsets@[i as int],
        PointerPosition::Tail => last_offset(l),
    }
}

/// Whether a pointer's line and offset name drawn lines and characters.
pub open spec fn pointer_valid(lines: Seq<DrawnLine>, p: (PointerPosition, PointerPosition)) -> bool {
    match p.0 {
        PointerPosition::Exact(k) => k < lines.len() && match p.1 {
            PointerPosition::Exact(i) => i < lines[k as int].offsets@.len(),
            _ => true,
        },
        _ => true,
    }
}

/// The place a pointer on the drawn line `k` is at.
pub open spec fn pointer_place(lines: Seq<DrawnLine>, k: usize, offset: PointerPosition) -> Position {
    Position { line: lines[k as int].line, offset: pointer_offset(lines[k as int], offset) }
}

/// The start of the first drawn line.
pub open spec fn view_start(lines: Seq<DrawnLine>) -> Position {
    Position { line: lines[0].line, offset: first_offset(lines[0]) }
}

/// The end of the last drawn line.
pub open spec fn view_end(lines: Seq<DrawnLine>) -> Position {
    Position { line: lines.last().line, offset: last_offset(lines.last()) }
}

/// The text selected by dragging the pointer from `from` to `to`, each a drawn line and an
/// offset in it: from where the drag starts to where it ends, a pointer above or below the
/// drawn lines reaching the start or the end of the view; none when nothing is drawn or
/// both ends are above, or both below, the drawn lines.
pub open spec fn selection_spec(lines: Seq<DrawnLine>, from: (PointerPosition, PointerPosition), to: (
    PointerPosition,
    PointerPosition,
)) -> Option<(Position, Position)> {
    if lines.len() == 0 {
        None
    } else {
        match (from.0, to.0) {
            (PointerPosition::Head, PointerPosition::Head) => None,
            (PointerPosition::Tail, PointerPosition::Tail) => None,
            (PointerPosition::Head, PointerPosition::Tail) => Some((view_start(lines), view_end(lines))),
            (PointerPosition::Tail, PointerPosition::Head) => Some((view_start(lines), view_end(lines))),
            (PointerPosition::Head, PointerPosition::Exact(k)) => Some(
                (view_start(lines), pointer_place(lines, k, to.1)),
            ),
            (PointerPosition::Exact(k), PointerPosition::Head) => Some(
                (view_start(lines), pointer_place(lines, k, from.1)),
            ),
            (PointerPosition::Exact(k), PointerPosition::Tail) => Some(
                (pointer_place(lines, k, from.1), view_end(lines)),
            ),
            (PointerPosition::Tail, PointerPosition::Exact(k)) => Some(
                (pointer_place(lines, k, to.1), view_end(lines)),
            ),
            (PointerPosition::Exact(a), PointerPosition::Exact(b)) => Some(
                (pointer_place(lines, a, from.1), pointer_place(lines, b, to.1)),
            ),
        }
    }
}

fn drawn_first(l: &DrawnLine) -> (o: usize)
    ensures
        o == first_offset(*l),
{
    if l.offsets.len() > 0 {
        l.offsets[0]
    } else {
        0
    }
}

fn drawn_last(l: &DrawnLine) -> (o: usize)
    ensures
        o == last_offset(*l),
{
    if l.offsets.len() > 0 {
        l.offsets[l.offsets.len() - 1]
    } else {
        0
    }
}

fn place_at(lines: &Vec<DrawnLine>, k: usize, offset: PointerPosition) -> (p: Position)
    requires
        k < lines@.len(),
        pointer_valid(lines@, (PointerPosition::Exact(k), offset)),
    ensures
        p == pointer_place(lines@, k, offset),
{
    let l = &lines[k];
    let o = match offset {
        PointerPosition::Head => drawn_first(l),
        PointerPosition::Exact(i) => l.offsets[i],
        PointerPosition::Tail => drawn_last(l),
    };
    Position { line: l.line, offset: o }
}

/// The selection made by dragging the pointer between two places of the view.
pub fn selection_range(lines: &Vec<DrawnLine>, from: (PointerPosition, PointerPosition), to: (
    PointerPosition,
    PointerPosition,
)) -> (r: Option<(Position, Position)>)
    requires
        pointer_valid(lines@, from),
        pointer_valid(lines@, to),
    ensures
        r == selection_spec(lines@, from, to),
{
    if lines.len() == 0 {
        return None;
    }
    let start = Position { line: lines[0].line, offset: drawn_first(&lines[0]) };
    let last = &lines[lines.len() - 1];
    let end = Position { line: last.line, offset: drawn_last(last) };
    match (from.0, to.0) {
        (PointerPosition::Head, PointerPosition::Head) => None,
        (PointerPosition::Tail, PointerPosition::Tail) => None,
        (PointerPosition::Head, PointerPosition::Tail) => Some((start, end)),
        (PointerPosition::Tail, PointerPosition::Head) => Some((start, end)),
        (PointerPosition::Head, PointerPosition::Exact(k)) => Some((start, place_at(lines, k, to.1))),
        (PointerPosition::Exact(k), PointerPosition::Head) => Some((start, place_at(lines, k, from.1))),
        (PointerPosition::Exact(k), PointerPosition::Tail) => Some((place_at(lines, k, from.1), end)),
        (PointerPosition::Tail, PointerPosition::Exact(k)) => Some((place_at(lines, k, to.1), end)),
        (PointerPosition::Exact(a), PointerPosition::Exact(b)) => Some(
            (place_at(lines, a, from.1), place_at(lines, b, to.1)),
        ),
    }
}

} // verus!
