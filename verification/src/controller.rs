//! The reading state that both views share: highlights and the trace of visited places.

use vstd::prelude::*;

use std::ops::Range;

use crate::book::{first_link_where, last_link_where, search_spec, Line, LinkTest};
use crate::config::ReadingInfo;
use crate::container::BookName;
use crate::strings::{string_push, string_push_str};
use crate::search::SearchRegex;
use crate::common::{Position, TraceInfo};

verus! {

/// What a highlight marks.
#[derive(Clone)]
pub enum HighlightMode {
    Search,
    /// The link index within the highlighted line.
    Link(usize),
    /// The selected text, and the line at which the selection ends.
    Selection(String, usize),
}

/// A highlighted range: from `start` in `line` to `end` (in the last line of a selection).
pub struct HighlightInfo {
    pub line: usize,
    pub start: usize,
    pub end: usize,
    pub mode: HighlightMode,
}

} // verus!

verus! {

/// How many visited places the trace keeps.
pub const TRACE_SIZE: usize = 100;

/// Whether two places are the same.
pub open spec fn same_place(a: TraceInfo, b: TraceInfo) -> bool {
    a.chapter == b.chapter && a.line == b.line && a.offset == b.offset
}

/// The trace after the reader went from the place at `current` to `place`: the places
/// after `current` are dropped and `place` is added and becomes current; the oldest place
/// is dropped when there are more than `TRACE_SIZE`.
pub open spec fn trace_after_push(places: Seq<TraceInfo>, current: int, place: TraceInfo) -> (Seq<
    TraceInfo>, int) {
    let kept = places.take(current + 1).push(place);
    if kept.len() > TRACE_SIZE {
        (kept.drop_first(), current)
    } else {
        (kept, current + 1)
    }
}

/// The places a reader visited, oldest first, and the one the reader is at.
pub struct Trace {
    places: Vec<TraceInfo>,
    current: usize,
}

impl Trace {
    /// The places, oldest first.
    pub closed spec fn places(&self) -> Seq<TraceInfo> {
        self.places@
    }

    /// The index of the place the reader is at.
    pub closed spec fn current_index(&self) -> int {
        self.current as int
    }

    /// The trace holds at least one place and at most `TRACE_SIZE`, and the reader is at
    /// one of them.
    pub open spec fn wf(&self) -> bool {
        &&& 0 < self.places().len() <= TRACE_SIZE
        &&& 0 <= self.current_index() < self.places().len()
    }

    /// The place the reader is at.
    pub open spec fn at(&self) -> TraceInfo {
        self.places()[self.current_index()]
    }

    /// A trace that holds the one place `first`.
    pub fn new(first: TraceInfo) -> (t: Self)
        ensures
            t.wf(),
            t.places() == seq![first],
            t.current_index() == 0,
    {
        let mut places = Vec::new();
        places.push(first);
        Trace { places, current: 0 }
    }

    /// Forgets every place and starts again from `first`.
    pub fn reset(&mut self, first: TraceInfo)
        ensures
            final(self).wf(),
            final(self).places() == seq![first],
            final(self).current_index() == 0,
    {
        self.places.clear();
        self.places.push(first);
        self.current = 0;
    }

    /// The place the reader is at.
    pub fn current(&self) -> (p: TraceInfo)
        requires
            self.wf(),
        ensures
            p == self.at(),
    {
        self.places[self.current]
    }

    /// Records that the reader went to `place`, as `trace_after_push` says; nothing changes
    /// when `place` is where the reader is. Returns whether `place` was recorded.
    pub fn push(&mut self, place: TraceInfo) -> (pushed: bool)
        requires
            old(self).wf(),
        ensures
            final(self).wf(),
            pushed == !same_place(place, old(self).at()),
            !pushed ==> *final(self) == *old(self),
            pushed ==> (final(self).places(), final(self).current_index()) == trace_after_push(
                old(self).places(),
                old(self).current_index(),
                place,
            ),
    {
        let last = self.places[self.current];
        if last.chapter == place.chapter && last.line == place.line && last.offset == place.offset {
            return false;
        }
        self.places.truncate(self.current + 1);
        self.places.push(place);
        if self.places.len() > TRACE_SIZE {
            self.places.remove(0);
        } else {
            self.current = self.current + 1;
        }
        true
    }

    /// Moves one place back, or forward, in the trace, and returns the place moved to;
    /// `None`, with nothing changed, at the oldest place going back or at the newest going
    /// forward.
    pub fn step(&mut self, backward: bool) -> (p: Option<TraceInfo>)
        requires
            old(self).wf(),
        ensures
            final(self).wf(),
            final(self).places() == old(self).places(),
            backward && old(self).current_index() == 0 ==> p is None && *final(self) == *old(self),
            !backward && old(self).current_index() == old(self).places().len() - 1 ==> p is None
                && *final(self) == *old(self),
            backward && old(self).current_index() > 0 ==> p == Some(final(self).at())
                && final(self).current_index() == old(self).current_index() - 1,
            !backward && old(self).current_index() < old(self).places().len() - 1 ==> p == Some(
                final(self).at(),
            ) && final(self).current_index() == old(self).current_index() + 1,
    {
        if backward {
            if self.current == 0 {
                return None;
            }
            self.current = self.current - 1;
        } else {
            if self.current == self.places.len() - 1 {
                return None;
            }
            self.current = self.current + 1;
        }
        Some(self.places[self.current])
    }
}

/// Going back from a place just recorded leads to where the reader was before it, and going
/// forward again leads to the recorded place, which is the newest of the trace.
pub proof fn law_back_then_forward(t: Trace, place: TraceInfo)
    requires
        t.wf(),
        !same_place(place, t.at()),
    ensures
        ({
            let (places, current) = trace_after_push(t.places(), t.current_index(), place);
            &&& 0 < current == places.len() - 1
            &&& places.len() <= TRACE_SIZE
            &&& places[current] == place
            &&& places[current - 1] == t.at()
        }),
{
}

} // verus!

verus! {

/// Where a search starts: from a search highlight, at its end going forward and at its
/// start going back; else from the reading position.
pub open spec fn search_start_spec(highlight: Option<HighlightInfo>, reading: Position, forward: bool) -> (
    usize,
    usize,
) {
    match highlight {
        Some(h) => match h.mode {
            HighlightMode::Search => (h.line, if forward { h.end } else { h.start }),
            _ => (reading.line, reading.offset),
        },
        None => (reading.line, reading.offset),
    }
}

/// The line and offset a repeated search starts from.
pub fn search_start(highlight: &Option<HighlightInfo>, reading: Position, forward: bool) -> (r: (
    usize,
    usize,
))
    ensures
        r == search_start_spec(*highlight, reading, forward),
{
    match highlight {
        Some(h) => match h.mode {
            HighlightMode::Search => (h.line, if forward { h.end } else { h.start }),
            _ => (reading.line, reading.offset),
        },
        None => (reading.line, reading.offset),
    }
}

/// Whether `(line, offset)` comes before `(other_line, other_offset)` in reading order.
pub open spec fn place_before(line: usize, offset: usize, other_line: usize, other_offset: usize) -> bool {
    line < other_line || (line == other_line && offset < other_offset)
}

/// Whether a highlight starting at `(line, start)` is on the screen that shows the text from
/// `reading` up to `next` (to the end when `next` is `None`).
pub open spec fn in_screen_spec(line: usize, start: usize, reading: Position, next: Option<Position>) -> bool {
    &&& !place_before(line, start, reading.line, reading.offset)
    &&& (next matches Some(n) ==> place_before(line, start, n.line, n.offset))
}

/// Whether a highlight starting at `(line, start)` is on the screen that shows the text from
/// `reading` up to `next`.
pub fn in_current_screen(line: usize, start: usize, reading: Position, next: Option<Position>) -> (r:
    bool)
    ensures
        r == in_screen_spec(line, start, reading, next),
{
    if (line == reading.line && start >= reading.offset) || line > reading.line {
        match next {
            Some(n) => (line == n.line && start < n.offset) || line < n.line,
            None => true,
        }
    } else {
        false
    }
}

/// The index of the line numbered `line`, counting from 1, among `line_count` lines;
/// `None` when there is no such line.
pub fn line_index_for_number(line: usize, line_count: usize) -> (r: Option<usize>)
    ensures
        r == (if line == 0 || line > line_count { None } else { Some((line - 1) as usize) }),
{
    if line > line_count || line == 0 {
        None
    } else {
        Some(line - 1)
    }
}

/// What a step of one line asks for.
#[derive(PartialEq, Eq, Structural, Debug)]
pub enum StepAction {
    /// Nothing to do.
    Stay,
    /// Show the text from this position.
    MoveTo(Position),
    /// The view finds where the next or previous screen line starts.
    AskView,
}

/// A step back by one screen line from `(line, offset)`: nothing at the very start; to an
/// empty previous line directly; else the view decides.
pub fn step_prev_action(lines: &Vec<Line>, line: usize, offset: usize) -> (a: StepAction)
    requires
        offset == 0 && line > 0 ==> line - 1 < lines@.len(),
    ensures
        a == (if offset == 0 && line == 0 {
            StepAction::Stay
        } else if offset == 0 && lines@[line - 1]@.len() == 0 {
            StepAction::MoveTo(Position { line: (line - 1) as usize, offset: 0 })
        } else {
            StepAction::AskView
        }),
{
    if offset == 0 {
        if line == 0 {
            return StepAction::Stay;
        }
        let new_line = line - 1;
        if lines[new_line].len() == 0 {
            return StepAction::MoveTo(Position::new(new_line, 0));
        }
    }
    StepAction::AskView
}

/// A step forward by one screen line from `line`: nothing when the screen shows the end;
/// past an empty line directly; else the view decides.
pub fn step_next_action(lines: &Vec<Line>, line: usize, has_next: bool) -> (a: StepAction)
    requires
        has_next ==> line < lines@.len(),
    ensures
        a == (if !has_next {
            StepAction::Stay
        } else if lines@[line as int]@.len() == 0 {
            StepAction::MoveTo(Position { line: (line + 1) as usize, offset: 0 })
        } else {
            StepAction::AskView
        }),
{
    if !has_next {
        return StepAction::Stay;
    }
    proof {
        assert(lines@.len() == lines.len());
    }
    if lines[line].len() == 0 {
        return StepAction::MoveTo(Position::new(line + 1, 0));
    }
    StepAction::AskView
}

/// The first link at or after `(line, position)`, looking line by line: in `line` from
/// `position`, in the following lines from their start.
pub open spec fn link_next_spec(lines: Seq<Line>, line: int, position: usize) -> Option<(int, usize)>
    decreases lines.len() - line,
{
    if line < 0 || line >= lines.len() {
        None
    } else {
        match first_link_where(lines[line].styles(), LinkTest::StartsFrom(position)) {
            Some(i) => Some((line, i)),
            None => link_next_spec(lines, line + 1, 0),
        }
    }
}

/// The last link at or before `(line, position)`, looking line by line back: in `line` up
/// to `position`, in the lines before it up to their end.
pub open spec fn link_prev_spec(lines: Seq<Line>, line: int, position: usize) -> Option<(int, usize)>
    decreases line,
{
    if line < 0 || line >= lines.len() {
        None
    } else {
        match last_link_where(lines[line].styles(), LinkTest::EndsBy(position)) {
            Some(i) => Some((line, i)),
            None => if line == 0 {
                None
            } else {
                link_prev_spec(lines, line - 1, lines[line - 1]@.len() as usize)
            },
        }
    }
}

/// The highlight of link `index` of line `line`.
pub open spec fn link_highlight(lines: Seq<Line>, line: int, index: usize, h: HighlightInfo) -> bool {
    &&& h.line == line
    &&& h.start == lines[line].styles()[index as int].1.start
    &&& h.end == lines[line].styles()[index as int].1.end
    &&& h.mode == HighlightMode::Link(index)
}

/// Where the search for another link starts: after a link highlight at its end going
/// forward and at its start going back; else from the reading position.
pub open spec fn link_start_spec(highlight: Option<HighlightInfo>, reading: Position, forward: bool) -> (usize, usize) {
    match highlight {
        Some(h) => match h.mode {
            HighlightMode::Link(_) => (h.line, if forward { h.end } else { h.start }),
            _ => (reading.line, reading.offset),
        },
        None => (reading.line, reading.offset),
    }
}

fn link_start(highlight: &Option<HighlightInfo>, reading: Position, forward: bool) -> (r: (usize, usize))
    ensures
        r == link_start_spec(*highlight, reading, forward),
{
    match highlight {
        Some(h) => match h.mode {
            HighlightMode::Link(_) => (h.line, if forward { h.end } else { h.start }),
            _ => (reading.line, reading.offset),
        },
        None => (reading.line, reading.offset),
    }
}

/// The highlight of the next link after the current link highlight, or after the reading
/// position; `None` when there is none up to the end of the lines.
pub fn switch_link_next(lines: &Vec<Line>, highlight: &Option<HighlightInfo>, reading: Position) -> (r:
    Option<HighlightInfo>)
    ensures
        ({
            let (line, position) = link_start_spec(*highlight, reading, true);
            match (r, link_next_spec(lines@, line as int, position)) {
                (None, None) => true,
                (Some(h), Some((l, i))) => link_highlight(lines@, l, i, h),
                _ => false,
            }
        }),
{
    let (line, start_position) = link_start(highlight, reading, true);
    let ghost start_line = line as int;
    let mut position = start_position;
    let mut index = line;
    while index < lines.len()
        invariant
            line <= index,
            index == line || position == 0,
            link_next_spec(lines@, start_line, start_position) == link_next_spec(lines@, index as int, position),
            start_line == line,
            (line, start_position) == link_start_spec(*highlight, reading, true),
        decreases lines@.len() - index,
    {
        let text = &lines[index];
        if let Some(i) = text.first_link_from(position) {
            let range = text.style_range(i);
            return Some(HighlightInfo { line: index, start: range.start, end: range.end, mode: HighlightMode::Link(i) });
        }
        index = index + 1;
        position = 0;
    }
    None
}

/// The highlight of the link before the current link highlight, or before the reading
/// position; `None` when there is none back to the first line.
pub fn switch_link_prev(lines: &Vec<Line>, highlight: &Option<HighlightInfo>, reading: Position) -> (r:
    Option<HighlightInfo>)
    requires
        link_start_spec(*highlight, reading, false).0 < lines@.len(),
    ensures
        ({
            let (line, position) = link_start_spec(*highlight, reading, false);
            match (r, link_prev_spec(lines@, line as int, position)) {
                (None, None) => true,
                (Some(h), Some((l, i))) => link_highlight(lines@, l, i, h),
                _ => false,
            }
        }),
{
    let (start_line, start_position) = link_start(highlight, reading, false);
    let mut line = start_line;
    let mut position = start_position;
    loop
        invariant
            line < lines@.len(),
            link_prev_spec(lines@, start_line as int, start_position) == link_prev_spec(lines@, line as int, position),
            (start_line, start_position) == link_start_spec(*highlight, reading, false),
        decreases line,
    {
        let text = &lines[line];
        if let Some(i) = text.last_link_before(position) {
            let range = text.style_range(i);
            return Some(HighlightInfo { line, start: range.start, end: range.end, mode: HighlightMode::Link(i) });
        }
        if line == 0 {
            return None;
        }
        line = line - 1;
        position = lines[line].len();
    }
}

/// The link that following the highlight goes to, as its line and link index: the link
/// of a link highlight, or the first link of the line that holds a search highlight.
pub fn highlighted_link(lines: &Vec<Line>, highlight: &Option<HighlightInfo>) -> (r: Option<(usize, usize)>)
    requires
        (highlight matches Some(h) && h.mode is Search) ==> highlight->0.line < lines@.len(),
    ensures
        r == (match highlight {
            Some(h) => match h.mode {
                HighlightMode::Search => match first_link_where(lines@[h.line as int].styles(), LinkTest::Covers(h.start, h.end)) {
                    Some(i) => Some((h.line, i)),
                    None => None,
                },
                HighlightMode::Link(i) => Some((h.line, i)),
                HighlightMode::Selection(..) => None,
            },
            None => None,
        }),
{
    match highlight {
        Some(h) => match h.mode {
            HighlightMode::Search => match lines[h.line].link_covering(h.start, h.end) {
                Some(i) => Some((h.line, i)),
                None => None,
            },
            HighlightMode::Link(i) => Some((h.line, i)),
            HighlightMode::Selection(..) => None,
        },
        None => None,
    }
}

} // verus!

verus! {

/// The first match at or after `(line, position)`: in `line` from `position`, in the
/// following lines from their start.
pub open spec fn search_next_spec(lines: Seq<Line>, pattern: Seq<char>, line: int, position: usize) -> Option<
    (int, Range<usize>),
>
    decreases lines.len() - line,
{
    if line < 0 || line >= lines.len() {
        None
    } else {
        match search_spec(lines[line]@, pattern, position, lines[line]@.len() as usize, false) {
            Some(r) => Some((line, r)),
            None => search_next_spec(lines, pattern, line + 1, 0),
        }
    }
}

/// The last match before `(start_line, start_position)`: in `start_line` before
/// `start_position`, in the lines before it anywhere; `idx` is the line looked at.
pub open spec fn search_prev_spec(lines: Seq<Line>, pattern: Seq<char>, idx: int, start_line: int,
    start_position: usize) -> Option<(int, Range<usize>)>
    decreases idx + 1,
{
    if idx < 0 || idx >= lines.len() {
        None
    } else {
        let found = if idx == start_line {
            if start_position == 0 {
                None
            } else {
                search_spec(lines[idx]@, pattern, 0, start_position, true)
            }
        } else {
            search_spec(lines[idx]@, pattern, 0, lines[idx]@.len() as usize, true)
        };
        match found {
            Some(r) => Some((idx, r)),
            None => search_prev_spec(lines, pattern, idx - 1, start_line, start_position),
        }
    }
}

/// The highlight of a search match.
pub open spec fn search_highlight(found: Option<(int, Range<usize>)>, h: Option<HighlightInfo>) -> bool {
    match (h, found) {
        (None, None) => true,
        (Some(h), Some((l, r))) => h.line == l && h.start == r.start && h.end == r.end && h.mode
            == HighlightMode::Search,
        _ => false,
    }
}

/// Searching forward finds its match on the line it starts on, from the position it starts
/// at, or else on a later line; there, the match is the first one of the whole line, from
/// its first column, and every line in between has no match at all.
pub proof fn law_search_next_later_line_from_start(lines: Seq<Line>, pattern: Seq<char>, line: int, position: usize)
    ensures
        match search_next_spec(lines, pattern, line, position) {
            Some((l, r)) => {
                &&& line <= l < lines.len()
                &&& l == line ==> search_spec(lines[line]@, pattern, position, lines[line]@.len() as usize, false)
                    == Some(r)
                &&& l > line ==> search_spec(lines[l]@, pattern, 0, lines[l]@.len() as usize, false) == Some(r)
                &&& forall|k: int|
                    line < k < l ==> #[trigger] search_spec(lines[k]@, pattern, 0, lines[k]@.len() as usize, false)
                        is None
            },
            None => true,
        },
    decreases lines.len() - line,
{
    if 0 <= line < lines.len() {
        if search_spec(lines[line]@, pattern, position, lines[line]@.len() as usize, false) is None {
            law_search_next_later_line_from_start(lines, pattern, line + 1, 0);
        }
    }
}

/// The highlight of the first match of `regex` at or after `(start_line, start_position)`.
pub fn search_next(lines: &Vec<Line>, regex: &SearchRegex, start_line: usize, start_position: usize) -> (r:
    Option<HighlightInfo>)
    ensures
        search_highlight(search_next_spec(lines@, regex@, start_line as int, start_position), r),
        match r {
            Some(h) => {
                &&& start_line <= h.line < lines@.len()
                &&& h.line > start_line ==> search_spec(
                    lines@[h.line as int]@,
                    regex@,
                    0,
                    lines@[h.line as int]@.len() as usize,
                    false,
                ) == Some(h.start..h.end)
                &&& forall|k: int|
                    start_line < k < h.line ==> #[trigger] search_spec(
                        lines@[k]@,
                        regex@,
                        0,
                        lines@[k]@.len() as usize,
                        false,
                    ) is None
            },
            None => true,
        },
{
    let mut position = start_position;
    let mut idx = start_line;
    while idx < lines.len()
        invariant
            start_line <= idx,
            search_next_spec(lines@, regex@, start_line as int, start_position) == search_next_spec(
                lines@,
                regex@,
                idx as int,
                position,
            ),
        decreases lines@.len() - idx,
    {
        let line = &lines[idx];
        if let Some(range) = line.search_pattern(regex, Some(position), None, false) {
            proof {
                law_search_next_later_line_from_start(lines@, regex@, start_line as int, start_position);
            }
            return Some(HighlightInfo { line: idx, start: range.start, end: range.end, mode: HighlightMode::Search });
        }
        position = 0;
        idx = idx + 1;
    }
    None
}

/// Searching backward finds its match on the line it starts on, before the position it
/// starts at, or else on an earlier line; there, the match is the last one of the whole
/// line, and every line in between has no match at all.
pub proof fn law_search_prev_earlier_line_whole(lines: Seq<Line>, pattern: Seq<char>, idx: int, start_line: int,
    start_position: usize)
    requires
        idx <= start_line,
    ensures
        match search_prev_spec(lines, pattern, idx, start_line, start_position) {
            Some((l, r)) => {
                &&& 0 <= l <= idx
                &&& l < start_line ==> search_spec(lines[l]@, pattern, 0, lines[l]@.len() as usize, true) == Some(r)
                &&& forall|k: int|
                    l < k <= idx && k < start_line ==> #[trigger] search_spec(
                        lines[k]@,
                        pattern,
                        0,
                        lines[k]@.len() as usize,
                        true,
                    ) is None
            },
            None => true,
        },
    decreases idx + 1,
{
    if 0 <= idx < lines.len() {
        law_search_prev_earlier_line_whole(lines, pattern, idx - 1, start_line, start_position);
    }
}

/// The highlight of the last match of `regex` before `(start_line, start_position)`.
pub fn search_prev(lines: &Vec<Line>, regex: &SearchRegex, start_line: usize, start_position: usize) -> (r:
    Option<HighlightInfo>)
    requires
        start_line < lines@.len(),
        start_position <= lines@[start_line as int]@.len(),
    ensures
        search_highlight(search_prev_spec(lines@, regex@, start_line as int, start_line as int, start_position), r),
{
    let mut idx = start_line;
    loop
        invariant
            idx <= start_line < lines@.len(),
            start_position <= lines@[start_line as int]@.len(),
            search_prev_spec(lines@, regex@, start_line as int, start_line as int, start_position)
                == search_prev_spec(lines@, regex@, idx as int, start_line as int, start_position),
        decreases idx,
    {
        let text = &lines[idx];
        let range = if idx == start_line {
            if start_position == 0 {
                None
            } else {
                text.search_pattern(regex, None, Some(start_position), true)
            }
        } else {
            text.search_pattern(regex, None, None, true)
        };
        if let Some(range) = range {
            return Some(HighlightInfo { line: idx, start: range.start, end: range.end, mode: HighlightMode::Search });
        }
        if idx == 0 {
            return None;
        }
        idx = idx - 1;
    }
}

} // verus!

verus! {

/// The place of a reading: its chapter, line and position.
pub open spec fn reading_place(reading: ReadingInfo) -> TraceInfo {
    TraceInfo { chapter: reading.chapter, line: reading.line, offset: reading.position }
}

/// What a reader's view keeps between screens: where the reading is, the trace of visited
/// places, the highlight, and where the next screen starts (`None` when the screen shows the
/// end of the chapter). The view does the drawing and the book does the loading; this
/// decides where to go.
pub struct Navigator {
    reading: ReadingInfo,
    trace: Trace,
    highlight: Option<HighlightInfo>,
    next: Option<Position>,
}

impl Navigator {
    /// Where the reading is.
    pub closed spec fn reading_view(&self) -> ReadingInfo {
        self.reading
    }

    /// The highlight.
    pub closed spec fn highlight_view(&self) -> Option<HighlightInfo> {
        self.highlight
    }

    /// Where the next screen starts.
    pub closed spec fn next_view(&self) -> Option<Position> {
        self.next
    }

    pub fn reading(&self) -> (r: &ReadingInfo)
        ensures
            *r == self.reading_view(),
    {
        &self.reading
    }

    pub fn highlight(&self) -> (h: &Option<HighlightInfo>)
        ensures
            *h == self.highlight_view(),
    {
        &self.highlight
    }

    pub fn next(&self) -> (n: Option<Position>)
        ensures
            n == self.next_view(),
    {
        self.next
    }

    /// Sets the highlight.
    pub fn set_highlight(&mut self, highlight: Option<HighlightInfo>)
        ensures
            final(self).highlight_view() == highlight,
            final(self).reading_view() == old(self).reading_view(),
            final(self).next_view() == old(self).next_view(),
            final(self).trace() == old(self).trace(),
    {
        self.highlight = highlight;
    }

    /// The view was drawn, and the next screen starts at `next`.
    pub fn set_next(&mut self, next: Option<Position>)
        ensures
            final(self).next_view() == next,
            final(self).reading_view() == old(self).reading_view(),
            final(self).highlight_view() == old(self).highlight_view(),
            final(self).trace() == old(self).trace(),
    {
        self.next = next;
    }

    /// The trace of visited places.
    pub closed spec fn trace(&self) -> Trace {
        self.trace
    }

    /// The trace is well formed.
    pub open spec fn wf(&self) -> bool {
        self.trace().wf()
    }

    /// Starts reading at `reading`: the trace holds that place only.
    pub fn new(reading: ReadingInfo) -> (n: Self)
        ensures
            n.wf(),
            n.reading_view() == reading,
            n.trace().places() == seq![reading_place(reading)],
            n.trace().current_index() == 0,
            n.highlight_view() is None,
            n.next_view() is None,
    {
        let place = TraceInfo { chapter: reading.chapter, line: reading.line, offset: reading.position };
        Navigator { reading, trace: Trace::new(place), highlight: None, next: None }
    }

    /// The place of the reading.
    pub fn place(&self) -> (p: TraceInfo)
        ensures
            p == reading_place(self.reading_view()),
    {
        TraceInfo { chapter: self.reading.chapter, line: self.reading.line, offset: self.reading.position }
    }

    /// Records the reading's place in the trace; when it is a new place and
    /// `clear_highlight`, the highlight goes.
    pub fn push_trace(&mut self, clear_highlight: bool)
        requires
            old(self).wf(),
        ensures
            final(self).wf(),
            final(self).reading_view() == old(self).reading_view(),
            final(self).next_view() == old(self).next_view(),
            same_place(reading_place(old(self).reading_view()), old(self).trace().at()) ==> final(self).trace()
                == old(self).trace() && final(self).highlight_view() == old(self).highlight_view(),
            !same_place(reading_place(old(self).reading_view()), old(self).trace().at()) ==> {
                &&& (final(self).trace().places(), final(self).trace().current_index()) == trace_after_push(
                    old(self).trace().places(),
                    old(self).trace().current_index(),
                    reading_place(old(self).reading_view()),
                )
                &&& final(self).highlight_view() == (if clear_highlight {
                    None
                } else {
                    old(self).highlight_view()
                })
            },
    {
        let place = self.place();
        let pushed = self.trace.push(place);
        if pushed && clear_highlight {
            self.highlight = None;
        }
    }

    /// The view was drawn from `(line, offset)`, and the next screen starts at `next`; the
    /// reading moves there and the place is recorded, clearing the highlight.
    pub fn redraw_at(&mut self, line: usize, offset: usize, next: Option<Position>)
        requires
            old(self).wf(),
        ensures
            final(self).wf(),
            final(self).reading_view().line == line,
            final(self).reading_view().position == offset,
            final(self).reading_view().chapter == old(self).reading_view().chapter,
            final(self).next_view() == next,
            final(self).trace().at() == reading_place(final(self).reading_view()),
    {
        self.reading.line = line;
        self.reading.position = offset;
        self.next = next;
        self.push_trace(true);
        proof {
            let p = reading_place(self.reading);
            let t = old(self).trace();
            if !same_place(p, t.at()) {
                law_back_then_forward(t, p);
            }
        }
    }

    /// A new book or container was loaded, reading at `reading`: the trace starts again
    /// from there and the highlight goes.
    pub fn restart(&mut self, reading: ReadingInfo)
        ensures
            final(self).wf(),
            final(self).reading_view() == reading,
            final(self).trace().places() == seq![reading_place(reading)],
            final(self).highlight_view() is None,
            final(self).next_view() == old(self).next_view(),
    {
        let place = TraceInfo { chapter: reading.chapter, line: reading.line, offset: reading.position };
        self.reading = reading;
        self.trace.reset(place);
        self.highlight = None;
    }

    /// The book moved to chapter `new_chapter`: the reading goes to its start and the place
    /// is recorded.
    pub fn chapter_switched(&mut self, new_chapter: usize)
        requires
            old(self).wf(),
        ensures
            final(self).wf(),
            final(self).reading_view().chapter == new_chapter,
            final(self).reading_view().line == 0,
            final(self).reading_view().position == 0,
            final(self).trace().at() == reading_place(final(self).reading_view()),
    {
        self.reading.chapter = new_chapter;
        self.reading.line = 0;
        self.reading.position = 0;
        self.push_trace(true);
        proof {
            let p = reading_place(self.reading);
            let t = old(self).trace();
            if !same_place(p, t.at()) {
                law_back_then_forward(t, p);
            }
        }
    }

    /// Moves one place back, or forward, in the trace, and returns the place to go to;
    /// `None` at either end.
    pub fn step_trace(&mut self, backward: bool) -> (p: Option<TraceInfo>)
        requires
            old(self).wf(),
        ensures
            final(self).wf(),
            final(self).reading_view() == old(self).reading_view(),
            final(self).highlight_view() == old(self).highlight_view(),
            final(self).trace().places() == old(self).trace().places(),
            p matches Some(t) ==> t == final(self).trace().at(),
            backward && old(self).trace().current_index() > 0 ==> p == Some(
                old(self).trace().places()[old(self).trace().current_index() - 1],
            ),
            !backward && old(self).trace().current_index() < old(self).trace().places().len() - 1
                ==> p == Some(old(self).trace().places()[old(self).trace().current_index() + 1]),
    {
        self.trace.step(backward)
    }

    /// Arrives at a place of the trace: in the current chapter directly; else when the book
    /// went to its chapter (`switched`, the chapter it went to); nothing changes when it did
    /// not. Returns whether the reading moved, which clears the highlight.
    pub fn arrive_at(&mut self, target: TraceInfo, switched: Option<usize>) -> (moved: bool)
        ensures
            moved == (old(self).reading_view().chapter == target.chapter || switched is Some),
            moved ==> final(self).reading_view().line == target.line && final(self).reading_view().position
                == target.offset && final(self).highlight_view() is None && final(self).reading_view().chapter == (
                if old(self).reading_view().chapter == target.chapter {
                    target.chapter
                } else {
                    switched->0
                }),
            !moved ==> final(self).reading_view() == old(self).reading_view() && final(self).highlight_view() == old(self).highlight_view(),
            final(self).trace() == old(self).trace(),
            final(self).next_view() == old(self).next_view(),
    {
        if self.reading.chapter != target.chapter {
            match switched {
                Some(new_chapter) => {
                    self.reading.chapter = new_chapter;
                },
                None => {
                    return false;
                },
            }
        }
        self.reading.line = target.line;
        self.reading.position = target.offset;
        self.highlight = None;
        true
    }

    /// Where the view must put the screen to show the highlight: its line and start, when
    /// it is not on the current screen; `None` when there is no highlight or it shows.
    pub fn highlight_to_show(&self) -> (r: Option<(usize, usize)>)
        ensures
            r == (match self.highlight_view() {
                Some(h) => if in_screen_spec(
                    h.line,
                    h.start,
                    Position { line: self.reading_view().line, offset: self.reading_view().position },
                    self.next_view(),
                ) {
                    None
                } else {
                    Some((h.line, h.start))
                },
                None => None,
            }),
    {
        match &self.highlight {
            Some(h) => {
                let reading = Position::new(self.reading.line, self.reading.position);
                if in_current_screen(h.line, h.start, reading, self.next) {
                    None
                } else {
                    Some((h.line, h.start))
                }
            },
            None => None,
        }
    }

    /// The view put the screen at `position` to show the highlight: the reading moves there
    /// and the place is recorded, keeping the highlight.
    pub fn highlight_placed(&mut self, position: Position)
        requires
            old(self).wf(),
        ensures
            final(self).wf(),
            final(self).reading_view().line == position.line,
            final(self).reading_view().position == position.offset,
            final(self).highlight_view() == old(self).highlight_view(),
            final(self).trace().at() == reading_place(final(self).reading_view()),
    {
        self.reading.line = position.line;
        self.reading.position = position.offset;
        self.push_trace(false);
        proof {
            let p = reading_place(self.reading);
            let t = old(self).trace();
            if !same_place(p, t.at()) {
                law_back_then_forward(t, p);
            }
        }
    }
}

/// The decimal digit of `d`, for `d` below ten.
pub open spec fn digit_char(d: int) -> char {
    if d == 0 {
        '0'
    } else if d == 1 {
        '1'
    } else if d == 2 {
        '2'
    } else if d == 3 {
        '3'
    } else if d == 4 {
        '4'
    } else if d == 5 {
        '5'
    } else if d == 6 {
        '6'
    } else if d == 7 {
        '7'
    } else if d == 8 {
        '8'
    } else {
        '9'
    }
}

/// The decimal form of `n`.
pub open spec fn decimal_chars(n: nat) -> Seq<char>
    decreases n,
{
    if n < 10 {
        seq![digit_char(n as int)]
    } else {
        decimal_chars(n / 10).push(digit_char((n % 10) as int))
    }
}

fn push_decimal(s: &mut String, n: usize)
    ensures
        final(s)@ == old(s)@ + decimal_chars(n as nat),
    decreases n,
{
    if n >= 10 {
        push_decimal(s, n / 10);
    }
    let d: u32 = (n % 10) as u32;
    let c = char_from_digit(d);
    string_push(s, c);
}

fn char_from_digit(d: u32) -> (c: char)
    requires
        d < 10,
    ensures
        c == digit_char(d as int),
{
    if d == 0 { '0' } else if d == 1 { '1' } else if d == 2 { '2' } else if d == 3 { '3' } else if d == 4 {
        '4'
    } else if d == 5 { '5' } else if d == 6 { '6' } else if d == 7 { '7' } else if d == 8 { '8' } else { '9' }
}

/// The title shown in the status line: the book's title at the reading place, else the
/// file name when the container holds one book, else the name of the book being read.
pub open spec fn status_title(title: Option<Seq<char>>, names: Seq<BookName>, reading: ReadingInfo) -> Seq<char> {
    match title {
        Some(t) => t,
        None => if names.len() == 1 {
            reading.filename@
        } else {
            names[reading.inner_book as int].name_view()
        },
    }
}

/// The status line: the title, then the number of lines and the reading line as
/// `(lines:line)`.
pub fn status_msg(title: Option<&str>, names: &Vec<BookName>, reading: &ReadingInfo, line_count: usize) -> (s: String)
    requires
        title is None && names@.len() != 1 ==> reading.inner_book < names@.len(),
    ensures
        s@ == status_title(
            match title {
                Some(t) => Some(t@),
                None => None,
            },
            names@,
            *reading,
        ) + "("@ + decimal_chars(line_count as nat) + ":"@ + decimal_chars(reading.line as nat) + ")"@,
{
    let mut s = String::new();
    match title {
        Some(t) => string_push_str(&mut s, t),
        None => if names.len() == 1 {
            string_push_str(&mut s, reading.filename.as_str());
        } else {
            string_push_str(&mut s, names[reading.inner_book].name().as_str());
        },
    }
    string_push_str(&mut s, "(");
    push_decimal(&mut s, line_count);
    string_push_str(&mut s, ":");
    push_decimal(&mut s, reading.line);
    string_push_str(&mut s, ")");
    s
}

} // verus!
