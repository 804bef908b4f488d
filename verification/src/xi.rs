//! The terminal view that shows lines across, wrapping them at the view's width.

use vstd::prelude::*;

use crate::book::{Book, Line};
use crate::common::{char_width, has_leading, with_leading, Position};
use crate::controller::HighlightInfo;
use crate::view::{draw_mode, fill_print_line, setup_draw_char, DrawChar, DrawCharMode, RenderContext};

verus! {

/// The columns a tab reaches to: the next multiple of this.
pub const TAB_SIZE: usize = 4;

/// Lines shown across.
pub struct Xi {}

/// What the characters of a wrapped line are drawn with: the index of the line among
/// `lines`, and the highlight.
#[derive(Clone, Copy)]
pub struct WrapLineDrawingContext<'a> {
    pub line: usize,
    pub highlight: &'a Option<HighlightInfo>,
    pub lines: &'a Vec<Line>,
}

/// The drawn lines only grow: those there before stay as they were, and the size of the
/// view and the leading space do not change.
pub open spec fn print_lines_grown(before: RenderContext, after: RenderContext, added: int) -> bool {
    &&& after.width == before.width
    &&& after.height == before.height
    &&& after.leading_space == before.leading_space
    &&& after.print_lines@.len() == before.print_lines@.len() + added
    &&& after.print_lines@.take(before.print_lines@.len() as int) == before.print_lines@
}

/// The total display width of drawn characters.
pub open spec fn draw_width(chars: Seq<DrawChar>) -> int
    decreases chars.len(),
{
    if chars.len() == 0 {
        0
    } else {
        draw_width(chars.drop_last()) + crate::common::char_width_spec(chars.last().char)
    }
}

/// A saturating sum, as `usize::saturating_add` gives it.
pub open spec fn sat_add(a: int, b: int) -> int {
    if a + b > usize::MAX {
        usize::MAX as int
    } else {
        a + b
    }
}

/// A saturating difference, as `usize::saturating_sub` gives it.
pub open spec fn sat_sub(a: int, b: int) -> int {
    if a > b {
        a - b
    } else {
        0
    }
}

/// The display width of drawn characters, capped at `usize::MAX`.
pub open spec fn capped_width(chars: Seq<DrawChar>) -> int {
    if draw_width(chars) > usize::MAX {
        usize::MAX as int
    } else {
        draw_width(chars)
    }
}

proof fn lemma_draw_width_nonneg(chars: Seq<DrawChar>)
    ensures
        draw_width(chars) >= 0,
    decreases chars.len(),
{
    if chars.len() > 0 {
        lemma_draw_width_nonneg(chars.drop_last());
    }
}

fn line_width(chars: &Vec<DrawChar>, from: usize) -> (w: usize)
    requires
        from <= chars@.len(),
    ensures
        w == capped_width(chars@.skip(from as int)),
{
    let mut w: usize = 0;
    let mut i: usize = chars.len();
    while i > from
        invariant
            from <= i <= chars@.len(),
            w == capped_width(chars@.subrange(i as int, chars@.len() as int)),
        decreases i,
    {
        i = i - 1;
        proof {
            lemma_draw_width_prepend(chars@.subrange(i as int, chars@.len() as int));
            assert(chars@.subrange(i as int, chars@.len() as int).drop_first() == chars@.subrange(i + 1, chars@.len() as int));
        }
        let cw = char_width(chars[i].char);
        proof {
            lemma_draw_width_nonneg(chars@.subrange(i + 1, chars@.len() as int));
        }
        w = w.saturating_add(cw);
    }
    assert(chars@.subrange(chars@.len() as int, chars@.len() as int) =~= Seq::<DrawChar>::empty());
    assert(chars@.subrange(from as int, chars@.len() as int) == chars@.skip(from as int));
    w
}

proof fn lemma_draw_width_prepend(chars: Seq<DrawChar>)
    requires
        chars.len() > 0,
    ensures
        draw_width(chars) == crate::common::char_width_spec(chars[0].char) + draw_width(chars.drop_first()),
    decreases chars.len(),
{
    if chars.len() > 1 {
        lemma_draw_width_prepend(chars.drop_last());
        assert(chars.drop_last().drop_first() == chars.drop_first().drop_last());
        assert(chars.drop_first().last() == chars.last());
        assert(chars.drop_last()[0] == chars[0]);
    } else {
        assert(chars.drop_first().len() == 0);
        assert(chars.drop_last().len() == 0);
        assert(draw_width(chars.drop_last()) == 0);
        assert(draw_width(chars.drop_first()) == 0);
    }
}

/// The position a wrap cannot pass: the end of the text, or the start when that lies past
/// the end.
pub open spec fn wrap_end(len: nat, start: usize) -> int {
    if start > len {
        start as int
    } else {
        len as int
    }
}

/// What wrapping a line gives: one drawn line per break, and every break between the start
/// and the end of the text, the first at the start.
pub open spec fn wrapped(before: RenderContext, after: RenderContext, breaks: Seq<usize>, start: usize,
    len: nat) -> bool {
    &&& print_lines_grown(before, after, breaks.len() as int)
    &&& breaks.len() > 0 ==> breaks[0] == start
    &&& forall|i: int| 0 <= i < breaks.len() ==> start <= #[trigger] breaks[i] <= wrap_end(len, start)
}

/// `n` plain spaces.
pub open spec fn blank_row(n: int) -> Seq<DrawChar> {
    Seq::new(n as nat, |i: int| DrawChar::space_spec())
}

/// What a line's characters are drawn with when it is wrapped for drawing: the lines, the
/// index of the line among them, and the highlight.
pub open spec fn draw_view(draw: Option<WrapLineDrawingContext>) -> Option<(Seq<Line>, usize, Option<HighlightInfo>)> {
    match draw {
        Some(d) => Some((d.lines@, d.line, *d.highlight)),
        None => None,
    }
}

/// A character at `position` as a wrapped line draws it: in the mode of its place when
/// it is drawn for the screen, plain otherwise.
pub open spec fn wrap_char(ch: char, position: int, draw: Option<(Seq<Line>, usize, Option<HighlightInfo>)>) -> DrawChar {
    match draw {
        Some((lines, line, highlight)) => DrawChar { char: ch, mode: draw_mode(lines, line, position as usize, highlight) },
        None => DrawChar { char: ch, mode: DrawCharMode::Plain },
    }
}

/// How many spaces a tab adds: up to `n`, stopping when the row is full.
pub open spec fn tab_spaces(x: int, width: int, n: nat) -> nat
    decreases n,
{
    if n == 0 || x == width {
        0
    } else {
        1 + tab_spaces(sat_add(x, 1), width, (n - 1) as nat)
    }
}

/// The column a tab reaches.
pub open spec fn tab_end(x: int, width: int, n: nat) -> int
    decreases n,
{
    if n == 0 || x == width {
        x
    } else {
        tab_end(sat_add(x, 1), width, (n - 1) as nat)
    }
}

/// Where wrapping a line stands: the next character, the column reached, where the row
/// may break (after the last space or tab), the row being filled, where each row starts,
/// and the rows done.
#[verifier::ext_equal]
pub struct WrapState {
    pub position: int,
    pub x: int,
    pub break_position: Option<int>,
    pub row: Seq<DrawChar>,
    pub breaks: Seq<int>,
    pub rows: Seq<Seq<DrawChar>>,
}

/// The row being filled takes the character at the wrap's position: a space for a space,
/// a space and then spaces to the next tab stop (as far as the row goes) for a tab, else
/// the character; a space or tab is where the row may break next.
pub open spec fn wrap_place(st: WrapState, ch: char, width: int,
    draw: Option<(Seq<Line>, usize, Option<HighlightInfo>)>) -> WrapState {
    let x = sat_add(st.x, crate::common::char_width_spec(ch) as int);
    if ch == ' ' || ch == '\t' {
        let row = st.row.push(DrawChar::space_spec());
        if ch == '\t' {
            let n = (TAB_SIZE - x % (TAB_SIZE as int)) as nat;
            WrapState {
                position: st.position + 1,
                x: tab_end(x, width, n),
                break_position: Some(st.position + 1),
                row: row + blank_row(tab_spaces(x, width, n) as int),
                ..st
            }
        } else {
            WrapState { position: st.position + 1, x, break_position: Some(st.position + 1), row, ..st }
        }
    } else {
        WrapState { position: st.position + 1, x, row: st.row.push(wrap_char(ch, st.position, draw)), ..st }
    }
}

/// One character of wrapping. When it does not fit in the row, the row ends first: at the
/// character itself when it is wide, a space or tab, or when the last break lies more than
/// twenty characters back (a space or tab then starts the next row after it); otherwise at
/// the last break, the characters after it moving to the next row.
pub open spec fn wrap_step(text: Seq<char>, width: int, leading: int, leads: bool, st: WrapState,
    draw: Option<(Seq<Line>, usize, Option<HighlightInfo>)>) -> WrapState {
    let ch = text[st.position];
    let cw = crate::common::char_width_spec(ch) as int;
    let can_break = ch == ' ' || ch == '\t';
    if sat_add(st.x, cw) > width {
        let gap = sat_sub(width, st.x);
        let far = match st.break_position {
            Some(b) => st.position - b > 20,
            None => true,
        };
        if cw > 1 || can_break || far {
            let rows = st.rows.push(st.row + blank_row(gap));
            if can_break {
                WrapState {
                    position: st.position + 1,
                    x: 0,
                    row: Seq::empty(),
                    breaks: st.breaks.push(st.position + 1),
                    rows,
                    ..st
                }
            } else {
                wrap_place(
                    WrapState { x: 0, row: Seq::empty(), breaks: st.breaks.push(st.position), rows, ..st },
                    ch,
                    width,
                    draw,
                )
            }
        } else {
            let prev = st.breaks.last();
            let b = match st.break_position {
                Some(b) => b,
                None => 0,
            };
            let chars_count = if prev == 0 && leads {
                sat_add(b, leading)
            } else {
                sat_sub(b, prev)
            };
            let count = if chars_count < st.row.len() {
                chars_count
            } else {
                st.row.len() as int
            };
            let head = st.row.take(count);
            let rest = st.row.skip(count);
            wrap_place(
                WrapState {
                    x: capped_width(rest),
                    break_position: None,
                    row: rest,
                    breaks: st.breaks.push(b),
                    rows: st.rows.push(head + blank_row(sat_sub(width, capped_width(head)))),
                    ..st
                },
                ch,
                width,
                draw,
            )
        }
    } else {
        wrap_place(st, ch, width, draw)
    }
}

/// A space or a tab is where a row may break: after placing one at position `p`, the row
/// may break at `p + 1`.
pub proof fn law_space_and_tab_are_break_points(st: WrapState, ch: char, width: int,
    draw: Option<(Seq<Line>, usize, Option<HighlightInfo>)>)
    requires
        ch == ' ' || ch == '\t',
    ensures
        wrap_place(st, ch, width, draw).break_position == Some(st.position + 1),
        wrap_place(st, ch, width, draw).position == st.position + 1,
{
}

/// A word after a tab moves to the next row whole: when a tab at `p` fits in the row and
/// the narrow character after it does not, the next row starts right after the tab,
/// wherever the row could break before.
pub proof fn law_row_breaks_after_tab(text: Seq<char>, width: int, leading: int, leads: bool, st: WrapState,
    draw: Option<(Seq<Line>, usize, Option<HighlightInfo>)>)
    requires
        0 <= st.position,
        st.position + 1 < text.len(),
        text[st.position] == '\t',
        sat_add(st.x, crate::common::char_width_spec('\t') as int) <= width,
        text[st.position + 1] != ' ' && text[st.position + 1] != '\t',
        crate::common::char_width_spec(text[st.position + 1]) <= 1,
        sat_add(
            wrap_step(text, width, leading, leads, st, draw).x,
            crate::common::char_width_spec(text[st.position + 1]) as int,
        ) > width,
    ensures
        ({
            let st1 = wrap_step(text, width, leading, leads, st, draw);
            let st2 = wrap_step(text, width, leading, leads, st1, draw);
            &&& st2.breaks.len() == st.breaks.len() + 1
            &&& st2.breaks.last() == st.position + 1
        }),
{
}

/// Wrapping until the end of the text or the position `end`.
pub open spec fn wrap_run(text: Seq<char>, end: int, width: int, leading: int, leads: bool, st: WrapState,
    draw: Option<(Seq<Line>, usize, Option<HighlightInfo>)>) -> WrapState
    decreases text.len() - st.position,
{
    if st.position < 0 || st.position >= text.len() || st.position == end {
        st
    } else {
        wrap_run(text, end, width, leading, leads, wrap_step(text, width, leading, leads, st, draw), draw)
    }
}

/// Whether a wrap from `start` begins with the leading space: it starts the line, there
/// is a leading space, and the line starts with one.
pub open spec fn wrap_leads(text: Seq<char>, start: int, leading: int) -> bool {
    leading > 0 && start == 0 && has_leading(text)
}

/// The state a wrap from `start` begins in.
pub open spec fn wrap_init(text: Seq<char>, start: int, leading: int) -> WrapState {
    let leads = wrap_leads(text, start, leading);
    WrapState {
        position: start,
        x: if leads { leading } else { 0 },
        break_position: None,
        row: if leads { blank_row(leading) } else { Seq::empty() },
        breaks: seq![start],
        rows: Seq::empty(),
    }
}

/// Wrapping `text` from `start` up to `end` (or its end) at `width` columns: where each
/// row starts, and the rows, each filled with spaces to the width. A wrap that took some
/// text and ends on an empty row drops that row's start.
pub open spec fn wrap_spec(text: Seq<char>, start: int, end: int, width: int, leading: int,
    draw: Option<(Seq<Line>, usize, Option<HighlightInfo>)>) -> (Seq<int>, Seq<Seq<DrawChar>>) {
    let st = wrap_run(text, end, width, leading, wrap_leads(text, start, leading), wrap_init(text, start, leading), draw);
    if start != st.position && st.x <= 0 {
        (st.breaks.drop_last(), st.rows)
    } else {
        (st.breaks, st.rows.push(st.row + blank_row(sat_sub(width, st.x))))
    }
}

/// The drawn rows after the first `n`.
pub open spec fn rows_from(print_lines: Seq<Vec<DrawChar>>, n: int) -> Seq<Seq<DrawChar>> {
    print_lines.skip(n).map_values(|v: Vec<DrawChar>| v@)
}

/// An optional index as an integer.
pub open spec fn opt_int(o: Option<usize>) -> Option<int> {
    match o {
        Some(b) => Some(b as int),
        None => None,
    }
}

proof fn lemma_rows_push(print_lines: Seq<Vec<DrawChar>>, n: int, row: Vec<DrawChar>)
    requires
        0 <= n <= print_lines.len(),
    ensures
        rows_from(print_lines.push(row), n) == rows_from(print_lines, n).push(row@),
{
    assert(rows_from(print_lines.push(row), n) =~= rows_from(print_lines, n).push(row@));
}

proof fn lemma_breaks_push(breaks: Seq<usize>, b: usize)
    ensures
        breaks_view(breaks.push(b)) == breaks_view(breaks).push(b as int),
{
    assert(breaks_view(breaks.push(b)) =~= breaks_view(breaks).push(b as int));
}

proof fn lemma_capped_width_push(chars: Seq<DrawChar>, c: DrawChar)
    ensures
        capped_width(chars.push(c)) == sat_add(capped_width(chars), crate::common::char_width_spec(c.char) as int),
{
    assert(chars.push(c).drop_last() =~= chars);
    lemma_draw_width_nonneg(chars);
}

/// Puts the character at `position` into the row being filled, as `wrap_place` says.
fn place_char(ch: char, position: usize, width: usize, draw_context: Option<WrapLineDrawingContext>,
    x: &mut usize, break_position: &mut Option<usize>, print_line: &mut Vec<DrawChar>)
    requires
        draw_context matches Some(d) ==> d.line < d.lines@.len(),
        position < usize::MAX,
    ensures
        ({
            let p = wrap_place(
                WrapState {
                    position: position as int,
                    x: *old(x) as int,
                    break_position: opt_int(*old(break_position)),
                    row: old(print_line)@,
                    breaks: Seq::empty(),
                    rows: Seq::empty(),
                },
                ch,
                width as int,
                draw_view(draw_context),
            );
            &&& *final(x) as int == p.x
            &&& opt_int(*final(break_position)) == p.break_position
            &&& final(print_line)@ == p.row
        }),
        (ch == ' ' || ch == '\t') ==> *final(break_position) == Some((position + 1) as usize),
{
    let cw = char_width(ch);
    *x = x.saturating_add(cw);
    if ch == ' ' || ch == '\t' {
        *break_position = Some(position + 1);
        print_line.push(DrawChar::space());
        if ch == '\t' {
            let tab_chars_left = TAB_SIZE - (*x % TAB_SIZE);
            let ghost x1 = *x as int;
            let ghost row1 = print_line@;
            let mut c: usize = 0;
            while c < tab_chars_left
                invariant
                    c <= tab_chars_left,
                    tab_chars_left <= TAB_SIZE,
                    c + tab_spaces(*x as int, width as int, (tab_chars_left - c) as nat) == tab_spaces(
                        x1,
                        width as int,
                        tab_chars_left as nat,
                    ),
                    tab_end(*x as int, width as int, (tab_chars_left - c) as nat) == tab_end(
                        x1,
                        width as int,
                        tab_chars_left as nat,
                    ),
                    print_line@ == row1 + blank_row(c as int),
                ensures
                    c + tab_spaces(*x as int, width as int, (tab_chars_left - c) as nat) == tab_spaces(
                        x1,
                        width as int,
                        tab_chars_left as nat,
                    ),
                    tab_end(*x as int, width as int, (tab_chars_left - c) as nat) == tab_end(
                        x1,
                        width as int,
                        tab_chars_left as nat,
                    ),
                    print_line@ == row1 + blank_row(c as int),
                    c == tab_chars_left || *x == width,
                decreases tab_chars_left - c,
            {
                if *x == width {
                    break;
                }
                *x = x.saturating_add(1);
                print_line.push(DrawChar::space());
                c = c + 1;
                assert(print_line@ =~= row1 + blank_row(c as int));
            }
        }
    } else {
        let dc = match draw_context {
            Some(d) => setup_draw_char(ch, d.line, position, d.lines, d.highlight),
            None => DrawChar::new(ch, DrawCharMode::Plain),
        };
        print_line.push(dc);
    }
}

/// Where the screen starts whose `height` rows lead up to `end` of line `line`, when the
/// `rows` rows after that are drawn already: the row start that many rows back, or the
/// start of the book when the lines run out first.
pub open spec fn xi_back(lines: Seq<Line>, width: int, leading: int, height: int, line: int, end: int, rows: int) -> (
    int,
    int,
)
    decreases line,
{
    let b = wrap_spec(lines[line]@, 0, end, width, leading, None).0;
    let total = rows + b.len();
    if total >= height {
        (line, b[total - height])
    } else if line <= 0 {
        (0, 0)
    } else {
        xi_back(lines, width, leading, height, line - 1, usize::MAX as int, total)
    }
}

/// `n` rows of `width` spaces.
pub open spec fn blank_rows(n: int, width: int) -> Seq<Seq<DrawChar>> {
    Seq::new(n as nat, |i: int| blank_row(width))
}

/// The rows of the screen from `offset` of line `index` on, after the `rows` drawn
/// already: each line wrapped in turn until the rows reach `height`, blank rows after the
/// last line; and where the next screen starts, if anything is left.
pub open spec fn xi_screen(lines: Seq<Line>, width: int, leading: int, height: int,
    highlight: Option<HighlightInfo>, index: int, offset: int, rows: Seq<Seq<DrawChar>>) -> (Seq<Seq<DrawChar>>, Option<
    (int, int),
>)
    decreases lines.len() - index,
{
    if index < 0 || index >= lines.len() {
        (rows + blank_rows(height - rows.len(), width), None)
    } else {
        let w = wrap_spec(lines[index]@, offset, usize::MAX as int, width, leading, Some((lines, index as usize, highlight)));
        let all = rows + w.1;
        if all.len() == height {
            (all, if index >= lines.len() - 1 { None } else { Some((index + 1, 0)) })
        } else if all.len() > height {
            (all, Some((index, w.0[w.0.len() - (all.len() - height)])))
        } else {
            xi_screen(lines, width, leading, height, highlight, index + 1, 0, all)
        }
    }
}

/// Splits a row at `count` characters: the first `count`, filled with spaces to `width`,
/// end the row; the rest start the next one, of the width given.
fn split_row(print_line: &Vec<DrawChar>, count: usize, width: usize) -> (r: (Vec<DrawChar>, Vec<DrawChar>, usize))
    requires
        count <= print_line@.len(),
    ensures
        r.0@ == print_line@.take(count as int) + blank_row(sat_sub(width as int, capped_width(print_line@.take(count as int)))),
        r.1@ == print_line@.skip(count as int),
        r.2 == capped_width(print_line@.skip(count as int)),
{
    let mut line: Vec<DrawChar> = Vec::new();
    let mut w: usize = 0;
    let mut k: usize = 0;
    assert(print_line@.take(0) =~= Seq::<DrawChar>::empty());
    while k < count
        invariant
            k <= count <= print_line@.len(),
            line@ == print_line@.take(k as int),
            w == capped_width(print_line@.take(k as int)),
        decreases count - k,
    {
        proof {
            lemma_capped_width_push(print_line@.take(k as int), print_line@[k as int]);
            assert(print_line@.take(k + 1) =~= print_line@.take(k as int).push(print_line@[k as int]));
        }
        line.push(print_line[k]);
        w = w.saturating_add(char_width(print_line[k].char));
        k = k + 1;
    }
    let ghost head = line@;
    fill_print_line(&mut line, width.saturating_sub(w));
    assert(line@ =~= head + blank_row(sat_sub(width as int, w as int)));
    let mut rest: Vec<DrawChar> = Vec::new();
    assert(print_line@.subrange(count as int, count as int) =~= Seq::<DrawChar>::empty());
    while k < print_line.len()
        invariant
            count <= k <= print_line@.len(),
            rest@ == print_line@.subrange(count as int, k as int),
        decreases print_line@.len() - k,
    {
        rest.push(print_line[k]);
        k = k + 1;
        assert(rest@ =~= print_line@.subrange(count as int, k as int));
    }
    assert(rest@ =~= print_line@.skip(count as int));
    let rest_width = line_width(&rest, 0);
    assert(rest@.skip(0) =~= rest@);
    (line, rest, rest_width)
}

/// The start of the last row of the wrap of `text` up to `end`: 0 when there is no row.
pub open spec fn last_row_start(text: Seq<char>, end: int, width: int, leading: int) -> int {
    let b = wrap_spec(text, 0, end, width, leading, None).0;
    if b.len() == 0 {
        0
    } else {
        b.last()
    }
}

/// Row starts as integers.
pub open spec fn breaks_view(breaks: Seq<usize>) -> Seq<int> {
    breaks.map_values(|b: usize| b as int)
}

impl Xi {
    pub fn new() -> (x: Self) {
        Xi {}
    }

    /// Wraps `text` from `start_position` up to `end_position` (or its end) into lines of
    /// `width` columns, appended to the drawn lines of `context`, and returns the position at
    /// which each of those lines starts. A line of the book that gets the leading space
    /// starts with it; a line breaks at a space or tab when one lies at most 20 characters
    /// back, and else at the character that does not fit.
    #[verifier::rlimit(40)]
    #[verifier::spinoff_prover]
    pub fn wrap_line(&mut self, text: &Line, start_position: usize, end_position: usize, width: usize,
        draw_context: Option<WrapLineDrawingContext>, context: &mut RenderContext) -> (breaks: Vec<
        usize,
    >)
        requires
            draw_context matches Some(d) ==> d.line < d.lines@.len(),
        ensures
            wrapped(*old(context), *final(context), breaks@, start_position, text@.len()),
            ({
                let w = wrap_spec(
                    text@,
                    start_position as int,
                    end_position as int,
                    width as int,
                    old(context).leading_space as int,
                    draw_view(draw_context),
                );
                &&& breaks_view(breaks@) == w.0
                &&& rows_from(final(context).print_lines@, old(context).print_lines@.len() as int) == w.1
            }),
    {
        let ghost before = *context;
        let ghost n0 = before.print_lines@.len() as int;
        let ghost dv = draw_view(draw_context);
        let leading = context.leading_space;
        let with_leading_space = if leading > 0 {
            start_position == 0 && with_leading(text)
        } else {
            false
        };
        let ghost leads = wrap_leads(text@, start_position as int, leading as int);
        assert(with_leading_space == leads);
        let mut x: usize = 0;
        let mut print_line: Vec<DrawChar> = Vec::new();
        if with_leading_space {
            fill_print_line(&mut print_line, leading);
            x = leading;
        }
        let mut wrapped_breaks: Vec<usize> = Vec::new();
        wrapped_breaks.push(start_position);
        let mut break_position: Option<usize> = None;
        let mut position = start_position;
        let text_len = text.len();
        assert(context.print_lines@.take(before.print_lines@.len() as int) =~= before.print_lines@);
        proof {
            assert(print_line@ =~= wrap_init(text@, start_position as int, leading as int).row);
            assert(breaks_view(wrapped_breaks@) =~= seq![start_position as int]);
            assert(rows_from(context.print_lines@, n0) =~= Seq::<Seq<DrawChar>>::empty());
        }
        let ghost target = wrap_run(text@, end_position as int, width as int, leading as int, leads, wrap_init(
            text@,
            start_position as int,
            leading as int,
        ), dv);
        while position < text_len
            invariant_except_break
                wrap_run(text@, end_position as int, width as int, leading as int, leads, WrapState {
                    position: position as int,
                    x: x as int,
                    break_position: opt_int(break_position),
                    row: print_line@,
                    breaks: breaks_view(wrapped_breaks@),
                    rows: rows_from(context.print_lines@, n0),
                }, dv) == target,
            invariant
                text_len == text@.len(),
                start_position <= position,
                position == start_position || position <= text_len,
                wrapped_breaks@.len() >= 1,
                wrapped_breaks@[0] == start_position,
                forall|i: int| 0 <= i < wrapped_breaks@.len() ==> start_position <= #[trigger] wrapped_breaks@[i] <= position,
                break_position matches Some(b) ==> start_position <= b <= position,
                print_lines_grown(before, *context, wrapped_breaks@.len() - 1),
                leading == context.leading_space,
                leading == before.leading_space,
                n0 == before.print_lines@.len(),
                dv == draw_view(draw_context),
                leads == with_leading_space,
                leads == wrap_leads(text@, start_position as int, leading as int),
                draw_context matches Some(d) ==> d.line < d.lines@.len(),
                target == wrap_run(text@, end_position as int, width as int, leading as int, leads, wrap_init(
                    text@,
                    start_position as int,
                    leading as int,
                ), dv),
            ensures
                wrapped_breaks@.len() >= 1,
                wrapped_breaks@[0] == start_position,
                forall|i: int| 0 <= i < wrapped_breaks@.len() ==> start_position <= #[trigger] wrapped_breaks@[i] <= position,
                print_lines_grown(before, *context, wrapped_breaks@.len() - 1),
                position == start_position || position <= text_len,
                target == (WrapState {
                    position: position as int,
                    x: x as int,
                    break_position: opt_int(break_position),
                    row: print_line@,
                    breaks: breaks_view(wrapped_breaks@),
                    rows: rows_from(context.print_lines@, n0),
                }),
            decreases text_len - position,
        {
            let ghost st = WrapState {
                position: position as int,
                x: x as int,
                break_position: opt_int(break_position),
                row: print_line@,
                breaks: breaks_view(wrapped_breaks@),
                rows: rows_from(context.print_lines@, n0),
            };
            if position == end_position {
                break;
            }
            let ghost stepped = wrap_step(text@, width as int, leading as int, leads, st, dv);
            assert(wrap_run(text@, end_position as int, width as int, leading as int, leads, st, dv) == wrap_run(
                text@,
                end_position as int,
                width as int,
                leading as int,
                leads,
                stepped,
                dv,
            ));
            let ch = match text.char_at(position) {
                Some(c) => c,
                None => ' ',
            };
            let cw = char_width(ch);
            let can_break = ch == ' ' || ch == '\t';
            let ghost placed_from: WrapState = st;
            if x.saturating_add(cw) > width {
                let gap = width.saturating_sub(x);
                x = 0;
                let far = match break_position {
                    Some(b) => position - b > 20,
                    None => true,
                };
                if cw > 1 || can_break || far {
                    let ghost row_before = print_line@;
                    fill_print_line(&mut print_line, gap);
                    proof {
                        assert(print_line@ =~= row_before + blank_row(gap as int));
                        lemma_rows_push(context.print_lines@, n0, print_line);
                    }
                    context.print_lines.push(print_line);
                    assert(context.print_lines@.take(before.print_lines@.len() as int) =~= before.print_lines@);
                    print_line = Vec::new();
                    if can_break {
                        position = position + 1;
                        proof {
                            lemma_breaks_push(wrapped_breaks@, position);
                        }
                        wrapped_breaks.push(position);
                        assert(WrapState {
                            position: position as int,
                            x: x as int,
                            break_position: opt_int(break_position),
                            row: print_line@,
                            breaks: breaks_view(wrapped_breaks@),
                            rows: rows_from(context.print_lines@, n0),
                        } =~= stepped);
                        continue;
                    }
                    proof {
                        lemma_breaks_push(wrapped_breaks@, position);
                    }
                    wrapped_breaks.push(position);
                    proof {
                        placed_from = WrapState {
                            position: position as int,
                            x: x as int,
                            break_position: opt_int(break_position),
                            row: print_line@,
                            breaks: breaks_view(wrapped_breaks@),
                            rows: rows_from(context.print_lines@, n0),
                        };
                        assert(placed_from =~= WrapState {
                            x: 0,
                            row: Seq::empty(),
                            breaks: st.breaks.push(st.position),
                            rows: st.rows.push(st.row + blank_row(gap as int)),
                            ..st
                        });
                    }
                } else {
                    let prev_position = wrapped_breaks[wrapped_breaks.len() - 1];
                    let the_break_position = match break_position {
                        Some(b) => b,
                        None => 0,
                    };
                    let chars_count = if prev_position == 0 && with_leading_space {
                        the_break_position.saturating_add(leading)
                    } else {
                        the_break_position.saturating_sub(prev_position)
                    };
                    let count = if chars_count < print_line.len() {
                        chars_count
                    } else {
                        print_line.len()
                    };
                    let (line, rest, rest_width) = split_row(&print_line, count, width);
                    proof {
                        lemma_rows_push(context.print_lines@, n0, line);
                    }
                    context.print_lines.push(line);
                    assert(context.print_lines@.take(before.print_lines@.len() as int) =~= before.print_lines@);
                    print_line = rest;
                    proof {
                        lemma_breaks_push(wrapped_breaks@, the_break_position);
                    }
                    wrapped_breaks.push(the_break_position);
                    break_position = None;
                    x = rest_width;
                    proof {
                        placed_from = WrapState {
                            position: position as int,
                            x: x as int,
                            break_position: opt_int(break_position),
                            row: print_line@,
                            breaks: breaks_view(wrapped_breaks@),
                            rows: rows_from(context.print_lines@, n0),
                        };
                    }
                }
            }
            place_char(ch, position, width, draw_context, &mut x, &mut break_position, &mut print_line);
            position = position + 1;
            assert(WrapState {
                position: position as int,
                x: x as int,
                break_position: opt_int(break_position),
                row: print_line@,
                breaks: breaks_view(wrapped_breaks@),
                rows: rows_from(context.print_lines@, n0),
            } =~= wrap_place(placed_from, ch, width as int, dv));
        }
        let ghost fin = WrapState {
            position: position as int,
            x: x as int,
            break_position: opt_int(break_position),
            row: print_line@,
            breaks: breaks_view(wrapped_breaks@),
            rows: rows_from(context.print_lines@, n0),
        };
        if start_position != position {
            if x > 0 {
                let ghost row_before = print_line@;
                fill_print_line(&mut print_line, width.saturating_sub(x));
                proof {
                    assert(print_line@ =~= row_before + blank_row(sat_sub(width as int, x as int)));
                    lemma_rows_push(context.print_lines@, n0, print_line);
                }
                context.print_lines.push(print_line);
                assert(context.print_lines@.take(before.print_lines@.len() as int) =~= before.print_lines@);
            } else {
                wrapped_breaks.pop();
                assert(breaks_view(wrapped_breaks@) =~= fin.breaks.drop_last());
            }
        } else {
            let ghost row_before = print_line@;
            fill_print_line(&mut print_line, width.saturating_sub(x));
            proof {
                assert(print_line@ =~= row_before + blank_row(sat_sub(width as int, x as int)));
                lemma_rows_push(context.print_lines@, n0, print_line);
            }
            context.print_lines.push(print_line);
            assert(context.print_lines@.take(before.print_lines@.len() as int) =~= before.print_lines@);
        }
        wrapped_breaks
    }
}

impl Xi {
    /// Takes the leading space of the loaded book.
    pub fn book_loaded<B: Book>(&mut self, book: &B, context: &mut RenderContext)
        ensures
            final(context).width == old(context).width,
            final(context).height == old(context).height,
            final(context).print_lines == old(context).print_lines,
            call_ensures(B::leading_space, (book,), final(context).leading_space),
    {
        context.leading_space = book.leading_space();
    }

    /// Draws the screen that starts at `offset` of line `line`: the drawn lines of
    /// `context` become exactly the rows of the view, filled with blank rows after the
    /// last line. Returns where the next screen starts, or `None` when the last line ends
    /// on this screen.
    pub fn redraw(&mut self, lines: &Vec<Line>, line: usize, offset: usize,
        highlight: &Option<HighlightInfo>, context: &mut RenderContext) -> (next: Option<Position>)
        ensures
            final(context).width == old(context).width,
            final(context).height == old(context).height,
            final(context).leading_space == old(context).leading_space,
            next is None ==> final(context).print_lines@.len() == old(context).height,
            next matches Some(p) ==> final(context).print_lines@.len() >= old(context).height
                && line <= p.line < lines@.len(),
            ({
                let screen = xi_screen(lines@, old(context).width as int, old(context).leading_space as int,
                    old(context).height as int, *highlight, line as int, offset as int, Seq::empty());
                &&& rows_from(final(context).print_lines@, 0) == screen.0
                &&& (next is Some <==> screen.1 is Some)
                &&& (next matches Some(p) ==> screen.1 == Some((p.line as int, p.offset as int)))
            }),
    {
        let height = context.height;
        let width = context.width;
        context.print_lines.clear();
        let ghost target = xi_screen(lines@, width as int, context.leading_space as int, height as int, *highlight,
            line as int, offset as int, Seq::empty());
        assert(target == xi_screen(lines@, old(context).width as int, old(context).leading_space as int,
            old(context).height as int, *highlight, line as int, offset as int, Seq::empty()));
        assert(rows_from(context.print_lines@, 0) =~= Seq::<Seq<DrawChar>>::empty());
        let mut start = offset;
        let mut index = line;
        while index < lines.len()
            invariant
                line <= index,
                width == old(context).width,
                context.width == width,
                context.height == height,
                context.leading_space == old(context).leading_space,
                height == old(context).height,
                context.print_lines@.len() <= height,
                xi_screen(lines@, width as int, context.leading_space as int, height as int, *highlight,
                    index as int, start as int, rows_from(context.print_lines@, 0)) == target,
                target == xi_screen(lines@, old(context).width as int, old(context).leading_space as int,
                    old(context).height as int, *highlight, line as int, offset as int, Seq::empty()),
            decreases lines@.len() - index,
        {
            let text = &lines[index];
            let draw = WrapLineDrawingContext { line: index, highlight, lines };
            let ghost before = context.print_lines@;
            let wrapped_breaks = self.wrap_line(text, start, usize::MAX, width, Some(draw), context);
            proof {
                assert(lines@[index as int] == *text);
                assert(draw_view(Some(draw)) == Some((lines@, index, *highlight)));
                assert(rows_from(context.print_lines@, 0) =~= rows_from(before, 0) + rows_from(
                    context.print_lines@,
                    before.len() as int,
                )) by {
                    assert(context.print_lines@.take(before.len() as int) == before);
                }
            }
            let current_lines = context.print_lines.len();
            proof {
                let w = wrap_spec(lines@[index as int]@, start as int, usize::MAX as int, width as int,
                    context.leading_space as int, Some((lines@, index, *highlight)));
                assert(rows_from(context.print_lines@, 0) == rows_from(before, 0) + w.1);
                assert(breaks_view(wrapped_breaks@) == w.0);
                assert(rows_from(context.print_lines@, 0).len() == current_lines);
                assert(xi_screen(lines@, width as int, context.leading_space as int, height as int, *highlight,
                    index as int, start as int, rows_from(before, 0)) == target);
            }
            if current_lines == height {
                assert(target.0 == rows_from(context.print_lines@, 0));
                assert(target.1 == (if index >= lines.len() - 1 { None } else { Some((index + 1, 0int)) }));
                return if index >= lines.len() - 1 {
                    None
                } else {
                    Some(Position::new(index + 1, 0))
                };
            } else if current_lines > height {
                let gap = current_lines - height;
                proof {
                    assert(breaks_view(wrapped_breaks@)[wrapped_breaks@.len() - gap]
                        == wrapped_breaks@[wrapped_breaks@.len() - gap] as int);
                }
                assert(target.0 == rows_from(context.print_lines@, 0));
                assert(target.1 == Some((index as int, wrapped_breaks@[wrapped_breaks@.len() - gap] as int)));
                return Some(Position::new(index, wrapped_breaks[wrapped_breaks.len() - gap]));
            }
            start = 0;
            index = index + 1;
        }
        let ghost drawn = rows_from(context.print_lines@, 0);
        let blank_lines = height - context.print_lines.len();
        let mut n: usize = 0;
        while n < blank_lines
            invariant
                n <= blank_lines,
                width == old(context).width,
                context.width == width,
                context.height == height,
                context.leading_space == old(context).leading_space,
                height == old(context).height,
                context.print_lines@.len() + blank_lines - n == height,
                rows_from(context.print_lines@, 0) == drawn + blank_rows(n as int, width as int),
            decreases blank_lines - n,
        {
            let mut print_line: Vec<DrawChar> = Vec::new();
            fill_print_line(&mut print_line, width);
            assert(print_line@ =~= blank_row(width as int));
            proof {
                lemma_rows_push(context.print_lines@, 0, print_line);
            }
            context.print_lines.push(print_line);
            n = n + 1;
            assert(rows_from(context.print_lines@, 0) =~= drawn + blank_rows(n as int, width as int));
        }
        None
    }

    /// Where the screen before the one that starts at `offset` of line `line` starts: the
    /// rows of the view filled back from there.
    pub fn prev_page(&mut self, lines: &Vec<Line>, line: usize, offset: usize,
        context: &mut RenderContext) -> (p: Position)
        requires
            old(context).height > 0,
            offset == 0 ==> 0 < line <= lines@.len(),
            offset != 0 ==> line < lines@.len(),
        ensures
            p.line < lines@.len(),
            p.line <= (if offset == 0 { line - 1 } else { line as int }),
            (p.line as int, p.offset as int) == (if offset == 0 {
                xi_back(lines@, old(context).width as int, old(context).leading_space as int,
                    old(context).height as int, line - 1, usize::MAX as int, 0)
            } else {
                xi_back(lines@, old(context).width as int, old(context).leading_space as int,
                    old(context).height as int, line as int, offset as int, 0)
            }),
            final(context).width == old(context).width,
            final(context).height == old(context).height,
            final(context).leading_space == old(context).leading_space,
    {
        let height = context.height;
        let width = context.width;
        let ghost given = line;
        let (mut line, mut end_position) = if offset == 0 {
            (line - 1, usize::MAX)
        } else {
            (line, offset)
        };
        let ghost first = line;
        let mut rows: usize = 0;
        let ghost width_before = *context;
        context.print_lines.clear();
        let ghost target = xi_back(lines@, width as int, context.leading_space as int, height as int, line as int,
            end_position as int, 0);
        let mut position: usize = 0;
        loop
            invariant_except_break
                rows < height,
                xi_back(lines@, width as int, context.leading_space as int, height as int, line as int,
                    end_position as int, rows as int) == target,
            invariant
                line <= first < lines@.len(),
                rows == context.print_lines@.len(),
                width == old(context).width,
                context.width == width,
                context.height == height,
                context.leading_space == old(context).leading_space,
                height == old(context).height,
                first == (if offset == 0 { given - 1 } else { given as int }),
                target == xi_back(lines@, old(context).width as int, old(context).leading_space as int,
                    old(context).height as int, first as int, (if offset == 0 { usize::MAX as int } else { offset as int }), 0),
            ensures
                (line as int, position as int) == target,
            decreases line,
        {
            let text = &lines[line];
            let ghost before_rows = rows as int;
            let ghost end_here = end_position as int;
            let wrapped_breaks = self.wrap_line(text, 0, end_position, width, None, context);
            end_position = usize::MAX;
            rows = context.print_lines.len();
            proof {
                assert(lines@[line as int] == *text);
            }
            if rows >= height {
                position = wrapped_breaks[rows - height];
                proof {
                    assert(breaks_view(wrapped_breaks@)[rows - height] == wrapped_breaks@[rows - height] as int);
                }
                break;
            }
            if line == 0 {
                position = 0;
                break;
            }
            line = line - 1;
        }
        Position::new(line, position)
    }

    /// Where the screen starts after moving one row down from `offset` of line `line`.
    pub fn next_line(&mut self, lines: &Vec<Line>, line: usize, offset: usize,
        context: &mut RenderContext) -> (p: Position)
        requires
            line < lines@.len(),
        ensures
            p == (Position { line: (line + 1) as usize, offset: 0 }) || (p.line == line && p.offset
                >= offset),
            ({
                let b = wrap_spec(
                    lines@[line as int]@,
                    offset as int,
                    usize::MAX as int,
                    old(context).width as int,
                    old(context).leading_space as int,
                    None,
                ).0;
                if b.len() <= 1 {
                    p == (Position { line: (line + 1) as usize, offset: 0 })
                } else {
                    p.line == line && p.offset as int == b[1]
                }
            }),
            final(context).width == old(context).width,
            final(context).height == old(context).height,
            final(context).leading_space == old(context).leading_space,
    {
        let width = context.width;
        let text = &lines[line];
        proof {
            assert(lines@.len() == lines.len());
        }
        let wrapped_breaks = self.wrap_line(text, offset, usize::MAX, width, None, context);
        if wrapped_breaks.len() <= 1 {
            Position::new(line + 1, 0)
        } else {
            Position::new(line, wrapped_breaks[1])
        }
    }

    /// Where the screen starts after moving one row up from `offset` of line `line`.
    pub fn prev_line(&mut self, lines: &Vec<Line>, line: usize, offset: usize,
        context: &mut RenderContext) -> (p: Position)
        requires
            offset == 0 && line > 0 ==> line - 1 < lines@.len(),
            offset != 0 ==> line < lines@.len(),
        ensures
            offset == 0 && line == 0 ==> p == (Position { line: 0, offset: 0 }),
            offset == 0 && line > 0 ==> p.line == line - 1,
            offset != 0 ==> p.line == line && p.offset <= (if offset > lines@[line as int]@.len() {
                offset as int
            } else {
                lines@[line as int]@.len() as int
            }),
            !(offset == 0 && line == 0) ==> p.offset as int == (if offset == 0 {
                last_row_start(lines@[line - 1]@, usize::MAX as int, old(context).width as int,
                    old(context).leading_space as int)
            } else {
                last_row_start(lines@[line as int]@, offset as int, old(context).width as int,
                    old(context).leading_space as int)
            }),
            final(context).width == old(context).width,
            final(context).height == old(context).height,
            final(context).leading_space == old(context).leading_space,
    {
        let width = context.width;
        if offset == 0 && line == 0 {
            return Position::new(0, 0);
        }
        let (new_line, new_offset) = if offset == 0 {
            (line - 1, usize::MAX)
        } else {
            (line, offset)
        };
        let text = &lines[new_line];
        let wrapped_breaks = self.wrap_line(text, 0, new_offset, width, None, context);
        let breaks_count = wrapped_breaks.len();
        if breaks_count == 0 {
            Position::new(new_line, 0)
        } else {
            Position::new(new_line, wrapped_breaks[breaks_count - 1])
        }
    }

    /// Where the screen starts that shows the highlight starting at `highlight_start` of line
    /// `highlight_line`: the row of that line that holds it.
    pub fn setup_highlight(&mut self, lines: &Vec<Line>, highlight_line: usize, highlight_start: usize,
        context: &mut RenderContext) -> (p: Position)
        requires
            highlight_line < lines@.len(),
        ensures
            p.line == highlight_line,
            p.offset as int == last_row_start(lines@[highlight_line as int]@, sat_add(highlight_start as int, 1),
                old(context).width as int, old(context).leading_space as int),
            final(context).width == old(context).width,
            final(context).height == old(context).height,
            final(context).leading_space == old(context).leading_space,
    {
        let width = context.width;
        let text = &lines[highlight_line];
        let wrapped_breaks = self.wrap_line(text, 0, highlight_start.saturating_add(1), width, None, context);
        let breaks_count = wrapped_breaks.len();
        if breaks_count == 0 {
            Position::new(highlight_line, 0)
        } else {
            Position::new(highlight_line, wrapped_breaks[breaks_count - 1])
        }
    }
}

} // verus!
