//! The terminal view that shows lines down, right to left, as Han text is set vertically.

use vstd::prelude::*;

use crate::book::Line;
use crate::common::{
    han_render_char, han_render_map, has_leading, length_with_leading, unicode_char_width,
    unicode_width_result, with_leading, Position,
};
use crate::controller::HighlightInfo;
use crate::view::{draw_mode, fill_print_line, setup_draw_char, DrawChar, RenderContext};

verus! {

/// Lines shown down, from right to left.
pub struct Han {
    line_count: usize,
}

/// How many text columns fit in `width` terminal columns: each takes two, with one between
/// neighbours.
pub open spec fn han_line_count(width: usize) -> usize {
    if width % 3 == 2 {
        (width / 3 + 1) as usize
    } else {
        (width / 3) as usize
    }
}

/// The text columns fit the view: there is one at least, and each takes three terminal
/// columns but the last, which takes two.
pub open spec fn columns_fit(line_count: usize, width: usize) -> bool {
    1 <= line_count && 3 * line_count - 1 <= width
}

/// Whether `line_count` text columns fit in `width` terminal columns.
pub fn fits_width(line_count: usize, width: usize) -> (r: bool)
    ensures
        r == columns_fit(line_count, width),
{
    line_count >= 1 && (line_count as u128) * 3 - 1 <= width as u128
}

/// The line lengths, with the leading space and two screens, fit in `usize`.
pub open spec fn lines_fit(lines: Seq<Line>, leading_space: usize, height: usize) -> bool {
    forall|i: int| 0 <= i < lines.len() ==> #[trigger] lines[i]@.len() + leading_space + 2 * height <= usize::MAX
}

/// Two terminal columns for a drawn character: the character and a space after it when it
/// takes one column, two spaces in its mode for a control character, two plain spaces when
/// there is none.
pub open spec fn han_cell(dc: Option<DrawChar>) -> Seq<DrawChar> {
    match dc {
        Some(d) => match unicode_width_result(d.char) {
            Some(w) => if w == 1 {
                seq![DrawChar { char: d.char, mode: d.mode }, DrawChar { char: ' ', mode: d.mode }]
            } else {
                seq![DrawChar { char: d.char, mode: d.mode }]
            },
            None => seq![DrawChar { char: ' ', mode: d.mode }, DrawChar { char: ' ', mode: d.mode }],
        },
        None => seq![DrawChar::space_spec(), DrawChar::space_spec()],
    }
}

/// Appends the terminal columns of a drawn character, as `han_cell` says.
pub fn append_char(line: &mut Vec<DrawChar>, dc_option: Option<DrawChar>)
    ensures
        final(line)@ == old(line)@ + han_cell(dc_option),
{
    match dc_option {
        Some(dc) => match unicode_char_width(dc.char) {
            Some(s) => {
                line.push(DrawChar::new(dc.char, dc.mode));
                if s == 1 {
                    line.push(DrawChar::new(' ', dc.mode));
                }
            },
            None => {
                line.push(DrawChar::new(' ', dc.mode));
                line.push(DrawChar::new(' ', dc.mode));
            },
        },
        None => {
            line.push(DrawChar::space());
            line.push(DrawChar::space());
        },
    }
}

/// The drawn character at `idx` of a text column, if it reaches that far.
pub open spec fn char_at_row(column: Seq<DrawChar>, idx: int) -> Option<DrawChar> {
    if 0 <= idx < column.len() {
        Some(column[idx])
    } else {
        None
    }
}

/// Row `idx` of the last `j` text columns, right to left: for each, a space between it and
/// the one before (before the first only when `split_first`) and its cell at that row.
pub open spec fn han_row_cells(columns: Seq<Seq<DrawChar>>, idx: int, j: int, split_first: bool) -> Seq<
    DrawChar,
>
    decreases j,
{
    if j <= 0 {
        Seq::empty()
    } else {
        han_row_cells(columns, idx, j - 1, split_first) + (if j > 1 || split_first {
            seq![DrawChar::space_spec()]
        } else {
            Seq::empty()
        }) + han_cell(char_at_row(columns[columns.len() - j], idx))
    }
}

/// The drawn characters of each text column.
pub open spec fn columns_view(columns: Seq<Vec<DrawChar>>) -> Seq<Seq<DrawChar>> {
    columns.map_values(|c: Vec<DrawChar>| c@)
}

/// `n` plain spaces.
pub open spec fn spaces(n: int) -> Seq<DrawChar> {
    Seq::new(n as nat, |i: int| DrawChar::space_spec())
}

/// Row `idx` of the screen for `columns` text columns out of `line_count`: the blank
/// columns on the left, the text columns right to left, and spaces to the width.
pub open spec fn han_row(columns: Seq<Seq<DrawChar>>, line_count: usize, width: usize, idx: int) -> Seq<
    DrawChar,
> {
    let blank = line_count - columns.len();
    let prefix = if blank > 0 { (blank - 1) * 3 + 2 } else { 0 };
    spaces(prefix) + han_row_cells(columns, idx, columns.len() as int, blank > 0) + spaces(
        width - (line_count * 3 - 1),
    )
}

impl Han {
    /// How many text columns the view shows.
    pub closed spec fn columns(&self) -> usize {
        self.line_count
    }

    /// A view of one text column, until it learns its size.
    pub fn new() -> (h: Self)
        ensures
            h.columns() == 1,
    {
        Han { line_count: 1 }
    }

    /// How many text columns the view shows.
    pub fn line_count(&self) -> (n: usize)
        ensures
            n == self.columns(),
    {
        self.line_count
    }

    /// Takes the number of text columns from the width of the view.
    pub fn resized(&mut self, context: &RenderContext)
        ensures
            final(self).columns() == han_line_count(context.width),
    {
        let width = context.width;
        self.line_count = if width % 3 == 2 {
            width / 3 + 1
        } else {
            width / 3
        };
    }

    /// The character drawn for `ch`: its vertical form where it has one.
    pub fn map_char(&self, ch: char) -> (c: char)
        ensures
            c == han_render_map(ch),
    {
        han_render_char(ch)
    }
}

impl Han {
    /// Lays the text columns out as the rows of the screen, as `han_row` says.
    pub fn setup_print_lines(&self, draw_lines: &Vec<Vec<DrawChar>>, context: &mut RenderContext)
        requires
            columns_fit(self.columns(), old(context).width),
            draw_lines@.len() <= self.columns(),
        ensures
            final(context).width == old(context).width,
            final(context).height == old(context).height,
            final(context).leading_space == old(context).leading_space,
            final(context).print_lines@.len() == old(context).height,
            forall|idx: int|
                0 <= idx < old(context).height ==> #[trigger] final(context).print_lines@[idx]@
                    == han_row(columns_view(draw_lines@), self.columns(), old(context).width, idx),
    {
        let line_count = self.line_count;
        let width = context.width;
        let height = context.height;
        let count = draw_lines.len();
        let blank_lines = line_count - count;
        let (blank_prefix_length, split_first) = if blank_lines > 0 {
            ((blank_lines - 1) * 3 + 2, true)
        } else {
            (0, false)
        };
        let print_suffix_length = width - (line_count * 3 - 1);
        context.print_lines.clear();
        let mut idx: usize = 0;
        while idx < height
            invariant
                idx <= height,
                height == old(context).height,
                width == old(context).width,
                context.width == width,
                context.height == height,
                context.leading_space == old(context).leading_space,
                line_count == self.columns(),
                count == draw_lines@.len(),
                blank_lines == line_count - count,
                blank_prefix_length == (if blank_lines > 0 { (blank_lines - 1) * 3 + 2 } else { 0 }),
                split_first == (blank_lines > 0),
                print_suffix_length == width - (line_count * 3 - 1),
                context.print_lines@.len() == idx,
                forall|r: int| 0 <= r < idx ==> #[trigger] context.print_lines@[r]@ == han_row(columns_view(draw_lines@), line_count, width, r),
            decreases height - idx,
        {
            let mut line: Vec<DrawChar> = Vec::new();
            fill_print_line(&mut line, blank_prefix_length);
            assert(line@ =~= spaces(blank_prefix_length as int));
            let ghost prefix = line@;
            let mut j: usize = 0;
            while j < count
                invariant
                    j <= count,
                    count == draw_lines@.len(),
                    split_first == (blank_lines > 0),
                    line@ == prefix + han_row_cells(columns_view(draw_lines@), idx as int, j as int, split_first),
                decreases count - j,
            {
                let column = &draw_lines[count - 1 - j];
                if j > 0 || split_first {
                    line.push(DrawChar::space());
                }
                let dc = if idx < column.len() {
                    Some(column[idx])
                } else {
                    None
                };
                assert(dc == char_at_row(columns_view(draw_lines@)[count - 1 - j], idx as int));
                append_char(&mut line, dc);
                j = j + 1;
                assert(line@ =~= prefix + han_row_cells(columns_view(draw_lines@), idx as int, j as int, split_first));
            }
            let ghost body = line@;
            fill_print_line(&mut line, print_suffix_length);
            assert(line@ =~= body + spaces(print_suffix_length as int));
            assert(line@ =~= han_row(columns_view(draw_lines@), line_count, width, idx as int));
            context.print_lines.push(line);
            idx = idx + 1;
        }
    }
}

/// Whether the text column of line `line` that starts at `offset` starts with the leading
/// space: it is the line's first column, the line is not empty and it starts with one.
pub open spec fn han_column_leads(lines: Seq<Line>, line: int, offset: int) -> bool {
    offset == 0 && lines[line]@.len() > 0 && has_leading(lines[line]@)
}

/// How many characters of line `line` from `offset` a text column holds: up to `height`,
/// less the leading space in a column that starts with it.
pub open spec fn han_column_count(lines: Seq<Line>, leading_space: usize, height: usize, line: int,
    offset: int) -> int {
    let left = lines[line]@.len() - offset;
    let c = if left >= height { height as int } else { left };
    if han_column_leads(lines, line, offset) && c > height - leading_space {
        height - leading_space
    } else {
        c
    }
}

/// The text column of line `line` from `offset`: the leading space where it starts with
/// one, then its characters in their vertical forms, each in the mode it is drawn in.
pub open spec fn han_column(lines: Seq<Line>, leading_space: usize, height: usize,
    highlight: Option<HighlightInfo>, line: int, offset: int) -> Seq<DrawChar> {
    (if han_column_leads(lines, line, offset) { spaces(leading_space as int) } else { Seq::empty() })
        + Seq::new(
        han_column_count(lines, leading_space, height, line, offset) as nat,
        |j: int|
            DrawChar {
                char: han_render_map(lines[line]@[offset + j]),
                mode: draw_mode(lines, line as usize, (offset + j) as usize, highlight),
            },
    )
}

/// The `k` text columns from `offset` of line `line`, and where the text after them starts;
/// fewer columns and no position when the last line ends first.
pub open spec fn han_screen(lines: Seq<Line>, leading_space: usize, height: usize,
    highlight: Option<HighlightInfo>, line: int, offset: int, k: nat) -> (Seq<Seq<DrawChar>>, Option<
    (int, int),
>)
    decreases k,
{
    if k == 0 {
        (Seq::empty(), Some((line, offset)))
    } else {
        let column = han_column(lines, leading_space, height, highlight, line, offset);
        let end = offset + han_column_count(lines, leading_space, height, line, offset);
        if end == lines[line]@.len() {
            if line + 1 == lines.len() {
                (seq![column], None)
            } else {
                let rest = han_screen(lines, leading_space, height, highlight, line + 1, 0, (k - 1) as nat);
                (seq![column] + rest.0, rest.1)
            }
        } else {
            let rest = han_screen(lines, leading_space, height, highlight, line, end, (k - 1) as nat);
            (seq![column] + rest.0, rest.1)
        }
    }
}

impl Han {
    /// Draws the screen that starts at `new_offset` of line `new_line`: each text column
    /// holds up to `height` characters of a line, the first column of a line that gets the
    /// leading space starting with it. Returns where the next screen starts, or `None`
    /// when the last line ends on this screen.
    pub fn redraw(&mut self, lines: &Vec<Line>, new_line: usize, new_offset: usize,
        highlight: &Option<HighlightInfo>, context: &mut RenderContext) -> (next: Option<Position>)
        requires
            new_line < lines@.len(),
            new_offset <= lines@[new_line as int]@.len(),
            old(context).leading_space <= old(context).height,
            columns_fit(old(self).columns(), old(context).width),
        ensures
            final(self).columns() == old(self).columns(),
            final(context).width == old(context).width,
            final(context).height == old(context).height,
            final(context).leading_space == old(context).leading_space,
            final(context).print_lines@.len() == old(context).height,
            next matches Some(p) ==> new_line <= p.line < lines@.len() && p.offset <= lines@[p.line as int]@.len(),
            ({
                let screen = han_screen(
                    lines@,
                    old(context).leading_space,
                    old(context).height,
                    *highlight,
                    new_line as int,
                    new_offset as int,
                    old(self).columns() as nat,
                );
                &&& forall|idx: int|
                    0 <= idx < old(context).height ==> #[trigger] final(context).print_lines@[idx]@ == han_row(
                        screen.0,
                        old(self).columns(),
                        old(context).width,
                        idx,
                    )
                &&& (next is Some <==> screen.1 is Some)
                &&& (next matches Some(p) ==> screen.1 == Some((p.line as int, p.offset as int)))
            }),
    {
        let mut line = new_line;
        let mut offset = new_offset;
        let height = context.height;
        let leading_space = context.leading_space;
        let mut text = &lines[line];
        let mut line_length = text.len();
        let mut draw_lines: Vec<Vec<DrawChar>> = Vec::new();
        let line_count = self.line_count;
        let ghost target = han_screen(lines@, leading_space, height, *highlight, new_line as int, new_offset as int,
            line_count as nat);
        let mut k: usize = 0;
        while k < line_count
            invariant
                k <= line_count,
                line_count == self.columns(),
                target == han_screen(lines@, leading_space, height, *highlight, new_line as int, new_offset as int,
                    line_count as nat),
                columns_view(draw_lines@) + han_screen(lines@, leading_space, height, *highlight, line as int,
                    offset as int, (line_count - k) as nat).0 == target.0,
                han_screen(lines@, leading_space, height, *highlight, line as int, offset as int, (line_count
                    - k) as nat).1 == target.1,
                columns_fit(self.columns(), context.width),
                draw_lines@.len() == k,
                new_line <= line < lines@.len(),
                *text == lines@[line as int],
                line_length == text@.len(),
                offset <= line_length,
                leading_space == context.leading_space,
                height == context.height,
                leading_space <= height,
                context.width == old(context).width,
                context.height == old(context).height,
                context.leading_space == old(context).leading_space,
                self.columns() == old(self).columns(),
            decreases line_count - k,
        {
            let left = line_length - offset;
            let mut chars_to_draw = if left >= height {
                height
            } else {
                left
            };
            let mut draw_line: Vec<DrawChar> = Vec::new();
            let ghost start = offset as int;
            let ghost rest = han_screen(lines@, leading_space, height, *highlight, line as int, offset as int, (
            line_count - k) as nat);
            if offset == 0 && left > 0 {
                if with_leading(text) {
                    fill_print_line(&mut draw_line, leading_space);
                    if chars_to_draw > height - leading_space {
                        chars_to_draw = height - leading_space;
                    }
                }
            }
            assert(chars_to_draw == han_column_count(lines@, leading_space, height, line as int, start));
            let ghost lead = draw_line@;
            assert(lead =~= (if han_column_leads(lines@, line as int, start) {
                spaces(leading_space as int)
            } else {
                Seq::empty()
            }));
            let mut y: usize = 0;
            while y < chars_to_draw
                invariant
                    y <= chars_to_draw <= left,
                    left == line_length - (offset - y),
                    offset <= line_length,
                    line_length == text@.len(),
                    *text == lines@[line as int],
                    line < lines@.len(),
                    offset == start + y,
                    draw_line@ == lead + Seq::new(
                        y as nat,
                        |j: int|
                            DrawChar {
                                char: han_render_map(lines@[line as int]@[start + j]),
                                mode: draw_mode(lines@, line, (start + j) as usize, *highlight),
                            },
                    ),
                decreases chars_to_draw - y,
            {
                let ch = match text.char_at(offset) {
                    Some(c) => c,
                    None => ' ',
                };
                let draw_char = self.map_char(ch);
                let dc = setup_draw_char(draw_char, line, offset, lines, highlight);
                draw_line.push(dc);
                offset = offset + 1;
                y = y + 1;
                assert(draw_line@ =~= lead + Seq::new(
                    y as nat,
                    |j: int|
                        DrawChar {
                            char: han_render_map(lines@[line as int]@[start + j]),
                            mode: draw_mode(lines@, line, (start + j) as usize, *highlight),
                        },
                ));
            }
            assert(draw_line@ =~= han_column(lines@, leading_space, height, *highlight, line as int, start));
            let ghost before_push = columns_view(draw_lines@);
            draw_lines.push(draw_line);
            assert(columns_view(draw_lines@) =~= before_push.push(
                han_column(lines@, leading_space, height, *highlight, line as int, start),
            ));
            let lines_count = lines.len();
            if offset == line_length {
                line = line + 1;
                if line == lines_count {
                    proof {
                        let col = han_column(lines@, leading_space, height, *highlight, line - 1, start);
                        assert(rest == (seq![col], None::<(int, int)>));
                        assert(columns_view(draw_lines@) =~= before_push + rest.0);
                    }
                    self.setup_print_lines(&draw_lines, context);
                    return None;
                }
                text = &lines[line];
                line_length = text.len();
                offset = 0;
            }
            k = k + 1;
        }
        self.setup_print_lines(&draw_lines, context);
        Some(Position::new(line, offset))
    }
}

/// The characters line `i` takes in its text column: its length, and the leading space
/// when it starts with one.
pub open spec fn han_len(lines: Seq<Line>, leading_space: usize, i: int) -> int {
    lines[i]@.len() + (if has_leading(lines[i]@) { leading_space as int } else { 0 })
}

/// Going back `steps` text columns of `height` characters from `offset` of line `line`: a
/// column that reaches the line's start steps to the end of the line before; `None` once
/// the first line's start is passed.
pub open spec fn han_back(lines: Seq<Line>, leading_space: usize, height: usize, line: int, offset: int,
    steps: nat) -> Option<(int, int)>
    decreases steps,
{
    if steps == 0 {
        Some((line, offset))
    } else if offset <= height {
        if line == 0 {
            None
        } else {
            han_back(lines, leading_space, height, line - 1, han_len(lines, leading_space, line - 1), (steps - 1) as nat)
        }
    } else {
        han_back(lines, leading_space, height, line, offset - height, (steps - 1) as nat)
    }
}

/// The first multiple of `height` from `p` on that is not below `offset`.
pub open spec fn han_round_up(p: int, offset: int, height: int) -> int
    decreases (if p < offset { offset - p } else { 0 }),
{
    if height <= 0 || p >= offset {
        p
    } else {
        han_round_up(p + height, offset, height)
    }
}

/// Where the screen before the one at `offset` of line `new_line` starts, `line_count`
/// text columns back: at the start of the line after when that lands on a line's end, at
/// the column boundary at or after the offset otherwise (less the leading space of a line
/// that has one), or at the very start when the first line is passed.
pub open spec fn han_prev_page(lines: Seq<Line>, leading_space: usize, height: usize, line_count: usize,
    new_line: int, new_offset: int) -> (int, int) {
    let (line, offset) = if new_offset == 0 {
        (new_line - 1, han_len(lines, leading_space, new_line - 1))
    } else {
        (new_line, new_offset)
    };
    match han_back(lines, leading_space, height, line, offset, line_count as nat) {
        None => (0, 0),
        Some((l, o)) => if o == han_len(lines, leading_space, l) {
            (l + 1, 0)
        } else {
            let p = han_round_up(height as int, o, height as int);
            (l, if has_leading(lines[l]@) { p - leading_space } else { p })
        },
    }
}

/// Where the screen starts one text column on from `offset` of line `line`: the next line
/// when the rest of this one fits in a column, else `height` characters on (less the
/// leading space on the line's first column).
pub open spec fn han_next_line(lines: Seq<Line>, leading_space: usize, height: usize, line: int, offset: int) -> (
    int,
    int,
) {
    let len = han_len(lines, leading_space, line);
    if offset == 0 {
        if len <= height {
            (line + 1, 0)
        } else if has_leading(lines[line]@) {
            (line, height - leading_space)
        } else {
            (line, height as int)
        }
    } else if offset + height + leading_space >= len {
        (line + 1, 0)
    } else {
        (line, offset + height)
    }
}

/// The start of the last text column of a line `len` characters long, going on by
/// `height` from `offset`.
pub open spec fn han_last_column(offset: int, height: int, len: int) -> int
    decreases (if offset < len { len - offset } else { 0 }),
{
    if height <= 0 || offset + height >= len - 1 {
        offset
    } else {
        han_last_column(offset + height, height, len)
    }
}

/// Where the screen starts one text column back from `offset` of line `line`: the last
/// column of the line before at a line's start (its start when it fits in one column),
/// else `height` characters back, or the line's start.
pub open spec fn han_prev_line(lines: Seq<Line>, leading_space: usize, height: usize, line: int, offset: int) -> (
    int,
    int,
) {
    if offset == 0 {
        if line == 0 {
            (0, 0)
        } else {
            let len = han_len(lines, leading_space, line - 1);
            if len <= height {
                (line - 1, 0)
            } else {
                let o = han_last_column(height as int, height as int, len);
                (line - 1, if has_leading(lines[line - 1]@) { o - leading_space } else { o })
            }
        }
    } else if offset < height {
        (line, 0)
    } else {
        (line, offset - height)
    }
}

impl Han {
    /// Where the screen before the one that starts at `new_offset` of line `new_line`
    /// starts: as many text columns back as the view shows, each of `height` characters of
    /// a line (the first of a line counting its leading space).
    pub fn prev_page(&mut self, lines: &Vec<Line>, new_line: usize, new_offset: usize,
        context: &mut RenderContext) -> (p: Position)
        requires
            old(context).height > 0,
            old(context).leading_space <= old(context).height,
            lines_fit(lines@, old(context).leading_space, old(context).height),
            new_offset + 2 * old(context).height <= usize::MAX,
            new_offset == 0 ==> 0 < new_line <= lines@.len(),
            new_offset != 0 ==> new_line < lines@.len(),
        ensures
            p.line <= new_line + 1,
            p.line <= lines@.len(),
            *final(context) == *old(context),
            final(self).columns() == old(self).columns(),
            (p.line as int, p.offset as int) == han_prev_page(
                lines@,
                old(context).leading_space,
                old(context).height,
                old(self).columns(),
                new_line as int,
                new_offset as int,
            ),
    {
        let height = context.height;
        let leading_space = context.leading_space;
        let mut line = new_line;
        let mut offset = new_offset;
        if offset == 0 {
            line = line - 1;
            offset = length_with_leading(&lines[line], leading_space);
        }
        let line_count = self.line_count;
        let ghost start: (int, int) = if new_offset == 0 {
            (new_line - 1, han_len(lines@, leading_space, new_line - 1))
        } else {
            (new_line as int, new_offset as int)
        };
        assert((line as int, offset as int) == start);
        let ghost target = han_back(lines@, leading_space, height, start.0, start.1, line_count as nat);
        let mut k: usize = 0;
        while k < line_count
            invariant
                k <= line_count,
                line < lines@.len(),
                line <= new_line,
                offset + 2 * height <= usize::MAX,
                height > 0,
                lines_fit(lines@, leading_space, height),
                han_back(lines@, leading_space, height, line as int, offset as int, (line_count - k) as nat) == target,
                target == han_back(lines@, leading_space, height, start.0, start.1, line_count as nat),
                start == (if new_offset == 0 {
                    (new_line - 1, han_len(lines@, leading_space, new_line - 1))
                } else {
                    (new_line as int, new_offset as int)
                }),
                leading_space == old(context).leading_space,
                height == old(context).height,
                line_count == old(self).columns(),
            decreases line_count - k,
        {
            if offset <= height {
                if line == 0 {
                    return Position::new(0, 0);
                }
                line = line - 1;
                offset = length_with_leading(&lines[line], leading_space);
            } else {
                offset = offset - height;
            }
            k = k + 1;
        }
        let text = &lines[line];
        proof {
            assert(lines@.len() == lines.len());
        }
        if offset == length_with_leading(text, leading_space) {
            offset = 0;
            line = line + 1;
        } else {
            let mut p = height;
            while p < offset
                invariant
                    height <= p <= offset + height,
                    offset + 2 * height <= usize::MAX,
                    height > 0,
                    han_round_up(p as int, offset as int, height as int) == han_round_up(
                        height as int,
                        offset as int,
                        height as int,
                    ),
                decreases offset + height - p,
            {
                p = p + height;
            }
            offset = p;
            if with_leading(text) {
                offset = offset - leading_space;
            }
        }
        Position::new(line, offset)
    }

    /// Where the screen starts after moving one text column on from `offset` of line
    /// `line`.
    pub fn next_line(&mut self, lines: &Vec<Line>, line: usize, offset: usize,
        context: &mut RenderContext) -> (p: Position)
        requires
            line < lines@.len(),
            old(context).leading_space <= old(context).height,
            lines_fit(lines@, old(context).leading_space, old(context).height),
            offset + 2 * old(context).height <= usize::MAX,
        ensures
            p == (Position { line: (line + 1) as usize, offset: 0 }) || (p.line == line && p.offset
                >= offset),
            (p.line as int, p.offset as int) == han_next_line(
                lines@,
                old(context).leading_space,
                old(context).height,
                line as int,
                offset as int,
            ),
            *final(context) == *old(context),
    {
        let height = context.height;
        let leading_space = context.leading_space;
        let text = &lines[line];
        proof {
            assert(lines@.len() == lines.len());
        }
        let text_length = length_with_leading(text, leading_space);
        let mut line = line;
        let mut offset = offset;
        if offset == 0 {
            if text_length <= height {
                line = line + 1;
            } else if with_leading(text) {
                offset = height - leading_space;
            } else {
                offset = height;
            }
        } else {
            offset = offset + height;
            if offset + leading_space >= text_length {
                offset = 0;
                line = line + 1;
            }
        }
        Position::new(line, offset)
    }

    /// Where the screen starts after moving one text column back from `offset` of line
    /// `line`.
    pub fn prev_line(&mut self, lines: &Vec<Line>, line: usize, offset: usize,
        context: &mut RenderContext) -> (p: Position)
        requires
            old(context).height > 0,
            offset == 0 && line > 0 ==> line - 1 < lines@.len(),
            lines_fit(lines@, old(context).leading_space, old(context).height),
            old(context).leading_space <= old(context).height,
        ensures
            offset == 0 && line == 0 ==> p == (Position { line: 0, offset: 0 }),
            offset == 0 && line > 0 ==> p.line == line - 1,
            offset != 0 ==> p.line == line && p.offset < offset,
            (p.line as int, p.offset as int) == han_prev_line(
                lines@,
                old(context).leading_space,
                old(context).height,
                line as int,
                offset as int,
            ),
            *final(context) == *old(context),
    {
        let height = context.height;
        let leading_space = context.leading_space;
        let mut line = line;
        let mut offset = offset;
        if offset == 0 {
            if line == 0 {
                return Position::new(line, offset);
            }
            line = line - 1;
            let text = &lines[line];
            let text_length = length_with_leading(text, leading_space);
            if text_length <= height {
                offset = 0;
            } else {
                offset = height;
                while offset + height < text_length - 1
                    invariant
                        height <= offset < text_length,
                        text_length + 2 * height <= usize::MAX,
                        height > 0,
                        han_last_column(offset as int, height as int, text_length as int) == han_last_column(
                            height as int,
                            height as int,
                            text_length as int,
                        ),
                    decreases text_length - offset,
                {
                    offset = offset + height;
                }
                if with_leading(text) {
                    offset = offset - leading_space;
                }
            }
        } else if offset < height {
            offset = 0;
        } else {
            offset = offset - height;
        }
        Position::new(line, offset)
    }

    /// Where the screen starts that shows the highlight starting at `highlight_start` of line
    /// `highlight_line`: the text column of that line that holds it.
    pub fn setup_highlight(&mut self, lines: &Vec<Line>, highlight_line: usize,
        highlight_start: usize, context: &mut RenderContext) -> (p: Position)
        requires
            highlight_line < lines@.len(),
            old(context).leading_space < old(context).height,
            highlight_start + 2 * old(context).height <= usize::MAX,
        ensures
            p.line == highlight_line,
            p.offset <= highlight_start < p.offset + old(context).height,
            *final(context) == *old(context),
    {
        let height = context.height;
        let mut offset: usize = 0;
        loop
            invariant
                offset <= highlight_start,
                height == context.height,
                context.leading_space < height,
                highlight_start + 2 * height <= usize::MAX,
                highlight_line < lines@.len(),
            ensures
                offset <= highlight_start < offset + height,
            decreases highlight_start + 1 - offset,
        {
            if offset == 0 {
                let leading = if with_leading(&lines[highlight_line]) {
                    context.leading_space
                } else {
                    0
                };
                if height - leading > highlight_start {
                    break;
                } else {
                    offset = height - leading;
                }
            } else if offset + height > highlight_start {
                break;
            } else {
                offset = offset + height;
            }
        }
        Position::new(highlight_line, offset)
    }
}

} // verus!
