//! What a terminal view draws: characters with the way each is shown.

use vstd::prelude::*;

use crate::book::{first_link_where, Line, LinkTest};
use crate::common::char_width;
use crate::controller::{HighlightInfo, HighlightMode};

verus! {

/// How a drawn character is shown.
#[derive(Clone, Copy, Debug, PartialEq, Eq, Structural)]
pub enum DrawCharMode {
    Plain,
    Search,
    SearchOnLink { line: usize, link_index: usize },
    HighlightLink { line: usize, link_index: usize },
    Link { line: usize, link_index: usize },
}

/// A character to draw and how it is shown.
#[derive(Clone, Copy, Debug, PartialEq, Eq, Structural)]
pub struct DrawChar {
    pub char: char,
    pub mode: DrawCharMode,
}

impl DrawChar {
    pub fn new(char: char, mode: DrawCharMode) -> (d: Self)
        ensures
            d.char == char,
            d.mode == mode,
    {
        DrawChar { char, mode }
    }

    /// A plain space.
    pub fn space() -> (d: Self)
        ensures
            d.char == ' ',
            d.mode == DrawCharMode::Plain,
    {
        DrawChar { char: ' ', mode: DrawCharMode::Plain }
    }
}

/// The size of the terminal view, the lines drawn in it and the book's leading space.
pub struct RenderContext {
    pub width: usize,
    pub height: usize,
    pub print_lines: Vec<Vec<DrawChar>>,
    pub leading_space: usize,
}

impl RenderContext {
    /// A view of `width` columns and `height` rows with nothing drawn.
    pub fn new(width: usize, height: usize, leading_space: usize) -> (c: Self)
        ensures
            c.width == width,
            c.height == height,
            c.leading_space == leading_space,
            c.print_lines@.len() == 0,
    {
        RenderContext { width, height, print_lines: Vec::new(), leading_space }
    }
}

/// Appends `chars` plain spaces to a drawn line.
pub fn fill_print_line(print_line: &mut Vec<DrawChar>, chars: usize)
    ensures
        final(print_line)@.len() == old(print_line)@.len() + chars,
        final(print_line)@.take(old(print_line)@.len() as int) == old(print_line)@,
        forall|i: int|
            old(print_line)@.len() <= i < final(print_line)@.len() ==> #[trigger] final(print_line)@[i]
                == DrawChar::space_spec(),
{
    let ghost start = print_line@;
    let mut n: usize = 0;
    while n < chars
        invariant
            n <= chars,
            print_line@.len() == start.len() + n,
            print_line@.take(start.len() as int) == start,
            forall|i: int| start.len() <= i < print_line@.len() ==> #[trigger] print_line@[i] == DrawChar::space_spec(),
        decreases chars - n,
    {
        print_line.push(DrawChar::space());
        n = n + 1;
    }
}

impl DrawChar {
    /// A plain space.
    pub open spec fn space_spec() -> DrawChar {
        DrawChar { char: ' ', mode: DrawCharMode::Plain }
    }
}

/// How a highlight shows the character at `position` of `line`.
pub open spec fn highlight_draw_mode(highlight: Option<HighlightInfo>, line: usize, position: usize) -> DrawCharMode {
    match highlight {
        Some(h) => if h.line == line && h.start <= position && h.end > position {
            match h.mode {
                HighlightMode::Search => DrawCharMode::Search,
                HighlightMode::Selection(..) => DrawCharMode::Plain,
                HighlightMode::Link(link_index) => DrawCharMode::HighlightLink { line, link_index },
            }
        } else {
            DrawCharMode::Plain
        },
        None => DrawCharMode::Plain,
    }
}

/// How the character at `position` of line `line` is shown: as the highlight shows it,
/// and, inside the first link that holds it, as a link or as a search match on a link,
/// unless the highlight is a link highlight.
pub open spec fn draw_mode(lines: Seq<Line>, line: usize, position: usize, highlight: Option<HighlightInfo>) -> DrawCharMode {
    let mode = highlight_draw_mode(highlight, line, position);
    match first_link_where(lines[line as int].styles(), LinkTest::Holds(position)) {
        Some(link_index) => match mode {
            DrawCharMode::Plain => DrawCharMode::Link { line, link_index },
            DrawCharMode::Search => DrawCharMode::SearchOnLink { line, link_index },
            _ => mode,
        },
        None => mode,
    }
}

/// The character `char` at `position` of line `line`, shown as `draw_mode` says.
pub fn setup_draw_char(char: char, line: usize, position: usize, lines: &Vec<Line>,
    highlight: &Option<HighlightInfo>) -> (d: DrawChar)
    requires
        line < lines@.len(),
    ensures
        d.char == char,
        d.mode == draw_mode(lines@, line, position, *highlight),
{
    let mut mode = match highlight {
        Some(h) => if h.line == line && h.start <= position && h.end > position {
            match h.mode {
                HighlightMode::Search => DrawCharMode::Search,
                HighlightMode::Selection(..) => DrawCharMode::Plain,
                HighlightMode::Link(link_index) => DrawCharMode::HighlightLink { line, link_index },
            }
        } else {
            DrawCharMode::Plain
        },
        None => DrawCharMode::Plain,
    };
    if let Some(link_index) = lines[line].first_link_holding(position) {
        match mode {
            DrawCharMode::Plain => {
                mode = DrawCharMode::Link { line, link_index };
            },
            DrawCharMode::Search => {
                mode = DrawCharMode::SearchOnLink { line, link_index };
            },
            _ => {},
        }
    }
    DrawChar { char, mode }
}

/// The drawn character under column `x` of a drawn line, scanning from index `i` at column
/// `col`: the first character that starts at or after `x`, or the one before it when `x`
/// falls inside a wide character.
pub open spec fn click_scan(line: Seq<DrawChar>, x: int, i: int, col: int) -> Option<DrawChar>
    decreases line.len() - i,
{
    if i < 0 || i >= line.len() {
        None
    } else if col >= x {
        if col == x || i == 0 {
            Some(line[i])
        } else {
            Some(line[i - 1])
        }
    } else {
        click_scan(line, x, i + 1, col + crate::common::char_width_spec(line[i].char))
    }
}

/// The link a drawn character shows, as its line and link index.
pub open spec fn mode_link(mode: DrawCharMode) -> Option<(usize, usize)> {
    match mode {
        DrawCharMode::Link { line, link_index } => Some((line, link_index)),
        DrawCharMode::HighlightLink { line, link_index } => Some((line, link_index)),
        DrawCharMode::SearchOnLink { line, link_index } => Some((line, link_index)),
        _ => None,
    }
}

/// The link under a click at column `x` of row `y` of the drawn lines, as its line and
/// link index.
pub fn clicked_link(print_lines: &Vec<Vec<DrawChar>>, x: usize, y: usize) -> (r: Option<(usize, usize)>)
    requires
        x < usize::MAX - 3,
    ensures
        r == (if y < print_lines@.len() {
            match click_scan(print_lines@[y as int]@, x as int, 0, 0) {
                Some(dc) => mode_link(dc.mode),
                None => None,
            }
        } else {
            None
        }),
{
    if y >= print_lines.len() {
        return None;
    }
    let print_line = &print_lines[y];
    let mut col: usize = 0;
    let mut index: usize = 0;
    while index < print_line.len()
        invariant
            index <= print_line@.len(),
            col <= x + 3,
            index > 0 ==> col < x + 3,
            click_scan(print_line@, x as int, 0, 0) == click_scan(print_line@, x as int, index as int, col as int),
            x < usize::MAX - 3,
            y < print_lines@.len(),
            *print_line == print_lines@[y as int],
        decreases print_line@.len() - index,
    {
        if col >= x {
            let dc = if col == x || index == 0 {
                print_line[index]
            } else {
                print_line[index - 1]
            };
            return match dc.mode {
                DrawCharMode::Link { line, link_index } => Some((line, link_index)),
                DrawCharMode::HighlightLink { line, link_index } => Some((line, link_index)),
                DrawCharMode::SearchOnLink { line, link_index } => Some((line, link_index)),
                _ => None,
            };
        }
        let w = char_width(print_line[index].char);
        col = col + w;
        index = index + 1;
    }
    None
}

} // verus!
