use tbr::common::Position;
use tbr::gui::{convert_color, convert_colors, selection_range, BaseColor, DrawnLine, PointerPosition, ThemeColor, ThemePalette};
use tbr::terminal::{reader_command, ReaderCommand, ReaderInput};
use tbr::book::Line;
use tbr::controller::{HighlightInfo, HighlightMode};
use tbr::han::{append_char, Han};
use tbr::html_parser::TextStyle;
use tbr::view::{clicked_link, fill_print_line, setup_draw_char, DrawChar, DrawCharMode, RenderContext};
use tbr::xi::Xi;

fn text(line: &Vec<DrawChar>) -> String {
    line.iter().map(|d| d.char).collect()
}

#[test]
fn draw_modes_follow_links_and_highlight() {
    let mut line = Line::new("abc");
    line.push_style(TextStyle::Link(String::from("x")), 1..2);
    let lines = vec![line];
    assert_eq!(setup_draw_char('a', 0, 0, &lines, &None).mode, DrawCharMode::Plain);
    assert_eq!(
        setup_draw_char('b', 0, 1, &lines, &None).mode,
        DrawCharMode::Link { line: 0, link_index: 0 }
    );
    let search = Some(HighlightInfo { line: 0, start: 0, end: 2, mode: HighlightMode::Search });
    assert_eq!(setup_draw_char('a', 0, 0, &lines, &search).mode, DrawCharMode::Search);
    assert_eq!(
        setup_draw_char('b', 0, 1, &lines, &search).mode,
        DrawCharMode::SearchOnLink { line: 0, link_index: 0 }
    );
    let link = Some(HighlightInfo { line: 0, start: 1, end: 2, mode: HighlightMode::Link(0) });
    assert_eq!(
        setup_draw_char('b', 0, 1, &lines, &link).mode,
        DrawCharMode::HighlightLink { line: 0, link_index: 0 }
    );
}

#[test]
fn fill_adds_spaces() {
    let mut line = vec![DrawChar::new('x', DrawCharMode::Plain)];
    fill_print_line(&mut line, 3);
    assert_eq!(text(&line), "x   ");
    assert_eq!(line[3], DrawChar::space());
}

#[test]
fn han_columns_from_width() {
    let mut han = Han::new();
    assert_eq!(han.line_count(), 1);
    han.resized(&RenderContext::new(8, 2, 0));
    assert_eq!(han.line_count(), 3);
    han.resized(&RenderContext::new(9, 2, 0));
    assert_eq!(han.line_count(), 3);
    han.resized(&RenderContext::new(11, 2, 0));
    assert_eq!(han.line_count(), 4);
}

#[test]
fn han_cells() {
    let mut line = vec![];
    append_char(&mut line, Some(DrawChar::new('a', DrawCharMode::Plain)));
    append_char(&mut line, Some(DrawChar::new('中', DrawCharMode::Search)));
    append_char(&mut line, None);
    assert_eq!(text(&line), "a 中  ");
    assert_eq!(line[2].mode, DrawCharMode::Search);
}

#[test]
fn han_rows_right_to_left() {
    let mut han = Han::new();
    let mut context = RenderContext::new(8, 2, 0);
    han.resized(&context);
    let plain = |c| DrawChar::new(c, DrawCharMode::Plain);
    let columns = vec![vec![plain('a'), plain('b')], vec![plain('c')]];
    han.setup_print_lines(&columns, &mut context);
    assert_eq!(context.print_lines.len(), 2);
    assert_eq!(text(&context.print_lines[0]), "   c  a ");
    assert_eq!(text(&context.print_lines[1]), "      b ");
}

#[test]
fn han_redraw_to_the_end() {
    let mut han = Han::new();
    let mut context = RenderContext::new(8, 2, 0);
    han.resized(&context);
    let lines = vec![Line::new("abcd"), Line::new("ef")];
    assert!(han.redraw(&lines, 0, 0, &None, &mut context).is_none());
    assert_eq!(text(&context.print_lines[0]), "e  c  a ");
    assert_eq!(text(&context.print_lines[1]), "f  d  b ");
    let lines = vec![Line::new("abcd"), Line::new("ef"), Line::new("gh")];
    let next = han.redraw(&lines, 0, 0, &None, &mut context).unwrap();
    assert_eq!((next.line, next.offset), (2, 0));
}

#[test]
fn han_steps() {
    let mut han = Han::new();
    let mut context = RenderContext::new(8, 4, 0);
    han.resized(&context);
    let lines = vec![Line::new("abcdef"), Line::new("gh")];
    let p = han.next_line(&lines, 0, 0, &mut context);
    assert_eq!((p.line, p.offset), (0, 4));
    let p = han.next_line(&lines, 0, 4, &mut context);
    assert_eq!((p.line, p.offset), (1, 0));
    let p = han.prev_line(&lines, 0, 4, &mut context);
    assert_eq!((p.line, p.offset), (0, 0));
    let p = han.prev_line(&lines, 1, 0, &mut context);
    assert_eq!((p.line, p.offset), (0, 4));
    let p = han.prev_line(&lines, 0, 0, &mut context);
    assert_eq!((p.line, p.offset), (0, 0));
    let long = vec![Line::new("abcdefghij")];
    let p = han.setup_highlight(&long, 0, 9, &mut context);
    assert_eq!((p.line, p.offset), (0, 8));
    let p = han.prev_page(&lines, 2, 0, &mut context);
    assert_eq!((p.line, p.offset), (0, 0));
}

#[test]
fn xi_steps() {
    let mut xi = Xi::new();
    let mut context = RenderContext::new(10, 3, 0);
    let lines = vec![Line::new("hello"), Line::new("one two three four")];
    let p = xi.next_line(&lines, 0, 0, &mut context);
    assert_eq!((p.line, p.offset), (1, 0));
    let p = xi.next_line(&lines, 1, 0, &mut context);
    assert_eq!((p.line, p.offset), (1, 8));
    let p = xi.prev_line(&lines, 1, 0, &mut context);
    assert_eq!((p.line, p.offset), (0, 0));
    let p = xi.prev_line(&lines, 1, 8, &mut context);
    assert_eq!((p.line, p.offset), (1, 0));
    let p = xi.setup_highlight(&lines, 1, 15, &mut context);
    assert_eq!((p.line, p.offset), (1, 8));
    let mut screen = RenderContext::new(10, 2, 0);
    let next = xi.redraw(&lines, 0, 0, &None, &mut screen).unwrap();
    assert_eq!(screen.print_lines.len(), 3);
    assert_eq!((next.line, next.offset), (1, 8));
    assert_eq!(text(&screen.print_lines[0]), "hello     ");
    assert_eq!(text(&screen.print_lines[1]), "one two   ");
    assert!(xi.redraw(&lines, 1, 8, &None, &mut screen).is_none());
    assert_eq!(screen.print_lines.len(), 2);
    assert_eq!(text(&screen.print_lines[0]), "three four");
    assert_eq!(text(&screen.print_lines[1]), "          ");
}

#[test]
fn clicks_on_links() {
    let row = vec![
        DrawChar::new('a', DrawCharMode::Plain),
        DrawChar::new('中', DrawCharMode::Link { line: 0, link_index: 1 }),
        DrawChar::new('b', DrawCharMode::Plain),
    ];
    let rows = vec![row];
    assert_eq!(clicked_link(&rows, 0, 0), None);
    assert_eq!(clicked_link(&rows, 1, 0), Some((0, 1)));
    assert_eq!(clicked_link(&rows, 2, 0), Some((0, 1)));
    assert_eq!(clicked_link(&rows, 3, 0), None);
    assert_eq!(clicked_link(&rows, 9, 0), None);
    assert_eq!(clicked_link(&rows, 1, 1), None);
}

#[test]
fn terminal_theme_colors() {
    assert_eq!(convert_color(ThemeColor::TerminalDefault).to_tuple(), (0, 0, 0, 255));
    assert_eq!(convert_color(ThemeColor::Dark(BaseColor::Magenta)).to_tuple(), (255, 0, 255, 255));
    assert_eq!(convert_color(ThemeColor::Light(BaseColor::Cyan)).to_tuple(), (0, 255, 255, 255));
    assert_eq!(convert_color(ThemeColor::RgbLowRes(1, 2, 3)).to_tuple(), (1, 2, 3, 255));
    let palette = ThemePalette {
        primary: ThemeColor::Dark(BaseColor::White),
        background: ThemeColor::Rgb(10, 20, 30),
        highlight_text: ThemeColor::Light(BaseColor::Yellow),
        highlight: ThemeColor::Dark(BaseColor::Red),
        secondary: ThemeColor::Dark(BaseColor::Blue),
    };
    let colors = convert_colors(&palette);
    assert_eq!(colors.color.to_tuple(), (255, 255, 255, 255));
    assert_eq!(colors.background.to_tuple(), (10, 20, 30, 255));
    assert_eq!(colors.highlight.to_tuple(), (255, 255, 0, 255));
    assert_eq!(colors.highlight_background.to_tuple(), (255, 0, 0, 255));
    assert_eq!(colors.link.to_tuple(), (0, 0, 255, 255));
}

#[test]
fn terminal_keys() {
    assert_eq!(reader_command(ReaderInput::Char(' ')), Some(ReaderCommand::NextPage));
    assert_eq!(reader_command(ReaderInput::PageDown), Some(ReaderCommand::NextPage));
    assert_eq!(reader_command(ReaderInput::Char('N')), Some(ReaderCommand::SearchAgain(false)));
    assert_eq!(reader_command(ReaderInput::CtrlChar('d')), Some(ReaderCommand::SwitchChapter(true)));
    assert_eq!(reader_command(ReaderInput::Left), Some(ReaderCommand::GotoTrace(true)));
    assert_eq!(reader_command(ReaderInput::ShiftTab), Some(ReaderCommand::PrevLink));
    assert_eq!(reader_command(ReaderInput::LeftClick(4, 2)), Some(ReaderCommand::Click(4, 2)));
    assert_eq!(reader_command(ReaderInput::Char('q')), None);
    assert_eq!(reader_command(ReaderInput::CtrlChar('x')), None);
}

fn place(p: Position) -> (usize, usize) {
    (p.line, p.offset)
}

#[test]
fn drag_selections() {
    let lines = vec![
        DrawnLine { line: 4, offsets: vec![10, 11, 12] },
        DrawnLine { line: 5, offsets: vec![0, 1] },
    ];
    let (from, to) = selection_range(&lines, (PointerPosition::Exact(0), PointerPosition::Exact(1)),
        (PointerPosition::Exact(1), PointerPosition::Tail)).unwrap();
    assert_eq!((place(from), place(to)), ((4, 11), (5, 1)));
    let (from, to) = selection_range(&lines, (PointerPosition::Tail, PointerPosition::Head),
        (PointerPosition::Head, PointerPosition::Head)).unwrap();
    assert_eq!((place(from), place(to)), ((4, 10), (5, 1)));
    let (from, to) = selection_range(&lines, (PointerPosition::Exact(1), PointerPosition::Head),
        (PointerPosition::Head, PointerPosition::Tail)).unwrap();
    assert_eq!((place(from), place(to)), ((4, 10), (5, 0)));
    assert!(selection_range(&lines, (PointerPosition::Head, PointerPosition::Head), (PointerPosition::Head, PointerPosition::Tail)).is_none());
    assert!(selection_range(&vec![], (PointerPosition::Head, PointerPosition::Head), (PointerPosition::Tail, PointerPosition::Tail)).is_none());
}

#[test]
fn han_prev_page_by_columns() {
    let mut han = Han::new();
    let mut context = RenderContext::new(8, 4, 0);
    han.resized(&context);
    let lines = vec![Line::new("abcdefghijklmnop"), Line::new("x")];
    let p = han.prev_page(&lines, 1, 0, &mut context);
    assert_eq!((p.line, p.offset), (0, 4));
    let p = han.prev_page(&lines, 0, 12, &mut context);
    assert_eq!((p.line, p.offset), (0, 0));
}

#[test]
fn xi_prev_page_fills_rows() {
    let mut xi = Xi::new();
    let lines = vec![Line::new("hello"), Line::new("one two three four five")];
    let mut context = RenderContext::new(10, 1, 0);
    let p = xi.prev_page(&lines, 1, 14, &mut context);
    assert_eq!((p.line, p.offset), (1, 8));
    let mut context = RenderContext::new(10, 2, 0);
    let p = xi.prev_page(&lines, 1, 14, &mut context);
    assert_eq!((p.line, p.offset), (1, 0));
    let p = xi.prev_page(&lines, 2, 0, &mut context);
    assert_eq!((p.line, p.offset), (1, 8));
    let mut context = RenderContext::new(10, 4, 0);
    let p = xi.prev_page(&lines, 1, 14, &mut context);
    assert_eq!((p.line, p.offset), (0, 0));
}
