use tbr::book::Line;
use tbr::common::{Position, TraceInfo};
use tbr::config::ReadingInfo;
use tbr::container::BookName;
use tbr::controller::{
    status_msg,
    highlighted_link, in_current_screen, line_index_for_number, search_next, search_prev,
    search_start, step_next_action, step_prev_action, switch_link_next, switch_link_prev,
    HighlightInfo, HighlightMode, StepAction, Trace, TRACE_SIZE,
};
use tbr::html_parser::TextStyle;
use tbr::search::SearchRegex;

fn place(chapter: usize, line: usize, offset: usize) -> TraceInfo {
    TraceInfo { chapter, line, offset }
}

fn linked_lines() -> Vec<Line> {
    let mut first = Line::new("hello world");
    first.push_style(TextStyle::Link(String::from("a.html")), 6..11);
    let mut second = Line::new("abc");
    second.push_style(TextStyle::Link(String::from("b.html")), 0..3);
    vec![first, second]
}

#[test]
fn trace_back_then_forward() {
    let mut trace = Trace::new(place(0, 0, 0));
    assert!(trace.push(place(0, 5, 0)));
    assert_eq!(trace.current(), place(0, 5, 0));
    assert!(!trace.push(place(0, 5, 0)));
    assert_eq!(trace.step(true), Some(place(0, 0, 0)));
    assert_eq!(trace.step(true), None);
    assert_eq!(trace.step(false), Some(place(0, 5, 0)));
    assert_eq!(trace.step(false), None);
}

#[test]
fn trace_push_drops_places_after_current() {
    let mut trace = Trace::new(place(0, 0, 0));
    trace.push(place(0, 1, 0));
    trace.push(place(0, 2, 0));
    assert_eq!(trace.step(true), Some(place(0, 1, 0)));
    trace.push(place(1, 0, 0));
    assert_eq!(trace.step(false), None);
    assert_eq!(trace.step(true), Some(place(0, 1, 0)));
    assert_eq!(trace.step(true), Some(place(0, 0, 0)));
}

#[test]
fn trace_keeps_at_most_trace_size_places() {
    let mut trace = Trace::new(place(0, 0, 0));
    for i in 1..150 {
        assert!(trace.push(place(0, i, 0)));
    }
    let mut steps = 0;
    while trace.step(true).is_some() {
        steps += 1;
    }
    assert_eq!(steps, TRACE_SIZE - 1);
    assert_eq!(trace.current(), place(0, 50, 0));
}

#[test]
fn search_starts_after_search_highlight() {
    let reading = Position::new(7, 1);
    let search = Some(HighlightInfo { line: 3, start: 2, end: 5, mode: HighlightMode::Search });
    assert_eq!(search_start(&search, reading, true), (3, 5));
    assert_eq!(search_start(&search, reading, false), (3, 2));
    let link = Some(HighlightInfo { line: 3, start: 2, end: 5, mode: HighlightMode::Link(0) });
    assert_eq!(search_start(&link, reading, true), (7, 1));
    assert_eq!(search_start(&None, reading, false), (7, 1));
}

#[test]
fn highlight_in_current_screen() {
    let reading = Position::new(2, 0);
    assert!(in_current_screen(2, 3, reading, Some(Position::new(5, 0))));
    assert!(!in_current_screen(1, 3, reading, Some(Position::new(5, 0))));
    assert!(!in_current_screen(2, 3, reading, Some(Position::new(2, 3))));
    assert!(in_current_screen(9, 0, reading, None));
}

#[test]
fn line_numbers_count_from_one() {
    assert_eq!(line_index_for_number(0, 5), None);
    assert_eq!(line_index_for_number(6, 5), None);
    assert_eq!(line_index_for_number(1, 5), Some(0));
    assert_eq!(line_index_for_number(5, 5), Some(4));
}

#[test]
fn step_actions() {
    let lines = vec![Line::new("a"), Line::new(""), Line::new("b")];
    assert_eq!(step_prev_action(&lines, 0, 0), StepAction::Stay);
    assert_eq!(step_prev_action(&lines, 2, 0), StepAction::MoveTo(Position::new(1, 0)));
    assert_eq!(step_prev_action(&lines, 1, 0), StepAction::AskView);
    assert_eq!(step_prev_action(&lines, 2, 1), StepAction::AskView);
    assert_eq!(step_next_action(&lines, 0, false), StepAction::Stay);
    assert_eq!(step_next_action(&lines, 1, true), StepAction::MoveTo(Position::new(2, 0)));
    assert_eq!(step_next_action(&lines, 0, true), StepAction::AskView);
}

#[test]
fn links_forward_and_back() {
    let lines = linked_lines();
    let first = switch_link_next(&lines, &None, Position::new(0, 0)).unwrap();
    assert_eq!((first.line, first.start, first.end), (0, 6, 11));
    assert!(matches!(first.mode, HighlightMode::Link(0)));
    let second = switch_link_next(&lines, &Some(first), Position::new(0, 0)).unwrap();
    assert_eq!((second.line, second.start, second.end), (1, 0, 3));
    let back = switch_link_prev(&lines, &Some(second), Position::new(0, 0)).unwrap();
    assert_eq!((back.line, back.start, back.end), (0, 6, 11));
    assert!(switch_link_prev(&lines, &Some(back), Position::new(0, 0)).is_none());
    let after_last = Some(HighlightInfo { line: 1, start: 0, end: 3, mode: HighlightMode::Link(0) });
    assert!(switch_link_next(&lines, &after_last, Position::new(0, 0)).is_none());
}

#[test]
fn link_under_highlight() {
    let lines = linked_lines();
    let search = Some(HighlightInfo { line: 0, start: 7, end: 9, mode: HighlightMode::Search });
    assert_eq!(highlighted_link(&lines, &search), Some((0, 0)));
    let outside = Some(HighlightInfo { line: 0, start: 1, end: 3, mode: HighlightMode::Search });
    assert_eq!(highlighted_link(&lines, &outside), None);
    let link = Some(HighlightInfo { line: 1, start: 0, end: 3, mode: HighlightMode::Link(0) });
    assert_eq!(highlighted_link(&lines, &link), Some((1, 0)));
    assert_eq!(highlighted_link(&lines, &None), None);
}

#[test]
fn search_forward_and_back() {
    let lines = vec![Line::new("hello world"), Line::new("say hello")];
    let regex = SearchRegex::new("o").unwrap();
    let found = search_next(&lines, &regex, 0, 0).unwrap();
    assert_eq!((found.line, found.start, found.end), (0, 4, 5));
    assert!(matches!(found.mode, HighlightMode::Search));
    let again = search_next(&lines, &regex, 0, 5).unwrap();
    assert_eq!((again.line, again.start, again.end), (0, 7, 8));
    let next_line = search_next(&lines, &regex, 0, 8).unwrap();
    assert_eq!((next_line.line, next_line.start, next_line.end), (1, 8, 9));
    assert!(search_next(&lines, &regex, 1, 9).is_none());
    let back = search_prev(&lines, &regex, 1, 0).unwrap();
    assert_eq!((back.line, back.start, back.end), (0, 7, 8));
    let back_in_line = search_prev(&lines, &regex, 0, 7).unwrap();
    assert_eq!((back_in_line.line, back_in_line.start, back_in_line.end), (0, 4, 5));
    assert!(search_prev(&lines, &regex, 0, 4).is_none());
}

#[test]
fn search_counts_characters_not_bytes() {
    let lines = vec![Line::new("日本語のテキスト")];
    let regex = SearchRegex::new("テ").unwrap();
    let found = search_next(&lines, &regex, 0, 0).unwrap();
    assert_eq!((found.start, found.end), (4, 5));
}

#[test]
fn invalid_pattern_is_refused() {
    assert!(SearchRegex::new("(").is_err());
}

#[test]
fn status_line_shows_title_and_place() {
    let mut reading = ReadingInfo::fake("books.zip");
    reading.line = 5;
    reading.inner_book = 1;
    let one = vec![BookName::new(String::from("only.txt"), 0)];
    let two = vec![BookName::new(String::from("a.txt"), 0), BookName::new(String::from("b.txt"), 3)];
    assert_eq!(status_msg(Some("Chapter 1"), &two, &reading, 120), "Chapter 1(120:5)");
    assert_eq!(status_msg(None, &one, &reading, 7), "books.zip(7:5)");
    assert_eq!(status_msg(None, &two, &reading, 0), "b.txt(0:5)");
    reading.line = 1234567;
    assert_eq!(status_msg(None, &one, &reading, 10), "books.zip(10:1234567)");
}
