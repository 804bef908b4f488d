use tbr::book::Line;
use tbr::color::Color32;
use tbr::common::{Position, TraceInfo};
use tbr::config::ReadingInfo;
use tbr::controller::{HighlightInfo, HighlightMode, Navigator};
use tbr::html_parser::{
    find_tag, insert_or_replace_tag, remove_tag, setup_block_style, unique_and_insert_tag,
    BlockStyle, BorderLines, FontWeight, FontWeightValue, LeveledParseTag, ParseTag, TextStyle,
};

fn ids(tags: &Vec<LeveledParseTag>) -> Vec<usize> {
    tags.iter().map(|t| t.0.id()).collect()
}

#[test]
fn tags_stay_ordered_by_rank() {
    let mut tags = vec![];
    insert_or_replace_tag(&mut tags, ParseTag::Paragraph, false);
    insert_or_replace_tag(&mut tags, ParseTag::Style(TextStyle::Link(String::from("a"))), false);
    insert_or_replace_tag(&mut tags, ParseTag::Hidden, false);
    insert_or_replace_tag(&mut tags, ParseTag::Style(TextStyle::FontFamily(3)), false);
    assert_eq!(ids(&tags), vec![9999, 1000, 7, 5]);
    assert!(find_tag(&tags, ParseTag::Style(TextStyle::Link(String::from("b")))));
    assert!(!find_tag(&tags, ParseTag::Style(TextStyle::Title(String::from("t")))));
    let removed = remove_tag(&mut tags, ParseTag::Paragraph).unwrap();
    assert_eq!(removed.0.id(), 1000);
    assert_eq!(ids(&tags), vec![9999, 7, 5]);
    assert!(remove_tag(&mut tags, ParseTag::Paragraph).is_none());
}

#[test]
fn important_tags_are_kept() {
    let mut tags = vec![];
    insert_or_replace_tag(&mut tags, ParseTag::Style(TextStyle::FontFamily(1)), true);
    insert_or_replace_tag(&mut tags, ParseTag::Style(TextStyle::FontFamily(2)), false);
    assert!(matches!(tags[0], LeveledParseTag(ParseTag::Style(TextStyle::FontFamily(1)), true)));
    insert_or_replace_tag(&mut tags, ParseTag::Style(TextStyle::FontFamily(3)), true);
    assert!(matches!(tags[0], LeveledParseTag(ParseTag::Style(TextStyle::FontFamily(3)), true)));
    unique_and_insert_tag(&mut tags, ParseTag::Style(TextStyle::FontFamily(4)));
    assert!(matches!(tags[0], LeveledParseTag(ParseTag::Style(TextStyle::FontFamily(3)), true)));
    unique_and_insert_tag(&mut tags, ParseTag::Style(TextStyle::FontWeight(FontWeightValue::Bolder)));
    assert_eq!(ids(&tags), vec![5, 4]);
    let _ = FontWeight::normal();
}

#[test]
fn block_styles_of_whole_lines() {
    let lines = vec![Line::new("abc"), Line::new("de")];
    let mut blocks = vec![];
    let border = TextStyle::Border(BorderLines::top(), None);
    assert_eq!(setup_block_style(&Position::new(0, 0), &Position::new(1, 2), &border, &lines, &mut blocks), None);
    assert_eq!(blocks.len(), 1);
    match &blocks[0] {
        BlockStyle::Border { range, .. } => assert_eq!(range.clone(), 0..2),
        _ => panic!("expected a border"),
    }
    let background = TextStyle::BackgroundColor(Color32::from_rgb(1, 2, 3));
    assert_eq!(
        setup_block_style(&Position::new(0, 1), &Position::new(1, 2), &background, &lines, &mut blocks),
        Some((1, 2))
    );
    assert_eq!(
        setup_block_style(&Position::new(0, 0), &Position::new(1, 1), &background, &lines, &mut blocks),
        Some((1, 1))
    );
    assert_eq!(
        setup_block_style(&Position::new(1, 0), &Position::new(9, 0), &background, &lines, &mut blocks),
        None
    );
    assert_eq!(blocks.len(), 2);
    assert_eq!(
        setup_block_style(&Position::new(5, 0), &Position::new(9, 0), &background, &lines, &mut blocks),
        None
    );
    assert_eq!(blocks.len(), 2);
    let link = TextStyle::Link(String::from("x"));
    assert_eq!(
        setup_block_style(&Position::new(0, 0), &Position::new(1, 2), &link, &lines, &mut blocks),
        Some((1, 2))
    );
}

#[test]
fn navigator_keeps_the_trace() {
    let mut reading = ReadingInfo::fake("a.txt");
    reading.chapter = 1;
    let mut nav = Navigator::new(reading);
    nav.redraw_at(10, 0, Some(Position::new(20, 0)));
    assert_eq!(nav.reading().line, 10);
    assert_eq!(nav.next(), Some(Position::new(20, 0)));
    let back = nav.step_trace(true).unwrap();
    assert_eq!(back, TraceInfo { chapter: 1, line: 0, offset: 0 });
    assert!(nav.arrive_at(back, None));
    assert_eq!(nav.reading().line, 0);
    let forward = nav.step_trace(false).unwrap();
    assert_eq!(forward, TraceInfo { chapter: 1, line: 10, offset: 0 });
    assert!(!nav.arrive_at(TraceInfo { chapter: 2, line: 3, offset: 0 }, None));
    assert!(nav.arrive_at(TraceInfo { chapter: 2, line: 3, offset: 0 }, Some(2)));
    assert_eq!(nav.reading().chapter, 2);
    nav.chapter_switched(4);
    assert_eq!((nav.reading().chapter, nav.reading().line), (4, 0));
    assert_eq!(nav.step_trace(true), Some(TraceInfo { chapter: 1, line: 10, offset: 0 }));
}

#[test]
fn navigator_shows_highlights() {
    let mut nav = Navigator::new(ReadingInfo::fake("a.txt"));
    nav.set_next(Some(Position::new(5, 0)));
    nav.set_highlight(Some(HighlightInfo { line: 2, start: 1, end: 3, mode: HighlightMode::Search }));
    assert_eq!(nav.highlight_to_show(), None);
    nav.set_highlight(Some(HighlightInfo { line: 7, start: 1, end: 3, mode: HighlightMode::Search }));
    assert_eq!(nav.highlight_to_show(), Some((7, 1)));
    nav.highlight_placed(Position::new(7, 0));
    assert!(nav.highlight().is_some());
    assert_eq!(nav.reading().line, 7);
    nav.restart(ReadingInfo::fake("b.txt"));
    assert!(nav.highlight().is_none());
    assert_eq!(nav.step_trace(true), None);
}
