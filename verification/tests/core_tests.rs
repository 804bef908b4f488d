use tbr::book::{range_highlight, Colors, Line};
use tbr::color::Color32;
use tbr::common::{char_index_for_byte, char_width, han_render_char, is_compact_for_han, txt_lines, Position};
use tbr::controller::{HighlightInfo, HighlightMode};
use tbr::gui::{make_display_text, block_part, block_part_edges, closing_block_part, update_for_highlight, BlockStylePart};
use tbr::haodoo::{decompress_palm_doc, decrypt_pdb, is_palm_doc_decodable, parse_header, read_u16, read_u32, PdbType};
use tbr::html_parser::{FontWeight, FontWeightValue};
use tbr::list::ListIterator;

#[test]
fn character_widths() {
    assert_eq!(char_width('a'), 1);
    assert_eq!(char_width('中'), 2);
    assert_eq!(char_width('\t'), 0);
    assert_eq!(char_width('\u{85}'), 0);
}

#[test]
fn byte_to_character_index() {
    assert_eq!(char_index_for_byte("a中b", 0), Some(0));
    assert_eq!(char_index_for_byte("a中b", 1), Some(1));
    assert_eq!(char_index_for_byte("a中b", 2), None);
    assert_eq!(char_index_for_byte("a中b", 4), Some(2));
    assert_eq!(char_index_for_byte("a中b", 5), Some(3));
    assert_eq!(char_index_for_byte("a中b", 6), None);
}

#[test]
fn plain_text_lines_are_clean() {
    let lines = txt_lines("  first\r\nsecond\0 line\n\n\tlast");
    let texts: Vec<String> = lines.iter().map(|l| l.to_string()).collect();
    assert_eq!(texts, vec!["first", "second line", "", "last"]);
}

#[test]
fn vertical_forms() {
    assert_eq!(han_render_char('('), '\u{fe35}');
    assert_eq!(han_render_char('a'), 'a');
    assert!(is_compact_for_han('，'));
    assert!(!is_compact_for_han('中'));
}

#[test]
fn lines_and_words() {
    let mut line = Line::new("hello world");
    assert_eq!(line.len(), 11);
    assert_eq!(line.word_at_offset(2), Some((0, 4)));
    assert_eq!(line.word_at_offset(7), Some((6, 10)));
    assert_eq!(line.word_at_offset(5), Some((5, 5)));
    assert_eq!(line.word_at_offset(11), None);
    line.push('\0');
    line.push('!');
    assert_eq!(line.to_string(), "hello world!");
    let mut concat = Line::default();
    concat.concat("  a\r\n  b c");
    assert_eq!(concat.to_string(), "ab c");
    assert!(Line::new(" \t").is_blank());
    assert!(!Line::new(" x").is_blank());
    let mut target = String::from("old");
    Line::new("abcdef").sub_str(&mut target, 1..4);
    assert_eq!(target, "bcd");
}

#[test]
fn selections() {
    let lines = vec![Line::new("hello"), Line::new("world")];
    let h = range_highlight(&lines, Position::new(0, 1), Position::new(1, 2)).unwrap();
    assert_eq!((h.line, h.start, h.end), (0, 1, 3));
    match h.mode {
        HighlightMode::Selection(text, line_to) => {
            assert_eq!(text, "ello\nwor");
            assert_eq!(line_to, 1);
        }
        _ => panic!("expected a selection"),
    }
    let back = range_highlight(&lines, Position::new(1, 2), Position::new(0, 1)).unwrap();
    assert_eq!((back.line, back.start, back.end), (0, 1, 3));
    let past = range_highlight(&lines, Position::new(0, 3), Position::new(7, 0)).unwrap();
    assert_eq!((past.line, past.start, past.end), (0, 3, 5));
    assert!(range_highlight(&vec![], Position::new(0, 0), Position::new(0, 0)).is_none());
}

#[test]
fn colors() {
    let c = Color32::from_rgb(255, 0, 16);
    assert_eq!(c.to_string(), "#ff0010ff");
    assert!(c.is_opaque());
    assert_eq!(c.to_tuple(), (255, 0, 16, 255));
    assert_eq!(c.additive().a(), 0);
    assert_eq!(Color32::from_rgba_premultiplied(1, 2, 3, 4).to_array(), [1, 2, 3, 4]);
    assert_eq!(Color32::transparent().to_string(), "#00000000");
}

#[test]
fn highlight_backgrounds() {
    let colors = Colors::default();
    let background = Some(Color32::from_rgb(1, 1, 1));
    let search = Some(HighlightInfo { line: 2, start: 3, end: 6, mode: HighlightMode::Search });
    assert_eq!(update_for_highlight(2, 3, background, &colors, &search), Some(colors.highlight_background));
    assert_eq!(update_for_highlight(2, 6, background, &colors, &search), background);
    let selection = Some(HighlightInfo {
        line: 1,
        start: 4,
        end: 2,
        mode: HighlightMode::Selection(String::from("x"), 3),
    });
    assert_eq!(update_for_highlight(1, 4, None, &colors, &selection), Some(colors.highlight_background));
    assert_eq!(update_for_highlight(1, 3, None, &colors, &selection), None);
    assert_eq!(update_for_highlight(2, 100, None, &colors, &selection), Some(colors.highlight_background));
    assert_eq!(update_for_highlight(3, 1, None, &colors, &selection), Some(colors.highlight_background));
    assert_eq!(update_for_highlight(3, 2, None, &colors, &selection), None);
    assert_eq!(update_for_highlight(0, 0, None, &colors, &None), None);
}

#[test]
fn block_parts() {
    assert_eq!(block_part(true, false), BlockStylePart::Single);
    assert_eq!(block_part(true, true), BlockStylePart::Begin);
    assert_eq!(block_part(false, true), BlockStylePart::Middle);
    assert_eq!(block_part(false, false), BlockStylePart::End);
    assert_eq!(closing_block_part(Some(BlockStylePart::Middle), false), BlockStylePart::End);
    assert_eq!(closing_block_part(Some(BlockStylePart::Begin), false), BlockStylePart::Single);
    assert_eq!(closing_block_part(None, true), BlockStylePart::Middle);
    assert_eq!(block_part_edges(BlockStylePart::Begin), (true, false));
}

#[test]
fn font_weights() {
    let mut w = FontWeight::normal();
    w.update(&FontWeightValue::Bolder);
    assert_eq!(w.value(), 700);
    w.update(&FontWeightValue::Bolder);
    assert_eq!(w.value(), 900);
    w.update(&FontWeightValue::Lighter);
    assert_eq!(w.value(), 700);
    w.update(&FontWeightValue::Lighter);
    assert_eq!(w.value(), 400);
    w.update(&FontWeightValue::Absolute(FontWeight(250)));
    assert_eq!(w.value(), 250);
    assert_eq!(w.key(), 25);
    assert!(FontWeight::default().is_default());
    assert_eq!(FontWeight::bold().outlined(), 700);
}

#[test]
fn big_endian_numbers() {
    let buf = [0x12, 0x34, 0x56, 0x78];
    assert_eq!(read_u16(&buf, 0), 0x1234);
    assert_eq!(read_u16(&buf, 2), 0x5678);
    assert_eq!(read_u32(&buf, 0), 0x12345678);
}

#[test]
fn haodoo_decryption() {
    let mut record = vec![0x80, 0x05, 0x41, 0x90, 0x00];
    decrypt_pdb(&mut record);
    assert_eq!(record, vec![0x80, 0x04, 0x41, 0x90, 0x7f]);
}

#[test]
fn palm_doc_decompression() {
    let data = vec![0x41, 0xC2];
    assert!(is_palm_doc_decodable(&data));
    assert_eq!(decompress_palm_doc(data), b"A B".to_vec());
    let data = vec![0x02, 0x01, 0x02, 0x00];
    assert!(is_palm_doc_decodable(&data));
    assert_eq!(decompress_palm_doc(data), vec![0x01, 0x02, 0x00]);
    let data = vec![0x61, 0x62, 0x63, 0x80, 0x18];
    assert!(is_palm_doc_decodable(&data));
    assert_eq!(decompress_palm_doc(data), b"abcabc".to_vec());
    assert!(!is_palm_doc_decodable(&vec![0x80, 0x18]));
}

#[test]
fn pdb_headers() {
    let mut content = vec![0u8; 78 + 16];
    content[64..68].copy_from_slice(b"MTIU");
    content[77] = 2;
    content[78..82].copy_from_slice(&[0, 0, 0, 94]);
    content[86..90].copy_from_slice(&[0, 0, 1, 0]);
    let (kind, offsets) = parse_header(&content).ok().unwrap();
    assert_eq!(kind, PdbType::Updb);
    assert_eq!(offsets, vec![94, 256]);
    content[64..68].copy_from_slice(b"ABCD");
    assert!(parse_header(&content).is_err());
}

#[test]
fn list_items_by_index() {
    let items = vec!["a", "b"];
    let mut list = ListIterator::new(|i: usize| items.get(i).copied());
    assert_eq!(list.next(), Some("a"));
    assert_eq!(list.next(), Some("b"));
    assert_eq!(list.next(), None);
    assert_eq!(list.next(), None);
}

#[test]
fn search_result_display_text() {
    let line = Line::new("0123456789abcdefghijklmnopqrstuvwxyz");
    let (text, bytes) = make_display_text(&line, &(25..27)).unwrap();
    assert_eq!(text, "56789abcdefghijklmnopqrstuvwxyz");
    assert_eq!(bytes, 20..22);
    let short = Line::new("ab中cd");
    let (text, bytes) = make_display_text(&short, &(2..3)).unwrap();
    assert_eq!(text, "ab中cd");
    assert_eq!(bytes, 2..5);
    assert!(make_display_text(&short, &(2..9)).is_none());
}

#[test]
fn lines_equal_by_length() {
    assert!(Line::new("ab") == Line::new("cd"));
    assert!(Line::new("ab") != Line::new("abc"));
}
