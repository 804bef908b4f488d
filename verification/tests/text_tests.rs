use tbr::common::{decode_text, detect_charset};
use tbr::book::LoadingChapter;
use tbr::common::Position;
use tbr::config::{get_reading, match_filename, select_history, BookLoadingInfo, ReadingInfo};
use tbr::epub::{
    assign_first_chapters, initial_chapter_index, split_link_target, toc_index, toc_title,
    NavPoint,
};
use tbr::input_method::{im_name, switch_input_method};
use tbr::opener::{image_extension, Opener};
use tbr::xhtml::{html_source, is_void_element, preprocess, write_end, xhtml_to_html, XhtmlError};

fn nav(label: Option<&str>, src: Option<&str>, anchor: Option<&str>) -> NavPoint {
    NavPoint {
        id: None,
        label: label.map(String::from),
        play_order: None,
        level: 1,
        src_file: src.map(String::from),
        src_anchor: anchor.map(String::from),
        first_chapter_index: 0,
    }
}

#[test]
fn filename_patterns() {
    assert_eq!(match_filename("HelloWorld.txt", "hw"), Some(vec![0, 5]));
    assert_eq!(match_filename("abc", "ac"), Some(vec![0, 2]));
    assert_eq!(match_filename("abc", "abd"), None);
    assert_eq!(match_filename("abc", ""), Some(vec![]));
}

#[test]
fn history_list() {
    let rows = vec![
        (ReadingInfo::fake("/a/Alpha.txt"), true),
        (ReadingInfo::fake("/a/gone.txt"), false),
        (ReadingInfo::fake("/a/beta.txt"), true),
        (ReadingInfo::fake("/a/gamma.txt"), true),
    ];
    let all = select_history(&rows, 20, None, None);
    let names: Vec<&str> = all.iter().map(|r| r.filename.as_str()).collect();
    assert_eq!(names, vec!["/a/Alpha.txt", "/a/beta.txt", "/a/gamma.txt"]);
    let exclude = String::from("/a/beta.txt");
    let others = select_history(&rows, 20, Some(&exclude), None);
    assert_eq!(others.len(), 2);
    let pattern = String::from("ga");
    let matched = select_history(&rows, 20, None, Some(&pattern));
    assert_eq!(matched.len(), 1);
    assert_eq!(matched[0].filename, "/a/gamma.txt");
    assert_eq!(select_history(&rows, 2, None, None).len(), 2);
    assert_eq!(select_history(&rows, 0, None, None).len(), 1);
}

#[test]
fn xhtml_entities() {
    assert_eq!(preprocess("a&nbsp;b"), "a&#160;b");
    assert_eq!(preprocess("&copy; 2020"), "&#169; 2020");
    assert_eq!(preprocess("x&amp;y&unknown;z"), "x&amp;y&unknown;z");
    assert_eq!(preprocess("open&nbsp"), "open&nbsp");
    assert_eq!(preprocess("plain"), "plain");
}

#[test]
fn end_tags() {
    assert!(is_void_element("br"));
    assert!(is_void_element("wbr"));
    assert!(!is_void_element("div"));
    let mut html = String::from("<p>x");
    write_end("p", &mut html);
    assert_eq!(html, "<p>x</p>");
    write_end("br", &mut html);
    assert_eq!(html, "<p>x</p>");
}

#[test]
fn link_targets() {
    assert_eq!(split_link_target("ch1.html#sec2"), (String::from("ch1.html"), Some(String::from("sec2"))));
    assert_eq!(split_link_target("ch1.html"), (String::from("ch1.html"), None));
    assert_eq!(split_link_target("#a"), (String::from(""), Some(String::from("a"))));
    assert_eq!(split_link_target("a#b#c"), (String::from("a"), Some(String::from("b"))));
}

#[test]
fn toc_titles() {
    assert_eq!(toc_title(&nav(Some("Intro"), Some("a.html"), None)), "Intro");
    assert_eq!(toc_title(&nav(None, Some("a.html"), None)), "a.html");
    assert_eq!(toc_title(&nav(None, None, None)), "blank");
}

#[test]
fn first_chapters_of_toc_entries() {
    let toc = vec![
        nav(None, Some("a"), None),
        nav(None, Some("b"), None),
        nav(None, Some("a"), None),
        nav(None, Some("c"), None),
        nav(None, None, None),
    ];
    let hrefs = vec![String::from("a"), String::from("x"), String::from("b"), String::from("c")];
    let toc = assign_first_chapters(toc, &hrefs);
    let firsts: Vec<usize> = toc.iter().map(|n| n.first_chapter_index).collect();
    assert_eq!(firsts, vec![0, 2, 0, 3, 0]);
    assert_eq!(toc[1].src_file.as_deref(), Some("b"));
}

#[test]
fn opening_chapter() {
    assert_eq!(initial_chapter_index(&LoadingChapter::Index(5), 3), 2);
    assert_eq!(initial_chapter_index(&LoadingChapter::Index(1), 3), 1);
    assert_eq!(initial_chapter_index(&LoadingChapter::Last, 3), 2);
}

#[test]
fn toc_entry_of_reading_position() {
    let mut toc = vec![
        nav(Some("one"), Some("c1"), None),
        nav(Some("two"), Some("c2"), None),
        nav(Some("two b"), Some("c2"), Some("b")),
        nav(Some("three"), Some("c3"), None),
    ];
    toc[1].first_chapter_index = 1;
    toc[2].first_chapter_index = 1;
    toc[3].first_chapter_index = 2;
    let href = String::from("c2");
    let positions = vec![None, None, Some(Position::new(10, 0)), None];
    assert_eq!(toc_index(&toc, &positions, &href, 1, 3, 0), 1);
    assert_eq!(toc_index(&toc, &positions, &href, 1, 10, 0), 2);
    assert_eq!(toc_index(&toc, &positions, &href, 1, 12, 4), 2);
}

#[test]
fn input_method_switching() {
    assert_eq!(switch_input_method(true, false, Some(false), true), (None, false));
    assert_eq!(switch_input_method(true, true, Some(false), true), (Some(false), true));
    assert_eq!(switch_input_method(true, false, None, false), (Some(true), true));
    assert_eq!(switch_input_method(false, false, None, true), (None, false));
    assert_eq!(im_name("@im=fcitx"), Some(String::from("fcitx")));
    assert_eq!(im_name("@im="), None);
    assert_eq!(im_name("ibus"), None);
}

#[test]
fn links_and_images_to_open() {
    let opener = Opener::new();
    assert!(opener.open_link("https://example.com"));
    assert!(opener.open_link("http://example.com"));
    assert!(!opener.open_link("ftp://example.com"));
    assert!(!opener.open_link("chapter2.html"));
    assert_eq!(image_extension("a/b.c/d.png"), Some(String::from(".png")));
    assert_eq!(image_extension("noext"), None);
    let mut opener = Opener::new();
    opener.add_file(String::from("/tmp/tbr-x.png"));
    assert_eq!(opener.cleanup(), vec![String::from("/tmp/tbr-x.png")]);
    assert!(opener.cleanup().is_empty());
}

#[test]
fn xhtml_written_as_html() {
    let xhtml = "<?xml version=\"1.0\" encoding=\"utf-8\"?>\n<html>\n<head><title>T</title></head>\n<body>\n<p class=\"a\">Hi</p>\n<br/>\n<img src=\"a.png\" alt=\"x\"/>\n</body>\n</html>\n";
    assert_eq!(
        xhtml_to_html(xhtml).unwrap(),
        "<html><head><title>T</title></head><body><p class=\"a\" class=\"a\">Hi</p><br><img src=\"a.png\" alt=\"x\" src=\"a.png\" alt=\"x\"></body></html>"
    );
    assert_eq!(xhtml_to_html("<x>dropped</x><html><body>a</body></html>").unwrap(), "<html><body>a</body></html>");
    assert_eq!(
        xhtml_to_html("<html><p title=\"&copy;\">x</p></html>").unwrap(),
        "<html><p title=\"&#169;\" title=\"&#169;\">x</p></html>"
    );
    assert_eq!(xhtml_to_html("no markup").unwrap(), "");
    assert_eq!(xhtml_to_html("<html><body><p>a</b></body></html>"), Err(XhtmlError::Malformed));
}

#[test]
fn html_sources_by_extension() {
    assert_eq!(html_source("OEBPS/c1.XHTML", String::from("<html><br/></html>")).unwrap(), "<html><br></html>");
    assert_eq!(html_source("c1.html", String::from("<html><br/></html>")).unwrap(), "<html><br/></html>");
    assert_eq!(html_source("c1.xhtml", String::from("<html><p></b></html>")), Err(XhtmlError::Malformed));
}

#[test]
fn document_readings_use_their_own_style() {
    let fresh = get_reading(BookLoadingInfo::NewReading("a.epub", 1, 2, 20));
    assert_eq!(fresh.filename, "a.epub");
    assert_eq!((fresh.inner_book, fresh.chapter, fresh.line, fresh.position), (1, 2, 0, 0));
    assert!(fresh.custom_color && fresh.custom_font);
    assert_eq!(fresh.font_size, 20);
    let mut kept = ReadingInfo::fake("b.html");
    kept.line = 7;
    let again = get_reading(BookLoadingInfo::History(kept));
    assert_eq!(again.line, 7);
    assert!(!again.custom_color && !again.custom_font);
}

#[test]
fn text_decoding_by_encoding() {
    assert!(std::ptr::eq(detect_charset(&b"plain ascii".to_vec(), true), encoding_rs::UTF_8));
    assert_eq!(decode_text("é".as_bytes().to_vec(), encoding_rs::UTF_8).ok().unwrap(), "é");
    assert!(decode_text(vec![0xff, 0xfe], encoding_rs::UTF_8).is_err());
    assert_eq!(decode_text(vec![0x41, 0x00, 0x42, 0x00], encoding_rs::UTF_16LE).ok().unwrap(), "AB");
}
