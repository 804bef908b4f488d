use tbr::color::Color32;
use tbr::dom::{font_size_level, parse_document, HtmlElement, HtmlLines, HtmlNode};
use tbr::html_parser::{LeveledParseTag, ParseTag, TextStyle};

fn element(name: &str, children: Vec<HtmlNode>) -> HtmlElement {
    HtmlElement {
        name: name.to_string(),
        id: None,
        class: None,
        href: None,
        src: None,
        xlink_href: None,
        size: None,
        color: None,
        tags: vec![],
        children,
    }
}

fn text(t: &str) -> HtmlNode {
    HtmlNode::Text(t.to_string())
}

fn node(e: HtmlElement) -> HtmlNode {
    HtmlNode::Element(e)
}

fn texts(content: &tbr::dom::HtmlContent) -> Vec<String> {
    content.lines.iter().map(|l| l.to_string()).collect()
}

#[test]
fn document_to_lines() {
    let head = vec![node(element("meta", vec![])), node(element("title", vec![text("Doc")]))];
    let mut link = element("a", vec![text("link")]);
    link.href = Some("x.html".to_string());
    let mut para = element("p", vec![text("Hello"), node(link), text("  tail ")]);
    para.id = Some("p1".to_string());
    let mut img = element("img", vec![]);
    img.src = Some("a.png".to_string());
    let mut toc = element("div", vec![text("Contents")]);
    toc.class = Some("toc main".to_string());
    let body = node(element(
        "body",
        vec![
            node(element("h1", vec![text("Title")])),
            node(para),
            node(element("br", vec![])),
            node(img),
            node(toc),
        ],
    ));
    let content = parse_document(&head, &body, None);
    assert_eq!(texts(&content), vec!["Title", "Hello link tail", "\u{1f5bc}", "Contents"]);
    assert_eq!(content.title.as_deref(), Some("Doc"));
    assert_eq!(*content.lines[0].style_range(0), 0..5);
    let link = content.lines[1].link_at(0).unwrap();
    assert_eq!(link.target.as_str(), "x.html");
    assert_eq!(*link.range, 5..10);
    assert!(content.lines[1].link_at(1).is_none());
    assert_eq!(*content.lines[1].style_range(1), 5..10);
    assert_eq!(content.lines[2].image_at(0), Some("a.png"));
    assert!(content.block_styles.is_none());
    let p1 = content.id_position("p1").unwrap();
    assert_eq!((p1.line, p1.offset), (1, 0));
    assert!(content.id_position("p2").is_none());
    let titled = parse_document(&head, &node(element("body", vec![text("x")])), Some("Custom".to_string()));
    assert_eq!(titled.title.as_deref(), Some("Custom"));
}

#[test]
fn hidden_and_paragraph_tags() {
    let mut hidden = element("span", vec![text("secret")]);
    hidden.tags = vec![LeveledParseTag(ParseTag::Hidden, false)];
    let mut block = element("span", vec![text("block")]);
    block.tags = vec![LeveledParseTag(ParseTag::Paragraph, false)];
    let body = node(element("body", vec![text("a"), node(hidden), node(block), text("b")]));
    let content = parse_document(&vec![], &body, None);
    assert_eq!(texts(&content), vec!["a", "block", "b"]);
    assert_eq!(content.title, None);
}

#[test]
fn text_joins_and_empty_documents() {
    let body = node(element("body", vec![text(" one\n"), text("two"), text("!"), node(element("b", vec![text("3")]))]));
    let content = parse_document(&vec![], &body, None);
    assert_eq!(texts(&content), vec!["one two!3"]);
    let empty = parse_document(&vec![], &node(element("body", vec![text("   ")])), None);
    assert_eq!(texts(&empty), vec!["No content."]);
    let mut lines = HtmlLines::new();
    lines.push_text("x");
    lines.new_line();
    lines.new_line();
    assert_eq!(lines.lines.len(), 2);
}

#[test]
fn font_sizes_and_colours() {
    let levels: [(u8, f32); 8] = [(1, 3.0 / 5.0), (2, 8.0 / 9.0), (3, 1.0), (4, 6.0 / 5.0), (5, 3.0 / 2.0), (6, 2.0), (7, 3.0), (9, 1.0)];
    for (level, scale) in levels {
        match font_size_level(level, true) {
            TextStyle::FontSize(size) => {
                assert_eq!(f32::from_bits(size.scale_bits), scale);
                assert!(size.relative);
            }
            _ => panic!("a font size"),
        }
    }
    let mut font = element("font", vec![text("red")]);
    font.size = Some("5".to_string());
    font.color = Some(Color32::red());
    let body = node(element("body", vec![node(font)]));
    let content = parse_document(&vec![], &body, None);
    assert_eq!(texts(&content), vec!["red"]);
    assert_eq!(*content.lines[0].style_range(0), 0..3);
    assert_eq!(*content.lines[0].style_range(1), 0..3);
}
