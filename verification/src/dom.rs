//! Lines of text from the tree of an HTML document: text joined into lines, paragraphs
//! and line breaks opening new lines, images in place of a character, and the styles that
//! each element's tags give spread over the text it holds.

use std::ops::Range;

use vstd::prelude::*;

use crate::book::{concat_chars, Line, EMPTY_CHAPTER_CONTENT, IMAGE_CHAR};
use crate::color::Color32;
use crate::common::Position;
use crate::html_parser::{
    block_end, covers_whole_lines, find_tag, has_tag, insert_or_replace_tag, remove_tag, setup_block_style,
    tag_id, tags_ordered, tags_with, tags_without, unique_and_insert_tag, BlockStyle, ElementSize,
    FontWeightValue, ImageLength, ImageStyle, LeveledParseTag, ParseTag, TextDecoration,
    TextDecorationLine, TextDecorationStyle, TextStyle,
};
use crate::package::{parse_usize, parsed_usize};
use crate::strings::{str_chars, string_from_chars};

verus! {

/// A node of an HTML document.
pub enum HtmlNode {
    Document(Vec<HtmlNode>),
    Element(HtmlElement),
    Text(String),
    Other,
}

/// An element of an HTML document: its local name, the attributes the conversion reads,
/// the tags its styles give it, and its children.
pub struct HtmlElement {
    pub name: String,
    pub id: Option<String>,
    pub class: Option<String>,
    pub href: Option<String>,
    pub src: Option<String>,
    /// The `xlink:href` attribute, which an SVG `image` names its picture with.
    pub xlink_href: Option<String>,
    /// The `size` attribute of a `font` element.
    pub size: Option<String>,
    /// The colour that the `color` attribute of a `font` element names, when it names one.
    pub color: Option<Color32>,
    /// The tags the document's styles set on the element, ordered by rank.
    pub tags: Vec<LeveledParseTag>,
    pub children: Vec<HtmlNode>,
}

/// A style of the text from `start` to `end`.
pub struct StyleDescription {
    pub start: Position,
    pub end: Position,
    pub style: TextStyle,
}

/// The lines made so far from a document: its title, the lines, the styles still to
/// spread over them, and the place of each element that has an id.
pub struct HtmlLines {
    pub title: Option<String>,
    pub lines: Vec<Line>,
    pub styles: Vec<StyleDescription>,
    pub ids: Vec<(String, Position)>,
}

/// A line as values: its characters and its styles.
pub open spec fn line_value(l: Line) -> (Seq<char>, Seq<(TextStyle, Range<usize>)>) {
    (l@, l.styles())
}

/// The lines made so far, as values.
pub struct DomState {
    pub title: Option<Seq<char>>,
    pub lines: Seq<(Seq<char>, Seq<(TextStyle, Range<usize>)>)>,
    pub styles: Seq<StyleDescription>,
    pub ids: Seq<(Seq<char>, Position)>,
}

pub open spec fn opt_chars(s: Option<String>) -> Option<Seq<char>> {
    match s {
        Some(s) => Some(s@),
        None => None,
    }
}

impl HtmlLines {
    /// The lines made so far, as values.
    pub open spec fn state(&self) -> DomState {
        DomState {
            title: opt_chars(self.title),
            lines: self.lines@.map_values(|l: Line| line_value(l)),
            styles: self.styles@,
            ids: self.ids@.map_values(|p: (String, Position)| (p.0@, p.1)),
        }
    }
}

/// An empty line.
pub open spec fn empty_line() -> (Seq<char>, Seq<(TextStyle, Range<usize>)>) {
    (Seq::empty(), Seq::empty())
}

/// A new line is started unless the last line is empty: never more than one empty line
/// is opened in a row.
pub open spec fn new_line_spec(s: DomState) -> DomState {
    if s.lines.last().0.len() > 0 {
        DomState { lines: s.lines.push(empty_line()), ..s }
    } else {
        s
    }
}

/// ASCII white space, as `char::is_ascii_whitespace` tells.
pub open spec fn is_ascii_ws(c: char) -> bool {
    c == ' ' || c == '\t' || c == '\n' || c == '\x0C' || c == '\r'
}

/// An ASCII letter or digit.
pub open spec fn is_ascii_alnum(c: char) -> bool {
    ('0' <= c && c <= '9') || ('a' <= c && c <= 'z') || ('A' <= c && c <= 'Z')
}

/// `t` without the ASCII white space at its start.
pub open spec fn trim_start_ws(t: Seq<char>) -> Seq<char>
    decreases t.len(),
{
    if t.len() > 0 && is_ascii_ws(t[0]) {
        trim_start_ws(t.drop_first())
    } else {
        t
    }
}

/// `t` without the ASCII white space at its end.
pub open spec fn trim_end_ws(t: Seq<char>) -> Seq<char>
    decreases t.len(),
{
    if t.len() > 0 && is_ascii_ws(t.last()) {
        trim_end_ws(t.drop_last())
    } else {
        t
    }
}

/// Text appended to the last line: trimmed of ASCII white space, after a space when it
/// would otherwise join two letters or digits, as `Line::concat` keeps it.
pub open spec fn text_spec(s: DomState, t: Seq<char>) -> DomState {
    let tt = trim_end_ws(trim_start_ws(t));
    if tt.len() == 0 {
        s
    } else {
        let (chars, styles) = s.lines.last();
        let spaced = if chars.len() > 0 && is_ascii_alnum(chars.last()) && is_ascii_alnum(tt[0]) {
            chars.push(' ')
        } else {
            chars
        };
        DomState { lines: s.lines.update(s.lines.len() - 1, (spaced + concat_chars(tt, true), styles)), ..s }
    }
}

/// The first width among the tags.
pub open spec fn first_width(tags: Seq<LeveledParseTag>) -> Option<ImageLength>
    decreases tags.len(),
{
    if tags.len() == 0 {
        None
    } else {
        match tags[0].0 {
            ParseTag::Width(w) => Some(w),
            _ => first_width(tags.drop_first()),
        }
    }
}

/// The first height among the tags.
pub open spec fn first_height(tags: Seq<LeveledParseTag>) -> Option<ImageLength>
    decreases tags.len(),
{
    if tags.len() == 0 {
        None
    } else {
        match tags[0].0 {
            ParseTag::Height(h) => Some(h),
            _ => first_height(tags.drop_first()),
        }
    }
}

/// An image appended to the last line: its character, styled as the image at `href`
/// with the size the tags give.
pub open spec fn add_image_spec(s: DomState, href: String, tags: Seq<LeveledParseTag>) -> DomState {
    let (chars, styles) = s.lines.last();
    let start = chars.len() as usize;
    let style = TextStyle::Image(ImageStyle { href, width: first_width(tags), height: first_height(tags) });
    DomState {
        lines: s.lines.update(s.lines.len() - 1, (chars.push(IMAGE_CHAR), styles.push((style, start..(start + 1) as usize)))),
        ..s
    }
}

/// The classes of a `div` that open a line of their own: tables of contents.
pub open spec fn is_pushed_class(class: Seq<char>) -> bool {
    crate::package::contains_chars(class, "contents"@) || crate::package::contains_chars(class, "toc"@)
        || crate::package::contains_chars(class, "mulu"@)
}

/// A `div` of a table of contents opens a new line, unless the last line is empty.
pub open spec fn newline_for_class_spec(s: DomState, class: Option<String>) -> DomState {
    if s.lines.last().0.len() > 0 && (class matches Some(c) && is_pushed_class(c@)) {
        new_line_spec(s)
    } else {
        s
    }
}

/// The title of a document taken from a `title` element: the text of its first child,
/// when that is text.
pub open spec fn title_spec(s: DomState, e: HtmlElement) -> DomState {
    if e.children@.len() > 0 && e.children@[0] is Text {
        DomState { title: Some(e.children@[0]->Text_0@), ..s }
    } else {
        s
    }
}

/// A copy of a text style.
pub fn clone_text_style(s: &TextStyle) -> (r: TextStyle)
    ensures
        r == *s,
{
    match s {
        TextStyle::Decoration(d) => TextStyle::Decoration(*d),
        TextStyle::Border(l, c) => TextStyle::Border(*l, *c),
        TextStyle::FontSize(e) => TextStyle::FontSize(*e),
        TextStyle::FontWeight(w) => TextStyle::FontWeight(*w),
        TextStyle::FontFamily(f) => TextStyle::FontFamily(*f),
        TextStyle::Image(i) => TextStyle::Image(ImageStyle { href: i.href.clone(), width: i.width, height: i.height }),
        TextStyle::Link(l) => TextStyle::Link(l.clone()),
        TextStyle::Color(c) => TextStyle::Color(*c),
        TextStyle::BackgroundColor(c) => TextStyle::BackgroundColor(*c),
        TextStyle::Title(t) => TextStyle::Title(t.clone()),
    }
}

fn clone_tag(t: &LeveledParseTag) -> (r: LeveledParseTag)
    ensures
        r == *t,
{
    let tag = match &t.0 {
        ParseTag::Style(s) => ParseTag::Style(clone_text_style(s)),
        ParseTag::Width(l) => ParseTag::Width(*l),
        ParseTag::Height(l) => ParseTag::Height(*l),
        ParseTag::Paragraph => ParseTag::Paragraph,
        ParseTag::Hidden => ParseTag::Hidden,
    };
    LeveledParseTag(tag, t.1)
}

fn clone_tags(tags: &Vec<LeveledParseTag>) -> (r: Vec<LeveledParseTag>)
    ensures
        r@ == tags@,
{
    let mut r: Vec<LeveledParseTag> = Vec::new();
    let mut i: usize = 0;
    while i < tags.len()
        invariant
            i <= tags@.len(),
            r@ == tags@.take(i as int),
        decreases tags@.len() - i,
    {
        r.push(clone_tag(&tags[i]));
        i = i + 1;
        assert(r@ =~= tags@.take(i as int));
    }
    assert(tags@.take(tags@.len() as int) =~= tags@);
    r
}

impl HtmlLines {
    /// Lines that hold one empty line, with no title, style or id yet.
    pub fn new() -> (h: Self)
        ensures
            h.state() == (DomState { title: None, lines: seq![empty_line()], styles: Seq::empty(), ids: Seq::empty() }),
    {
        let mut lines = Vec::new();
        let first = Line::default();
        assert(first@ =~= Seq::<char>::empty() && first.styles() =~= Seq::<(TextStyle, Range<usize>)>::empty());
        lines.push(first);
        let h = HtmlLines { title: None, lines, styles: Vec::new(), ids: Vec::new() };
        assert(h.state().lines =~= seq![empty_line()]);
        assert(h.state().styles =~= Seq::<StyleDescription>::empty());
        assert(h.state().ids =~= Seq::<(Seq<char>, Position)>::empty());
        h
    }

    /// Starts a new line unless the last line is empty.
    pub fn new_line(&mut self)
        requires
            old(self).lines@.len() > 0,
        ensures
            final(self).state() == new_line_spec(old(self).state()),
            final(self).lines@.len() > 0,
            final(self).lines@.len() >= old(self).lines@.len(),
    {
        let last = self.lines.len() - 1;
        if !self.lines[last].is_empty() {
            let ghost before = self.state();
            let line = Line::default();
            assert(line@ =~= Seq::<char>::empty() && line.styles() =~= Seq::<(TextStyle, Range<usize>)>::empty());
            self.lines.push(line);
            assert(self.state().lines =~= before.lines.push(empty_line()));
        }
    }

    /// Appends text to the last line.
    pub fn push_text(&mut self, text: &str)
        requires
            old(self).lines@.len() > 0,
        ensures
            final(self).state() == text_spec(old(self).state(), text@),
            final(self).lines@.len() > 0,
            final(self).lines@.len() >= old(self).lines@.len(),
    {
        let chars = str_chars(text);
        let mut from: usize = 0;
        assert(chars@.skip(0) =~= chars@);
        while from < chars.len() && is_ascii_whitespace(chars[from])
            invariant
                chars@ == text@,
                from <= chars@.len(),
                trim_start_ws(chars@.skip(from as int)) == trim_start_ws(text@),
            decreases chars@.len() - from,
        {
            assert(chars@.skip(from as int).drop_first() =~= chars@.skip(from + 1));
            from = from + 1;
        }
        proof {
            let rest = chars@.skip(from as int);
            if rest.len() > 0 {
                assert(rest[0] == chars@[from as int]);
            }
            assert(trim_start_ws(rest) == rest);
        }
        let mut to: usize = chars.len();
        assert(chars@.subrange(from as int, to as int) =~= chars@.skip(from as int));
        while to > from && is_ascii_whitespace(chars[to - 1])
            invariant
                from <= to <= chars@.len(),
                trim_end_ws(chars@.subrange(from as int, to as int)) == trim_end_ws(trim_start_ws(text@)),
            decreases to,
        {
            assert(chars@.subrange(from as int, to as int).drop_last() =~= chars@.subrange(from as int, to - 1));
            to = to - 1;
        }
        let ghost tt = chars@.subrange(from as int, to as int);
        proof {
            if tt.len() > 0 {
                assert(tt.last() == chars@[to - 1]);
            }
            assert(trim_end_ws(tt) == tt);
        }
        if to == from {
            return;
        }
        assert(tt[0] == chars@[from as int]);
        let ghost before = self.state();
        let mut line = match self.lines.pop() {
            Some(l) => l,
            None => Line::default(),
        };
        let n = line.len();
        let joins = if n > 0 {
            match line.char_at(n - 1) {
                Some(c) => is_ascii_alphanumeric(c) && is_ascii_alphanumeric(chars[from]),
                None => false,
            }
        } else {
            false
        };
        if joins {
            line.push(' ');
        }
        let piece = crate::epub::chars_range(&chars, from, to);
        line.concat(piece.as_str());
        self.lines.push(line);
        assert(self.state().lines =~= text_spec(before, text@).lines);
    }

    /// Appends an image to the last line.
    pub fn add_image(&mut self, href: &String, tags: &Vec<LeveledParseTag>)
        requires
            old(self).lines@.len() > 0,
        ensures
            final(self).state() == add_image_spec(old(self).state(), *href, tags@),
            final(self).lines@.len() > 0,
            final(self).lines@.len() >= old(self).lines@.len(),
    {
        let width = width_of(tags);
        let height = height_of(tags);
        let ghost before = self.state();
        let mut line = match self.lines.pop() {
            Some(l) => l,
            None => Line::default(),
        };
        let start = line.len();
        line.push(IMAGE_CHAR);
        let end = line.len();
        line.push_style(TextStyle::Image(ImageStyle { href: href.clone(), width, height }), start..end);
        self.lines.push(line);
        assert(self.state().lines =~= add_image_spec(before, *href, tags@).lines);
    }

    /// Starts a new line for a `div` of a table of contents.
    pub fn newline_for_class(&mut self, class: &Option<String>)
        requires
            old(self).lines@.len() > 0,
        ensures
            final(self).state() == newline_for_class_spec(old(self).state(), *class),
            final(self).lines@.len() > 0,
            final(self).lines@.len() >= old(self).lines@.len(),
    {
        let last = self.lines.len() - 1;
        if !self.lines[last].is_empty() {
            if let Some(c) = class {
                if crate::package::str_contains(c.as_str(), "contents") || crate::package::str_contains(
                    c.as_str(),
                    "toc",
                ) || crate::package::str_contains(c.as_str(), "mulu") {
                    self.new_line();
                }
            }
        }
    }

    /// Takes the title from a `title` element.
    pub fn load_title(&mut self, e: &HtmlElement)
        ensures
            final(self).state() == title_spec(old(self).state(), *e),
            final(self).lines@ == old(self).lines@,
    {
        if e.children.len() > 0 {
            if let HtmlNode::Text(t) = &e.children[0] {
                self.title = Some(t.clone());
            }
        }
    }
}

fn is_ascii_whitespace(c: char) -> (r: bool)
    ensures
        r == is_ascii_ws(c),
{
    c == ' ' || c == '\t' || c == '\n' || c == '\x0C' || c == '\r'
}

fn is_ascii_alphanumeric(c: char) -> (r: bool)
    ensures
        r == is_ascii_alnum(c),
{
    ('0' <= c && c <= '9') || ('a' <= c && c <= 'z') || ('A' <= c && c <= 'Z')
}

fn width_of(tags: &Vec<LeveledParseTag>) -> (w: Option<ImageLength>)
    ensures
        w == first_width(tags@),
{
    let mut i: usize = 0;
    assert(tags@.skip(0) =~= tags@);
    while i < tags.len()
        invariant
            i <= tags@.len(),
            first_width(tags@.skip(i as int)) == first_width(tags@),
        decreases tags@.len() - i,
    {
        assert(tags@.skip(i as int)[0] == tags@[i as int]);
        assert(tags@.skip(i as int).drop_first() =~= tags@.skip(i + 1));
        if let ParseTag::Width(w) = &tags[i].0 {
            return Some(*w);
        }
        i = i + 1;
    }
    assert(tags@.skip(i as int) =~= Seq::<LeveledParseTag>::empty());
    None
}

fn height_of(tags: &Vec<LeveledParseTag>) -> (h: Option<ImageLength>)
    ensures
        h == first_height(tags@),
{
    let mut i: usize = 0;
    assert(tags@.skip(0) =~= tags@);
    while i < tags.len()
        invariant
            i <= tags@.len(),
            first_height(tags@.skip(i as int)) == first_height(tags@),
        decreases tags@.len() - i,
    {
        assert(tags@.skip(i as int)[0] == tags@[i as int]);
        assert(tags@.skip(i as int).drop_first() =~= tags@.skip(i + 1));
        if let ParseTag::Height(h) = &tags[i].0 {
            return Some(*h);
        }
        i = i + 1;
    }
    assert(tags@.skip(i as int) =~= Seq::<LeveledParseTag>::empty());
    None
}

/// The scale of a font size level of HTML, 1 to 7, as the bits of a 32-bit float: 3/5,
/// 8/9, 1, 6/5, 3/2, 2 and 3; 1 for any other level.
pub open spec fn font_scale_bits(level: u8) -> u32 {
    if level == 1 {
        0x3f19999a
    } else if level == 2 {
        0x3f638e39
    } else if level == 3 {
        0x3f800000
    } else if level == 4 {
        0x3f99999a
    } else if level == 5 {
        0x3fc00000
    } else if level == 6 {
        0x40000000
    } else if level == 7 {
        0x40400000
    } else {
        0x3f800000
    }
}

/// The font size of a level of HTML.
pub open spec fn font_size_style(level: u8, relative: bool) -> TextStyle {
    TextStyle::FontSize(ElementSize { scale_bits: font_scale_bits(level), relative })
}

/// The font size of a level of HTML, relative to the size around it or not.
pub fn font_size_level(level: u8, relative: bool) -> (s: TextStyle)
    ensures
        s == font_size_style(level, relative),
{
    let scale_bits: u32 = if level == 1 {
        0x3f19999a
    } else if level == 2 {
        0x3f638e39
    } else if level == 3 {
        0x3f800000
    } else if level == 4 {
        0x3f99999a
    } else if level == 5 {
        0x3fc00000
    } else if level == 6 {
        0x40000000
    } else if level == 7 {
        0x40400000
    } else {
        0x3f800000
    };
    TextStyle::FontSize(ElementSize { scale_bits, relative })
}

/// A solid underline in the colour of the text.
pub open spec fn underline() -> TextDecoration {
    TextDecoration { line: TextDecorationLine { bits: 1 }, style: TextDecorationStyle::Solid, color: None }
}

/// The tags with `tag` added unless one of its rank is set.
pub open spec fn with_unique(tags: Seq<LeveledParseTag>, tag: ParseTag) -> Seq<LeveledParseTag> {
    if has_tag(tags, tag_id(tag)) {
        tags
    } else {
        tags_with(tags, tag, false)
    }
}

/// The font size level of a heading: 6 for `h1` down to 1 for `h6`.
pub open spec fn heading_level(name: Seq<char>) -> Option<u8> {
    if name == "h1"@ {
        Some(6u8)
    } else if name == "h2"@ {
        Some(5u8)
    } else if name == "h3"@ {
        Some(4u8)
    } else if name == "h4"@ {
        Some(3u8)
    } else if name == "h5"@ {
        Some(2u8)
    } else if name == "h6"@ {
        Some(1u8)
    } else {
        None
    }
}

/// The elements that stand as paragraphs, on lines of their own.
pub open spec fn is_paragraph_element(name: Seq<char>) -> bool {
    heading_level(name) is Some || name == "p"@ || name == "blockquote"@ || name == "table"@ || name == "tr"@
        || name == "dt"@ || name == "li"@
}

/// The elements whose children are not converted.
pub open spec fn is_leaf_element(name: Seq<char>) -> bool {
    name == "title"@ || name == "script"@ || name == "noscript"@ || name == "img"@ || name == "image"@
}

/// The level that the `size` attribute of a `font` element names, when it is a `u8`.
pub open spec fn font_level_of(size: Option<String>) -> Option<u8> {
    match size {
        Some(t) => match parsed_usize(t@) {
            Some(n) => if n <= 255 {
                Some(n as u8)
            } else {
                None
            },
            None => None,
        },
        None => None,
    }
}

/// The tags of an element after what its name sets: bold for `b`, an underline for `u`,
/// the font size of a heading, of `small` or of `big`, the size and colour of `font`, and
/// the underline and target of a link.
pub open spec fn element_tags_spec(e: HtmlElement, tags: Seq<LeveledParseTag>) -> Seq<LeveledParseTag> {
    let name = e.name@;
    if name == "b"@ {
        tags_with(tags, ParseTag::Style(TextStyle::FontWeight(FontWeightValue::Bolder)), false)
    } else if name == "u"@ {
        tags_with(tags, ParseTag::Style(TextStyle::Decoration(underline())), false)
    } else if heading_level(name) is Some {
        with_unique(tags, ParseTag::Style(font_size_style(heading_level(name)->0, false)))
    } else if name == "small"@ {
        with_unique(tags, ParseTag::Style(font_size_style(2, true)))
    } else if name == "big"@ {
        with_unique(tags, ParseTag::Style(font_size_style(4, true)))
    } else if name == "font"@ {
        let sized = match font_level_of(e.size) {
            Some(level) => tags_with(tags, ParseTag::Style(font_size_style(level, true)), false),
            None => tags,
        };
        match e.color {
            Some(c) => tags_with(sized, ParseTag::Style(TextStyle::Color(c)), false),
            None => sized,
        }
    } else if name == "a"@ {
        match e.href {
            Some(h) => tags_with(
                with_unique(tags, ParseTag::Style(TextStyle::Decoration(underline()))),
                ParseTag::Style(TextStyle::Link(h)),
                false,
            ),
            None => tags,
        }
    } else {
        tags
    }
}

/// What an element opens before its content: a new line for a paragraph or a line break,
/// one for a `div` of a table of contents.
pub open spec fn element_pre(s: DomState, e: HtmlElement) -> DomState {
    if is_paragraph_element(e.name@) || e.name@ == "br"@ {
        new_line_spec(s)
    } else if e.name@ == "div"@ {
        newline_for_class_spec(s, e.class)
    } else {
        s
    }
}

/// What an element closes after its content: a new line after a paragraph, one after a
/// `div` of a table of contents.
pub open spec fn element_post(s: DomState, e: HtmlElement) -> DomState {
    if is_paragraph_element(e.name@) {
        new_line_spec(s)
    } else if e.name@ == "div"@ {
        newline_for_class_spec(s, e.class)
    } else {
        s
    }
}

/// What an element whose children are not converted does: a title sets the document's
/// title, an image adds its picture.
pub open spec fn element_leaf(s: DomState, e: HtmlElement, tags: Seq<LeveledParseTag>) -> DomState {
    if e.name@ == "title"@ {
        title_spec(s, e)
    } else if e.name@ == "img"@ {
        match e.src {
            Some(h) => add_image_spec(s, h, tags),
            None => s,
        }
    } else if e.name@ == "image"@ {
        match e.xlink_href {
            Some(h) => add_image_spec(s, h, tags),
            None => s,
        }
    } else {
        s
    }
}

/// The styles of the tags, each from `start` to `end`.
pub open spec fn style_descs(tags: Seq<LeveledParseTag>, start: Position, end: Position) -> Seq<StyleDescription>
    decreases tags.len(),
{
    if tags.len() == 0 {
        Seq::empty()
    } else {
        style_descs(tags.drop_last(), start, end) + match tags.last().0 {
            ParseTag::Style(style) => seq![StyleDescription { start, end, style }],
            _ => Seq::empty(),
        }
    }
}

/// The last line, from line `from` on, that is not empty.
pub open spec fn last_nonempty(lines: Seq<(Seq<char>, Seq<(TextStyle, Range<usize>)>)>, from: int) -> Option<int> {
    if exists|k: int| from <= k < lines.len() && lines[k].0.len() > 0 {
        Some(
            choose|k: int|
                from <= k < lines.len() && lines[k].0.len() > 0 && forall|j: int|
                    k < j < lines.len() ==> lines[j].0.len() == 0,
        )
    } else {
        None
    }
}

/// The styles of an element's tags, kept to spread from where the element starts to the
/// end of the last line it wrote text on; none when it wrote none.
pub open spec fn element_styles_spec(s: DomState, start: Position, tags: Seq<LeveledParseTag>) -> DomState {
    match last_nonempty(s.lines, start.line as int) {
        None => s,
        Some(k) => DomState {
            styles: s.styles + style_descs(tags, start, Position { line: k as usize, offset: s.lines[k].0.len() as usize }),
            ..s
        },
    }
}

/// Where the next character goes: the end of the last line.
pub open spec fn end_position(s: DomState) -> Position {
    Position { line: (s.lines.len() - 1) as usize, offset: s.lines.last().0.len() as usize }
}

/// The lines after a node of the document.
pub open spec fn dom_node(s: DomState, node: HtmlNode) -> DomState
    decreases node,
{
    match node {
        HtmlNode::Text(t) => text_spec(s, t@),
        HtmlNode::Element(e) => dom_element(s, e),
        HtmlNode::Document(children) => dom_children(s, children@),
        HtmlNode::Other => s,
    }
}

/// The lines after nodes of the document, one after the other.
pub open spec fn dom_children(s: DomState, nodes: Seq<HtmlNode>) -> DomState
    decreases nodes,
{
    if nodes.len() == 0 {
        s
    } else {
        dom_node(dom_children(s, nodes.drop_last()), nodes.last())
    }
}

/// The lines after an element: its id noted at where it starts; nothing more for a hidden
/// element; else a paragraph its tags call for opened, what its name opens, its content,
/// what its name closes, the paragraph closed, and the styles of its tags kept.
pub open spec fn dom_element(s: DomState, e: HtmlElement) -> DomState
    decreases e,
{
    let pos = end_position(s);
    let s1 = match e.id {
        Some(id) => DomState { ids: s.ids.push((id@, pos)), ..s },
        None => s,
    };
    let tags0 = e.tags@;
    if has_tag(tags0, 9999) {
        s1
    } else {
        let force = has_tag(tags0, 1000);
        let tags1 = tags_without(tags0, 1000);
        let s2 = if force {
            new_line_spec(s1)
        } else {
            s1
        };
        let s3 = element_pre(s2, e);
        let s4 = if is_leaf_element(e.name@) {
            element_leaf(s3, e, tags1)
        } else {
            dom_children(s3, e.children@)
        };
        let s5 = element_post(s4, e);
        let s6 = if force {
            new_line_spec(s5)
        } else {
            s5
        };
        let tags2 = element_tags_spec(e, tags1);
        if tags2.len() > 0 {
            element_styles_spec(s6, pos, tags2)
        } else {
            s6
        }
    }
}

/// Converting only adds lines or changes the last one: the lines before the last stay as
/// they were, and there is at least one line afterwards.
pub open spec fn keeps_earlier_lines(a: DomState, b: DomState) -> bool {
    &&& b.lines.len() >= a.lines.len()
    &&& forall|k: int| 0 <= k < a.lines.len() - 1 ==> #[trigger] b.lines[k] == a.lines[k]
}

proof fn lemma_new_line_keeps(s: DomState)
    requires
        s.lines.len() > 0,
    ensures
        keeps_earlier_lines(s, new_line_spec(s)),
        new_line_spec(s).lines.len() > 0,
        new_line_spec(s).lines.last().0.len() == 0,
{
}

proof fn lemma_node_keeps(s: DomState, node: HtmlNode)
    requires
        s.lines.len() > 0,
    ensures
        keeps_earlier_lines(s, dom_node(s, node)),
        dom_node(s, node).lines.len() > 0,
    decreases node,
{
    match node {
        HtmlNode::Text(t) => {},
        HtmlNode::Element(e) => {
            lemma_element_keeps(s, e);
        },
        HtmlNode::Document(children) => {
            lemma_children_keeps(s, children@);
        },
        HtmlNode::Other => {},
    }
}

proof fn lemma_children_keeps(s: DomState, nodes: Seq<HtmlNode>)
    requires
        s.lines.len() > 0,
    ensures
        keeps_earlier_lines(s, dom_children(s, nodes)),
        dom_children(s, nodes).lines.len() > 0,
    decreases nodes,
{
    if nodes.len() > 0 {
        lemma_children_keeps(s, nodes.drop_last());
        let mid = dom_children(s, nodes.drop_last());
        assert(decreases_to!(nodes => nodes[nodes.len() - 1]));
        lemma_node_keeps(mid, nodes.last());
    }
}

proof fn lemma_keeps_trans(a: DomState, b: DomState, c: DomState)
    requires
        keeps_earlier_lines(a, b),
        keeps_earlier_lines(b, c),
        a.lines.len() > 0,
    ensures
        keeps_earlier_lines(a, c),
{
    assert forall|k: int| 0 <= k < a.lines.len() - 1 implies #[trigger] c.lines[k] == a.lines[k] by {
        assert(c.lines[k] == b.lines[k]);
    }
}

proof fn lemma_local_keeps(s3: DomState, e: HtmlElement, tags1: Seq<LeveledParseTag>)
    requires
        s3.lines.len() > 0,
    ensures
        keeps_earlier_lines(s3, element_leaf(s3, e, tags1)),
        element_leaf(s3, e, tags1).lines.len() > 0,
        keeps_earlier_lines(s3, element_pre(s3, e)),
        element_pre(s3, e).lines.len() > 0,
        keeps_earlier_lines(s3, element_post(s3, e)),
        element_post(s3, e).lines.len() > 0,
{
    lemma_new_line_keeps(s3);
}

proof fn lemma_element_keeps(s: DomState, e: HtmlElement)
    requires
        s.lines.len() > 0,
    ensures
        keeps_earlier_lines(s, dom_element(s, e)),
        dom_element(s, e).lines.len() > 0,
    decreases e,
{
    let pos = end_position(s);
    let s1 = match e.id {
        Some(id) => DomState { ids: s.ids.push((id@, pos)), ..s },
        None => s,
    };
    let tags0 = e.tags@;
    if !has_tag(tags0, 9999) {
        let force = has_tag(tags0, 1000);
        let tags1 = tags_without(tags0, 1000);
        let s2 = if force { new_line_spec(s1) } else { s1 };
        lemma_new_line_keeps(s1);
        assert(keeps_earlier_lines(s, s2));
        let s3 = element_pre(s2, e);
        lemma_local_keeps(s2, e, tags1);
        lemma_keeps_trans(s, s2, s3);
        let s4 = if is_leaf_element(e.name@) {
            element_leaf(s3, e, tags1)
        } else {
            dom_children(s3, e.children@)
        };
        lemma_local_keeps(s3, e, tags1);
        if !is_leaf_element(e.name@) {
            assert(decreases_to!(e => e.children@));
            lemma_children_keeps(s3, e.children@);
        }
        lemma_keeps_trans(s, s3, s4);
        let s5 = element_post(s4, e);
        lemma_local_keeps(s4, e, tags1);
        lemma_keeps_trans(s, s4, s5);
        let s6 = if force { new_line_spec(s5) } else { s5 };
        lemma_new_line_keeps(s5);
        lemma_keeps_trans(s, s5, s6);
        assert(dom_element(s, e).lines == s6.lines);
    }
}

/// A paragraph-like element (a list item, paragraph, quotation, table or table row,
/// definition term or heading) is a block of its own: after it the last line is empty, so
/// the text that follows starts a new line; and when it comes after text, that text's line
/// is left as it was, so the element's content starts at the beginning of a new line.
pub proof fn law_block_elements_start_and_end_lines(s: DomState, e: HtmlElement)
    requires
        e.name@ == "li"@ || e.name@ == "p"@ || e.name@ == "blockquote"@ || e.name@ == "table"@ || e.name@ == "tr"@
            || e.name@ == "dt"@ || heading_level(e.name@) is Some,
        !has_tag(e.tags@, 9999),
        s.lines.len() > 0,
    ensures
        dom_element(s, e).lines.last().0.len() == 0,
        s.lines.last().0.len() > 0 ==> dom_element(s, e).lines.len() > s.lines.len() && dom_element(s, e).lines[
            s.lines.len() - 1] == s.lines.last(),
{
    let pos = end_position(s);
    let s1 = match e.id {
        Some(id) => DomState { ids: s.ids.push((id@, pos)), ..s },
        None => s,
    };
    let tags0 = e.tags@;
    let force = has_tag(tags0, 1000);
    let s2 = if force { new_line_spec(s1) } else { s1 };
    lemma_new_line_keeps(s1);
    let s3 = element_pre(s2, e);
    lemma_new_line_keeps(s2);
    reveal_strlit("li");
    reveal_strlit("p");
    reveal_strlit("blockquote");
    reveal_strlit("table");
    reveal_strlit("tr");
    reveal_strlit("dt");
    reveal_strlit("h1");
    reveal_strlit("h2");
    reveal_strlit("h3");
    reveal_strlit("h4");
    reveal_strlit("h5");
    reveal_strlit("h6");
    reveal_strlit("title");
    reveal_strlit("script");
    reveal_strlit("noscript");
    reveal_strlit("img");
    reveal_strlit("image");
    assert(!is_leaf_element(e.name@)) by {
        let n = e.name@;
        if n.len() == 5 {
            assert(n == "table"@);
            assert(n[1] == 'a');
            assert("title"@[1] == 'i');
            assert("image"@[1] == 'm');
        } else {
            assert(n.len() != "title"@.len() && n.len() != "script"@.len() && n.len() != "noscript"@.len()
                && n.len() != "img"@.len() && n.len() != "image"@.len());
        }
    }
    lemma_children_keeps(s3, e.children@);
    let s4 = dom_children(s3, e.children@);
    lemma_new_line_keeps(s4);
    let s5 = element_post(s4, e);
    lemma_new_line_keeps(s5);
}

/// Every style kept starts on a line that exists.
pub open spec fn styles_placed(s: DomState) -> bool {
    forall|i: int| 0 <= i < s.styles.len() ==> #[trigger] s.styles[i].start.line < s.lines.len()
}

proof fn lemma_placed_grow(a: DomState, b: DomState)
    requires
        styles_placed(a),
        a.styles == b.styles,
        b.lines.len() >= a.lines.len(),
    ensures
        styles_placed(b),
{
    assert forall|i: int| 0 <= i < b.styles.len() implies #[trigger] b.styles[i].start.line < b.lines.len() by {
        assert(a.styles[i].start.line < a.lines.len());
    }
}

/// The tags of every element are ordered by rank.
pub open spec fn node_wf(node: HtmlNode) -> bool
    decreases node,
{
    match node {
        HtmlNode::Element(e) => element_wf(e),
        HtmlNode::Document(children) => nodes_wf(children@),
        _ => true,
    }
}

pub open spec fn element_wf(e: HtmlElement) -> bool
    decreases e,
{
    tags_ordered(e.tags@) && nodes_wf(e.children@)
}

pub open spec fn nodes_wf(nodes: Seq<HtmlNode>) -> bool
    decreases nodes,
{
    nodes.len() == 0 || (nodes_wf(nodes.drop_last()) && node_wf(nodes.last()))
}

proof fn lemma_nodes_wf_index(nodes: Seq<HtmlNode>, i: int)
    requires
        nodes_wf(nodes),
        0 <= i < nodes.len(),
    ensures
        node_wf(nodes[i]),
    decreases nodes.len(),
{
    if i < nodes.len() - 1 {
        lemma_nodes_wf_index(nodes.drop_last(), i);
        assert(nodes.drop_last()[i] == nodes[i]);
    }
}

fn name_is(name: &String, lit: &str) -> (r: bool)
    ensures
        r == (name@ == lit@),
{
    *name == String::from_str(lit)
}

fn heading_level_of(name: &String) -> (r: Option<u8>)
    ensures
        r == heading_level(name@),
{
    if name_is(name, "h1") {
        Some(6)
    } else if name_is(name, "h2") {
        Some(5)
    } else if name_is(name, "h3") {
        Some(4)
    } else if name_is(name, "h4") {
        Some(3)
    } else if name_is(name, "h5") {
        Some(2)
    } else if name_is(name, "h6") {
        Some(1)
    } else {
        None
    }
}

fn is_paragraph_name(name: &String) -> (r: bool)
    ensures
        r == is_paragraph_element(name@),
{
    heading_level_of(name).is_some() || name_is(name, "p") || name_is(name, "blockquote") || name_is(name, "table")
        || name_is(name, "tr") || name_is(name, "dt") || name_is(name, "li")
}

fn is_leaf_name(name: &String) -> (r: bool)
    ensures
        r == is_leaf_element(name@),
{
    name_is(name, "title") || name_is(name, "script") || name_is(name, "noscript") || name_is(name, "img")
        || name_is(name, "image")
}

fn font_level(size: &Option<String>) -> (r: Option<u8>)
    ensures
        r == font_level_of(*size),
{
    match size {
        Some(t) => match parse_usize(t.as_str()) {
            Some(n) => if n <= 255 {
                Some(n as u8)
            } else {
                None
            },
            None => None,
        },
        None => None,
    }
}

fn underline_decoration() -> (d: TextDecoration)
    ensures
        d == underline(),
{
    TextDecoration { line: TextDecorationLine { bits: 1 }, style: TextDecorationStyle::Solid, color: None }
}

fn add_unique(tags: &mut Vec<LeveledParseTag>, tag: ParseTag)
    requires
        tags_ordered(old(tags)@),
    ensures
        tags_ordered(final(tags)@),
        final(tags)@ == with_unique(old(tags)@, tag),
{
    unique_and_insert_tag(tags, tag);
}

/// Sets the tags that an element's name calls for.
fn apply_element_tags(e: &HtmlElement, tags: &mut Vec<LeveledParseTag>)
    requires
        tags_ordered(old(tags)@),
    ensures
        final(tags)@ == element_tags_spec(*e, old(tags)@),
{
    let name = &e.name;
    if name_is(name, "b") {
        insert_or_replace_tag(tags, ParseTag::Style(TextStyle::FontWeight(FontWeightValue::Bolder)), false);
    } else if name_is(name, "u") {
        insert_or_replace_tag(tags, ParseTag::Style(TextStyle::Decoration(underline_decoration())), false);
    } else if let Some(level) = heading_level_of(name) {
        add_unique(tags, ParseTag::Style(font_size_level(level, false)));
    } else if name_is(name, "small") {
        add_unique(tags, ParseTag::Style(font_size_level(2, true)));
    } else if name_is(name, "big") {
        add_unique(tags, ParseTag::Style(font_size_level(4, true)));
    } else if name_is(name, "font") {
        if let Some(level) = font_level(&e.size) {
            insert_or_replace_tag(tags, ParseTag::Style(font_size_level(level, true)), false);
        }
        if let Some(c) = e.color {
            insert_or_replace_tag(tags, ParseTag::Style(TextStyle::Color(c)), false);
        }
    } else if name_is(name, "a") {
        if let Some(h) = &e.href {
            add_unique(tags, ParseTag::Style(TextStyle::Decoration(underline_decoration())));
            insert_or_replace_tag(tags, ParseTag::Style(TextStyle::Link(h.clone())), false);
        }
    }
}

impl HtmlLines {
    /// Keeps the styles of an element's tags, from `start` to the end of the last line it
    /// wrote text on.
    fn push_element_styles(&mut self, start: Position, tags: &Vec<LeveledParseTag>)
        requires
            styles_placed(old(self).state()),
            start.line < old(self).lines@.len(),
        ensures
            styles_placed(final(self).state()),
            final(self).state() == element_styles_spec(old(self).state(), start, tags@),
            final(self).lines@ == old(self).lines@,
    {
        let ghost st = self.state();
        let mut k: usize = self.lines.len();
        while k > start.line
            invariant
                start.line <= k <= self.lines@.len(),
                st == self.state(),
                forall|j: int| k <= j < st.lines.len() ==> st.lines[j].0.len() == 0,
            ensures
                start.line <= k <= self.lines@.len(),
                forall|j: int| k <= j < st.lines.len() ==> st.lines[j].0.len() == 0,
                k > start.line ==> st.lines[k - 1].0.len() > 0,
            decreases k,
        {
            assert(st.lines[k - 1] == line_value(self.lines@[k - 1]));
            if !self.lines[k - 1].is_empty() {
                break;
            }
            k = k - 1;
        }
        if k == start.line {
            assert(!exists|j: int| start.line <= j < st.lines.len() && st.lines[j].0.len() > 0);
            return;
        }
        let line = k - 1;
        proof {
            let c = choose|c: int|
                start.line <= c < st.lines.len() && st.lines[c].0.len() > 0 && forall|j: int|
                    c < j < st.lines.len() ==> st.lines[j].0.len() == 0;
            assert(st.lines[line as int].0.len() > 0);
            if c < line {
                assert(st.lines[line as int].0.len() == 0);
            }
            if c > line {
                assert(st.lines[c].0.len() == 0);
            }
        }
        let end = Position { line, offset: self.lines[line].len() };
        let mut i: usize = 0;
        let ghost base = self.styles@;
        while i < tags.len()
            invariant
                i <= tags@.len(),
                st.lines == self.state().lines,
                st.title == self.state().title,
                st.ids == self.state().ids,
                self.lines@ == old(self).lines@,
                base == st.styles,
                self.styles@ == base + style_descs(tags@.take(i as int), start, end),
                start.line < self.lines@.len(),
                styles_placed(self.state()),
            decreases tags@.len() - i,
        {
            let ghost before = self.styles@;
            if let ParseTag::Style(style) = &tags[i].0 {
                self.styles.push(StyleDescription { start, end, style: clone_text_style(style) });
            }
            proof {
                let t = tags@.take(i + 1);
                assert(t.drop_last() =~= tags@.take(i as int));
                assert(t.last() == tags@[i as int]);
            }
            i = i + 1;
            assert(self.styles@ =~= base + style_descs(tags@.take(i as int), start, end));
        }
        assert(tags@.take(tags@.len() as int) =~= tags@);
    }

    /// Converts a node of the document into lines.
    pub fn convert_node(&mut self, node: &HtmlNode)
        requires
            styles_placed(old(self).state()),
            old(self).lines@.len() > 0,
            node_wf(*node),
        ensures
            styles_placed(final(self).state()),
            final(self).state() == dom_node(old(self).state(), *node),
            final(self).lines@.len() > 0,
            final(self).lines@.len() >= old(self).lines@.len(),
        decreases node,
    {
        match node {
            HtmlNode::Text(t) => self.push_text(t.as_str()),
            HtmlNode::Element(e) => self.convert_element(e),
            HtmlNode::Document(children) => self.convert_children(children),
            HtmlNode::Other => {},
        }
    }

    /// Converts nodes of the document into lines, one after the other.
    pub fn convert_children(&mut self, nodes: &Vec<HtmlNode>)
        requires
            styles_placed(old(self).state()),
            old(self).lines@.len() > 0,
            nodes_wf(nodes@),
        ensures
            styles_placed(final(self).state()),
            final(self).state() == dom_children(old(self).state(), nodes@),
            final(self).lines@.len() > 0,
            final(self).lines@.len() >= old(self).lines@.len(),
        decreases nodes,
    {
        let mut i: usize = 0;
        while i < nodes.len()
            invariant
                i <= nodes@.len(),
                nodes_wf(nodes@),
                self.lines@.len() > 0,
                self.lines@.len() >= old(self).lines@.len(),
                styles_placed(self.state()),
                self.state() == dom_children(old(self).state(), nodes@.take(i as int)),
            decreases nodes@.len() - i,
        {
            proof {
                lemma_nodes_wf_index(nodes@, i as int);
                let t = nodes@.take(i + 1);
                assert(t.drop_last() =~= nodes@.take(i as int));
                assert(t.last() == nodes@[i as int]);
            }
            self.convert_node(&nodes[i]);
            i = i + 1;
        }
        assert(nodes@.take(nodes@.len() as int) =~= nodes@);
    }

    /// Converts an element of the document into lines.
    pub fn convert_element(&mut self, e: &HtmlElement)
        requires
            styles_placed(old(self).state()),
            old(self).lines@.len() > 0,
            element_wf(*e),
        ensures
            styles_placed(final(self).state()),
            final(self).state() == dom_element(old(self).state(), *e),
            final(self).lines@.len() > 0,
            final(self).lines@.len() >= old(self).lines@.len(),
        decreases e,
    {
        let ghost s0 = self.state();
        let line = self.lines.len() - 1;
        let offset = self.lines[line].len();
        let position = Position { line, offset };
        assert(position == end_position(s0));
        if let Some(id) = &e.id {
            self.ids.push((id.clone(), position));
            assert(self.state().ids =~= s0.ids.push((id@, position)));
        }
        let ghost s1 = self.state();
        proof {
            lemma_placed_grow(s0, s1);
        }
        assert(s1 == match e.id {
            Some(id) => DomState { ids: s0.ids.push((id@, position)), ..s0 },
            None => s0,
        });
        let mut tags = clone_tags(&e.tags);
        if find_tag(&tags, ParseTag::Hidden) {
            return;
        }
        let force = remove_tag(&mut tags, ParseTag::Paragraph).is_some();
        let ghost tags1 = tags@;
        assert(tags1 == tags_without(e.tags@, 1000));
        assert(force == has_tag(e.tags@, 1000));
        if force {
            self.new_line();
        }
        let ghost s2 = self.state();
        proof {
            lemma_placed_grow(s1, s2);
        }
        let paragraph = is_paragraph_name(&e.name);
        let is_div = name_is(&e.name, "div");
        if paragraph || name_is(&e.name, "br") {
            self.new_line();
        } else if is_div {
            self.newline_for_class(&e.class);
        }
        let ghost s3 = self.state();
        proof {
            lemma_placed_grow(s2, s3);
        }
        assert(s3 == element_pre(s2, *e));
        if is_leaf_name(&e.name) {
            if name_is(&e.name, "title") {
                self.load_title(e);
            } else if name_is(&e.name, "img") {
                if let Some(h) = &e.src {
                    self.add_image(h, &tags);
                }
            } else if name_is(&e.name, "image") {
                if let Some(h) = &e.xlink_href {
                    self.add_image(h, &tags);
                }
            }
        } else {
            assert(decreases_to!(e => e.children));
            self.convert_children(&e.children);
        }
        let ghost s4 = self.state();
        proof {
            if is_leaf_element(e.name@) {
                lemma_placed_grow(s3, s4);
            }
        }
        assert(s4 == if is_leaf_element(e.name@) {
            element_leaf(s3, *e, tags1)
        } else {
            dom_children(s3, e.children@)
        });
        if paragraph {
            self.new_line();
        } else if is_div {
            self.newline_for_class(&e.class);
        }
        let ghost s5 = self.state();
        proof {
            lemma_placed_grow(s4, s5);
        }
        assert(s5 == element_post(s4, *e));
        if force {
            self.new_line();
        }
        let ghost s6 = self.state();
        proof {
            lemma_placed_grow(s5, s6);
        }
        apply_element_tags(e, &mut tags);
        assert(tags@ == element_tags_spec(*e, tags1));
        if tags.len() > 0 {
            self.push_element_styles(position, &tags);
        }
    }
}

/// A line as values.
pub type LineValue = (Seq<char>, Seq<(TextStyle, Range<usize>)>);

/// The lines without the empty lines at their end.
pub open spec fn trim_trailing_empty(lines: Seq<LineValue>) -> Seq<LineValue>
    decreases lines.len(),
{
    if lines.len() > 0 && lines.last().0.len() == 0 {
        trim_trailing_empty(lines.drop_last())
    } else {
        lines
    }
}

/// Where a style from `start` to `end` ends among the lines: at `end`, or at the end of the
/// last line when `end` lies past them; `None` when `start` lies past them too.
pub open spec fn block_end_value(start: Position, end: Position, lines: Seq<LineValue>) -> Option<(usize, usize)> {
    let last = (lines.len() - 1) as usize;
    if end.line > last {
        if start.line > last {
            None
        } else {
            Some((last, lines[last as int].0.len() as usize))
        }
    } else {
        Some((end.line, end.offset))
    }
}

/// Whether a style covers whole lines: it starts at the start of a line and ends at the end
/// of one.
pub open spec fn covers_lines(start: Position, end: Position, lines: Seq<LineValue>) -> bool {
    &&& start.offset == 0
    &&& end.line > (lines.len() - 1) as usize || end.offset == lines[end.line as int].0.len()
}

/// The block style of a border or background over lines `start.line` to `end_line`.
pub open spec fn block_of(start: Position, end_line: usize, style: TextStyle) -> BlockStyle {
    match style {
        TextStyle::Border(l, c) => BlockStyle::Border { range: start.line..(end_line + 1) as usize, lines: l, color: c },
        TextStyle::BackgroundColor(c) => BlockStyle::Background { range: start.line..(end_line + 1) as usize, color: c },
        _ => BlockStyle::Background { range: start.line..(end_line + 1) as usize, color: Color32([0u8, 0u8, 0u8, 0u8]) },
    }
}

/// A style added to a line.
pub open spec fn styled(l: LineValue, style: TextStyle, range: Range<usize>) -> LineValue {
    (l.0, l.1.push((style, range)))
}

/// A style spread over the lines from `start` to `end`, whose last line ends at
/// `end_offset`: on the part of the first line from the start on, on the whole lines
/// between, and on the last line up to `end_offset`.
pub open spec fn spread_style(lines: Seq<LineValue>, start: Position, end: Position, end_line: usize, end_offset: usize,
    style: TextStyle) -> Seq<LineValue> {
    if start.line == end_line {
        if start.line < lines.len() {
            lines.update(start.line as int, styled(lines[start.line as int], style, start.offset..end_offset))
        } else {
            lines
        }
    } else {
        Seq::new(
            lines.len(),
            |k: int|
                if k == start.line {
                    styled(lines[k], style, start.offset..lines[k].0.len() as usize)
                } else if start.line < k < end.line {
                    styled(lines[k], style, 0..lines[k].0.len() as usize)
                } else if k == end.line {
                    styled(lines[k], style, 0..end_offset)
                } else {
                    lines[k]
                },
        )
    }
}

/// The lines and block styles after one more style: a border or background over whole
/// lines becomes a block style, any other style is spread over the text.
pub open spec fn apply_style(state: (Seq<LineValue>, Seq<BlockStyle>), d: StyleDescription) -> (Seq<LineValue>, Seq<
    BlockStyle,
>) {
    let (lines, blocks) = state;
    match block_end_value(d.start, d.end, lines) {
        None => state,
        Some((end_line, end_offset)) => if covers_lines(d.start, d.end, lines) && (d.style is Border
            || d.style is BackgroundColor) {
            (lines, blocks.push(block_of(d.start, end_line, d.style)))
        } else {
            (spread_style(lines, d.start, d.end, end_line, end_offset, d.style), blocks)
        },
    }
}

/// The lines and block styles after the styles, in order.
pub open spec fn apply_styles(state: (Seq<LineValue>, Seq<BlockStyle>), styles: Seq<StyleDescription>) -> (Seq<
    LineValue,
>, Seq<BlockStyle>)
    decreases styles.len(),
{
    if styles.len() == 0 {
        state
    } else {
        apply_style(apply_styles(state, styles.drop_last()), styles.last())
    }
}

/// The lines of a document once converted: without the empty lines at the end, a line
/// saying there is no content when none is left, and the styles applied.
pub open spec fn finished_lines(s: DomState) -> (Seq<LineValue>, Seq<BlockStyle>) {
    let lines = trim_trailing_empty(s.lines);
    if lines.len() == 0 {
        (seq![(EMPTY_CHAPTER_CONTENT@, Seq::empty())], Seq::empty())
    } else {
        apply_styles((lines, Seq::empty()), s.styles)
    }
}

/// The lines of a document: its title, its lines, the block styles of its bordered or
/// shaded blocks, and where each id is (the last place noted for an id counts).
pub struct HtmlContent {
    pub title: Option<String>,
    pub lines: Vec<Line>,
    pub block_styles: Option<Vec<BlockStyle>>,
    pub id_map: Vec<(String, Position)>,
}

pub open spec fn lines_values(lines: Seq<Line>) -> Seq<LineValue> {
    lines.map_values(|l: Line| line_value(l))
}

fn push_style_at(lines: &mut Vec<Line>, k: usize, style: TextStyle, range: Range<usize>)
    requires
        k < old(lines)@.len(),
    ensures
        lines_values(final(lines)@) == lines_values(old(lines)@).update(
            k as int,
            styled(lines_values(old(lines)@)[k as int], style, range),
        ),
{
    let mut line = lines.remove(k);
    let ghost l0 = line;
    line.push_style(style, range);
    lines.insert(k, line);
    assert(lines_values(lines@) =~= lines_values(old(lines)@).update(
        k as int,
        styled(lines_values(old(lines)@)[k as int], style, range),
    ));
}

impl HtmlLines {
    /// The finished lines: the empty lines at the end dropped, a line saying there is no
    /// content when none is left, and the styles kept so far applied.
    pub fn finalize(self) -> (c: HtmlContent)
        requires
            styles_placed(self.state()),
        ensures
            opt_chars(c.title) == self.state().title,
            lines_values(c.lines@) == finished_lines(self.state()).0,
            match c.block_styles {
                Some(b) => b@ == finished_lines(self.state()).1 && b@.len() > 0,
                None => finished_lines(self.state()).1.len() == 0,
            },
            c.id_map@.map_values(|p: (String, Position)| (p.0@, p.1)) == self.state().ids,
    {
        let ghost st = self.state();
        let count = self.lines.len();
        assert(self.lines@.len() == count);
        let HtmlLines { title, mut lines, styles, ids } = self;
        assert(lines_values(lines@) == st.lines);
        while lines.len() > 0 && lines[lines.len() - 1].is_empty()
            invariant
                trim_trailing_empty(lines_values(lines@)) == trim_trailing_empty(st.lines),
            decreases lines@.len(),
        {
            let ghost before = lines_values(lines@);
            lines.pop();
            assert(lines_values(lines@) =~= before.drop_last());
        }
        assert(trim_trailing_empty(lines_values(lines@)) == lines_values(lines@));
        let mut blocks: Vec<BlockStyle> = Vec::new();
        if lines.len() == 0 {
            let line = Line::new(EMPTY_CHAPTER_CONTENT);
            assert(line.styles() =~= Seq::<(TextStyle, Range<usize>)>::empty());
            lines.push(line);
            assert(lines_values(lines@) =~= seq![(EMPTY_CHAPTER_CONTENT@, Seq::<(TextStyle, Range<usize>)>::empty())]);
        } else {
            let mut i: usize = 0;
            assert(blocks@ =~= Seq::<BlockStyle>::empty());
            while i < styles.len()
                invariant
                    i <= styles@.len(),
                    styles@ == st.styles,
                    styles_placed(st),
                    st.lines.len() <= usize::MAX,
                    lines@.len() > 0,
                    (lines_values(lines@), blocks@) == apply_styles(
                        (trim_trailing_empty(st.lines), Seq::empty()),
                        styles@.take(i as int),
                    ),
                decreases styles@.len() - i,
            {
                let d = &styles[i];
                assert(d.start.line < st.lines.len());
                let ghost lv = lines_values(lines@);
                let ghost b0 = blocks@;
                proof {
                    let t = styles@.take(i + 1);
                    assert(t.drop_last() =~= styles@.take(i as int));
                    assert(t.last() == *d);
                    assert(block_end(d.start, d.end, lines@) == block_end_value(d.start, d.end, lv));
                    if d.end.line <= (lines@.len() - 1) as usize {
                        assert(lines@[d.end.line as int]@.len() == lv[d.end.line as int].0.len());
                    }
                    assert(covers_whole_lines(d.start, d.end, lines@) == covers_lines(d.start, d.end, lv));
                }
                match setup_block_style(&d.start, &d.end, &d.style, &lines, &mut blocks) {
                    Some((end_line, end_offset)) => {
                        if d.start.line == end_line {
                            if d.start.line < lines.len() {
                                push_style_at(&mut lines, d.start.line, clone_text_style(&d.style), d.start.offset..end_offset);
                            }
                            assert(lines_values(lines@) =~= spread_style(lv, d.start, d.end, end_line, end_offset, d.style));
                        } else {
                            if d.start.line < lines.len() {
                                let n = lines[d.start.line].len();
                                push_style_at(&mut lines, d.start.line, clone_text_style(&d.style), d.start.offset..n);
                            }
                            let mut k = d.start.line + 1;
                            while k < d.end.line
                                invariant
                                    d.start.line < k,
                                    k == d.start.line + 1 || k <= d.end.line,
                                    lines_values(lines@).len() == lv.len(),
                                    forall|j: int|
                                        0 <= j < lv.len() ==> #[trigger] lines_values(lines@)[j] == (if j == d.start.line {
                                            styled(lv[j], d.style, d.start.offset..lv[j].0.len() as usize)
                                        } else if d.start.line < j < k {
                                            styled(lv[j], d.style, 0..lv[j].0.len() as usize)
                                        } else {
                                            lv[j]
                                        }),
                                decreases d.end.line - k,
                            {
                                if k < lines.len() {
                                    let n = lines[k].len();
                                    push_style_at(&mut lines, k, clone_text_style(&d.style), 0..n);
                                }
                                k = k + 1;
                            }
                            let ghost mid = lines_values(lines@);
                            assert forall|j: int| 0 <= j < lv.len() implies #[trigger] mid[j] == (if j == d.start.line {
                                styled(lv[j], d.style, d.start.offset..lv[j].0.len() as usize)
                            } else if d.start.line < j < d.end.line {
                                styled(lv[j], d.style, 0..lv[j].0.len() as usize)
                            } else {
                                lv[j]
                            }) by {
                                if d.start.line < j < d.end.line {
                                    assert(j < k);
                                }
                                if j != d.start.line && d.start.line < j && j < k {
                                    assert(j < d.end.line);
                                }
                            }
                            if d.end.line < lines.len() {
                                push_style_at(&mut lines, d.end.line, clone_text_style(&d.style), 0..end_offset);
                            }
                            assert(lines_values(lines@) =~= spread_style(lv, d.start, d.end, end_line, end_offset, d.style));
                        }
                    },
                    None => {
                        assert(blocks@ =~= apply_style((lv, b0), *d).1);
                    },
                }
                i = i + 1;
            }
            assert(styles@.take(styles@.len() as int) =~= styles@);
        }
        let block_styles = if blocks.len() == 0 {
            None
        } else {
            Some(blocks)
        };
        HtmlContent { title, lines, block_styles, id_map: ids }
    }
}

/// The title that the head of a document names: the text of the first `title` element
/// among its children, when that element starts with text.
pub open spec fn head_title(head: Seq<HtmlNode>) -> Option<Seq<char>> {
    if exists|i: int| 0 <= i < head.len() && is_title_node(head[i]) {
        let i = choose|i: int|
            0 <= i < head.len() && is_title_node(head[i]) && forall|j: int| 0 <= j < i ==> !is_title_node(head[j]);
        title_spec(DomState { title: None, lines: Seq::empty(), styles: Seq::empty(), ids: Seq::empty() }, head[i]->Element_0).title
    } else {
        None
    }
}

/// A `title` element.
pub open spec fn is_title_node(node: HtmlNode) -> bool {
    node matches HtmlNode::Element(e) && e.name@ == "title"@
}

/// The state a document's body is converted from: one empty line, and the title of the head.
pub open spec fn start_state(head: Seq<HtmlNode>) -> DomState {
    DomState { title: head_title(head), lines: seq![empty_line()], styles: Seq::empty(), ids: Seq::empty() }
}

/// The id positions as values.
pub open spec fn ids_view(ids: Seq<(String, Position)>) -> Seq<(Seq<char>, Position)> {
    ids.map_values(|p: (String, Position)| (p.0@, p.1))
}

/// The place last noted for an id.
pub open spec fn last_id_position(ids: Seq<(Seq<char>, Position)>, id: Seq<char>) -> Option<Position>
    decreases ids.len(),
{
    if ids.len() == 0 {
        None
    } else if ids.last().0 == id {
        Some(ids.last().1)
    } else {
        last_id_position(ids.drop_last(), id)
    }
}

impl HtmlContent {
    /// Where the element with `id` starts: the place noted last for that id.
    pub fn id_position(&self, id: &str) -> (r: Option<Position>)
        ensures
            r == last_id_position(ids_view(self.id_map@), id@),
    {
        let target = id.to_owned();
        let mut k: usize = self.id_map.len();
        assert(ids_view(self.id_map@).take(k as int) =~= ids_view(self.id_map@));
        while k > 0
            invariant
                k <= self.id_map@.len(),
                target@ == id@,
                last_id_position(ids_view(self.id_map@), id@) == last_id_position(ids_view(self.id_map@).take(k as int), id@),
            decreases k,
        {
            let ghost t = ids_view(self.id_map@).take(k as int);
            assert(t.drop_last() =~= ids_view(self.id_map@).take(k - 1));
            assert(t.last() == (self.id_map@[k - 1].0@, self.id_map@[k - 1].1));
            if self.id_map[k - 1].0 == target {
                return Some(self.id_map[k - 1].1);
            }
            k = k - 1;
        }
        None
    }
}

/// The lines of an HTML document whose head holds `head` and whose body is `body`: the
/// title from the head (or `custom_title`, when given), the body converted into lines,
/// and the lines finished.
pub fn parse_document(head: &Vec<HtmlNode>, body: &HtmlNode, custom_title: Option<String>) -> (c: HtmlContent)
    requires
        node_wf(*body),
    ensures
        opt_chars(c.title) == (match custom_title {
            Some(t) => Some(t@),
            None => dom_node(start_state(head@), *body).title,
        }),
        lines_values(c.lines@) == finished_lines(dom_node(start_state(head@), *body)).0,
        match c.block_styles {
            Some(b) => b@ == finished_lines(dom_node(start_state(head@), *body)).1,
            None => finished_lines(dom_node(start_state(head@), *body)).1.len() == 0,
        },
        ids_view(c.id_map@) == dom_node(start_state(head@), *body).ids,
{
    let mut parser = HtmlLines::new();
    let mut i: usize = 0;
    while i < head.len()
        invariant_except_break
            parser.state() == (DomState { title: None, lines: seq![empty_line()], styles: Seq::empty(), ids: Seq::empty() }),
        invariant
            i <= head@.len(),
            forall|j: int| 0 <= j < i ==> !is_title_node(head@[j]),
        ensures
            i <= head@.len(),
            forall|j: int| 0 <= j < i ==> !is_title_node(head@[j]),
            i < head@.len() ==> is_title_node(head@[i as int]) && parser.state() == (DomState {
                title: title_spec(
                    DomState { title: None, lines: Seq::empty(), styles: Seq::empty(), ids: Seq::empty() },
                    head@[i as int]->Element_0,
                ).title,
                lines: seq![empty_line()],
                styles: Seq::empty(),
                ids: Seq::empty(),
            }),
            i == head@.len() ==> parser.state() == (DomState {
                title: None,
                lines: seq![empty_line()],
                styles: Seq::empty(),
                ids: Seq::empty(),
            }),
        decreases head@.len() - i,
    {
        if let HtmlNode::Element(e) = &head[i] {
            if name_is(&e.name, "title") {
                parser.load_title(e);
                break;
            }
        }
        i = i + 1;
    }
    proof {
        if i < head@.len() {
            let c = choose|c: int|
                0 <= c < head@.len() && is_title_node(head@[c]) && forall|j: int| 0 <= j < c ==> !is_title_node(head@[j]);
            if c < i {
                assert(!is_title_node(head@[c]));
            }
            if i < c {
                assert(!is_title_node(head@[i as int]));
            }
        }
        assert(parser.state() == start_state(head@));
    }
    parser.convert_node(body);
    let mut content = parser.finalize();
    if custom_title.is_some() {
        content.title = custom_title;
    }
    content
}

/// Styles never change the text: the lines keep their number and their characters.
pub proof fn law_styles_keep_text(state: (Seq<LineValue>, Seq<BlockStyle>), styles: Seq<StyleDescription>)
    ensures
        apply_styles(state, styles).0.len() == state.0.len(),
        forall|k: int| 0 <= k < state.0.len() ==> #[trigger] apply_styles(state, styles).0[k].0 == state.0[k].0,
    decreases styles.len(),
{
    if styles.len() > 0 {
        law_styles_keep_text(state, styles.drop_last());
    }
}

/// A finished document has at least one line, and its last line holds text.
pub proof fn law_finished_lines_end_with_text(s: DomState)
    ensures
        finished_lines(s).0.len() > 0,
        finished_lines(s).0.last().0.len() > 0,
{
    reveal_strlit("No content.");
    lemma_trimmed_ends_with_text(s.lines);
    let lines = trim_trailing_empty(s.lines);
    if lines.len() > 0 {
        law_styles_keep_text((lines, Seq::empty()), s.styles);
        assert(finished_lines(s).0[lines.len() - 1].0 == lines[lines.len() - 1].0);
    }
}

proof fn lemma_trimmed_ends_with_text(lines: Seq<LineValue>)
    ensures
        trim_trailing_empty(lines).len() > 0 ==> trim_trailing_empty(lines).last().0.len() > 0,
    decreases lines.len(),
{
    if lines.len() > 0 && lines.last().0.len() == 0 {
        lemma_trimmed_ends_with_text(lines.drop_last());
    }
}

} // verus!
