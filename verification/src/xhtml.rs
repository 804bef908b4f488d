//! Turning XHTML into HTML that the HTML parser reads: named entities become numeric ones,
//! and the document is written out again from the `html` element on, with end tags for
//! the elements that XML wrote as empty.

use vstd::prelude::*;

use quick_xml::events::{BytesStart, Event};
use quick_xml::Reader;

use crate::search::at_boundary;
use crate::strings::{ends_with, lowercase, str_chars, str_ends_with, str_to_lowercase, string_push, string_push_str};

verus! {

/// The named entities of XHTML that an XML reader does not know, each with its numeric
/// form.
pub open spec fn xhtml_entities() -> Seq<(Seq<char>, Seq<char>)> {
    seq![
        ("&Aacute;"@, "&#193;"@),
        ("&aacute;"@, "&#225;"@),
        ("&Acirc;"@, "&#194;"@),
        ("&acirc;"@, "&#226;"@),
        ("&acute;"@, "&#180;"@),
        ("&AElig;"@, "&#198;"@),
        ("&aelig;"@, "&#230;"@),
        ("&Agrave;"@, "&#192;"@),
        ("&agrave;"@, "&#224;"@),
        ("&Aring;"@, "&#197;"@),
        ("&aring;"@, "&#229;"@),
        ("&Atilde;"@, "&#195;"@),
        ("&atilde;"@, "&#227;"@),
        ("&Auml;"@, "&#196;"@),
        ("&auml;"@, "&#228;"@),
        ("&brvbar;"@, "&#166;"@),
        ("&Ccedil;"@, "&#199;"@),
        ("&ccedil;"@, "&#231;"@),
        ("&cedil;"@, "&#184;"@),
        ("&cent;"@, "&#162;"@),
        ("&copy;"@, "&#169;"@),
        ("&curren;"@, "&#164;"@),
        ("&deg;"@, "&#176;"@),
        ("&divide;"@, "&#247;"@),
        ("&Eacute;"@, "&#201;"@),
        ("&eacute;"@, "&#233;"@),
        ("&Ecirc;"@, "&#202;"@),
        ("&ecirc;"@, "&#234;"@),
        ("&Egrave;"@, "&#200;"@),
        ("&egrave;"@, "&#232;"@),
        ("&eth;"@, "&#208;"@),
        ("&eth;"@, "&#240;"@),
        ("&Euml;"@, "&#203;"@),
        ("&euml;"@, "&#235;"@),
        ("&frac12;"@, "&#189;"@),
        ("&frac14;"@, "&#188;"@),
        ("&frac34;"@, "&#190;"@),
        ("&Iacute;"@, "&#205;"@),
        ("&iacute;"@, "&#237;"@),
        ("&Icirc;"@, "&#206;"@),
        ("&icirc;"@, "&#238;"@),
        ("&Igrave;"@, "&#204;"@),
        ("&igrave;"@, "&#236;"@),
        ("&iquest;"@, "&#191;"@),
        ("&Iuml;"@, "&#207;"@),
        ("&iuml;"@, "&#239;"@),
        ("&laquo;"@, "&#171;"@),
        ("&macr;"@, "&#175;"@),
        ("&micro;"@, "&#181;"@),
        ("&middot;"@, "&#183;"@),
        ("&nbsp;"@, "&#160;"@),
        ("&not;"@, "&#172;"@),
        ("&Ntilde;"@, "&#209;"@),
        ("&ntilde;"@, "&#241;"@),
        ("&Oacute;"@, "&#211;"@),
        ("&oacute;"@, "&#243;"@),
        ("&Ocirc;"@, "&#212;"@),
        ("&ocirc;"@, "&#244;"@),
        ("&Ograve;"@, "&#210;"@),
        ("&ograve;"@, "&#242;"@),
        ("&ordf;"@, "&#170;"@),
        ("&ordm;"@, "&#186;"@),
        ("&Oslash;"@, "&#216;"@),
        ("&oslash;"@, "&#248;"@),
        ("&Otilde;"@, "&#213;"@),
        ("&otilde;"@, "&#245;"@),
        ("&Ouml;"@, "&#214;"@),
        ("&ouml;"@, "&#246;"@),
        ("&para;"@, "&#182;"@),
        ("&plusmn;"@, "&#177;"@),
        ("&pound;"@, "&#163;"@),
        ("&raquo;"@, "&#187;"@),
        ("&reg;"@, "&#174;"@),
        ("&sect;"@, "&#167;"@),
        ("&shy;"@, "&#173;"@),
        ("&sup1;"@, "&#185;"@),
        ("&sup2;"@, "&#178;"@),
        ("&sup3;"@, "&#179;"@),
        ("&szlig;"@, "&#223;"@),
        ("&thorn;"@, "&#222;"@),
        ("&thorn;"@, "&#254;"@),
        ("&times;"@, "&#215;"@),
        ("&Uacute;"@, "&#218;"@),
        ("&uacute;"@, "&#250;"@),
        ("&Ucirc;"@, "&#219;"@),
        ("&ucirc;"@, "&#251;"@),
        ("&Ugrave;"@, "&#217;"@),
        ("&ugrave;"@, "&#249;"@),
        ("&uml;"@, "&#168;"@),
        ("&Uuml;"@, "&#220;"@),
        ("&uuml;"@, "&#252;"@),
        ("&Yacute;"@, "&#221;"@),
        ("&yacute;"@, "&#253;"@),
        ("&yen;"@, "&#165;"@),
        ("&yuml;"@, "&#255;"@)
    ]
}

fn entity_table() -> (t: Vec<(&'static str, &'static str)>)
    ensures
        t@.map_values(|p: (&'static str, &'static str)| (p.0@, p.1@)) == xhtml_entities(),
{
    let mut table: Vec<(&'static str, &'static str)> = Vec::new();
    table.push(("&Aacute;", "&#193;"));
    table.push(("&aacute;", "&#225;"));
    table.push(("&Acirc;", "&#194;"));
    table.push(("&acirc;", "&#226;"));
    table.push(("&acute;", "&#180;"));
    table.push(("&AElig;", "&#198;"));
    table.push(("&aelig;", "&#230;"));
    table.push(("&Agrave;", "&#192;"));
    table.push(("&agrave;", "&#224;"));
    table.push(("&Aring;", "&#197;"));
    table.push(("&aring;", "&#229;"));
    table.push(("&Atilde;", "&#195;"));
    table.push(("&atilde;", "&#227;"));
    table.push(("&Auml;", "&#196;"));
    table.push(("&auml;", "&#228;"));
    table.push(("&brvbar;", "&#166;"));
    table.push(("&Ccedil;", "&#199;"));
    table.push(("&ccedil;", "&#231;"));
    table.push(("&cedil;", "&#184;"));
    table.push(("&cent;", "&#162;"));
    table.push(("&copy;", "&#169;"));
    table.push(("&curren;", "&#164;"));
    table.push(("&deg;", "&#176;"));
    table.push(("&divide;", "&#247;"));
    table.push(("&Eacute;", "&#201;"));
    table.push(("&eacute;", "&#233;"));
    table.push(("&Ecirc;", "&#202;"));
    table.push(("&ecirc;", "&#234;"));
    table.push(("&Egrave;", "&#200;"));
    table.push(("&egrave;", "&#232;"));
    table.push(("&eth;", "&#208;"));
    table.push(("&eth;", "&#240;"));
    table.push(("&Euml;", "&#203;"));
    table.push(("&euml;", "&#235;"));
    table.push(("&frac12;", "&#189;"));
    table.push(("&frac14;", "&#188;"));
    table.push(("&frac34;", "&#190;"));
    table.push(("&Iacute;", "&#205;"));
    table.push(("&iacute;", "&#237;"));
    table.push(("&Icirc;", "&#206;"));
    table.push(("&icirc;", "&#238;"));
    table.push(("&Igrave;", "&#204;"));
    table.push(("&igrave;", "&#236;"));
    table.push(("&iquest;", "&#191;"));
    table.push(("&Iuml;", "&#207;"));
    table.push(("&iuml;", "&#239;"));
    table.push(("&laquo;", "&#171;"));
    table.push(("&macr;", "&#175;"));
    table.push(("&micro;", "&#181;"));
    table.push(("&middot;", "&#183;"));
    table.push(("&nbsp;", "&#160;"));
    table.push(("&not;", "&#172;"));
    table.push(("&Ntilde;", "&#209;"));
    table.push(("&ntilde;", "&#241;"));
    table.push(("&Oacute;", "&#211;"));
    table.push(("&oacute;", "&#243;"));
    table.push(("&Ocirc;", "&#212;"));
    table.push(("&ocirc;", "&#244;"));
    table.push(("&Ograve;", "&#210;"));
    table.push(("&ograve;", "&#242;"));
    table.push(("&ordf;", "&#170;"));
    table.push(("&ordm;", "&#186;"));
    table.push(("&Oslash;", "&#216;"));
    table.push(("&oslash;", "&#248;"));
    table.push(("&Otilde;", "&#213;"));
    table.push(("&otilde;", "&#245;"));
    table.push(("&Ouml;", "&#214;"));
    table.push(("&ouml;", "&#246;"));
    table.push(("&para;", "&#182;"));
    table.push(("&plusmn;", "&#177;"));
    table.push(("&pound;", "&#163;"));
    table.push(("&raquo;", "&#187;"));
    table.push(("&reg;", "&#174;"));
    table.push(("&sect;", "&#167;"));
    table.push(("&shy;", "&#173;"));
    table.push(("&sup1;", "&#185;"));
    table.push(("&sup2;", "&#178;"));
    table.push(("&sup3;", "&#179;"));
    table.push(("&szlig;", "&#223;"));
    table.push(("&thorn;", "&#222;"));
    table.push(("&thorn;", "&#254;"));
    table.push(("&times;", "&#215;"));
    table.push(("&Uacute;", "&#218;"));
    table.push(("&uacute;", "&#250;"));
    table.push(("&Ucirc;", "&#219;"));
    table.push(("&ucirc;", "&#251;"));
    table.push(("&Ugrave;", "&#217;"));
    table.push(("&ugrave;", "&#249;"));
    table.push(("&uml;", "&#168;"));
    table.push(("&Uuml;", "&#220;"));
    table.push(("&uuml;", "&#252;"));
    table.push(("&Yacute;", "&#221;"));
    table.push(("&yacute;", "&#253;"));
    table.push(("&yen;", "&#165;"));
    table.push(("&yuml;", "&#255;"));
    assert(table@.map_values(|p: (&'static str, &'static str)| (p.0@, p.1@)) =~= xhtml_entities());
    table
}

/// The numeric form of the first entry of `table`, among its first `n`, named `entity`.
pub open spec fn find_entity(table: Seq<(Seq<char>, Seq<char>)>, entity: Seq<char>, n: int) -> Option<
    Seq<char>,
>
    decreases n,
{
    if n <= 0 {
        None
    } else {
        match find_entity(table, entity, n - 1) {
            Some(code) => Some(code),
            None => if table[n - 1].0 == entity {
                Some(table[n - 1].1)
            } else {
                None
            },
        }
    }
}

/// The numeric form of a named entity, `&` and `;` included.
pub open spec fn entity_code(entity: Seq<char>) -> Option<Seq<char>> {
    find_entity(xhtml_entities(), entity, xhtml_entities().len() as int)
}

/// One character of the rewriting: outside an entity a `&` starts one and other
/// characters are kept; inside, characters are gathered up to `;`, and then the entity is
/// written in numeric form when it is a known one, as it was else.
pub open spec fn preprocess_step(state: (Seq<char>, Seq<char>), ch: char) -> (Seq<char>, Seq<char>) {
    let (text, entity) = state;
    if entity.len() == 0 {
        if ch == '&' {
            (text, seq!['&'])
        } else {
            (text.push(ch), entity)
        }
    } else {
        let entity = entity.push(ch);
        if ch == ';' {
            match entity_code(entity) {
                Some(code) => (text + code, Seq::empty()),
                None => (text + entity, Seq::empty()),
            }
        } else {
            (text, entity)
        }
    }
}

/// The text written so far and the entity being gathered, after the characters of `s`.
pub open spec fn preprocess_state(s: Seq<char>) -> (Seq<char>, Seq<char>)
    decreases s.len(),
{
    if s.len() == 0 {
        (Seq::empty(), Seq::empty())
    } else {
        preprocess_step(preprocess_state(s.drop_last()), s.last())
    }
}

/// `xhtml` with its known named entities in numeric form; an entity left open at the end
/// is kept as it is.
pub open spec fn preprocess_spec(xhtml: Seq<char>) -> Seq<char> {
    preprocess_state(xhtml).0 + preprocess_state(xhtml).1
}

fn same_chars(a: &Vec<char>, b: &Vec<char>) -> (r: bool)
    ensures
        r == (a@ == b@),
{
    if a.len() != b.len() {
        return false;
    }
    assert(a@.subrange(a@.len() - b@.len(), a@.len() as int) =~= a@);
    crate::strings::chars_end_with(a, b)
}

fn lookup_entity(table: &Vec<(&'static str, &'static str)>, entity: &Vec<char>) -> (r: Option<&'static str>)
    requires
        table@.map_values(|p: (&'static str, &'static str)| (p.0@, p.1@)) == xhtml_entities(),
    ensures
        match r {
            Some(code) => entity_code(entity@) == Some(code@),
            None => entity_code(entity@) is None,
        },
{
    let ghost t = xhtml_entities();
    let mut i: usize = 0;
    while i < table.len()
        invariant
            i <= table@.len(),
            table@.map_values(|p: (&'static str, &'static str)| (p.0@, p.1@)) == t,
            t == xhtml_entities(),
            find_entity(t, entity@, i as int) is None,
        decreases table@.len() - i,
    {
        let (name, code) = table[i];
        assert(t[i as int] == (name@, code@));
        if same_chars(&str_chars(name), entity) {
            proof {
                lemma_find_entity_rest(t, entity@, i as int + 1, t.len() as int);
            }
            return Some(code);
        }
        i = i + 1;
    }
    None
}

proof fn lemma_find_entity_rest(table: Seq<(Seq<char>, Seq<char>)>, entity: Seq<char>, n: int, m: int)
    requires
        0 <= n <= m,
        find_entity(table, entity, n) is Some,
    ensures
        find_entity(table, entity, m) == find_entity(table, entity, n),
    decreases m - n,
{
    if m > n {
        lemma_find_entity_rest(table, entity, n, m - 1);
    }
}

/// Writes the known named entities of `xhtml` in numeric form, as `preprocess_spec` says.
pub fn preprocess(xhtml: &str) -> (r: String)
    ensures
        r@ == preprocess_spec(xhtml@),
{
    let table = entity_table();
    let chars = str_chars(xhtml);
    let mut text = String::new();
    let mut entity: Vec<char> = Vec::new();
    let mut i: usize = 0;
    while i < chars.len()
        invariant
            i <= chars@.len(),
            chars@ == xhtml@,
            table@.map_values(|p: (&'static str, &'static str)| (p.0@, p.1@)) == xhtml_entities(),
            (text@, entity@) == preprocess_state(chars@.take(i as int)),
        decreases chars@.len() - i,
    {
        let ch = chars[i];
        assert(chars@.take(i + 1).drop_last() == chars@.take(i as int));
        if entity.len() == 0 {
            if ch == '&' {
                entity.push('&');
                assert(entity@ == seq!['&']);
            } else {
                string_push(&mut text, ch);
            }
        } else {
            entity.push(ch);
            if ch == ';' {
                match lookup_entity(&table, &entity) {
                    Some(code) => string_push_str(&mut text, code),
                    None => {
                        let e = crate::strings::string_from_chars(&entity);
                        string_push_str(&mut text, e.as_str());
                    },
                }
                entity = Vec::new();
            }
        }
        i = i + 1;
    }
    assert(chars@.take(i as int) == chars@);
    if entity.len() > 0 {
        let e = crate::strings::string_from_chars(&entity);
        string_push_str(&mut text, e.as_str());
    } else {
        assert(text@ + entity@ == text@);
    }
    text
}

/// The elements of HTML that have no end tag.
pub open spec fn void_elements() -> Seq<Seq<char>> {
    seq![
        "area"@, "base"@, "br"@, "col"@, "command"@, "embed"@, "hr"@, "img"@, "input"@,
        "keygen"@, "link"@, "meta"@, "param"@, "source"@, "track"@, "wbr"@,
    ]
}

/// Whether `name` is an element of HTML that has no end tag.
pub fn is_void_element(name: &str) -> (r: bool)
    ensures
        r == void_elements().contains(name@),
{
    let mut elements: Vec<&'static str> = Vec::new();
    elements.push("area");
    elements.push("base");
    elements.push("br");
    elements.push("col");
    elements.push("command");
    elements.push("embed");
    elements.push("hr");
    elements.push("img");
    elements.push("input");
    elements.push("keygen");
    elements.push("link");
    elements.push("meta");
    elements.push("param");
    elements.push("source");
    elements.push("track");
    elements.push("wbr");
    let ghost v = void_elements();
    assert(elements@.map_values(|e: &'static str| e@) =~= v);
    let target = str_chars(name);
    let mut i: usize = 0;
    while i < elements.len()
        invariant
            i <= elements@.len(),
            elements@.map_values(|e: &'static str| e@) == v,
            v == void_elements(),
            target@ == name@,
            forall|j: int| 0 <= j < i ==> v[j] != name@,
        decreases elements@.len() - i,
    {
        assert(v[i as int] == elements@[i as int]@);
        if same_chars(&str_chars(elements[i]), &target) {
            assert(v[i as int] == name@);
            return true;
        }
        i = i + 1;
    }
    false
}

/// Writes the end tag of element `name`; nothing for an element that has none.
pub fn write_end(name: &str, html: &mut String)
    ensures
        final(html)@ == (if void_elements().contains(name@) {
            old(html)@
        } else {
            old(html)@ + "</"@ + name@ + ">"@
        }),
{
    if is_void_element(name) {
        return;
    }
    string_push_str(html, "</");
    string_push_str(html, name);
    string_push(html, '>');
    proof {
        reveal_strlit(">");
        assert(">"@ == seq!['>']);
    }
}

#[verifier::external_type_specification]
#[verifier::external_body]
#[verifier::reject_recursive_types(R)]
pub struct ExXmlReader<R>(Reader<R>);

/// An event of an XML reader, as plain values: a start tag or an empty tag with its content
/// (name and attributes), its name and the byte length of the name; an end tag's name;
/// text; another kind of event; the end of the input; an error.
pub enum XmlEvent {
    Start(String, String, usize),
    End(String),
    Empty(String, String, usize),
    Text(String),
    Other,
    Eof,
    Error,
}

/// An attribute of a tag: its prefix, local name and value.
pub struct XmlAttr {
    pub prefix: Option<String>,
    pub local: String,
    pub value: String,
}

/// An event of an XML reader, seen as values.
pub enum XmlEventView {
    Start(Seq<char>, Seq<char>, usize),
    End(Seq<char>),
    Empty(Seq<char>, Seq<char>, usize),
    Text(Seq<char>),
    Other,
    Eof,
    Error,
}

/// An attribute, seen as values.
pub struct XmlAttrView {
    pub prefix: Option<Seq<char>>,
    pub local: Seq<char>,
    pub value: Seq<char>,
}

pub open spec fn event_view(e: XmlEvent) -> XmlEventView {
    match e {
        XmlEvent::Start(raw, name, n) => XmlEventView::Start(raw@, name@, n),
        XmlEvent::End(name) => XmlEventView::End(name@),
        XmlEvent::Empty(raw, name, n) => XmlEventView::Empty(raw@, name@, n),
        XmlEvent::Text(t) => XmlEventView::Text(t@),
        XmlEvent::Other => XmlEventView::Other,
        XmlEvent::Eof => XmlEventView::Eof,
        XmlEvent::Error => XmlEventView::Error,
    }
}

pub open spec fn attr_view(a: XmlAttr) -> XmlAttrView {
    XmlAttrView {
        prefix: match a.prefix {
            Some(p) => Some(p@),
            None => None,
        },
        local: a.local@,
        value: a.value@,
    }
}

pub open spec fn attrs_view(v: Seq<XmlAttr>) -> Seq<XmlAttrView> {
    v.map_values(|a: XmlAttr| attr_view(a))
}

/// The events that quick-xml's reader, trimming text, reads from `text`: up to and
/// including the end of the input or the first error.
pub uninterp spec fn xml_events_of(text: Seq<char>) -> Seq<XmlEventView>;

/// The events that a reader has yet to give, up to and including the end of the input or
/// the first error.
pub uninterp spec fn reader_events(reader: Reader<&[u8]>) -> Seq<XmlEventView>;

/// The attributes that quick-xml reads from the content of a tag whose name is its first
/// `name_len` bytes; `None` when one of them is malformed.
pub uninterp spec fn xml_tag_attributes(content: Seq<char>, name_len: usize) -> Option<Seq<XmlAttrView>>;

/// A stream of events ends with the end of the input or an error, and holds neither before.
pub open spec fn events_end(events: Seq<XmlEventView>) -> bool {
    &&& events.len() > 0
    &&& (events.last() is Eof || events.last() is Error)
    &&& forall|i: int| 0 <= i < events.len() - 1 ==> !(#[trigger] events[i] is Eof) && !(events[i] is Error)
}

/// `quick_xml::Reader::from_str`, with text trimmed as the reader's configuration allows:
/// a reader of the events of `text`, which end with the end of the input or an error.
#[verifier::external_body]
fn new_reader(text: &str) -> (r: Reader<&[u8]>)
    ensures
        reader_events(r) == xml_events_of(text@),
        events_end(reader_events(r)),
{
    let mut reader = Reader::from_str(text);
    reader.config_mut().trim_text(true);
    reader
}

/// `Reader::read_event`: the next event, as values; the name of a tag ends at a character
/// boundary of its content.
#[verifier::external_body]
fn read_event(reader: &mut Reader<&[u8]>) -> (e: XmlEvent)
    requires
        reader_events(*old(reader)).len() > 0,
    ensures
        event_view(e) == reader_events(*old(reader))[0],
        reader_events(*final(reader)) == reader_events(*old(reader)).drop_first(),
        e matches XmlEvent::Start(raw, _, n) ==> at_boundary(raw@, n),
        e matches XmlEvent::Empty(raw, _, n) ==> at_boundary(raw@, n),
{
    match reader.read_event() {
        Ok(Event::Start(e)) => XmlEvent::Start(e.to_string(), e.name().as_ref().to_owned(), e.name().as_ref().len()),
        Ok(Event::End(e)) => XmlEvent::End(e.name().as_ref().to_owned()),
        Ok(Event::Empty(e)) => XmlEvent::Empty(e.to_string(), e.name().as_ref().to_owned(), e.name().as_ref().len()),
        Ok(Event::Text(e)) => XmlEvent::Text(e.into_inner().into_owned()),
        Ok(Event::Eof) => XmlEvent::Eof,
        Ok(_) => XmlEvent::Other,
        Err(_) => XmlEvent::Error,
    }
}

/// `BytesStart::attributes` of the tag whose content is `content` and whose name is its
/// first `name_len` bytes.
#[verifier::external_body]
fn tag_attributes(content: &str, name_len: usize) -> (r: Option<Vec<XmlAttr>>)
    requires
        at_boundary(content@, name_len),
    ensures
        match r {
            Some(v) => xml_tag_attributes(content@, name_len) == Some(attrs_view(v@)),
            None => xml_tag_attributes(content@, name_len) is None,
        },
{
    let attrs: Result<Vec<XmlAttr>, _> = BytesStart::from_content(content, name_len).attributes().map(|a| a.map(|a| XmlAttr {
        prefix: a.key.prefix().map(|p| p.as_ref().to_owned()),
        local: a.key.local_name().as_ref().to_owned(),
        value: a.value.into_owned(),
    })).collect();
    attrs.ok()
}

/// The attributes of a tag as HTML writes them: each after a space, its prefix and `:`
/// when it has one, its local name, `=` and its value in double quotes.
pub open spec fn attrs_html(attrs: Seq<XmlAttrView>) -> Seq<char>
    decreases attrs.len(),
{
    if attrs.len() == 0 {
        Seq::empty()
    } else {
        let a = attrs.last();
        attrs_html(attrs.drop_last()) + " "@ + (match a.prefix {
            Some(p) => p + ":"@,
            None => Seq::empty(),
        }) + a.local + "=\""@ + a.value + "\""@
    }
}

/// A start tag as HTML writes it, when its attributes are well formed.
pub open spec fn start_tag_html(content: Seq<char>, name_len: usize) -> Option<Seq<char>> {
    match xml_tag_attributes(content, name_len) {
        Some(attrs) => Some("<"@ + content + attrs_html(attrs) + ">"@),
        None => None,
    }
}

/// An end tag as HTML writes it: none for an element that has none.
pub open spec fn end_tag_html(name: Seq<char>) -> Seq<char> {
    if void_elements().contains(name) {
        Seq::empty()
    } else {
        "</"@ + name + ">"@
    }
}

/// Where the writing of HTML stands: still reading, with whether the `html` element was
/// met and what was written; done; or failed.
pub enum XhtmlState {
    Reading(bool, Seq<char>),
    Closed(Seq<char>),
    Failed,
}

/// The writing of HTML after one more event: nothing is written before the `html` element
/// starts; an end of `html` met before it starts ends the writing.
pub open spec fn xhtml_step(state: XhtmlState, ev: XmlEventView) -> XhtmlState {
    match state {
        XhtmlState::Reading(found, out) => match ev {
            XmlEventView::Start(content, name, n) => if found || name == "html"@ {
                match start_tag_html(content, n) {
                    Some(tag) => XhtmlState::Reading(true, out + tag),
                    None => XhtmlState::Failed,
                }
            } else {
                state
            },
            XmlEventView::End(name) => if found {
                XhtmlState::Reading(true, out + end_tag_html(name))
            } else if name == "html"@ {
                XhtmlState::Closed(out + "</html>"@)
            } else {
                state
            },
            XmlEventView::Empty(content, name, n) => if found {
                match start_tag_html(content, n) {
                    Some(tag) => XhtmlState::Reading(true, out + tag + end_tag_html(name)),
                    None => XhtmlState::Failed,
                }
            } else {
                state
            },
            XmlEventView::Text(t) => if found {
                XhtmlState::Reading(true, out + t)
            } else {
                state
            },
            XmlEventView::Other => state,
            XmlEventView::Eof => XhtmlState::Closed(out),
            XmlEventView::Error => XhtmlState::Failed,
        },
        _ => state,
    }
}

/// The writing of HTML after a stream of events.
pub open spec fn xhtml_fold(events: Seq<XmlEventView>) -> XhtmlState
    decreases events.len(),
{
    if events.len() == 0 {
        XhtmlState::Reading(false, Seq::empty())
    } else {
        xhtml_step(xhtml_fold(events.drop_last()), events.last())
    }
}

/// Why XHTML could not be turned into HTML.
#[derive(Debug, PartialEq, Eq, Structural)]
pub enum XhtmlError {
    /// The document, or a tag's attributes, could not be read as XML.
    Malformed,
}

/// The HTML written for an XHTML document, or the error met.
pub open spec fn xhtml_result(xhtml: Seq<char>) -> Result<Seq<char>, XhtmlError> {
    match xhtml_fold(xml_events_of(preprocess_spec(xhtml))) {
        XhtmlState::Reading(_, out) => Ok(out),
        XhtmlState::Closed(out) => Ok(out),
        XhtmlState::Failed => Err(XhtmlError::Malformed),
    }
}

proof fn lemma_fold_settled(events: Seq<XmlEventView>, k: int)
    requires
        0 <= k <= events.len(),
        !(xhtml_fold(events.take(k)) is Reading),
    ensures
        xhtml_fold(events) == xhtml_fold(events.take(k)),
    decreases events.len() - k,
{
    if k < events.len() {
        assert(events.take(k + 1).drop_last() =~= events.take(k));
        lemma_fold_settled(events, k + 1);
    } else {
        assert(events.take(k) =~= events);
    }
}

/// Writes the start tag of `content`, with its attributes; `false` when they are
/// malformed.
fn write_start(content: &String, name_len: usize, html: &mut String) -> (ok: bool)
    requires
        at_boundary(content@, name_len),
    ensures
        match start_tag_html(content@, name_len) {
            Some(tag) => ok && final(html)@ == old(html)@ + tag,
            None => !ok,
        },
{
    let attrs = match tag_attributes(content.as_str(), name_len) {
        Some(attrs) => attrs,
        None => {
            return false;
        },
    };
    string_push(html, '<');
    string_push_str(html, content.as_str());
    let ghost base = html@;
    let mut i: usize = 0;
    while i < attrs.len()
        invariant
            i <= attrs@.len(),
            html@ == base + attrs_html(attrs_view(attrs@).take(i as int)),
        decreases attrs@.len() - i,
    {
        let a = &attrs[i];
        let ghost before = html@;
        string_push(html, ' ');
        match &a.prefix {
            Some(p) => {
                string_push_str(html, p.as_str());
                string_push(html, ':');
            },
            None => {},
        }
        string_push_str(html, a.local.as_str());
        string_push_str(html, "=\"");
        string_push_str(html, a.value.as_str());
        string_push(html, '"');
        proof {
            reveal_strlit(" ");
            reveal_strlit(":");
            reveal_strlit("\"");
            let t = attrs_view(attrs@).take(i + 1);
            assert(t.drop_last() =~= attrs_view(attrs@).take(i as int));
            assert(t.last() == attr_view(*a));
            assert(html@ =~= before + " "@ + (match attr_view(*a).prefix {
                Some(p) => p + ":"@,
                None => Seq::empty(),
            }) + attr_view(*a).local + "=\""@ + attr_view(*a).value + "\""@);
        }
        i = i + 1;
    }
    string_push(html, '>');
    proof {
        reveal_strlit("<");
        reveal_strlit(">");
        assert(attrs_view(attrs@).take(attrs@.len() as int) =~= attrs_view(attrs@));
        assert(html@ =~= old(html)@ + ("<"@ + content@ + attrs_html(attrs_view(attrs@)) + ">"@));
    }
    true
}

/// The HTML of an XHTML document: its named entities made numeric, then, from the start of
/// the `html` element on, each tag written again with its attributes, an end tag added
/// for each empty element that has one in HTML, and text kept; an error when the document
/// or a tag's attributes cannot be read.
pub fn xhtml_to_html(xhtml: &str) -> (r: Result<String, XhtmlError>)
    ensures
        match xhtml_result(xhtml@) {
            Ok(out) => r is Ok && r->Ok_0@ == out,
            Err(e) => r == Err::<String, XhtmlError>(e),
        },
{
    let text = preprocess(xhtml);
    let mut reader = new_reader(text.as_str());
    let ghost all = xml_events_of(text@);
    let ghost mut k: int = 0;
    let mut html = String::new();
    let mut found = false;
    assert(all.take(0) =~= Seq::<XmlEventView>::empty());
    loop
        invariant
            all == xml_events_of(text@),
            text@ == preprocess_spec(xhtml@),
            events_end(all),
            0 <= k < all.len(),
            reader_events(reader) == all.skip(k),
            xhtml_fold(all.take(k)) == XhtmlState::Reading(found, html@),
        decreases all.len() - k,
    {
        let ghost ev = all[k];
        let ghost t = all.take(k + 1);
        proof {
            assert(t.drop_last() =~= all.take(k));
            assert(t.last() == ev);
            assert(all.skip(k)[0] == ev);
            assert(all.skip(k).drop_first() =~= all.skip(k + 1));
        }
        let ghost old_html = html@;
        let ghost old_found = found;
        let e = read_event(&mut reader);
        proof {
            k = k + 1;
            assert(event_view(e) == ev);
            assert(xhtml_fold(t) == xhtml_step(XhtmlState::Reading(old_found, old_html), ev));
        }
        match e {
            XmlEvent::Start(content, name, n) => {
                if found || name == String::from_str("html") {
                    if !write_start(&content, n, &mut html) {
                        proof {
                            lemma_fold_settled(all, k);
                        }
                        return Err(XhtmlError::Malformed);
                    }
                    found = true;
                }
            },
            XmlEvent::End(name) => {
                if found {
                    write_end(name.as_str(), &mut html);
                    assert(html@ =~= old_html + end_tag_html(name@));
                } else if name == String::from_str("html") {
                    string_push_str(&mut html, "</html>");
                    proof {
                        lemma_fold_settled(all, k);
                    }
                    return Ok(html);
                }
            },
            XmlEvent::Empty(content, name, n) => {
                if found {
                    if !write_start(&content, n, &mut html) {
                        proof {
                            lemma_fold_settled(all, k);
                        }
                        return Err(XhtmlError::Malformed);
                    }
                    let ghost mid = html@;
                    write_end(name.as_str(), &mut html);
                    assert(html@ =~= mid + end_tag_html(name@));
                    assert(html@ =~= old_html + start_tag_html(content@, n)->0 + end_tag_html(name@));
                }
            },
            XmlEvent::Text(text_event) => {
                if found {
                    string_push_str(&mut html, text_event.as_str());
                }
            },
            XmlEvent::Other => {},
            XmlEvent::Eof => {
                proof {
                    lemma_fold_settled(all, k);
                }
                return Ok(html);
            },
            XmlEvent::Error => {
                proof {
                    lemma_fold_settled(all, k);
                }
                return Err(XhtmlError::Malformed);
            },
        }
        assert(k < all.len());
    }
}

/// The HTML to parse for the document at `path`: an XHTML document, by its extension in
/// any case, turned into HTML; any other taken as it is.
pub fn html_source(path: &str, text: String) -> (r: Result<String, XhtmlError>)
    ensures
        ends_with(lowercase(path@), ".xhtml"@) ==> match xhtml_result(text@) {
            Ok(out) => r is Ok && r->Ok_0@ == out,
            Err(e) => r == Err::<String, XhtmlError>(e),
        },
        !ends_with(lowercase(path@), ".xhtml"@) ==> r is Ok && r->Ok_0@ == text@,
{
    let lower = str_to_lowercase(path);
    if str_ends_with(lower.as_str(), ".xhtml") {
        xhtml_to_html(text.as_str())
    } else {
        Ok(text)
    }
}

} // verus!
