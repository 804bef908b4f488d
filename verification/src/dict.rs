//! Dictionary definitions as HTML: the definitions a lookup found, each under the name of
//! its dictionary; in definitions written in HTML, images made to name the dictionary they
//! come from and underlined words made into links that look the word up.

use vstd::prelude::*;

use crate::common::{char_index_at_byte, char_index_for_byte};
use crate::search::{
    all_captures, captures_placed, captures_view, lemma_char_index_bounds, regex_all_captures, SearchRegex,
};
use crate::strings::{str_chars, string_push, string_push_str};

verus! {

/// The pattern of the parts of a definition that are rewritten: an image's `src` (groups
/// 1 to 3), or an underlined word (groups 6 and 7).
pub const INJECT_REGEXP: &'static str = r#"(<[\\s]*img[^>]+src[\\s]*=[\\s]*")([^"]+)("[^>]*>)|((<[\\s]*u)([^>]*>)(((?!</u>).)*)(</u>))"#;

/// The character index of byte `b` of `text`.
pub open spec fn at_char(text: Seq<char>, b: usize) -> int {
    char_index_at_byte(text, b as int)->0
}

/// The characters of a capture group.
pub open spec fn group_text(text: Seq<char>, g: Option<(usize, usize)>) -> Seq<char> {
    text.subrange(at_char(text, (g->0).0), at_char(text, (g->0).1))
}

/// A match of an image: groups 1, 2 and 3 took part.
pub open spec fn is_image_match(cap: Seq<Option<(usize, usize)>>) -> bool {
    cap.len() > 3 && cap[1] is Some && cap[2] is Some && cap[3] is Some
}

/// A match of an underlined word: groups 6 and 7 took part.
pub open spec fn is_word_match(cap: Seq<Option<(usize, usize)>>) -> bool {
    cap.len() > 7 && cap[6] is Some && cap[7] is Some
}

/// Every match is of an image or of an underlined word.
pub open spec fn captures_injectable(caps: Seq<Seq<Option<(usize, usize)>>>) -> bool {
    forall|i: int| 0 <= i < caps.len() ==> is_image_match(#[trigger] caps[i]) || is_word_match(caps[i])
}

/// What a match is replaced by: an image's source prefixed with `dict` and `:`; an
/// underlined word as a link whose target is the word.
pub open spec fn injected_match(text: Seq<char>, dict: Seq<char>, cap: Seq<Option<(usize, usize)>>) -> Seq<char> {
    if is_image_match(cap) {
        group_text(text, cap[1]) + dict + ":"@ + group_text(text, cap[2]) + group_text(text, cap[3])
    } else {
        "<a href=\""@ + group_text(text, cap[7]) + "\""@ + group_text(text, cap[6]) + group_text(text, cap[7])
            + "</a>"@
    }
}

/// The character index where the last match ends, 0 when there is none.
pub open spec fn matches_end(text: Seq<char>, caps: Seq<Seq<Option<(usize, usize)>>>) -> int {
    if caps.len() == 0 {
        0
    } else {
        at_char(text, (caps.last()[0]->0).1)
    }
}

/// The text up to the end of the last match, each match replaced.
pub open spec fn injected_prefix(text: Seq<char>, dict: Seq<char>, caps: Seq<Seq<Option<(usize, usize)>>>) -> Seq<
    char,
>
    decreases caps.len(),
{
    if caps.len() == 0 {
        Seq::empty()
    } else {
        let before = caps.drop_last();
        injected_prefix(text, dict, before) + text.subrange(matches_end(text, before), at_char(text, (caps.last()[0]->0).0))
            + injected_match(text, dict, caps.last())
    }
}

/// The text with each match replaced.
pub open spec fn injected(text: Seq<char>, dict: Seq<char>, caps: Seq<Seq<Option<(usize, usize)>>>) -> Seq<char> {
    injected_prefix(text, dict, caps) + text.subrange(matches_end(text, caps), text.len() as int)
}

/// Whether the search of `pattern` in `text` succeeds and every match is of an image or
/// of an underlined word.
pub open spec fn dict_injectable(pattern: Seq<char>, text: Seq<char>) -> bool {
    regex_all_captures(pattern, text) matches Some(caps) && captures_injectable(caps)
}

proof fn lemma_char_index_monotone(s: Seq<char>, b1: int, b2: int)
    requires
        b1 <= b2,
        char_index_at_byte(s, b1) is Some,
        char_index_at_byte(s, b2) is Some,
    ensures
        char_index_at_byte(s, b1)->0 <= char_index_at_byte(s, b2)->0,
    decreases s.len(),
{
    if b1 != 0 {
        lemma_char_index_monotone(s.drop_first(), b1 - crate::strings::utf8_width(s[0]), b2
            - crate::strings::utf8_width(s[0]));
    } else {
        lemma_char_index_bounds(s, b2);
    }
}

/// The character index of byte `b`, which is at a character boundary.
fn char_at_byte(html: &str, b: usize) -> (k: usize)
    requires
        char_index_at_byte(html@, b as int) is Some,
    ensures
        k == at_char(html@, b),
        k <= html@.len(),
{
    proof {
        lemma_char_index_bounds(html@, b as int);
    }
    match char_index_for_byte(html, b) {
        Some(k) => k,
        None => 0,
    }
}

fn push_range(out: &mut String, chars: &Vec<char>, from: usize, to: usize)
    requires
        from <= to <= chars@.len(),
    ensures
        final(out)@ == old(out)@ + chars@.subrange(from as int, to as int),
{
    let mut i = from;
    while i < to
        invariant
            from <= i <= to <= chars@.len(),
            out@ == old(out)@ + chars@.subrange(from as int, i as int),
        decreases to - i,
    {
        string_push(out, chars[i]);
        i = i + 1;
        assert(out@ =~= old(out)@ + chars@.subrange(from as int, i as int));
    }
}

fn push_group(out: &mut String, html: &str, chars: &Vec<char>, g: Option<(usize, usize)>)
    requires
        chars@ == html@,
        g is Some,
        crate::search::group_placed(html@, g),
    ensures
        final(out)@ == old(out)@ + group_text(html@, g),
{
    match g {
        Some((s, e)) => {
            proof {
                lemma_char_index_monotone(html@, s as int, e as int);
            }
            let from = char_at_byte(html, s);
            let to = char_at_byte(html, e);
            push_range(out, chars, from, to);
        },
        None => {},
    }
}

/// Whether every match is of an image or of an underlined word.
pub fn captures_are_injectable(caps: &Vec<Vec<Option<(usize, usize)>>>) -> (r: bool)
    ensures
        r == captures_injectable(captures_view(caps@)),
{
    let mut i: usize = 0;
    while i < caps.len()
        invariant
            i <= caps@.len(),
            forall|j: int|
                0 <= j < i ==> is_image_match(#[trigger] captures_view(caps@)[j]) || is_word_match(
                    captures_view(caps@)[j],
                ),
        decreases caps@.len() - i,
    {
        let cap = &caps[i];
        let image = cap.len() > 3 && cap[1].is_some() && cap[2].is_some() && cap[3].is_some();
        let word = cap.len() > 7 && cap[6].is_some() && cap[7].is_some();
        assert(captures_view(caps@)[i as int] == cap@);
        if !image && !word {
            return false;
        }
        i = i + 1;
    }
    true
}

/// A definition in HTML with each match, whose capture groups `caps` gives, replaced.
pub fn inject_captures(html: &str, dict_name: &str, caps: &Vec<Vec<Option<(usize, usize)>>>) -> (r: String)
    requires
        captures_placed(html@, captures_view(caps@)),
        captures_injectable(captures_view(caps@)),
    ensures
        r@ == injected(html@, dict_name@, captures_view(caps@)),
{
    let chars = str_chars(html);
    let ghost all = captures_view(caps@);
    let mut out = String::new();
    let mut last: usize = 0;
    let mut i: usize = 0;
    while i < caps.len()
        invariant
            chars@ == html@,
            all == captures_view(caps@),
            captures_placed(html@, all),
            captures_injectable(all),
            i <= caps@.len(),
            last == matches_end(html@, all.take(i as int)),
            last <= html@.len(),
            i > 0 ==> last == at_char(html@, (all[i - 1][0]->0).1),
            out@ == injected_prefix(html@, dict_name@, all.take(i as int)),
        decreases caps@.len() - i,
    {
        let cap = &caps[i];
        let ghost c = all[i as int];
        assert(c == cap@);
        assert(all.take(i + 1).drop_last() =~= all.take(i as int));
        assert(all.take(i + 1).last() == c);
        assert(crate::search::group_placed(html@, c[0]));
        let (start, end) = match cap[0] {
            Some(range) => range,
            None => (0, 0),
        };
        proof {
            if i > 0 {
                assert(((all[i - 1])[0]->0).1 <= ((all[i as int])[0]->0).0);
                lemma_char_index_monotone(html@, ((all[i - 1])[0]->0).1 as int, start as int);
            }
            lemma_char_index_monotone(html@, start as int, end as int);
        }
        let from = char_at_byte(html, start);
        let to = char_at_byte(html, end);
        push_range(&mut out, &chars, last, from);
        let image = cap.len() > 3 && cap[1].is_some() && cap[2].is_some() && cap[3].is_some();
        if image {
            assert(crate::search::group_placed(html@, c[1]));
            assert(crate::search::group_placed(html@, c[2]));
            assert(crate::search::group_placed(html@, c[3]));
            push_group(&mut out, html, &chars, cap[1]);
            string_push_str(&mut out, dict_name);
            string_push_str(&mut out, ":");
            push_group(&mut out, html, &chars, cap[2]);
            push_group(&mut out, html, &chars, cap[3]);
        } else {
            assert(is_word_match(c));
            assert(crate::search::group_placed(html@, c[6]));
            assert(crate::search::group_placed(html@, c[7]));
            string_push_str(&mut out, "<a href=\"");
            push_group(&mut out, html, &chars, cap[7]);
            string_push_str(&mut out, "\"");
            push_group(&mut out, html, &chars, cap[6]);
            push_group(&mut out, html, &chars, cap[7]);
            string_push_str(&mut out, "</a>");
        }
        assert(out@ =~= injected_prefix(html@, dict_name@, all.take(i + 1)));
        last = to;
        i = i + 1;
    }
    assert(all.take(caps@.len() as int) =~= all);
    push_range(&mut out, &chars, last, chars.len());
    out
}

/// A definition in HTML whose image sources are prefixed with the dictionary's name and
/// whose underlined words are made links to themselves; every match of `replacer` must
/// be of an image or of an underlined word.
pub fn inject_definition(html: &str, dict_name: &str, replacer: &SearchRegex) -> (r: String)
    requires
        dict_injectable(replacer@, html@),
    ensures
        r@ == injected(html@, dict_name@, regex_all_captures(replacer@, html@)->0),
{
    match all_captures(replacer, html) {
        Some(caps) => inject_captures(html, dict_name, &caps),
        None => String::new(),
    }
}

/// `inject_definition` where the search succeeds and every match is of an image or of an
/// underlined word; `None` elsewhere.
pub fn try_inject_definition(html: &str, dict_name: &str, replacer: &SearchRegex) -> (r: Option<String>)
    ensures
        r is Some <==> dict_injectable(replacer@, html@),
        r matches Some(s) ==> s@ == injected(html@, dict_name@, regex_all_captures(replacer@, html@)->0),
{
    if is_injectable(html, replacer) {
        Some(inject_definition(html, dict_name, replacer))
    } else {
        None
    }
}

/// Whether the search of `replacer` in `html` succeeds with every match of an image or of
/// an underlined word.
pub fn is_injectable(html: &str, replacer: &SearchRegex) -> (r: bool)
    ensures
        r == dict_injectable(replacer@, html@),
{
    match all_captures(replacer, html) {
        Some(caps) => captures_are_injectable(&caps),
        None => false,
    }
}

/// A segment of a definition: the types of its content, and the content.
pub struct WordDefinitionSegment {
    pub types: String,
    pub text: String,
}

/// The definition of a word: the word and the segments that define it.
pub struct WordDefinition {
    pub word: String,
    pub segments: Vec<WordDefinitionSegment>,
}

/// The definitions that one dictionary holds for a word.
pub struct LookupResult {
    pub dict_name: String,
    pub definitions: Vec<WordDefinition>,
}

/// A character written as HTML text: `&`, `<` and `>` as entities.
pub open spec fn escaped_char(c: char) -> Seq<char> {
    if c == '&' {
        "&amp;"@
    } else if c == '<' {
        "&lt;"@
    } else if c == '>' {
        "&gt;"@
    } else {
        seq![c]
    }
}

/// Text written as HTML text, as `html_escape::encode_text` writes it.
pub open spec fn html_escaped(s: Seq<char>) -> Seq<char>
    decreases s.len(),
{
    if s.len() == 0 {
        Seq::empty()
    } else {
        html_escaped(s.drop_last()) + escaped_char(s.last())
    }
}

/// Text with each line feed replaced by a line break.
pub open spec fn with_breaks(s: Seq<char>) -> Seq<char>
    decreases s.len(),
{
    if s.len() == 0 {
        Seq::empty()
    } else {
        with_breaks(s.drop_last()) + (if s.last() == '\n' {
            "<br>"@
        } else {
            seq![s.last()]
        })
    }
}

/// Whether the types of a segment say its content is HTML: they hold `h` or `g`.
pub open spec fn is_html_segment(types: Seq<char>) -> bool {
    types.contains('h') || types.contains('g')
}

/// A segment as HTML: content in HTML with its images and underlined words rewritten,
/// other content escaped; line feeds as line breaks.
pub open spec fn segment_html(seg: WordDefinitionSegment, dict: Seq<char>, pattern: Seq<char>) -> Seq<char> {
    with_breaks(
        if is_html_segment(seg.types@) {
            injected(seg.text@, dict, regex_all_captures(pattern, seg.text@)->0)
        } else {
            html_escaped(seg.text@)
        },
    )
}

/// Segments as HTML, one after the other.
pub open spec fn segments_html(segs: Seq<WordDefinitionSegment>, dict: Seq<char>, pattern: Seq<char>) -> Seq<char>
    decreases segs.len(),
{
    if segs.len() == 0 {
        Seq::empty()
    } else {
        segments_html(segs.drop_last(), dict, pattern) + segment_html(segs.last(), dict, pattern)
    }
}

/// Definitions as HTML: each word as a heading, then its segments.
pub open spec fn definitions_html(defs: Seq<WordDefinition>, dict: Seq<char>, pattern: Seq<char>) -> Seq<char>
    decreases defs.len(),
{
    if defs.len() == 0 {
        Seq::empty()
    } else {
        let d = defs.last();
        definitions_html(defs.drop_last(), dict, pattern) + "<h3 class=\"dict-word\">"@ + d.word@ + "</h3>"@
            + segments_html(d.segments@, dict, pattern)
    }
}

/// The definitions of one dictionary as HTML: the dictionary's name as a heading, then the
/// definitions.
pub open spec fn lookup_html(result: LookupResult, pattern: Seq<char>) -> Seq<char> {
    "<h3 class=\"dict-name\">"@ + result.dict_name@ + "</h3>"@ + definitions_html(result.definitions@, result.dict_name@, pattern)
}

/// Every segment in HTML can be rewritten by `pattern`.
pub open spec fn lookup_injectable(result: LookupResult, pattern: Seq<char>) -> bool {
    forall|i: int, j: int|
        0 <= i < result.definitions@.len() && 0 <= j < result.definitions@[i].segments@.len()
            && is_html_segment(#[trigger] result.definitions@[i].segments@[j].types@) ==> dict_injectable(
            pattern,
            result.definitions@[i].segments@[j].text@,
        )
}

/// `html_escape::encode_text`: appends `text` written as HTML text.
pub fn encode_text(text: &str, out: &mut String)
    ensures
        final(out)@ == old(out)@ + html_escaped(text@),
{
    let chars = str_chars(text);
    let mut i: usize = 0;
    while i < chars.len()
        invariant
            chars@ == text@,
            i <= chars@.len(),
            out@ == old(out)@ + html_escaped(chars@.take(i as int)),
        decreases chars@.len() - i,
    {
        let c = chars[i];
        let ghost before = out@;
        if c == '&' {
            string_push_str(out, "&amp;");
        } else if c == '<' {
            string_push_str(out, "&lt;");
        } else if c == '>' {
            string_push_str(out, "&gt;");
        } else {
            string_push(out, c);
        }
        proof {
            assert(chars@.take(i + 1).drop_last() =~= chars@.take(i as int));
            assert(chars@.take(i + 1).last() == c);
            assert(out@ =~= before + escaped_char(c));
        }
        i = i + 1;
    }
    assert(chars@.take(chars@.len() as int) =~= chars@);
}

/// Appends `text` with each line feed written as a line break.
fn push_with_breaks(text: &str, out: &mut String)
    ensures
        final(out)@ == old(out)@ + with_breaks(text@),
{
    let chars = str_chars(text);
    let mut i: usize = 0;
    while i < chars.len()
        invariant
            chars@ == text@,
            i <= chars@.len(),
            out@ == old(out)@ + with_breaks(chars@.take(i as int)),
        decreases chars@.len() - i,
    {
        let c = chars[i];
        let ghost before = out@;
        if c == '\n' {
            string_push_str(out, "<br>");
        } else {
            string_push(out, c);
        }
        proof {
            assert(chars@.take(i + 1).drop_last() =~= chars@.take(i as int));
            assert(chars@.take(i + 1).last() == c);
            assert(out@ =~= before + (if c == '\n' {
                "<br>"@
            } else {
                seq![c]
            }));
        }
        i = i + 1;
    }
    assert(chars@.take(chars@.len() as int) =~= chars@);
}

fn has_char(s: &str, c: char) -> (r: bool)
    ensures
        r == s@.contains(c),
{
    let chars = str_chars(s);
    let mut i: usize = 0;
    while i < chars.len()
        invariant
            chars@ == s@,
            i <= chars@.len(),
            forall|j: int| 0 <= j < i ==> chars@[j] != c,
        decreases chars@.len() - i,
    {
        if chars[i] == c {
            return true;
        }
        i = i + 1;
    }
    false
}

/// Appends the definitions of one dictionary as HTML.
pub fn render_definition(result: &LookupResult, text: &mut String, replacer: &SearchRegex)
    requires
        lookup_injectable(*result, replacer@),
    ensures
        final(text)@ == old(text)@ + lookup_html(*result, replacer@),
{
    let dict = result.dict_name.as_str();
    string_push_str(text, "<h3 class=\"dict-name\">");
    string_push_str(text, dict);
    string_push_str(text, "</h3>");
    let ghost head = text@;
    let mut i: usize = 0;
    while i < result.definitions.len()
        invariant
            i <= result.definitions@.len(),
            lookup_injectable(*result, replacer@),
            dict@ == result.dict_name@,
            text@ == head + definitions_html(result.definitions@.take(i as int), dict@, replacer@),
        decreases result.definitions@.len() - i,
    {
        let definition = &result.definitions[i];
        let ghost before = text@;
        string_push_str(text, "<h3 class=\"dict-word\">");
        string_push_str(text, definition.word.as_str());
        string_push_str(text, "</h3>");
        let ghost word_done = text@;
        let mut j: usize = 0;
        while j < definition.segments.len()
            invariant
                i < result.definitions@.len(),
                *definition == result.definitions@[i as int],
                j <= definition.segments@.len(),
                lookup_injectable(*result, replacer@),
                dict@ == result.dict_name@,
                text@ == word_done + segments_html(definition.segments@.take(j as int), dict@, replacer@),
            decreases definition.segments@.len() - j,
        {
            let segment = &definition.segments[j];
            let ghost seg_before = text@;
            let html_content = has_char(segment.types.as_str(), 'h') || has_char(segment.types.as_str(), 'g');
            let mut content = String::new();
            if html_content {
                assert(is_html_segment(result.definitions@[i as int].segments@[j as int].types@));
                content = inject_definition(segment.text.as_str(), dict, replacer);
            } else {
                encode_text(segment.text.as_str(), &mut content);
            }
            push_with_breaks(content.as_str(), text);
            proof {
                let t = definition.segments@.take(j + 1);
                assert(t.drop_last() =~= definition.segments@.take(j as int));
                assert(t.last() == *segment);
                assert(content@ == (if is_html_segment(segment.types@) {
                    injected(segment.text@, dict@, regex_all_captures(replacer@, segment.text@)->0)
                } else {
                    html_escaped(segment.text@)
                }));
                assert(text@ =~= word_done + segments_html(t, dict@, replacer@));
            }
            j = j + 1;
        }
        proof {
            let t = result.definitions@.take(i + 1);
            assert(t.drop_last() =~= result.definitions@.take(i as int));
            assert(t.last() == *definition);
            assert(definition.segments@.take(definition.segments@.len() as int) =~= definition.segments@);
            assert(text@ =~= head + definitions_html(t, dict@, replacer@));
        }
        i = i + 1;
    }
    proof {
        assert(result.definitions@.take(result.definitions@.len() as int) =~= result.definitions@);
        assert(text@ =~= old(text)@ + lookup_html(*result, replacer@));
    }
}

/// `render_definition` when every segment in HTML can be rewritten, and `true`; `false`,
/// with `text` left as it was, elsewhere.
pub fn try_render_definition(result: &LookupResult, text: &mut String, replacer: &SearchRegex) -> (r: bool)
    ensures
        r == lookup_injectable(*result, replacer@),
        r ==> final(text)@ == old(text)@ + lookup_html(*result, replacer@),
        !r ==> final(text)@ == old(text)@,
{
    let mut i: usize = 0;
    while i < result.definitions.len()
        invariant
            i <= result.definitions@.len(),
            forall|a: int, b: int|
                0 <= a < i && 0 <= b < result.definitions@[a].segments@.len() && is_html_segment(
                    #[trigger] result.definitions@[a].segments@[b].types@,
                ) ==> dict_injectable(replacer@, result.definitions@[a].segments@[b].text@),
        decreases result.definitions@.len() - i,
    {
        let definition = &result.definitions[i];
        let mut j: usize = 0;
        while j < definition.segments.len()
            invariant
                i < result.definitions@.len(),
                *definition == result.definitions@[i as int],
                j <= definition.segments@.len(),
                forall|a: int, b: int|
                    0 <= a < i && 0 <= b < result.definitions@[a].segments@.len() && is_html_segment(
                        #[trigger] result.definitions@[a].segments@[b].types@,
                    ) ==> dict_injectable(replacer@, result.definitions@[a].segments@[b].text@),
                forall|b: int|
                    0 <= b < j && is_html_segment(#[trigger] definition.segments@[b].types@) ==> dict_injectable(
                        replacer@,
                        definition.segments@[b].text@,
                    ),
            decreases definition.segments@.len() - j,
        {
            let segment = &definition.segments[j];
            let html_content = has_char(segment.types.as_str(), 'h') || has_char(segment.types.as_str(), 'g');
            if html_content && !is_injectable(segment.text.as_str(), replacer) {
                assert(is_html_segment(result.definitions@[i as int].segments@[j as int].types@));
                return false;
            }
            j = j + 1;
        }
        i = i + 1;
    }
    render_definition(result, text, replacer);
    true
}

/// The page of a word's definitions: a style and the definitions of each dictionary in
/// turn; `None` when a segment in HTML cannot be rewritten.
pub fn definitions_page(results: &Vec<LookupResult>, replacer: &SearchRegex) -> (r: Option<String>)
    ensures
        r is Some <==> forall|i: int| 0 <= i < results@.len() ==> lookup_injectable(#[trigger] results@[i], replacer@),
        r matches Some(page) ==> page@ == HTML_DEFINITION_HEAD@ + lookup_pages(results@, replacer@) + HTML_DEFINITION_TAIL@,
{
    let mut text = String::from_str(HTML_DEFINITION_HEAD);
    let ghost head = text@;
    let mut i: usize = 0;
    while i < results.len()
        invariant
            i <= results@.len(),
            head == HTML_DEFINITION_HEAD@,
            text@ == head + lookup_pages(results@.take(i as int), replacer@),
            forall|k: int| 0 <= k < i ==> lookup_injectable(#[trigger] results@[k], replacer@),
        decreases results@.len() - i,
    {
        if !try_render_definition(&results[i], &mut text, replacer) {
            return None;
        }
        proof {
            let t = results@.take(i + 1);
            assert(t.drop_last() =~= results@.take(i as int));
            assert(t.last() == results@[i as int]);
            assert(text@ =~= head + lookup_pages(t, replacer@));
        }
        i = i + 1;
    }
    assert(results@.take(results@.len() as int) =~= results@);
    string_push_str(&mut text, HTML_DEFINITION_TAIL);
    Some(text)
}

/// The definitions of each dictionary as HTML, one after the other.
pub open spec fn lookup_pages(results: Seq<LookupResult>, pattern: Seq<char>) -> Seq<char>
    decreases results.len(),
{
    if results.len() == 0 {
        Seq::empty()
    } else {
        lookup_pages(results.drop_last(), pattern) + lookup_html(results.last(), pattern)
    }
}

/// What a page of definitions starts with: the style of the dictionary names.
pub const HTML_DEFINITION_HEAD: &'static str = "\n<style type=\"text/css\">\n\t.dict-name {\n\t  color: blue;\n\t}\n\t.dict-word {\n\t}\n</style>\n<body>\n";

/// What a page of definitions ends with.
pub const HTML_DEFINITION_TAIL: &'static str = "</body>";

/// Segments as plain paragraphs: each segment's text, unchanged, in a paragraph of its own.
pub open spec fn segments_text_html(segs: Seq<WordDefinitionSegment>) -> Seq<char>
    decreases segs.len(),
{
    if segs.len() == 0 {
        Seq::empty()
    } else {
        segments_text_html(segs.drop_last()) + "<p>"@ + segs.last().text@ + "</p>"@
    }
}

/// Definitions as plain HTML: each word as a bold heading, then its segments as paragraphs.
pub open spec fn definitions_text_html(defs: Seq<WordDefinition>) -> Seq<char>
    decreases defs.len(),
{
    if defs.len() == 0 {
        Seq::empty()
    } else {
        let d = defs.last();
        definitions_text_html(defs.drop_last()) + "<h><b>"@ + d.word@ + "</b></h>"@ + segments_text_html(
            d.segments@,
        )
    }
}

/// The plain page of one dictionary's definitions: its name as a blue bold heading and a
/// break, then the definitions, in a document of its own.
pub open spec fn lookup_text_html(result: LookupResult) -> Seq<char> {
    "<html><body>"@ + "<h style='color: blue;'><b>"@ + result.dict_name@ + "</b></h><br/>"@
        + definitions_text_html(result.definitions@) + "</body></html>"@
}

/// The plain page of one dictionary's definitions, which is laid out when the styled page
/// of all the definitions cannot be: segments are written as they are, with no rewriting.
pub fn render_definition_text(result: &LookupResult) -> (html: String)
    ensures
        html@ == lookup_text_html(*result),
{
    let mut html = String::from_str("<html><body>");
    string_push_str(&mut html, "<h style='color: blue;'><b>");
    string_push_str(&mut html, result.dict_name.as_str());
    string_push_str(&mut html, "</b></h><br/>");
    let ghost head = html@;
    let mut i: usize = 0;
    while i < result.definitions.len()
        invariant
            i <= result.definitions@.len(),
            html@ == head + definitions_text_html(result.definitions@.take(i as int)),
        decreases result.definitions@.len() - i,
    {
        let definition = &result.definitions[i];
        string_push_str(&mut html, "<h><b>");
        string_push_str(&mut html, definition.word.as_str());
        string_push_str(&mut html, "</b></h>");
        let ghost word_done = html@;
        let mut j: usize = 0;
        while j < definition.segments.len()
            invariant
                i < result.definitions@.len(),
                *definition == result.definitions@[i as int],
                j <= definition.segments@.len(),
                html@ == word_done + segments_text_html(definition.segments@.take(j as int)),
            decreases definition.segments@.len() - j,
        {
            let segment = &definition.segments[j];
            string_push_str(&mut html, "<p>");
            string_push_str(&mut html, segment.text.as_str());
            string_push_str(&mut html, "</p>");
            proof {
                let t = definition.segments@.take(j + 1);
                assert(t.drop_last() =~= definition.segments@.take(j as int));
                assert(t.last() == *segment);
                assert(html@ =~= word_done + segments_text_html(t));
            }
            j = j + 1;
        }
        proof {
            let t = result.definitions@.take(i + 1);
            assert(t.drop_last() =~= result.definitions@.take(i as int));
            assert(t.last() == *definition);
            assert(definition.segments@.take(definition.segments@.len() as int) =~= definition.segments@);
            assert(html@ =~= head + definitions_text_html(t));
        }
        i = i + 1;
    }
    assert(result.definitions@.take(result.definitions@.len() as int) =~= result.definitions@);
    string_push_str(&mut html, "</body></html>");
    html
}

/// A definition in which nothing matches is kept as it is.
pub proof fn law_no_match_keeps_text(text: Seq<char>, dict: Seq<char>)
    ensures
        injected(text, dict, Seq::empty()) == text,
{
    assert(text.subrange(0, text.len() as int) =~= text);
    assert(Seq::<char>::empty() + text =~= text);
}

/// Text written as HTML text holds no `<` or `>`: it cannot open or close a tag.
pub proof fn law_escaped_text_has_no_markup(s: Seq<char>)
    ensures
        forall|i: int| 0 <= i < html_escaped(s).len() ==> #[trigger] html_escaped(s)[i] != '<' && html_escaped(s)[i] != '>',
    decreases s.len(),
{
    reveal_strlit("&amp;");
    reveal_strlit("&lt;");
    reveal_strlit("&gt;");
    if s.len() > 0 {
        law_escaped_text_has_no_markup(s.drop_last());
        let e = html_escaped(s);
        let p = html_escaped(s.drop_last());
        let c = escaped_char(s.last());
        assert(e == p + c);
        assert forall|i: int| 0 <= i < e.len() implies e[i] != '<' && e[i] != '>' by {
            if i >= p.len() {
                assert(e[i] == c[i - p.len()]);
            } else {
                assert(e[i] == p[i]);
            }
        }
    }
}

} // verus!
