//! The text and block styles that parsed HTML attaches to lines.

use vstd::prelude::*;

use std::ops::Range;

use crate::book::Line;
use crate::color::Color32;
use crate::common::Position;

verus! {

/// The default CSS font weight.
pub const DEFAULT_FONT_WEIGHT: u16 = 400;

/// A font face declared by a style sheet: where its files are and its family name.
pub struct HtmlFontFaceDesc {
    pub sources: Vec<String>,
    pub family: String,
}

/// A CSS font weight, 1 to 1000 by CSS; 400 is normal and 700 bold.
#[derive(Clone, Copy, Debug)]
pub struct FontWeight(pub u16);

/// The value of a `font-weight` declaration.
#[derive(Clone, Copy, Debug)]
pub enum FontWeightValue {
    Absolute(FontWeight),
    Bolder,
    Lighter,
}

/// The weight that `bolder` gives for an inherited weight.
pub open spec fn bolder_weight(w: u16) -> u16 {
    if w <= 300 {
        400
    } else if w <= 500 {
        700
    } else {
        900
    }
}

/// The weight that `lighter` gives for an inherited weight.
pub open spec fn lighter_weight(w: u16) -> u16 {
    if w <= 500 {
        100
    } else if w <= 700 {
        400
    } else {
        700
    }
}

/// The weight after applying `value` to an inherited weight `w`.
pub open spec fn updated_weight(w: u16, value: FontWeightValue) -> u16 {
    match value {
        FontWeightValue::Absolute(weight) => weight.0,
        FontWeightValue::Bolder => bolder_weight(w),
        FontWeightValue::Lighter => lighter_weight(w),
    }
}

/// Within the weights from 100 to 900, `bolder` never gives a lighter weight and
/// `lighter` never a heavier one.
pub proof fn law_bolder_lighter_order(w: u16)
    requires
        100 <= w <= 900,
    ensures
        bolder_weight(w) >= w,
        lighter_weight(w) <= w,
{
}

impl FontWeight {
    /// Normal weight, 400.
    pub fn normal() -> (w: FontWeight)
        ensures
            w.0 == DEFAULT_FONT_WEIGHT,
    {
        FontWeight(DEFAULT_FONT_WEIGHT)
    }

    /// Bold weight, 700.
    pub fn bold() -> (w: FontWeight)
        ensures
            w.0 == 700,
    {
        FontWeight(700)
    }

    /// The weight in tens, as one byte (for cache keys).
    #[inline]
    pub fn key(&self) -> (k: u8)
        ensures
            k == (self.0 / 10) % 256,
    {
        let t: u16 = self.0 / 10;
        let k: u8 = #[verifier::truncate] (t as u8);
        assert(k == t % 256) by (bit_vector)
            requires
                k == #[verifier::truncate] (t as u8),
        ;
        k
    }

    #[inline]
    pub fn value(&self) -> (v: u16)
        ensures
            v == self.0,
    {
        self.0
    }

    /// The weight used to draw outlined glyphs: the weight itself.
    #[inline]
    pub fn outlined(&self) -> (v: u16)
        ensures
            v == self.0,
    {
        self.value()
    }

    #[inline]
    pub fn is_default(&self) -> (d: bool)
        ensures
            d == (self.0 == DEFAULT_FONT_WEIGHT),
    {
        self.0 == DEFAULT_FONT_WEIGHT
    }

    /// Applies a `font-weight` value to this (inherited) weight.
    #[inline]
    pub fn update(&mut self, value: &FontWeightValue)
        ensures
            final(self).0 == updated_weight(old(self).0, *value),
    {
        self.0 = match value {
            FontWeightValue::Absolute(weight) => weight.0,
            FontWeightValue::Bolder => if self.0 <= 300 {
                400
            } else if self.0 <= 500 {
                700
            } else {
                900
            },
            FontWeightValue::Lighter => if self.0 <= 500 {
                100
            } else if self.0 <= 700 {
                400
            } else {
                700
            },
        };
    }
}

impl Default for FontWeight {
    fn default() -> (w: Self)
        ensures
            w.0 == DEFAULT_FONT_WEIGHT,
    {
        FontWeight(DEFAULT_FONT_WEIGHT)
    }
}

#[derive(Clone, Copy, Debug)]
pub enum TextDecorationStyle {
    Solid,
    Double,
    Dotted,
    Dashed,
    Wavy,
}

/// Which lines a text decoration draws: a set of bits.
#[derive(Clone, Copy, Debug)]
pub struct TextDecorationLine {
    pub bits: u8,
}

impl TextDecorationLine {
    pub fn underline() -> (l: Self)
        ensures
            l.bits == 1,
    {
        TextDecorationLine { bits: 0b0000_0001 }
    }

    pub fn overline() -> (l: Self)
        ensures
            l.bits == 2,
    {
        TextDecorationLine { bits: 0b0000_0010 }
    }

    pub fn line_through() -> (l: Self)
        ensures
            l.bits == 4,
    {
        TextDecorationLine { bits: 0b0000_0100 }
    }

    /// Keeps only the bits that name a line.
    pub fn from_bits_truncate(bits: u8) -> (l: Self)
        ensures
            l.bits == bits & 7,
    {
        TextDecorationLine { bits: bits & 0b0000_0111 }
    }
}

/// Which sides of a block a border draws: a set of bits.
#[derive(Clone, Copy, Debug)]
pub struct BorderLines {
    pub bits: u8,
}

impl BorderLines {
    pub fn top() -> (l: Self)
        ensures
            l.bits == 1,
    {
        BorderLines { bits: 0x01 }
    }

    pub fn right() -> (l: Self)
        ensures
            l.bits == 2,
    {
        BorderLines { bits: 0x02 }
    }

    pub fn bottom() -> (l: Self)
        ensures
            l.bits == 4,
    {
        BorderLines { bits: 0x04 }
    }

    pub fn left() -> (l: Self)
        ensures
            l.bits == 8,
    {
        BorderLines { bits: 0x08 }
    }
}

/// A style that spans whole blocks of lines.
#[allow(inconsistent_fields)]
pub enum BlockStyle {
    Border { range: Range<usize>, lines: BorderLines, color: Option<Color32> },
    Background { range: Range<usize>, color: Color32 },
}

#[derive(Clone, Copy, Debug)]
pub struct TextDecoration {
    pub line: TextDecorationLine,
    pub style: TextDecorationStyle,
    pub color: Option<Color32>,
}

impl TextDecoration {
    /// A solid decoration of the given lines, in the text color.
    pub fn line(line: TextDecorationLine) -> (d: Self)
        ensures
            d.line == line,
            d.style == TextDecorationStyle::Solid,
            d.color is None,
    {
        TextDecoration { line, style: TextDecorationStyle::Solid, color: None }
    }
}

/// A size relative to the root font size. The scale factor is a 32-bit float, kept here
/// by its bit pattern.
#[derive(Clone, Copy, Debug)]
pub struct ElementSize {
    pub scale_bits: u32,
    pub relative: bool,
}

impl ElementSize {
    #[inline]
    pub fn relative(&self) -> (r: bool)
        ensures
            r == self.relative,
    {
        self.relative
    }
}

/// The width or height of an image: a font-relative size, or a percentage (a 32-bit
/// float, kept by its bit pattern).
#[derive(Clone, Copy, Debug)]
pub enum ImageLength {
    ElementSize(ElementSize),
    Percent(u32),
}

#[derive(Clone, Debug)]
pub struct ImageStyle {
    pub href: String,
    pub width: Option<ImageLength>,
    pub height: Option<ImageLength>,
}

impl ImageStyle {
    #[inline]
    pub fn href(&self) -> (h: &str)
        ensures
            h@ == self.href@,
    {
        self.href.as_str()
    }
}

/// A style of a range of characters in a line.
#[derive(Clone, Debug)]
pub enum TextStyle {
    Decoration(TextDecoration),
    Border(BorderLines, Option<Color32>),
    FontSize(ElementSize),
    FontWeight(FontWeightValue),
    FontFamily(u16),
    Image(ImageStyle),
    Link(String),
    Color(Color32),
    BackgroundColor(Color32),
    Title(String),
}

/// The rank of a style kind, used to order nested styles.
pub open spec fn style_id(style: TextStyle) -> usize {
    match style {
        TextStyle::Decoration(..) => 1,
        TextStyle::Border(..) => 2,
        TextStyle::FontSize(..) => 3,
        TextStyle::FontWeight(..) => 4,
        TextStyle::FontFamily(..) => 5,
        TextStyle::Image(..) => 6,
        TextStyle::Link(..) => 7,
        TextStyle::Color(..) => 8,
        TextStyle::BackgroundColor(..) => 9,
        TextStyle::Title(..) => 10,
    }
}

impl TextStyle {
    #[inline]
    pub fn id(&self) -> (i: usize)
        ensures
            i == style_id(*self),
    {
        match self {
            TextStyle::Decoration(..) => 1,
            TextStyle::Border(..) => 2,
            TextStyle::FontSize(..) => 3,
            TextStyle::FontWeight(..) => 4,
            TextStyle::FontFamily(..) => 5,
            TextStyle::Image(..) => 6,
            TextStyle::Link(..) => 7,
            TextStyle::Color(..) => 8,
            TextStyle::BackgroundColor(..) => 9,
            TextStyle::Title(..) => 10,
        }
    }
}

/// What an element of the document sets while it is open: a text style, an image size,
/// the start of a paragraph, or that its content is hidden.
pub enum ParseTag {
    Style(TextStyle),
    Width(ImageLength),
    Height(ImageLength),
    Paragraph,
    Hidden,
}

/// The rank of a tag: that of its style kind for a style; the others after all styles.
pub open spec fn tag_id(tag: ParseTag) -> usize {
    match tag {
        ParseTag::Style(style) => style_id(style),
        ParseTag::Paragraph => 1000,
        ParseTag::Width(_) => 1001,
        ParseTag::Height(_) => 1002,
        ParseTag::Hidden => 9999,
    }
}

impl ParseTag {
    /// The rank of the tag.
    pub fn id(&self) -> (i: usize)
        ensures
            i == tag_id(*self),
    {
        match self {
            ParseTag::Style(style) => style.id(),
            ParseTag::Paragraph => 1000,
            ParseTag::Width(_) => 1001,
            ParseTag::Height(_) => 1002,
            ParseTag::Hidden => 9999,
        }
    }
}

/// A tag, and whether it was set as `!important`.
pub struct LeveledParseTag(pub ParseTag, pub bool);

/// The tags in force, at most one of each rank, ordered from the highest rank down.
pub open spec fn tags_ordered(tags: Seq<LeveledParseTag>) -> bool {
    forall|i: int, j: int| 0 <= i < j < tags.len() ==> tag_id(#[trigger] tags[i].0) > tag_id(#[trigger] tags[j].0)
}

/// Whether a tag of rank `id` is in force.
pub open spec fn has_tag(tags: Seq<LeveledParseTag>, id: usize) -> bool {
    exists|i: int| 0 <= i < tags.len() && tag_id(#[trigger] tags[i].0) == id
}

/// Whether the tag of rank `id` was set as `!important`.
pub open spec fn tag_important(tags: Seq<LeveledParseTag>, id: usize) -> bool {
    tags[choose|i: int| 0 <= i < tags.len() && tag_id(#[trigger] tags[i].0) == id].1
}

/// An `!important` tag is not replaced by one that is not.
pub open spec fn keeps_old_tag(tags: Seq<LeveledParseTag>, id: usize, important: bool) -> bool {
    has_tag(tags, id) && !important && tag_important(tags, id)
}

/// The index of the tag of rank `id`.
pub open spec fn rank_index(tags: Seq<LeveledParseTag>, id: usize) -> int {
    choose|i: int| 0 <= i < tags.len() && tag_id(#[trigger] tags[i].0) == id
}

/// Where a tag of rank `id` goes among ordered tags: after those of higher rank, before
/// those of lower.
pub open spec fn rank_place(tags: Seq<LeveledParseTag>, id: usize, p: int) -> bool {
    &&& 0 <= p <= tags.len()
    &&& forall|k: int| 0 <= k < p ==> tag_id(#[trigger] tags[k].0) > id
    &&& forall|k: int| p <= k < tags.len() ==> tag_id(#[trigger] tags[k].0) < id
}

/// The place for a tag of rank `id` among ordered tags that hold none.
pub open spec fn insert_position(tags: Seq<LeveledParseTag>, id: usize) -> int {
    choose|p: int| rank_place(tags, id, p)
}

/// The tags with `tag` set: in place of the tag of its rank, unless that one is
/// `!important` and `tag` is not; at its place by rank when there is none.
pub open spec fn tags_with(tags: Seq<LeveledParseTag>, tag: ParseTag, important: bool) -> Seq<LeveledParseTag> {
    let id = tag_id(tag);
    if has_tag(tags, id) {
        if !important && tags[rank_index(tags, id)].1 {
            tags
        } else {
            tags.update(rank_index(tags, id), LeveledParseTag(tag, important))
        }
    } else {
        tags.insert(insert_position(tags, id), LeveledParseTag(tag, important))
    }
}

/// The tags without the tag of rank `id`.
pub open spec fn tags_without(tags: Seq<LeveledParseTag>, id: usize) -> Seq<LeveledParseTag> {
    if has_tag(tags, id) {
        tags.remove(rank_index(tags, id))
    } else {
        tags
    }
}

proof fn lemma_rank_place(tags: Seq<LeveledParseTag>, id: usize, p: int)
    requires
        rank_place(tags, id, p),
    ensures
        insert_position(tags, id) == p,
{
    let c = choose|c: int| rank_place(tags, id, c);
    if c < p {
        assert(tag_id(tags[c].0) > id);
    }
    if p < c {
        assert(tag_id(tags[p].0) > id);
    }
}

/// Looks for the tag of rank `id`: `Ok` with its index, or `Err` with the index where it
/// would go.
fn search_tag(tags: &Vec<LeveledParseTag>, id: usize) -> (r: Result<usize, usize>)
    requires
        tags_ordered(tags@),
    ensures
        match r {
            Ok(idx) => idx < tags@.len() && tag_id(tags@[idx as int].0) == id,
            Err(idx) => {
                &&& idx <= tags@.len()
                &&& !has_tag(tags@, id)
                &&& forall|k: int| 0 <= k < idx ==> tag_id(#[trigger] tags@[k].0) > id
                &&& forall|k: int| idx <= k < tags@.len() ==> tag_id(#[trigger] tags@[k].0) < id
            },
        },
{
    let mut i: usize = 0;
    while i < tags.len()
        invariant
            i <= tags@.len(),
            tags_ordered(tags@),
            forall|k: int| 0 <= k < i ==> tag_id(#[trigger] tags@[k].0) > id,
        decreases tags@.len() - i,
    {
        let tid = tags[i].0.id();
        if tid == id {
            return Ok(i);
        }
        if tid < id {
            assert forall|k: int| i <= k < tags@.len() implies tag_id(#[trigger] tags@[k].0) < id by {
                if k > i {
                    assert(tag_id(tags@[i as int].0) > tag_id(tags@[k].0));
                }
            }
            return Err(i);
        }
        i = i + 1;
    }
    Err(i)
}

/// Sets `tag`: it takes the place of the tag of the same rank unless that one is
/// `!important` and this one is not; it is added in its place when there is none.
pub fn insert_or_replace_tag(styles: &mut Vec<LeveledParseTag>, tag: ParseTag, important: bool)
    requires
        tags_ordered(old(styles)@),
    ensures
        tags_ordered(final(styles)@),
        has_tag(final(styles)@, tag_id(tag)),
        forall|id: usize| id != tag_id(tag) ==> has_tag(final(styles)@, id) == has_tag(old(styles)@, id),
        has_tag(old(styles)@, tag_id(tag)) ==> final(styles)@.len() == old(styles)@.len(),
        !has_tag(old(styles)@, tag_id(tag)) ==> final(styles)@.len() == old(styles)@.len() + 1,
        keeps_old_tag(old(styles)@, tag_id(tag), important) ==> final(styles)@ == old(styles)@,
        !keeps_old_tag(old(styles)@, tag_id(tag), important) ==> exists|i: int|
            0 <= i < final(styles)@.len() && #[trigger] final(styles)@[i] == LeveledParseTag(tag, important),
        final(styles)@ == tags_with(old(styles)@, tag, important),
{
    let id = tag.id();
    match search_tag(styles, id) {
        Ok(idx) => {
            proof {
                lemma_tag_index(styles@, id, idx as int);
                assert(has_tag(styles@, id));
            }
            if important || !styles[idx].1 {
                let ghost before = styles@;
                styles.set(idx, LeveledParseTag(tag, important));
                proof {
                    assert forall|i: int, j: int| 0 <= i < j < styles@.len() implies tag_id(#[trigger] styles@[i].0) > tag_id(#[trigger] styles@[j].0) by {
                        assert(tag_id(styles@[i].0) == tag_id(before[i].0));
                        assert(tag_id(styles@[j].0) == tag_id(before[j].0));
                    }
                    assert(tag_id(styles@[idx as int].0) == id);
                    assert(styles@[idx as int] == LeveledParseTag(tag, important));
                    assert forall|x: usize| x != id implies has_tag(styles@, x) == has_tag(before, x) by {
                        if has_tag(before, x) {
                            let w = choose|w: int| 0 <= w < before.len() && tag_id(#[trigger] before[w].0) == x;
                            assert(tag_id(styles@[w].0) == x);
                        }
                        if has_tag(styles@, x) {
                            let w = choose|w: int| 0 <= w < styles@.len() && tag_id(#[trigger] styles@[w].0) == x;
                            assert(tag_id(before[w].0) == x);
                        }
                    }
                }
            } else {
                assert(tag_id(styles@[idx as int].0) == id);
            }
        },
        Err(idx) => {
            let ghost before = styles@;
            proof {
                lemma_rank_place(styles@, id, idx as int);
            }
            styles.insert(idx, LeveledParseTag(tag, important));
            proof {
                assert forall|k: int| 0 <= k < styles@.len() implies tag_id(#[trigger] styles@[k].0) == (if k < idx {
                    tag_id(before[k].0)
                } else if k == idx {
                    id
                } else {
                    tag_id(before[k - 1].0)
                }) by {}
                assert forall|i: int, j: int| 0 <= i < j < styles@.len() implies tag_id(#[trigger] styles@[i].0) > tag_id(#[trigger] styles@[j].0) by {
                    if i < idx && j > idx {
                        assert(tag_id(before[i].0) > id);
                        assert(tag_id(before[j - 1].0) < id);
                    } else if i < idx && j == idx {
                        assert(tag_id(before[i].0) > id);
                    } else if i == idx {
                        assert(tag_id(before[j - 1].0) < id);
                    } else if j < idx {
                        assert(tag_id(before[i].0) > tag_id(before[j].0));
                    } else {
                        assert(tag_id(before[i - 1].0) > tag_id(before[j - 1].0));
                    }
                }
                assert(tag_id(styles@[idx as int].0) == id);
                assert(styles@[idx as int] == LeveledParseTag(tag, important));
                assert forall|x: usize| x != id implies has_tag(styles@, x) == has_tag(before, x) by {
                    if has_tag(before, x) {
                        let w = choose|w: int| 0 <= w < before.len() && tag_id(#[trigger] before[w].0) == x;
                        if w < idx {
                            assert(tag_id(styles@[w].0) == x);
                        } else {
                            assert(tag_id(styles@[w + 1].0) == x);
                        }
                    }
                    if has_tag(styles@, x) {
                        let w = choose|w: int| 0 <= w < styles@.len() && tag_id(#[trigger] styles@[w].0) == x;
                        if w < idx {
                            assert(tag_id(before[w].0) == x);
                        } else if w > idx {
                            assert(tag_id(before[w - 1].0) == x);
                        }
                    }
                }
            }
        },
    }
}

/// In ordered tags, the tag of a rank is at one index only.
proof fn lemma_tag_index(tags: Seq<LeveledParseTag>, id: usize, idx: int)
    requires
        tags_ordered(tags),
        0 <= idx < tags.len(),
        tag_id(tags[idx].0) == id,
    ensures
        (choose|i: int| 0 <= i < tags.len() && tag_id(#[trigger] tags[i].0) == id) == idx,
        tag_important(tags, id) == tags[idx].1,
{
    let c = choose|i: int| 0 <= i < tags.len() && tag_id(#[trigger] tags[i].0) == id;
    assert(0 <= c < tags.len() && tag_id(tags[c].0) == id);
    if c < idx {
        assert(tag_id(tags[c].0) > tag_id(tags[idx].0));
    }
    if c > idx {
        assert(tag_id(tags[idx].0) > tag_id(tags[c].0));
    }
}

/// Takes away the tag of the same rank as `tag`, and returns it.
pub fn remove_tag(tags: &mut Vec<LeveledParseTag>, tag: ParseTag) -> (r: Option<LeveledParseTag>)
    requires
        tags_ordered(old(tags)@),
    ensures
        tags_ordered(final(tags)@),
        !has_tag(final(tags)@, tag_id(tag)),
        forall|id: usize| id != tag_id(tag) ==> has_tag(final(tags)@, id) == has_tag(old(tags)@, id),
        r is Some <==> has_tag(old(tags)@, tag_id(tag)),
        r matches Some(t) ==> tag_id(t.0) == tag_id(tag) && old(tags)@.contains(t),
        r is None ==> final(tags)@ == old(tags)@,
        final(tags)@ == tags_without(old(tags)@, tag_id(tag)),
{
    let id = tag.id();
    match search_tag(tags, id) {
        Ok(idx) => {
            let ghost before = tags@;
            proof {
                lemma_tag_index(tags@, id, idx as int);
                assert(has_tag(tags@, id));
            }
            let removed = tags.remove(idx);
            proof {
                assert(before[idx as int] == removed);
                assert forall|k: int| 0 <= k < tags@.len() implies tags@[k] == (if k < idx {
                    before[k]
                } else {
                    before[k + 1]
                }) by {}
                assert forall|i: int, j: int| 0 <= i < j < tags@.len() implies tag_id(#[trigger] tags@[i].0) > tag_id(#[trigger] tags@[j].0) by {
                    if j < idx {
                        assert(tag_id(before[i].0) > tag_id(before[j].0));
                    } else if i < idx {
                        assert(tag_id(before[i].0) > tag_id(before[j + 1].0));
                    } else {
                        assert(tag_id(before[i + 1].0) > tag_id(before[j + 1].0));
                    }
                }
                if has_tag(tags@, id) {
                    let w = choose|w: int| 0 <= w < tags@.len() && tag_id(#[trigger] tags@[w].0) == id;
                    if w < idx {
                        assert(tag_id(before[w].0) > tag_id(before[idx as int].0));
                    } else {
                        assert(tag_id(before[idx as int].0) > tag_id(before[w + 1].0));
                    }
                }
                assert forall|x: usize| x != id implies has_tag(tags@, x) == has_tag(before, x) by {
                    if has_tag(before, x) {
                        let w = choose|w: int| 0 <= w < before.len() && tag_id(#[trigger] before[w].0) == x;
                        if w < idx {
                            assert(tag_id(tags@[w].0) == x);
                        } else {
                            assert(w != idx);
                            assert(tag_id(tags@[w - 1].0) == x);
                        }
                    }
                    if has_tag(tags@, x) {
                        let w = choose|w: int| 0 <= w < tags@.len() && tag_id(#[trigger] tags@[w].0) == x;
                        if w < idx {
                            assert(tag_id(before[w].0) == x);
                        } else {
                            assert(tag_id(before[w + 1].0) == x);
                        }
                    }
                }
            }
            Some(removed)
        },
        Err(_) => None,
    }
}

/// Whether a tag of the same rank as `tag` is in force.
pub fn find_tag(tags: &Vec<LeveledParseTag>, tag: ParseTag) -> (r: bool)
    requires
        tags_ordered(tags@),
    ensures
        r == has_tag(tags@, tag_id(tag)),
{
    match search_tag(tags, tag.id()) {
        Ok(_) => true,
        Err(_) => false,
    }
}

/// Adds `tag`, not `!important`, unless a tag of its rank is in force.
pub fn unique_and_insert_tag(tags: &mut Vec<LeveledParseTag>, tag: ParseTag)
    requires
        tags_ordered(old(tags)@),
    ensures
        tags_ordered(final(tags)@),
        has_tag(final(tags)@, tag_id(tag)),
        forall|id: usize| id != tag_id(tag) ==> has_tag(final(tags)@, id) == has_tag(old(tags)@, id),
        has_tag(old(tags)@, tag_id(tag)) ==> final(tags)@ == old(tags)@,
        !has_tag(old(tags)@, tag_id(tag)) ==> exists|i: int|
            0 <= i < final(tags)@.len() && #[trigger] final(tags)@[i] == LeveledParseTag(tag, false),
        final(tags)@ == (if has_tag(old(tags)@, tag_id(tag)) {
            old(tags)@
        } else {
            tags_with(old(tags)@, tag, false)
        }),
{
    let id = tag.id();
    if let Err(_) = search_tag(tags, id) {
        insert_or_replace_tag(tags, tag, false);
    }
}

/// Where a block style that runs from `start` to `end` ends among `lines`: at `end`, or at
/// the end of the last line when `end` lies past the lines; `None` when `start` lies past
/// them too.
pub open spec fn block_end(start: Position, end: Position, lines: Seq<Line>) -> Option<(usize, usize)> {
    let last = (lines.len() - 1) as usize;
    if end.line > last {
        if start.line > last {
            None
        } else {
            Some((last, lines[last as int]@.len() as usize))
        }
    } else {
        Some((end.line, end.offset))
    }
}

/// Whether a style from `start` to `end` covers whole lines: it starts at the start of a
/// line and ends at the end of one.
pub open spec fn covers_whole_lines(start: Position, end: Position, lines: Seq<Line>) -> bool {
    &&& start.offset == 0
    &&& end.line > (lines.len() - 1) as usize || end.offset == lines[end.line as int]@.len()
}

/// Records a border or background that covers whole lines as a block style of those lines
/// and returns `None`; else returns where the style ends, for it to be kept on the text
/// (`None` too when it starts past the lines).
pub fn setup_block_style(start: &Position, end: &Position, style: &TextStyle, lines: &Vec<Line>,
    block_styles: &mut Vec<BlockStyle>) -> (r: Option<(usize, usize)>)
    requires
        lines@.len() > 0,
    ensures
        block_end(*start, *end, lines@) is None ==> r is None && final(block_styles)@ == old(
            block_styles,
        )@,
        block_end(*start, *end, lines@) matches Some((end_line, _)) ==> {
            if covers_whole_lines(*start, *end, lines@) && (style is Border || style is BackgroundColor) {
                &&& r is None
                &&& final(block_styles)@.len() == old(block_styles)@.len() + 1
                &&& final(block_styles)@.take(old(block_styles)@.len() as int) == old(block_styles)@
                &&& match final(block_styles)@.last() {
                    BlockStyle::Border { range, lines: l, color } => style matches TextStyle::Border(sl, sc)
                        && range == (start.line..(end_line + 1) as usize) && l == sl && color == sc,
                    BlockStyle::Background { range, color } => style matches TextStyle::BackgroundColor(c)
                        && range == (start.line..(end_line + 1) as usize) && color == c,
                }
            } else {
                &&& r == block_end(*start, *end, lines@)
                &&& final(block_styles)@ == old(block_styles)@
            }
        },
{
    let last_line_idx = lines.len() - 1;
    let (end_line, end_offset) = if end.line > last_line_idx {
        if start.line > last_line_idx {
            return None;
        }
        (last_line_idx, lines[last_line_idx].len())
    } else {
        let end_line = end.line;
        if end.offset != lines[end_line].len() {
            return Some((end_line, end.offset));
        }
        (end_line, end.offset)
    };
    if start.offset != 0 {
        return Some((end_line, end_offset));
    }
    match style {
        TextStyle::Border(border_lines, color) => {
            block_styles.push(BlockStyle::Border {
                range: start.line..end_line + 1,
                lines: *border_lines,
                color: *color,
            });
            assert(block_styles@.take(old(block_styles)@.len() as int) =~= old(block_styles)@);
            None
        },
        TextStyle::BackgroundColor(color) => {
            block_styles.push(BlockStyle::Background { range: start.line..end_line + 1, color: *color });
            assert(block_styles@.take(old(block_styles)@.len() as int) =~= old(block_styles)@);
            None
        },
        _ => Some((end_line, end_offset)),
    }
}

} // verus!
