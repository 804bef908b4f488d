//! Premultiplied sRGBA colors.

use vstd::prelude::*;

use crate::strings::string_push;

verus! {

/// A color in premultiplied sRGBA: red, green, blue and alpha bytes.
#[derive(Clone, Copy, Debug, PartialEq, Eq)]
pub struct Color32(pub [u8; 4]);

impl Color32 {
    pub open spec fn rgba(&self) -> (u8, u8, u8, u8) {
        (self.0[0], self.0[1], self.0[2], self.0[3])
    }

    /// An opaque color.
    #[inline(always)]
    pub fn from_rgb(r: u8, g: u8, b: u8) -> (c: Self)
        ensures
            c.rgba() == (r, g, b, 255u8),
    {
        Color32([r, g, b, 255])
    }

    /// An additive color: alpha zero.
    #[inline(always)]
    pub fn from_rgb_additive(r: u8, g: u8, b: u8) -> (c: Self)
        ensures
            c.rgba() == (r, g, b, 0u8),
    {
        Color32([r, g, b, 0])
    }

    /// From `sRGBA` with premultiplied alpha.
    #[inline(always)]
    pub fn from_rgba_premultiplied(r: u8, g: u8, b: u8, a: u8) -> (c: Self)
        ensures
            c.rgba() == (r, g, b, a),
    {
        Color32([r, g, b, a])
    }

    #[inline(always)]
    pub fn is_opaque(&self) -> (o: bool)
        ensures
            o == (self.rgba().3 == 255),
    {
        self.a() == 255
    }

    #[inline(always)]
    pub fn r(&self) -> (v: u8)
        ensures
            v == self.rgba().0,
    {
        self.0[0]
    }

    #[inline(always)]
    pub fn g(&self) -> (v: u8)
        ensures
            v == self.rgba().1,
    {
        self.0[1]
    }

    #[inline(always)]
    pub fn b(&self) -> (v: u8)
        ensures
            v == self.rgba().2,
    {
        self.0[2]
    }

    #[inline(always)]
    pub fn a(&self) -> (v: u8)
        ensures
            v == self.rgba().3,
    {
        self.0[3]
    }

    /// The additive version of this color: same red, green and blue, alpha zero.
    #[inline(always)]
    pub fn additive(self) -> (c: Self)
        ensures
            c.rgba() == (self.rgba().0, self.rgba().1, self.rgba().2, 0u8),
    {
        let v = self.to_array();
        Color32([v[0], v[1], v[2], 0])
    }

    /// Premultiplied RGBA.
    #[inline(always)]
    pub fn to_array(&self) -> (v: [u8; 4])
        ensures
            (v[0], v[1], v[2], v[3]) == self.rgba(),
    {
        [self.r(), self.g(), self.b(), self.a()]
    }

    /// Premultiplied RGBA.
    #[inline(always)]
    pub fn to_tuple(&self) -> (v: (u8, u8, u8, u8))
        ensures
            v == self.rgba(),
    {
        (self.r(), self.g(), self.b(), self.a())
    }

    /// The text form `#rrggbbaa`, in lower-case hexadecimal.
    pub fn to_string(&self) -> (s: String)
        ensures
            s@ == color_text(*self),
    {
        let mut s = String::new();
        string_push(&mut s, '#');
        push_hex_byte(&mut s, self.0[0]);
        push_hex_byte(&mut s, self.0[1]);
        push_hex_byte(&mut s, self.0[2]);
        push_hex_byte(&mut s, self.0[3]);
        s
    }
}

/// Lower-case hexadecimal digit of a value below 16.
pub open spec fn hex_digit(v: u8) -> char {
    if v < 10 {
        ((v as u32) + 0x30) as char
    } else {
        ((v as u32) + 0x57) as char
    }
}

/// The two hexadecimal digits of a byte.
pub open spec fn hex_byte(b: u8) -> Seq<char> {
    seq![hex_digit(b / 16), hex_digit(b % 16)]
}

fn hex_digit_exec(v: u8) -> (c: char)
    requires
        v < 16,
    ensures
        c == hex_digit(v),
{
    if v < 10 {
        let b: u8 = v + 0x30;
        b as char
    } else {
        let b: u8 = v + 0x57;
        b as char
    }
}

fn push_hex_byte(s: &mut String, b: u8)
    ensures
        final(s)@ == old(s)@ + hex_byte(b),
{
    string_push(s, hex_digit_exec(b / 16));
    string_push(s, hex_digit_exec(b % 16));
}

/// The named colors, after the CSS names.
impl Color32 {
    /// Fully transparent.
    pub fn transparent() -> (c: Color32)
        ensures
            c.rgba() == (0u8, 0u8, 0u8, 0u8),
    {
        Color32([0, 0, 0, 0])
    }

    /// Black.
    pub fn black() -> (c: Color32)
        ensures
            c.rgba() == (0u8, 0u8, 0u8, 255u8),
    {
        Color32([0, 0, 0, 255])
    }

    /// Dark gray.
    pub fn dark_gray() -> (c: Color32)
        ensures
            c.rgba() == (96u8, 96u8, 96u8, 255u8),
    {
        Color32([96, 96, 96, 255])
    }

    /// Gray.
    pub fn gray() -> (c: Color32)
        ensures
            c.rgba() == (160u8, 160u8, 160u8, 255u8),
    {
        Color32([160, 160, 160, 255])
    }

    /// Light gray.
    pub fn light_gray() -> (c: Color32)
        ensures
            c.rgba() == (220u8, 220u8, 220u8, 255u8),
    {
        Color32([220, 220, 220, 255])
    }

    /// White.
    pub fn white() -> (c: Color32)
        ensures
            c.rgba() == (255u8, 255u8, 255u8, 255u8),
    {
        Color32([255, 255, 255, 255])
    }

    /// Brown.
    pub fn brown() -> (c: Color32)
        ensures
            c.rgba() == (165u8, 42u8, 42u8, 255u8),
    {
        Color32([165, 42, 42, 255])
    }

    /// Dark red.
    pub fn dark_red() -> (c: Color32)
        ensures
            c.rgba() == (139u8, 0u8, 0u8, 255u8),
    {
        Color32([139, 0, 0, 255])
    }

    /// Red.
    pub fn red() -> (c: Color32)
        ensures
            c.rgba() == (255u8, 0u8, 0u8, 255u8),
    {
        Color32([255, 0, 0, 255])
    }

    /// Light red.
    pub fn light_red() -> (c: Color32)
        ensures
            c.rgba() == (255u8, 128u8, 128u8, 255u8),
    {
        Color32([255, 128, 128, 255])
    }

    /// Yellow.
    pub fn yellow() -> (c: Color32)
        ensures
            c.rgba() == (255u8, 255u8, 0u8, 255u8),
    {
        Color32([255, 255, 0, 255])
    }

    /// Light yellow.
    pub fn light_yellow() -> (c: Color32)
        ensures
            c.rgba() == (255u8, 255u8, 224u8, 255u8),
    {
        Color32([255, 255, 224, 255])
    }

    /// Khaki.
    pub fn khaki() -> (c: Color32)
        ensures
            c.rgba() == (240u8, 230u8, 140u8, 255u8),
    {
        Color32([240, 230, 140, 255])
    }

    /// Dark green.
    pub fn dark_green() -> (c: Color32)
        ensures
            c.rgba() == (0u8, 100u8, 0u8, 255u8),
    {
        Color32([0, 100, 0, 255])
    }

    /// Green.
    pub fn green() -> (c: Color32)
        ensures
            c.rgba() == (0u8, 255u8, 0u8, 255u8),
    {
        Color32([0, 255, 0, 255])
    }

    /// Light green.
    pub fn light_green() -> (c: Color32)
        ensures
            c.rgba() == (144u8, 238u8, 144u8, 255u8),
    {
        Color32([144, 238, 144, 255])
    }

    /// Dark blue.
    pub fn dark_blue() -> (c: Color32)
        ensures
            c.rgba() == (0u8, 0u8, 139u8, 255u8),
    {
        Color32([0, 0, 139, 255])
    }

    /// Blue.
    pub fn blue() -> (c: Color32)
        ensures
            c.rgba() == (0u8, 0u8, 255u8, 255u8),
    {
        Color32([0, 0, 255, 255])
    }

    /// Light blue.
    pub fn light_blue() -> (c: Color32)
        ensures
            c.rgba() == (173u8, 216u8, 230u8, 255u8),
    {
        Color32([173, 216, 230, 255])
    }

    /// Gold.
    pub fn gold() -> (c: Color32)
        ensures
            c.rgba() == (255u8, 215u8, 0u8, 255u8),
    {
        Color32([255, 215, 0, 255])
    }
}

/// The text form of a colour, `#rrggbbaa`.
pub open spec fn color_text(c: Color32) -> Seq<char> {
    seq!['#'] + hex_byte(c.rgba().0) + hex_byte(c.rgba().1) + hex_byte(c.rgba().2) + hex_byte(c.rgba().3)
}

proof fn lemma_hex_digit_injective(a: u8, b: u8)
    requires
        a < 16,
        b < 16,
        hex_digit(a) == hex_digit(b),
    ensures
        a == b,
{
    assert((a as u32) + 0x30 < 0xD800 && (a as u32) + 0x57 < 0xD800);
    assert((b as u32) + 0x30 < 0xD800 && (b as u32) + 0x57 < 0xD800);
}

proof fn lemma_hex_byte_injective(a: u8, b: u8)
    requires
        hex_byte(a) == hex_byte(b),
    ensures
        a == b,
{
    assert(hex_byte(a)[0] == hex_byte(b)[0]);
    assert(hex_byte(a)[1] == hex_byte(b)[1]);
    lemma_hex_digit_injective(a / 16, b / 16);
    lemma_hex_digit_injective(a % 16, b % 16);
}

/// Two colours with the same text form are the same colour: `to_string` loses nothing.
pub proof fn law_color_text_determines_color(a: Color32, b: Color32)
    requires
        color_text(a) == color_text(b),
    ensures
        a.rgba() == b.rgba(),
{
    let ta = color_text(a);
    let tb = color_text(b);
    assert(ta.subrange(1, 3) =~= hex_byte(a.rgba().0));
    assert(tb.subrange(1, 3) =~= hex_byte(b.rgba().0));
    assert(ta.subrange(3, 5) =~= hex_byte(a.rgba().1));
    assert(tb.subrange(3, 5) =~= hex_byte(b.rgba().1));
    assert(ta.subrange(5, 7) =~= hex_byte(a.rgba().2));
    assert(tb.subrange(5, 7) =~= hex_byte(b.rgba().2));
    assert(ta.subrange(7, 9) =~= hex_byte(a.rgba().3));
    assert(tb.subrange(7, 9) =~= hex_byte(b.rgba().3));
    lemma_hex_byte_injective(a.rgba().0, b.rgba().0);
    lemma_hex_byte_injective(a.rgba().1, b.rgba().1);
    lemma_hex_byte_injective(a.rgba().2, b.rgba().2);
    lemma_hex_byte_injective(a.rgba().3, b.rgba().3);
}

} // verus!
