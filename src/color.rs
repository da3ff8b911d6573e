use vstd::arithmetic::div_mod::lemma_fundamental_div_mod_converse;
use vstd::prelude::*;

verus! {

/// An RGBA color, one byte per channel.
#[derive(Clone, Copy, Debug, PartialEq, Eq, Structural)]
pub struct Color {
    pub r: u8,
    pub g: u8,
    pub b: u8,
    pub a: u8,
}

/// Number of colors in the default palette.
pub const PALETTE_LEN: usize = 7;

/// The byte of channel `k` (0 = red, 1 = green, 2 = blue, 3 = alpha).
pub open spec fn channel(c: Color, k: int) -> u8 {
    if k == 0 {
        c.r
    } else if k == 1 {
        c.g
    } else if k == 2 {
        c.b
    } else {
        c.a
    }
}

/// The color packed in a 32-bit word, red in the lowest byte and alpha in the highest.
pub open spec fn packed(c: Color) -> int {
    c.r as int + 256 * (c.g as int) + 65536 * (c.b as int) + 16777216 * (c.a as int)
}

/// The color packed in `n`, red in the lowest byte.
pub open spec fn unpacked(n: u32) -> Color {
    Color {
        r: (n % 256) as u8,
        g: ((n / 256) % 256) as u8,
        b: ((n / 65536) % 256) as u8,
        a: (n / 16777216) as u8,
    }
}

pub open spec fn rgba(r: u8, g: u8, b: u8, a: u8) -> Color {
    Color { r, g, b, a }
}

/// White, blue, light blue, green, yellow, orange and red, all opaque.
pub open spec fn default_palette_spec() -> Seq<Color> {
    seq![
        rgba(0xff, 0xff, 0xff, 0xff),
        rgba(0x00, 0x6f, 0xff, 0xff),
        rgba(0x13, 0xf4, 0xef, 0xff),
        rgba(0x68, 0xff, 0x00, 0xff),
        rgba(0xfa, 0xff, 0x00, 0xff),
        rgba(0xff, 0xbf, 0x00, 0xff),
        rgba(0xff, 0x00, 0x5c, 0xff),
    ]
}

impl Color {
    pub fn new(r: u8, g: u8, b: u8, a: u8) -> (c: Color)
        ensures
            c == rgba(r, g, b, a),
    {
        Color { r, g, b, a }
    }

    pub open spec fn white_spec() -> Color {
        rgba(0xff, 0xff, 0xff, 0xff)
    }

    /// Opaque white.
    pub fn white() -> (c: Color)
        ensures
            c == Color::white_spec(),
    {
        Color { r: 0xff, g: 0xff, b: 0xff, a: 0xff }
    }

    /// The four channels in memory order: red, green, blue, alpha.
    pub fn as_bytes(&self) -> (bytes: [u8; 4])
        ensures
            forall|k: int| 0 <= k < 4 ==> bytes@[k] == channel(*self, k),
    {
        [self.r, self.g, self.b, self.a]
    }

    /// Packs the color in a word, red in the lowest byte.
    pub fn to_u32(&self) -> (n: u32)
        ensures
            n as int == packed(*self),
    {
        self.r as u32 + 256 * (self.g as u32) + 65536 * (self.b as u32) + 16777216 * (
        self.a as u32)
    }

    /// Unpacks a word written by `to_u32`.
    pub fn from_u32(n: u32) -> (c: Color)
        ensures
            c == unpacked(n),
            c.r as int == n as int % 256,
            c.g as int == (n as int / 256) % 256,
            c.b as int == (n as int / 65536) % 256,
            c.a as int == n as int / 16777216,
    {
        Color {
            r: (n % 256) as u8,
            g: ((n / 256) % 256) as u8,
            b: ((n / 65536) % 256) as u8,
            a: (n / 16777216) as u8,
        }
    }
}

/// Unpacking a packed color gives the color back.
pub proof fn lemma_unpack_pack(c: Color)
    ensures
        packed(c) % 256 == c.r as int,
        (packed(c) / 256) % 256 == c.g as int,
        (packed(c) / 65536) % 256 == c.b as int,
        packed(c) / 16777216 == c.a as int,
{
    let (r, g, b, a) = (c.r as int, c.g as int, c.b as int, c.a as int);
    let n = packed(c);
    assert(n == (g + 256 * b + 65536 * a) * 256 + r);
    lemma_fundamental_div_mod_converse(n, 256, g + 256 * b + 65536 * a, r);
    let n1 = g + 256 * b + 65536 * a;
    assert(n1 == (b + 256 * a) * 256 + g);
    lemma_fundamental_div_mod_converse(n1, 256, b + 256 * a, g);
    assert(n == (b + 256 * a) * 65536 + (g * 256 + r));
    lemma_fundamental_div_mod_converse(n, 65536, b + 256 * a, g * 256 + r);
    assert(b + 256 * a == a * 256 + b);
    lemma_fundamental_div_mod_converse(b + 256 * a, 256, a, b);
    assert(n == a * 16777216 + (b * 65536 + g * 256 + r));
    lemma_fundamental_div_mod_converse(n, 16777216, a, b * 65536 + g * 256 + r);
}

/// Packing the unpacked channels of a word gives the word back.
pub proof fn lemma_pack_unpack(n: u32, c: Color)
    requires
        c.r as int == n as int % 256,
        c.g as int == (n as int / 256) % 256,
        c.b as int == (n as int / 65536) % 256,
        c.a as int == n as int / 16777216,
    ensures
        packed(c) == n as int,
{
    let m = n as int;
    assert(m % 256 + 256 * ((m / 256) % 256) + 65536 * ((m / 65536) % 256) + 16777216 * (m
        / 16777216) == m) by (nonlinear_arith)
        requires
            0 <= m,
    ;
}

/// The default palette.
pub fn default_palette() -> (p: Vec<Color>)
    ensures
        p@ == default_palette_spec(),
        p@.len() == PALETTE_LEN,
{
    let p = vec![
        Color::new(0xff, 0xff, 0xff, 0xff),
        Color::new(0x00, 0x6f, 0xff, 0xff),
        Color::new(0x13, 0xf4, 0xef, 0xff),
        Color::new(0x68, 0xff, 0x00, 0xff),
        Color::new(0xfa, 0xff, 0x00, 0xff),
        Color::new(0xff, 0xbf, 0x00, 0xff),
        Color::new(0xff, 0x00, 0x5c, 0xff),
    ];
    assert(p@ =~= default_palette_spec());
    p
}

/// Cycles through a non-empty palette, starting from its first color.
pub struct ColorSelector {
    pub index: usize,
    pub palette: Vec<Color>,
}

impl ColorSelector {
    pub open spec fn wf(&self) -> bool {
        self.palette@.len() > 0 && self.index < self.palette@.len()
    }

    pub fn new(palette: Vec<Color>) -> (s: ColorSelector)
        requires
            palette@.len() > 0,
        ensures
            s.wf(),
            s.index == 0,
            s.palette@ == palette@,
    {
        ColorSelector { index: 0, palette }
    }

    /// The current color; the selector then moves to the next one, wrapping around.
    pub fn next(&mut self) -> (c: Option<Color>)
        requires
            old(self).wf(),
        ensures
            final(self).wf(),
            c == Some(old(self).palette@[old(self).index as int]),
            final(self).palette@ == old(self).palette@,
            final(self).index as int == (old(self).index as int + 1) % (old(
                self,
            ).palette@.len() as int),
    {
        let n = self.palette.len();
        let color = self.palette[self.index];
        self.index = (self.index + 1) % n;
        Some(color)
    }
}

} // verus!
