use vstd::prelude::*;

verus! {

/// A color with 8-bit red, green, blue and alpha channels, where 255 is full
/// intensity (or full opacity).
#[derive(Debug, Clone, Copy, PartialEq, Eq, Structural)]
pub struct Color {
    pub red: u8,
    pub green: u8,
    pub blue: u8,
    pub alpha: u8,
}

/// The terminal's named colors, all fully opaque.
#[derive(Debug, Clone, Copy, PartialEq, Eq, Structural)]
pub enum Palette {
    /// #DB143D
    Crimson,
    /// #292929
    DarkGrey,
    /// #6633B3
    DarkPurple,
    /// #00C957
    Emerald,
    /// #FFA61A
    Gold,
    /// #66CCFF
    LightBlue,
    /// #9966FF
    LightPurple,
    /// #FAF5F0
    OffWhite,
}

/// The channels of each named color.
pub open spec fn palette_color(p: Palette) -> Color {
    let (red, green, blue) = match p {
        Palette::Crimson => (219u8, 20u8, 61u8),
        Palette::DarkGrey => (41, 41, 41),
        Palette::DarkPurple => (102, 51, 179),
        Palette::Emerald => (0, 201, 87),
        Palette::Gold => (255, 166, 26),
        Palette::LightBlue => (102, 204, 255),
        Palette::LightPurple => (153, 102, 255),
        Palette::OffWhite => (250, 245, 240),
    };
    Color { red, green, blue, alpha: 255 }
}

/// The named colors that the demo cycles through, in order.
pub open spec fn cycle_palette(i: nat) -> Palette {
    let k = i % 5;
    if k == 0 {
        Palette::Emerald
    } else if k == 1 {
        Palette::Gold
    } else if k == 2 {
        Palette::Crimson
    } else if k == 3 {
        Palette::LightPurple
    } else {
        Palette::LightBlue
    }
}

impl Palette {
    /// This named color's channels.
    pub fn color(self) -> (c: Color)
        ensures
            c == palette_color(self),
    {
        let (red, green, blue) = match self {
            Palette::Crimson => (219u8, 20u8, 61u8),
            Palette::DarkGrey => (41, 41, 41),
            Palette::DarkPurple => (102, 51, 179),
            Palette::Emerald => (0, 201, 87),
            Palette::Gold => (255, 166, 26),
            Palette::LightBlue => (102, 204, 255),
            Palette::LightPurple => (153, 102, 255),
            Palette::OffWhite => (250, 245, 240),
        };
        Color { red, green, blue, alpha: 255 }
    }

    /// The `i`-th color of the cycle emerald, gold, crimson, light purple,
    /// light blue, which starts again after the fifth.
    pub fn cycle(i: usize) -> (p: Palette)
        ensures
            p == cycle_palette(i as nat),
    {
        match i % 5 {
            0 => Palette::Emerald,
            1 => Palette::Gold,
            2 => Palette::Crimson,
            3 => Palette::LightPurple,
            _ => Palette::LightBlue,
        }
    }
}

/// The perceived brightness of `c`, squared and scaled to an integer:
/// `(0.241·r² + 0.691·g² + 0.068·b²)·a²` times 1000, with the channels
/// taken on their 0–255 scale. Its order is the order of the perceived
/// brightness `sqrt(0.241·r² + 0.691·g² + 0.068·b²)·a` itself, since both
/// factors are never negative.
pub open spec fn brightness_of(c: Color) -> nat {
    let (r, g, b, a) = (c.red as nat, c.green as nat, c.blue as nat, c.alpha as nat);
    (241 * (r * r) + 691 * (g * g) + 68 * (b * b)) * (a * a)
}

impl Color {
    /// The perceived brightness of this color, in the squared and scaled
    /// form that `brightness_of` describes.
    pub fn brightness(&self) -> (r: u64)
        ensures
            r == brightness_of(*self),
    {
        let r = self.red as u64;
        let g = self.green as u64;
        let b = self.blue as u64;
        let a = self.alpha as u64;
        assert(r * r <= 255 * 255 && g * g <= 255 * 255 && b * b <= 255 * 255 && a * a <= 255
            * 255) by (nonlinear_arith)
            requires
                r <= 255,
                g <= 255,
                b <= 255,
                a <= 255,
        ;
        let weighted = 241 * (r * r) + 691 * (g * g) + 68 * (b * b);
        assert(weighted * (a * a) <= 1000 * (255 * 255) * (255 * 255)) by (nonlinear_arith)
            requires
                weighted <= 1000 * (255 * 255),
                a * a <= 255 * 255,
        ;
        weighted * (a * a)
    }

    /// Whether this color looks brighter than `other`; never true of two
    /// equally bright colors.
    pub fn brighter_than(&self, other: Color) -> (r: bool)
        ensures
            r == (brightness_of(*self) > brightness_of(other)),
    {
        self.brightness() > other.brightness()
    }
}

/// A fully opaque color whose every channel is higher than the matching
/// channel of another fully opaque color is the brighter of the two, and no
/// color is brighter than itself.
pub proof fn lemma_brighter_than(light: Color, dark: Color)
    requires
        light.alpha == 255,
        dark.alpha == 255,
        light.red > dark.red,
        light.green > dark.green,
        light.blue > dark.blue,
    ensures
        brightness_of(light) > brightness_of(dark),
        !(brightness_of(light) > brightness_of(light)),
{
    let (r1, g1, b1) = (light.red as int, light.green as int, light.blue as int);
    let (r2, g2, b2) = (dark.red as int, dark.green as int, dark.blue as int);
    assert(r1 * r1 >= r2 * r2 && g1 * g1 > g2 * g2 && b1 * b1 >= b2 * b2) by (nonlinear_arith)
        requires
            r1 > r2 >= 0,
            g1 > g2 >= 0,
            b1 > b2 >= 0,
    ;
    let w1 = 241 * (r1 * r1) + 691 * (g1 * g1) + 68 * (b1 * b1);
    let w2 = 241 * (r2 * r2) + 691 * (g2 * g2) + 68 * (b2 * b2);
    assert(w1 * (255 * 255) > w2 * (255 * 255)) by (nonlinear_arith)
        requires
            w1 > w2,
    ;
}

} // verus!
