use vstd::prelude::*;
use crate::color::{Color, brightness_of};

verus! {

/// Placement coordinates are given in units of 1/200 pixel, which makes the
/// placement of art exact in integers.
pub const PLACE_UNITS_PER_PIXEL: i128 = 200;

/// The left edge, in 1/200 pixel, of a block `columns` characters wide in a
/// window `width` pixels wide: half the window less half the block, where a
/// character is taken as 0.67 times the font size wide.
pub open spec fn place_x(width: int, columns: int, font_size: int) -> int {
    100 * width - 67 * (columns * font_size)
}

/// The top edge, in 1/200 pixel, of a block of `rows` lines in a window
/// `height` pixels high, where a row is taken as 0.23 times the font size
/// high for this purpose.
pub open spec fn place_y(height: int, rows: int, font_size: int) -> int {
    100 * height - 23 * (rows * font_size)
}

/// The width in characters of a block of lines, taken from its first line;
/// a block without lines has none.
pub open spec fn block_columns(art: Seq<Seq<char>>) -> int {
    if art.len() == 0 {
        0
    } else {
        art[0].len() as int
    }
}

/// The top left corner, in 1/200 pixel, at which the block of lines `art`
/// appears centered in a window of `win_width` by `win_height` pixels.
pub fn place_art(win_width: u32, win_height: u32, art: &Vec<String>, font_size: u32) -> (r: (
    i128,
    i128,
))
    ensures
        r.0 == place_x(win_width as int, block_columns(art.deep_view()), font_size as int),
        r.1 == place_y(win_height as int, art@.len() as int, font_size as int),
{
    let columns: usize = if art.len() == 0 {
        0
    } else {
        art[0].as_str().unicode_len()
    };
    let c = columns as i128;
    let f = font_size as i128;
    let n = art.len() as i128;
    assert(0 <= c * f <= 0x1_0000_0000_0000_0000 * 0x1_0000_0000) by (nonlinear_arith)
        requires
            0 <= c < 0x1_0000_0000_0000_0000,
            0 <= f < 0x1_0000_0000,
    ;
    assert(0 <= n * f <= 0x1_0000_0000_0000_0000 * 0x1_0000_0000) by (nonlinear_arith)
        requires
            0 <= n < 0x1_0000_0000_0000_0000,
            0 <= f < 0x1_0000_0000,
    ;
    let x = 100 * (win_width as i128) - 67 * (c * f);
    let y = 100 * (win_height as i128) - 23 * (n * f);
    (x, y)
}

/// Doubling the window's width, with the block unchanged, moves the block's
/// left edge right by half of the added width.
pub proof fn lemma_place_art_width_shift(width: int, columns: int, font_size: int)
    ensures
        place_x(2 * width, columns, font_size) - place_x(width, columns, font_size)
            == PLACE_UNITS_PER_PIXEL * (2 * width - width) / 2,
{
}

/// How many characters fit on a line of a window `width` pixels wide:
/// 2.15 per font size unit of width, rounded down and capped at the largest
/// `usize`. A zero font size leaves the line unbounded.
pub open spec fn max_characters_of(width: nat, font_size: nat) -> nat {
    if font_size == 0 {
        if width == 0 {
            0
        } else {
            usize::MAX as nat
        }
    } else if (215 * width) / (100 * font_size) > usize::MAX {
        usize::MAX as nat
    } else {
        (215 * width) / (100 * font_size)
    }
}

/// How many characters fit on one line of a window `width` pixels wide at
/// `font_size`.
pub fn max_characters(width: u32, font_size: u32) -> (r: usize)
    ensures
        r == max_characters_of(width as nat, font_size as nat),
{
    if font_size == 0 {
        if width == 0 {
            0
        } else {
            usize::MAX
        }
    } else {
        let n = (215 * (width as u64)) / (100 * (font_size as u64));
        if n > usize::MAX as u64 {
            usize::MAX
        } else {
            n as usize
        }
    }
}

/// How many scanlines, three pixels apart, cover the inner box of a window
/// `height` pixels high, whose border takes 30 pixels.
pub fn scanline_count(height: u32) -> (r: u32)
    ensures
        r == if height >= 30 {
            (height - 30) / 3
        } else {
            0
        },
{
    if height >= 30 {
        (height - 30) / 3
    } else {
        0
    }
}

/// The color of the scanlines behind the text: a half-transparent shade of
/// the background, darker by 51 on each channel when the text is brighter
/// than the background, else lighter by 38, at alpha 128 or 102.
pub fn back_scanline_color(bg: Color, fg: Color) -> (c: Color)
    ensures
        brightness_of(fg) > brightness_of(bg) ==> c == (Color {
            red: if bg.red >= 51 { (bg.red - 51) as u8 } else { 0 },
            green: if bg.green >= 51 { (bg.green - 51) as u8 } else { 0 },
            blue: if bg.blue >= 51 { (bg.blue - 51) as u8 } else { 0 },
            alpha: 128,
        }),
        brightness_of(fg) <= brightness_of(bg) ==> c == (Color {
            red: if bg.red <= 217 { (bg.red + 38) as u8 } else { 255 },
            green: if bg.green <= 217 { (bg.green + 38) as u8 } else { 255 },
            blue: if bg.blue <= 217 { (bg.blue + 38) as u8 } else { 255 },
            alpha: 102,
        }),
{
    if fg.brighter_than(bg) {
        Color {
            red: bg.red.saturating_sub(51),
            green: bg.green.saturating_sub(51),
            blue: bg.blue.saturating_sub(51),
            alpha: 128,
        }
    } else {
        Color {
            red: bg.red.saturating_add(38),
            green: bg.green.saturating_add(38),
            blue: bg.blue.saturating_add(38),
            alpha: 102,
        }
    }
}

/// The color of the scanlines drawn over the text: the background at alpha
/// 102.
pub fn front_scanline_color(bg: Color) -> (c: Color)
    ensures
        c == (Color { red: bg.red, green: bg.green, blue: bg.blue, alpha: 102 }),
{
    Color { red: bg.red, green: bg.green, blue: bg.blue, alpha: 102 }
}

} // verus!
