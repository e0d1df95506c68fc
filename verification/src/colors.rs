//! The colors that a desktop highlights with.

use vstd::prelude::*;

verus! {

/// A color: red, green and blue.
#[derive(Clone, Copy, Debug, PartialEq, Eq, Structural)]
pub struct Rgb {
    pub r: u8,
    pub g: u8,
    pub b: u8,
}

/// The colors of a selection and its text, and the accent of controls.
#[derive(Clone, Copy, Debug, PartialEq, Eq, Structural)]
pub struct SystemColors {
    pub highlight: Rgb,
    pub highlight_text: Rgb,
    pub accent: Rgb,
}

/// The byte of a number that has `n` bytes below it.
pub open spec fn byte_of(v: u32, n: int) -> u8
    recommends
        0 <= n < 4,
{
    if n == 0 {
        (v % 0x100) as u8
    } else if n == 1 {
        (v / 0x100 % 0x100) as u8
    } else if n == 2 {
        (v / 0x10000 % 0x100) as u8
    } else {
        (v / 0x1000000) as u8
    }
}

/// The color in a number of the form `0x00BBGGRR`.
pub open spec fn color_of_bgr(v: u32) -> Rgb {
    Rgb { r: byte_of(v, 0), g: byte_of(v, 1), b: byte_of(v, 2) }
}

/// The color in a number of the form `0xAARRGGBB`.
pub open spec fn color_of_argb(v: u32) -> Rgb {
    Rgb { r: byte_of(v, 2), g: byte_of(v, 1), b: byte_of(v, 0) }
}

/// The luma of a color by Rec. 601, in thousandths.
pub open spec fn luma(c: Rgb) -> int {
    299 * c.r + 587 * c.g + 114 * c.b
}

/// Whether a color is bright: its luma is above 140. Of the colors whose luma is 140 exactly, these
/// five are taken as bright, as they are where luma is worked out in single precision.
pub open spec fn is_bright(c: Rgb) -> bool {
    ||| luma(c) > 140_000
    ||| c == (Rgb { r: 42, g: 214, b: 16 })
    ||| c == (Rgb { r: 61, g: 195, b: 64 })
    ||| c == (Rgb { r: 87, g: 187, b: 37 })
    ||| c == (Rgb { r: 207, g: 115, b: 93 })
    ||| c == (Rgb { r: 248, g: 98, b: 73 })
}

/// The color of text that is easy to read on a color: black on a bright one, else white.
pub open spec fn text_on(c: Rgb) -> Rgb {
    if is_bright(c) {
        Rgb { r: 0, g: 0, b: 0 }
    } else {
        Rgb { r: 255, g: 255, b: 255 }
    }
}

impl Rgb {
    /// Black or white, whichever is easier to read on this color.
    pub fn contrast_text(self) -> (r: Rgb)
        ensures
            r == text_on(self),
    {
        let l: u32 = 299 * self.r as u32 + 587 * self.g as u32 + 114 * self.b as u32;
        let rounded_up = match (self.r, self.g, self.b) {
            (42, 214, 16) => true,
            (61, 195, 64) => true,
            (87, 187, 37) => true,
            (207, 115, 93) => true,
            (248, 98, 73) => true,
            _ => false,
        };
        if l > 140_000 || rounded_up {
            Rgb { r: 0, g: 0, b: 0 }
        } else {
            Rgb { r: 255, g: 255, b: 255 }
        }
    }

    /// The color in a number of the form `0x00BBGGRR`, as Windows gives system colors.
    pub fn from_bgr(v: u32) -> (r: Rgb)
        ensures
            r == color_of_bgr(v),
    {
        Rgb { r: (v % 0x100) as u8, g: (v / 0x100 % 0x100) as u8, b: (v / 0x10000 % 0x100) as u8 }
    }

    /// The color in a number of the form `0xAARRGGBB`, as Windows gives the accent.
    pub fn from_argb(v: u32) -> (r: Rgb)
        ensures
            r == color_of_argb(v),
    {
        Rgb { r: (v / 0x10000 % 0x100) as u8, g: (v / 0x100 % 0x100) as u8, b: (v % 0x100) as u8 }
    }
}

/// The colors from the numbers that Windows gives: those of the selection and its text, and the
/// accent. Without an accent, the selection's color takes its place.
pub fn windows_colors(highlight: u32, highlight_text: u32, accent: Option<u32>) -> (r: SystemColors)
    ensures
        r.highlight == color_of_bgr(highlight),
        r.highlight_text == color_of_bgr(highlight_text),
        r.accent == (match accent {
            Some(a) => color_of_argb(a),
            None => color_of_bgr(highlight),
        }),
{
    SystemColors {
        highlight: Rgb::from_bgr(highlight),
        highlight_text: Rgb::from_bgr(highlight_text),
        accent: match accent {
            Some(a) => Rgb::from_argb(a),
            None => Rgb::from_bgr(highlight),
        },
    }
}

/// The colors where a desktop gives an accent alone: it serves as the selection's color too, under
/// a text color that can be read on it.
pub fn accent_colors(accent: Rgb) -> (r: SystemColors)
    ensures
        r == (SystemColors { highlight: accent, highlight_text: text_on(accent), accent }),
{
    SystemColors { highlight: accent, highlight_text: accent.contrast_text(), accent }
}

/// A color is read back from either form of number.
pub proof fn law_color_round_trip(c: Rgb)
    ensures
        color_of_bgr((c.r + 0x100 * c.g + 0x10000 * c.b) as u32) == c,
        color_of_argb((c.b + 0x100 * c.g + 0x10000 * c.r) as u32) == c,
{
}

/// Text is black on a bright color and white on any other. A color is bright where its weighted
/// brightness exceeds 140, green counting most and blue least, or where it is one of five; making a
/// bright color brighter in every part keeps it so.
pub proof fn law_text_stands_out(c: Rgb, d: Rgb)
    ensures
        text_on(c) == (Rgb { r: 0, g: 0, b: 0 }) || text_on(c) == (Rgb { r: 255, g: 255, b: 255 }),
        299 * c.r + 587 * c.g + 114 * c.b > 140_000 ==> text_on(c) == (Rgb { r: 0, g: 0, b: 0 }),
        299 * c.r + 587 * c.g + 114 * c.b > 140_000 && c.r <= d.r && c.g <= d.g && c.b <= d.b
            ==> text_on(d) == (Rgb { r: 0, g: 0, b: 0 }),
        ({
            let listed = c == (Rgb { r: 42, g: 214, b: 16 }) || c == (Rgb { r: 61, g: 195, b: 64 })
                || c == (Rgb { r: 87, g: 187, b: 37 }) || c == (Rgb { r: 207, g: 115, b: 93 }) || c
                == (Rgb { r: 248, g: 98, b: 73 });
            &&& listed ==> text_on(c) == (Rgb { r: 0, g: 0, b: 0 })
            &&& !listed && 299 * c.r + 587 * c.g + 114 * c.b <= 140_000 ==> text_on(c) == (Rgb {
                r: 255,
                g: 255,
                b: 255,
            })
        }),
{
}

} // verus!
