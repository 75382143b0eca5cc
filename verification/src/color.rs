//! Colors and the signal legend.
//!
//! The protocol names nine fixed colors and a grayscale ramp; a signal
//! declaration may also carry a legend mask, `%` followed by four `0`/`1`
//! flags.
use crate::strutil::str_eq;
use vstd::prelude::*;

verus! {

/// An 8-bit-per-channel color.
#[derive(Debug, Clone, Copy, PartialEq, Eq, Structural)]
pub struct Color {
    pub r: u8,
    pub g: u8,
    pub b: u8,
}

/// Four display flags a signal declaration may carry; decoded but not
/// interpreted by the decoder core.
#[derive(Debug, Clone, Copy, PartialEq, Eq, Structural)]
pub struct Legend {
    pub max: bool,
    pub min: bool,
    pub max_line: bool,
    pub min_line: bool,
}

pub open spec fn black() -> Color {
    Color { r: 0, g: 0, b: 0 }
}

pub open spec fn grey() -> Color {
    Color { r: 0x80, g: 0x80, b: 0x80 }
}

pub open spec fn yellow() -> Color {
    Color { r: 0xFF, g: 0xFF, b: 0 }
}

/// The nine named colors.
pub open spec fn spec_named_color(s: Seq<char>) -> Option<Color> {
    if s == "BLACK"@ {
        Some(black())
    } else if s == "WHITE"@ {
        Some(Color { r: 0xFF, g: 0xFF, b: 0xFF })
    } else if s == "ORANGE"@ {
        Some(Color { r: 0xFF, g: 0xA5, b: 0 })
    } else if s == "BLUE"@ {
        Some(Color { r: 0, g: 0, b: 0xFF })
    } else if s == "GREEN"@ {
        Some(Color { r: 0, g: 0x80, b: 0 })
    } else if s == "CYAN"@ {
        Some(Color { r: 0, g: 0xFF, b: 0xFF })
    } else if s == "RED"@ {
        Some(Color { r: 0xFF, g: 0, b: 0 })
    } else if s == "MAGENTA"@ {
        Some(Color { r: 0xFF, g: 0, b: 0xFF })
    } else if s == "YELLOW"@ {
        Some(yellow())
    } else {
        None
    }
}

/// Looks a color name up in the fixed table.
pub fn named_color(s: &str) -> (r: Option<Color>)
    ensures
        r == spec_named_color(s@),
{
    if str_eq(s, "BLACK") {
        Some(Color { r: 0, g: 0, b: 0 })
    } else if str_eq(s, "WHITE") {
        Some(Color { r: 0xFF, g: 0xFF, b: 0xFF })
    } else if str_eq(s, "ORANGE") {
        Some(Color { r: 0xFF, g: 0xA5, b: 0 })
    } else if str_eq(s, "BLUE") {
        Some(Color { r: 0, g: 0, b: 0xFF })
    } else if str_eq(s, "GREEN") {
        Some(Color { r: 0, g: 0x80, b: 0 })
    } else if str_eq(s, "CYAN") {
        Some(Color { r: 0, g: 0xFF, b: 0xFF })
    } else if str_eq(s, "RED") {
        Some(Color { r: 0xFF, g: 0, b: 0 })
    } else if str_eq(s, "MAGENTA") {
        Some(Color { r: 0xFF, g: 0, b: 0xFF })
    } else if str_eq(s, "YELLOW") {
        Some(Color { r: 0xFF, g: 0xFF, b: 0 })
    } else {
        None
    }
}

/// The grayscale ramp: level 0 to 10 maps to intensity `5 + level * 25`,
/// clamped to the 8-bit channel and replicated across the channels.
pub open spec fn spec_gray_color(level: int) -> Color {
    let v = 5 + level * 25;
    let c = if v > 255 {
        255u8
    } else {
        v as u8
    };
    Color { r: c, g: c, b: c }
}

/// Builds the grayscale color for a level from 0 to 10.
pub fn gray_color(level: usize) -> (r: Color)
    requires
        level <= 10,
    ensures
        r == spec_gray_color(level as int),
{
    let v: usize = 5 + level * 25;
    let c: u8 = if v > 255 {
        255
    } else {
        v as u8
    };
    Color { r: c, g: c, b: c }
}

/// A legend-mask token: `%` then four `0`/`1` flags.
pub open spec fn spec_legend(s: Seq<char>) -> Option<Legend> {
    if s.len() == 5 && s[0] == '%' && (forall|i: int| 1 <= i <= 4 ==> s[i] == '0' || s[i] == '1') {
        Some(
            Legend {
                max: s[1] == '1',
                min: s[2] == '1',
                max_line: s[3] == '1',
                min_line: s[4] == '1',
            },
        )
    } else {
        None
    }
}

/// Decodes a legend-mask token.
pub fn legend_of_token(s: &str) -> (r: Option<Legend>)
    ensures
        r == spec_legend(s@),
{
    let n = s.unicode_len();
    if n != 5 {
        return None;
    }
    let c0 = s.get_char(0);
    let c1 = s.get_char(1);
    let c2 = s.get_char(2);
    let c3 = s.get_char(3);
    let c4 = s.get_char(4);
    if c0 == '%' && (c1 == '0' || c1 == '1') && (c2 == '0' || c2 == '1') && (c3 == '0' || c3
        == '1') && (c4 == '0' || c4 == '1') {
        Some(
            Legend {
                max: c1 == '1',
                min: c2 == '1',
                max_line: c3 == '1',
                min_line: c4 == '1',
            },
        )
    } else {
        proof {
            if s@.len() == 5 && s@[0] == '%' && (forall|i: int|
                1 <= i <= 4 ==> s@[i] == '0' || s@[i] == '1') {
                assert(s@[1] == '0' || s@[1] == '1');
                assert(s@[2] == '0' || s@[2] == '1');
                assert(s@[3] == '0' || s@[3] == '1');
                assert(s@[4] == '0' || s@[4] == '1');
            }
        }
        None
    }
}

} // verus!
