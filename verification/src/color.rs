//! Linear RGB color and its conversion to the 8-bit display format.

use vstd::prelude::*;
use crate::math::{SCALE, div_floor_i128, lemma_floor_div_bounds};

verus! {

/// A linear RGB triple; each channel is a real value at scale
/// [`SCALE`], nominally within `[0, SCALE]` for stored surface colors.
/// Shading may push computed channels outside that range — clamping
/// happens only at the display-format boundary, in
/// [`Color::to_rgba`].
#[derive(Clone, Copy, Debug, PartialEq, Eq, Structural)]
pub struct Color {
    pub red: i64,
    pub green: i64,
    pub blue: i64,
}

/// One pixel of the 8-bit display format, fully opaque.
#[derive(Clone, Copy, Debug, PartialEq, Eq, Structural)]
pub struct Rgba {
    pub r: u8,
    pub g: u8,
    pub b: u8,
    pub a: u8,
}

/// A scaled channel quantized to a display byte: `channel * 255`
/// rounded to the nearest integer, then narrowed into `0 ..= 255`.
pub open spec fn channel_to_byte_spec(c: int) -> int {
    let v = (c * 255 + SCALE / 2) / (SCALE as int);
    if v < 0 {
        0
    } else if v > 255 {
        255
    } else {
        v
    }
}

impl Color {
    /// A stored surface color: every channel within `[0, SCALE]`.
    pub open spec fn wf(self) -> bool {
        0 <= self.red <= SCALE && 0 <= self.green <= SCALE && 0 <= self.blue <= SCALE
    }

    /// Quantize each channel to a display byte; the alpha channel is
    /// always fully opaque.
    pub fn to_rgba(&self) -> (r: Rgba)
        ensures
            r.r == channel_to_byte_spec(self.red as int),
            r.g == channel_to_byte_spec(self.green as int),
            r.b == channel_to_byte_spec(self.blue as int),
            r.a == 255,
    {
        Rgba {
            r: Self::channel_to_byte(self.red),
            g: Self::channel_to_byte(self.green),
            b: Self::channel_to_byte(self.blue),
            a: 255,
        }
    }

    /// Round one scaled channel into the display range.
    fn channel_to_byte(c: i64) -> (r: u8)
        ensures
            r == channel_to_byte_spec(c as int),
    {
        let q = div_floor_i128((c as i128) * 255 + (SCALE as i128) / 2, SCALE as i128);
        proof {
            lemma_floor_div_bounds(c * 255 + SCALE / 2, SCALE as int);
        }
        if q < 0 {
            0
        } else if q > 255 {
            255
        } else {
            q as u8
        }
    }
}

} // verus!
