//! Colours by hue, saturation and lightness.

use vstd::prelude::*;
use vstd::std_specs::convert::FromSpecImpl;
use crate::units::{clamp_percent, clamp_percent_of, wrap_hue, wrap_hue_of, FULL_SCALE, FULL_TURN, UNITS};

verus! {

/// HSL representation of a color.
///
/// Each channel is held in units: millionths of a degree for the hue,
/// millionths of a percent for saturation and lightness. A value may lie
/// outside its logical range until the color is normalized.
#[derive(Clone, Copy, PartialEq, Eq, Structural, Debug)]
pub struct HslColor {
    /// - `h`: hue, logically `0..FULL_TURN`, but it's okay to overflow/underflow
    pub h: i64,
    /// - `s`: saturation, logically `0..=FULL_SCALE`
    pub s: i64,
    /// - `l`: lightness, logically `0..=FULL_SCALE`
    pub l: i64,
}

impl HslColor {
    /// Whether every channel lies in its logical range.
    pub open spec fn is_normalized(self) -> bool {
        &&& 0 <= self.h < FULL_TURN
        &&& 0 <= self.s <= FULL_SCALE
        &&& 0 <= self.l <= FULL_SCALE
    }

    /// The color with its hue wrapped into one turn and its saturation and
    /// lightness clamped.
    pub open spec fn normalized(self) -> HslColor {
        HslColor {
            h: wrap_hue(self.h as int) as i64,
            s: clamp_percent(self.s as int) as i64,
            l: clamp_percent(self.l as int) as i64,
        }
    }

    /// The color of `h` whole degrees, `s` and `l` whole percent.
    pub open spec fn of_whole(h: int, s: int, l: int) -> HslColor {
        HslColor { h: (h * UNITS) as i64, s: (s * UNITS) as i64, l: (l * UNITS) as i64 }
    }

    /// Constructor with integer values (whole degrees and percent), for simplicity
    pub fn new(h: i32, s: i32, l: i32) -> (color: Self)
        ensures
            color == HslColor::of_whole(h as int, s as int, l as int),
            color.h == h * UNITS,
            color.s == s * UNITS,
            color.l == l * UNITS,
    {
        HslColor { h: h as i64 * UNITS, s: s as i64 * UNITS, l: l as i64 * UNITS }
    }

    /// Wraps the hue into one turn and clamps saturation and lightness.
    pub fn normalize(&mut self)
        ensures
            *final(self) == old(self).normalized(),
            final(self).is_normalized(),
    {
        self.h = wrap_hue_of(self.h as i128);
        self.s = clamp_percent_of(self.s as i128);
        self.l = clamp_percent_of(self.l as i128);
    }
}

impl Default for HslColor {
    /// The color with every channel at 0.
    fn default() -> (color: HslColor)
        ensures
            color == (HslColor { h: 0, s: 0, l: 0 }),
    {
        HslColor { h: 0, s: 0, l: 0 }
    }
}

impl From<(i32, i32, i32)> for HslColor {
    fn from(hsl: (i32, i32, i32)) -> (color: HslColor) {
        HslColor::new(hsl.0, hsl.1, hsl.2)
    }
}

impl FromSpecImpl<(i32, i32, i32)> for HslColor {
    open spec fn obeys_from_spec() -> bool {
        true
    }

    open spec fn from_spec(hsl: (i32, i32, i32)) -> HslColor {
        HslColor::of_whole(hsl.0 as int, hsl.1 as int, hsl.2 as int)
    }
}

impl From<[i32; 3]> for HslColor {
    fn from(hsl: [i32; 3]) -> (color: HslColor) {
        HslColor::new(hsl[0], hsl[1], hsl[2])
    }
}

impl FromSpecImpl<[i32; 3]> for HslColor {
    open spec fn obeys_from_spec() -> bool {
        true
    }

    open spec fn from_spec(hsl: [i32; 3]) -> HslColor {
        HslColor::of_whole(hsl[0] as int, hsl[1] as int, hsl[2] as int)
    }
}

impl From<&[i32; 3]> for HslColor {
    fn from(hsl: &[i32; 3]) -> (color: HslColor) {
        HslColor::new(hsl[0], hsl[1], hsl[2])
    }
}

impl FromSpecImpl<&[i32; 3]> for HslColor {
    open spec fn obeys_from_spec() -> bool {
        true
    }

    open spec fn from_spec(hsl: &[i32; 3]) -> HslColor {
        HslColor::of_whole(hsl[0] as int, hsl[1] as int, hsl[2] as int)
    }
}

/// Normalizing gives a normalized color, and leaves a normalized color as it is.
pub proof fn lemma_normalized_is_normalized(color: HslColor)
    ensures
        color.normalized().is_normalized(),
        color.is_normalized() ==> color.normalized() == color,
{
}

} // verus!
