//! From red, green and blue to saturation and lightness.
//!
//! Lightness and saturation of an RGB color are fractions of its largest
//! and smallest channel, and are computed here exactly, rounded to the
//! nearest unit. The hue is an angle and is handed in by the caller.

use vstd::prelude::*;
use crate::hsl_color::HslColor;
use crate::rgb_color::RgbColor;
use crate::units::{lemma_round_div_bounds, lemma_round_div_exact, lemma_round_div_monotone, round_div, FULL_SCALE};

verus! {

/// The smallest of the three channels.
pub open spec fn least_channel(rgb: RgbColor) -> int {
    if rgb.r <= rgb.g && rgb.r <= rgb.b {
        rgb.r as int
    } else if rgb.g <= rgb.b {
        rgb.g as int
    } else {
        rgb.b as int
    }
}

/// The largest of the three channels.
pub open spec fn greatest_channel(rgb: RgbColor) -> int {
    if rgb.r >= rgb.g && rgb.r >= rgb.b {
        rgb.r as int
    } else if rgb.g >= rgb.b {
        rgb.g as int
    } else {
        rgb.b as int
    }
}

/// Whether the three channels are equal.
pub open spec fn is_gray(rgb: RgbColor) -> bool {
    rgb.r == rgb.g && rgb.g == rgb.b
}

/// The lightness in units: the mean of the smallest and the largest
/// channel, as a fraction of 255.
pub open spec fn lightness_of(rgb: RgbColor) -> int {
    round_div((least_channel(rgb) + greatest_channel(rgb)) * FULL_SCALE, 510)
}

/// What is left of the scale, in 255ths, around twice the lightness: the
/// sum of the smallest and the largest channel in the darker half, what
/// that sum lacks to 510 in the lighter.
pub open spec fn chroma_room(rgb: RgbColor) -> int {
    let sum = least_channel(rgb) + greatest_channel(rgb);
    if sum <= 255 {
        sum
    } else {
        510 - sum
    }
}

/// The saturation in units: nothing for a gray, else the spread of the
/// channels as a fraction of the room that the lightness leaves.
pub open spec fn saturation_of(rgb: RgbColor) -> int {
    if is_gray(rgb) {
        0
    } else {
        round_div((greatest_channel(rgb) - least_channel(rgb)) * FULL_SCALE, chroma_room(rgb))
    }
}

/// The HSL color of an RGB color whose hue angle, in units, is `hue`: a
/// gray has no hue, and gets 0.
pub open spec fn hsl_of(rgb: RgbColor, hue: i64) -> HslColor {
    HslColor {
        h: if is_gray(rgb) { 0 } else { hue },
        s: saturation_of(rgb) as i64,
        l: lightness_of(rgb) as i64,
    }
}

/// Lightness and saturation of an RGB color lie in their range.
pub proof fn lemma_saturation_and_lightness_in_range(rgb: RgbColor)
    ensures
        0 <= lightness_of(rgb) <= FULL_SCALE,
        0 <= saturation_of(rgb) <= FULL_SCALE,
{
    let low = least_channel(rgb);
    let high = greatest_channel(rgb);
    let scale = FULL_SCALE as int;
    lemma_round_div_bounds((low + high) * scale, 510);
    lemma_round_div_monotone((low + high) * scale, 510 * scale, 510);
    lemma_round_div_exact(scale, 510);
    assert(scale * 510 == 510 * scale);
    if !is_gray(rgb) {
        let room = chroma_room(rgb);
        assert(0 < room && high - low <= room);
        assert(0 <= (high - low) * scale <= scale * room) by (nonlinear_arith)
            requires
                0 <= high - low <= room,
                scale >= 0,
        ;
        lemma_round_div_bounds((high - low) * scale, room);
        lemma_round_div_monotone((high - low) * scale, scale * room, room);
        lemma_round_div_exact(scale, room);
    }
}

impl RgbColor {
    /// The lightness of this color, in units.
    pub fn lightness(&self) -> (l: i64)
        ensures
            l == lightness_of(*self),
            0 <= l <= FULL_SCALE,
    {
        proof {
            lemma_saturation_and_lightness_in_range(*self);
        }
        let sum: i64 = self.least() as i64 + self.greatest() as i64;
        (2 * (sum * FULL_SCALE) + 510) / 1020
    }

    /// The saturation of this color, in units.
    pub fn saturation(&self) -> (s: i64)
        ensures
            s == saturation_of(*self),
            0 <= s <= FULL_SCALE,
    {
        proof {
            lemma_saturation_and_lightness_in_range(*self);
        }
        let low: i64 = self.least() as i64;
        let high: i64 = self.greatest() as i64;
        if low == high {
            return 0;
        }
        let sum: i64 = low + high;
        let room: i64 = if sum <= 255 { sum } else { 510 - sum };
        (2 * ((high - low) * FULL_SCALE) + room) / (2 * room)
    }

    /// The HSL color of this color, given its hue angle in units.
    pub fn to_hsl(&self, hue: i64) -> (hsl: HslColor)
        ensures
            hsl == hsl_of(*self, hue),
    {
        let gray: bool = self.r == self.g && self.g == self.b;
        HslColor { h: if gray { 0 } else { hue }, s: self.saturation(), l: self.lightness() }
    }

    /// The smallest of the three channels.
    pub fn least(&self) -> (low: u8)
        ensures
            low == least_channel(*self),
    {
        if self.r <= self.g && self.r <= self.b {
            self.r
        } else if self.g <= self.b {
            self.g
        } else {
            self.b
        }
    }

    /// The largest of the three channels.
    pub fn greatest(&self) -> (high: u8)
        ensures
            high == greatest_channel(*self),
    {
        if self.r >= self.g && self.r >= self.b {
            self.r
        } else if self.g >= self.b {
            self.g
        } else {
            self.b
        }
    }
}

} // verus!
