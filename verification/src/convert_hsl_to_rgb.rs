//! From hue, saturation and lightness to red, green and blue.
//!
//! The conversion is the usual piecewise one, carried out exactly: saturation
//! and lightness are fractions over `FULL_SCALE`, the hue is a fraction over
//! `FULL_TURN`, and every intermediate is kept as the numerator of a fraction
//! with a fixed denominator. Each channel is rounded to the nearest 1/12000
//! before it is scaled to a byte and truncated.

use vstd::prelude::*;
use vstd::std_specs::convert::FromSpecImpl;
use crate::hsl_color::HslColor;
use crate::rgb_color::RgbColor;
use crate::units::{round_div, FULL_SCALE, FULL_TURN};

verus! {

/// A sixth of a turn: the width of one segment of the hue circle.
pub const SEGMENT: i64 = 60_000_000;

/// Saturation below which a color counts as gray: a thousandth of the full scale.
pub const GRAY_BELOW: i64 = 100_000;

/// The grid to which a channel is rounded before it becomes a byte.
pub const CHANNEL_GRID: u128 = 12_000;

/// Denominator of the upper and lower levels: the full scale squared.
pub open spec fn level_scale() -> int {
    FULL_SCALE * FULL_SCALE
}

/// Denominator of a channel's share: the level scale times a segment.
pub open spec fn share_scale() -> int {
    level_scale() * SEGMENT
}

/// The upper level `q` over `level_scale()`: `l * (1 + s)` in the darker
/// half, `l + s - l * s` in the lighter.
pub open spec fn upper_level(s: int, l: int) -> int {
    if 2 * l < FULL_SCALE {
        l * (FULL_SCALE + s)
    } else {
        (l + s) * FULL_SCALE - l * s
    }
}

/// The lower level `p = 2 * l - q` over `level_scale()`.
pub open spec fn lower_level(s: int, l: int) -> int {
    2 * l * FULL_SCALE - upper_level(s, l)
}

/// A hue shifted by a third of a turn, brought back by at most one turn.
pub open spec fn folded(t: int) -> int {
    let up = if t < 0 { t + FULL_TURN } else { t };
    if up > FULL_TURN {
        up - FULL_TURN
    } else {
        up
    }
}

/// The share of one channel over `share_scale()`, for the levels `p` and `q`
/// and the channel's folded hue `t`: rising in the first segment, `q` up to
/// half a turn, falling in the fourth segment, `p` for the rest.
pub open spec fn channel_share(p: int, q: int, t: int) -> int {
    if t < SEGMENT {
        p * SEGMENT + (q - p) * t
    } else if t < 3 * SEGMENT {
        q * SEGMENT
    } else if t < 4 * SEGMENT {
        p * SEGMENT + (q - p) * (4 * SEGMENT - t)
    } else {
        p * SEGMENT
    }
}

/// The byte of a share: rounded to the nearest 1/12000, scaled to 255, truncated.
pub open spec fn channel_byte(share: int) -> int {
    (round_div(share * CHANNEL_GRID, share_scale()) * 255) / (CHANNEL_GRID as int)
}

/// The byte of a gray of lightness `l`: scaled to 255, truncated.
pub open spec fn gray_byte(l: int) -> int {
    (l * 255) / (FULL_SCALE as int)
}

/// The RGB color of a normalized HSL color.
pub open spec fn rgb_of_normalized(color: HslColor) -> RgbColor {
    if color.s < GRAY_BELOW {
        let gray = gray_byte(color.l as int) as u8;
        RgbColor { r: gray, g: gray, b: gray }
    } else {
        let q = upper_level(color.s as int, color.l as int);
        let p = lower_level(color.s as int, color.l as int);
        RgbColor {
            r: channel_byte(channel_share(p, q, folded(color.h + 2 * SEGMENT))) as u8,
            g: channel_byte(channel_share(p, q, folded(color.h as int))) as u8,
            b: channel_byte(channel_share(p, q, folded(color.h - 2 * SEGMENT))) as u8,
        }
    }
}

/// The RGB color of any HSL color: that of the color normalized.
pub open spec fn rgb_of(color: HslColor) -> RgbColor {
    rgb_of_normalized(color.normalized())
}

/// The two levels lie in order between nothing and the whole.
pub proof fn lemma_levels_in_order(s: int, l: int)
    requires
        0 <= s <= FULL_SCALE,
        0 <= l <= FULL_SCALE,
    ensures
        0 <= lower_level(s, l) <= upper_level(s, l) <= level_scale(),
{
    let c = FULL_SCALE as int;
    if 2 * l < c {
        // q = l * (c + s), p = l * (c - s)
        assert(2 * l * c - l * (c + s) == l * (c - s)) by (nonlinear_arith);
        assert(0 <= l * (c - s) <= l * (c + s)) by (nonlinear_arith)
            requires
                0 <= s <= c,
                0 <= l,
        ;
        assert(l * (c + s) <= c * c) by (nonlinear_arith)
            requires
                0 <= s <= c,
                0 <= l,
                2 * l < c,
        ;
    } else {
        // q = l * c + s * (c - l), p = l * c - s * (c - l)
        assert((l + s) * c - l * s == l * c + s * (c - l)) by (nonlinear_arith);
        assert(2 * l * c - ((l + s) * c - l * s) == l * c - s * (c - l)) by (nonlinear_arith);
        assert(0 <= s * (c - l) <= c * (c - l)) by (nonlinear_arith)
            requires
                0 <= s <= c,
                0 <= l <= c,
        ;
        assert(c * (c - l) <= l * c && l * c + c * (c - l) == c * c) by (nonlinear_arith)
            requires
                0 <= l <= c,
                2 * l >= c,
        ;
    }
}

/// A share lies between the two levels, each taken over a whole segment.
pub proof fn lemma_share_between_levels(p: int, q: int, t: int)
    requires
        0 <= p <= q,
        0 <= t <= FULL_TURN,
    ensures
        p * SEGMENT <= channel_share(p, q, t) <= q * SEGMENT,
{
    let g = SEGMENT as int;
    assert(p * g <= q * g) by (nonlinear_arith)
        requires
            p <= q,
            g > 0,
    ;
    if t < g {
        assert(0 <= (q - p) * t <= (q - p) * g && p * g + (q - p) * g == q * g)
            by (nonlinear_arith)
            requires
                p <= q,
                0 <= t < g,
        ;
    } else if 3 * g <= t < 4 * g {
        let u = 4 * g - t;
        assert(0 <= (q - p) * u <= (q - p) * g && p * g + (q - p) * g == q * g)
            by (nonlinear_arith)
            requires
                p <= q,
                0 <= u <= g,
        ;
    }
}

/// The byte of a share that is at most the whole fits in a byte.
pub proof fn lemma_channel_byte_fits(share: int)
    requires
        0 <= share <= share_scale(),
    ensures
        0 <= channel_byte(share) <= 255,
{
    let d = share_scale();
    let grid = CHANNEL_GRID as int;
    assert(0 <= share * grid <= grid * d) by (nonlinear_arith)
        requires
            0 <= share <= d,
            grid == 12_000,
    ;
    crate::units::lemma_round_div_monotone(share * grid, grid * d, d);
    crate::units::lemma_round_div_exact(grid, d);
    crate::units::lemma_round_div_bounds(share * grid, d);
}

/// A color without saturation has three equal channels, whatever its hue.
pub proof fn lemma_achromatic_is_gray(color: HslColor)
    requires
        color.s < GRAY_BELOW,
    ensures
        rgb_of(color).r == rgb_of(color).g,
        rgb_of(color).g == rgb_of(color).b,
{
}

/// Whole turns added to the hue do not change the RGB color.
pub proof fn lemma_hue_turns_are_invisible(color: HslColor, turned: HslColor, turns: int)
    requires
        turned.h == color.h + turns * FULL_TURN,
        turned.s == color.s,
        turned.l == color.l,
    ensures
        rgb_of(turned) == rgb_of(color),
{
    vstd::arithmetic::div_mod::lemma_mod_multiples_vanish(
        turns,
        color.h as int,
        FULL_TURN as int,
    );
    assert(turns * FULL_TURN + color.h == turned.h);
}

impl HslColor {
    /// The RGB color of this color.
    pub fn convert_hsl_to_rgb(&self) -> (rgb: RgbColor)
        ensures
            rgb == rgb_of(*self),
    {
        let mut color = *self;
        color.normalize();
        if color.s < GRAY_BELOW {
            let gray: u8 = ((color.l as u128 * 255) / (FULL_SCALE as u128)) as u8;
            return RgbColor::new(gray, gray, gray);
        }
        let s: u128 = color.s as u128;
        let l: u128 = color.l as u128;
        let scale: u128 = FULL_SCALE as u128;
        proof {
            lemma_levels_in_order(s as int, l as int);
            assert(l * (scale + s) <= 2 * (scale * scale) && (l + s) * scale <= 2 * (scale * scale)
                && l * s <= scale * scale && 2 * l * scale <= 2 * (scale * scale))
                by (nonlinear_arith)
                requires
                    0 <= s <= scale,
                    0 <= l <= scale,
            ;
        }
        let q: u128 = if 2 * l < scale {
            l * (scale + s)
        } else {
            (l + s) * scale - l * s
        };
        let p: u128 = 2 * l * scale - q;
        let r = Self::hue_to_rgb_component(p, q, color.h + 2 * SEGMENT);
        let g = Self::hue_to_rgb_component(p, q, color.h);
        let b = Self::hue_to_rgb_component(p, q, color.h - 2 * SEGMENT);
        RgbColor::new(r, g, b)
    }

    /// The byte of one channel, for the levels `p` and `q` and the channel's
    /// hue `t`, which is the color's hue or a third of a turn from it.
    pub fn hue_to_rgb_component(p: u128, q: u128, t: i64) -> (byte: u8)
        requires
            p <= q <= level_scale(),
            -FULL_TURN <= t <= 2 * FULL_TURN,
        ensures
            byte == channel_byte(channel_share(p as int, q as int, folded(t as int))),
    {
        let mut t: i64 = t;
        if t < 0 {
            t += FULL_TURN;
        }
        if t > FULL_TURN {
            t -= FULL_TURN;
        }
        let segment: u128 = SEGMENT as u128;
        let at: u128 = t as u128;
        proof {
            lemma_share_between_levels(p as int, q as int, t as int);
            assert(q * segment <= level_scale() * segment) by (nonlinear_arith)
                requires
                    q <= level_scale(),
                    segment > 0,
            ;
            assert(p * segment <= q * segment) by (nonlinear_arith)
                requires
                    p <= q,
                    segment > 0,
            ;
            assert(0 <= (q - p) * at <= level_scale() * (6 * segment)) by (nonlinear_arith)
                requires
                    p <= q <= level_scale(),
                    0 <= at <= 6 * segment,
            ;
        }
        let share: u128 = if at < segment {
            p * segment + (q - p) * at
        } else if at < 3 * segment {
            q * segment
        } else if at < 4 * segment {
            proof {
                let u = 4 * segment - at;
                assert(0 <= (q - p) * u <= level_scale() * segment) by (nonlinear_arith)
                    requires
                        p <= q <= level_scale(),
                        0 <= u <= segment,
                ;
            }
            p * segment + (q - p) * (4 * segment - at)
        } else {
            p * segment
        };
        let whole: u128 = (FULL_SCALE as u128) * (FULL_SCALE as u128) * segment;
        proof {
            lemma_channel_byte_fits(share as int);
            assert(share * CHANNEL_GRID <= whole * CHANNEL_GRID) by (nonlinear_arith)
                requires
                    share <= whole,
            ;
        }
        let rounded: u128 = (2 * (share * CHANNEL_GRID) + whole) / (2 * whole);
        ((rounded * 255) / CHANNEL_GRID) as u8
    }
}

impl From<HslColor> for RgbColor {
    fn from(val: HslColor) -> (rgb: RgbColor) {
        val.convert_hsl_to_rgb()
    }
}

impl FromSpecImpl<HslColor> for RgbColor {
    open spec fn obeys_from_spec() -> bool {
        true
    }

    open spec fn from_spec(val: HslColor) -> RgbColor {
        rgb_of(val)
    }
}

} // verus!
