//! Palettes for GUI applications: a base color and per-channel spin modes
//! give a series of HSL colors.
//!
//! The way of creating a palette is to specify a base color and some
//! parameters that modify the H, S, L values in the given *spin mode* and
//! steps. All channel values are whole numbers of [`UNITS`]: millionths of a
//! degree or of a percent.

pub mod channel;
pub mod convert_hsl_to_rgb;
pub mod convert_rgb_to_hsl;
pub mod hsl_color;
pub mod rgb_color;
pub mod spin_mode;
pub mod spinner;
pub mod units;
pub mod wheel;

pub use hsl_color::HslColor;
pub use rgb_color::{ParseError, RgbColor};
pub use spin_mode::{SpinMacro, SpinMode};
pub use units::{FULL_SCALE, FULL_TURN, UNITS};
pub use wheel::KolorWheel;
