//! How a channel is told to change over a series.

use vstd::prelude::*;
use crate::hsl_color::HslColor;
use crate::units::UNITS;

verus! {

/// Change modes to be applied on H/S/L channels
pub enum SpinMode<'m> {
    /// Don't change the value (default)
    Still,
    /// Set absolute goal value, in whole degrees or percent
    Absolute(i32),
    /// Set relative goal value, the last step of the current round
    RelativeIncl(i32),
    /// Set relative goal value, the first step of the next round
    RelativeExcl(i32),
    /// List (slice) of values which the result will be offseted with,
    /// in round-robin fashion
    Offset(&'m [i32]),
}

/// Shortcuts for some common transformations
pub enum SpinMacro {
    /// Set absolute HSL goal value
    GradientColor(HslColor),
    /// Set gray goal value, defined by lightness
    FadeToGray(i32),
    /// Set goal value to black
    FadeToBlack,
    /// Set goal value to white
    FadeToWhite,
}

/// The rule of one channel as the contracts see it, with goals in units.
pub enum Rule {
    /// The channel keeps its value.
    Still,
    /// The channel reaches this value at the last step of a round.
    Absolute(int),
    /// The channel has moved by this much at the last step of a round.
    RelativeIncl(int),
    /// The channel would have moved by this much one step after the last.
    RelativeExcl(int),
    /// The channel keeps its value; each step shows it offset by the next
    /// of these whole degrees or percent, read round-robin.
    Offset(Seq<i32>),
}

impl Rule {
    /// Whether the rule can be stored: its goal fits a channel, its list of
    /// offsets is not empty.
    pub open spec fn well_formed(self) -> bool {
        match self {
            Rule::Still => true,
            Rule::Absolute(goal) => i64::MIN <= goal <= i64::MAX,
            Rule::RelativeIncl(goal) => i64::MIN <= goal <= i64::MAX,
            Rule::RelativeExcl(goal) => i64::MIN <= goal <= i64::MAX,
            Rule::Offset(list) => list.len() > 0,
        }
    }

    /// The number of steps over which the movement is spread, in a series of
    /// `count` colors; 0 where the channel does not move. A series of one
    /// color has no step to its last color, so there `Absolute` and
    /// `RelativeIncl` do not move.
    pub open spec fn span(self, count: nat) -> nat {
        match self {
            Rule::Absolute(_) | Rule::RelativeIncl(_) => if count >= 1 {
                (count - 1) as nat
            } else {
                0
            },
            Rule::RelativeExcl(_) => count,
            _ => 0,
        }
    }

    /// The whole movement of a channel that starts at `from`, in a series of
    /// `count` colors.
    pub open spec fn movement(self, from: int, count: nat) -> int {
        if self.span(count) == 0 {
            0
        } else {
            match self {
                Rule::Absolute(goal) => goal - from,
                Rule::RelativeIncl(goal) => goal,
                Rule::RelativeExcl(goal) => goal,
                _ => 0,
            }
        }
    }

    /// The offset, in units, shown at the step numbered `counter`.
    pub open spec fn offset_at(self, counter: nat) -> int {
        match self {
            Rule::Offset(list) => if list.len() > 0 {
                list[(counter % list.len()) as int] * UNITS
            } else {
                0
            },
            _ => 0,
        }
    }
}

impl<'m> View for SpinMode<'m> {
    type V = Rule;

    open spec fn view(&self) -> Rule {
        match *self {
            SpinMode::Still => Rule::Still,
            SpinMode::Absolute(goal) => Rule::Absolute(goal * UNITS),
            SpinMode::RelativeIncl(goal) => Rule::RelativeIncl(goal * UNITS),
            SpinMode::RelativeExcl(goal) => Rule::RelativeExcl(goal * UNITS),
            SpinMode::Offset(list) => Rule::Offset(list@),
        }
    }
}

} // verus!
