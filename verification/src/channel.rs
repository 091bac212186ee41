//! One channel of a spinner: where it stands and how it moves.
//!
//! A moving channel does not add up rounded increments. It keeps the value
//! it started from, the whole movement, the number of steps the movement is
//! spread over and the number of steps taken, and its value is the exact
//! fraction of the movement, rounded once. When the steps taken reach the
//! span, the whole movement is added to the start and the steps begin anew.

use vstd::prelude::*;
use crate::spin_mode::{Rule, SpinMode};
use crate::units::{
    lemma_round_div_exact, round_div, saturate, saturate_to_i64, scaled_part, UNITS,
};

verus! {

/// A channel as the contracts see it.
pub struct ChannelView {
    /// The value the current lap started from.
    pub base: int,
    /// Steps taken in the current lap.
    pub steps: nat,
    /// The movement of one lap.
    pub delta: int,
    /// Steps in one lap; 0 where the channel does not move.
    pub div: nat,
    /// The rule that was set.
    pub rule: Rule,
}

impl ChannelView {
    /// Whether this is a state that a channel of a spinner of `count` colors can be in.
    pub open spec fn wf(self, count: nat) -> bool {
        &&& self.rule.well_formed()
        &&& self.div == self.rule.span(count)
        &&& self.div <= usize::MAX
        &&& i64::MIN <= self.base <= i64::MAX
        &&& -0x1_0000_0000_0000_0000 < self.delta < 0x1_0000_0000_0000_0000
        &&& self.div == 0 ==> self.steps == 0 && self.delta == 0
        &&& self.div > 0 ==> self.steps < self.div
    }

    /// The channel at `at` with `rule` newly set, in a spinner of `count` colors.
    pub open spec fn anchored(rule: Rule, at: int, count: nat) -> ChannelView {
        ChannelView {
            base: at,
            steps: 0,
            delta: rule.movement(at, count),
            div: rule.span(count),
            rule,
        }
    }

    /// The running value: the start of the lap and the part of the movement
    /// that the steps taken amount to, rounded to the nearest unit.
    pub open spec fn value(self) -> int {
        if self.div > 0 {
            saturate(self.base + round_div(self.delta * self.steps, self.div as int))
        } else {
            self.base
        }
    }

    /// The channel one step further.
    pub open spec fn advanced(self) -> ChannelView {
        if self.div == 0 {
            self
        } else if self.steps + 1 >= self.div {
            ChannelView { base: saturate(self.base + self.delta), steps: 0, ..self }
        } else {
            ChannelView { steps: self.steps + 1, ..self }
        }
    }

    /// The channel `k` steps further.
    pub open spec fn after(self, k: nat) -> ChannelView
        decreases k,
    {
        if k == 0 {
            self
        } else {
            self.after((k - 1) as nat).advanced()
        }
    }

    /// What the step numbered `counter` shows of this channel, before it is
    /// brought into range: the running value and the offset of that step.
    pub open spec fn shown(self, counter: nat) -> int {
        self.value() + self.rule.offset_at(counter)
    }

    /// Whether the channel stands where its rule was set, no step taken.
    pub open spec fn is_anchored(self, count: nat) -> bool {
        self == ChannelView::anchored(self.rule, self.base, count)
    }

    /// Where a channel that has taken no step yet stands after `k` steps of
    /// its first lap: at its start plus the `k`-th part of its movement,
    /// rounded to the nearest unit.
    pub open spec fn value_at(self, k: nat) -> int {
        if self.div > 0 {
            saturate(self.base + round_div(self.delta * k, self.div as int))
        } else {
            self.base
        }
    }

    /// What the step numbered `k` of a round shows of a channel that has
    /// taken no step yet, before it is brought into range.
    pub open spec fn shown_at(self, k: nat) -> int {
        self.value_at(k) + self.rule.offset_at(k)
    }
}

/// A step keeps a channel in order, and leaves its rule and its span alone.
pub proof fn lemma_advanced_wf(channel: ChannelView, count: nat)
    requires
        channel.wf(count),
    ensures
        channel.advanced().wf(count),
        channel.advanced().rule == channel.rule,
        channel.advanced().delta == channel.delta,
        channel.advanced().div == channel.div,
{
}

/// A channel that has not moved yet stands at its start.
pub proof fn lemma_value_at_start(channel: ChannelView, count: nat)
    requires
        channel.wf(count),
        channel.steps == 0,
    ensures
        channel.value() == channel.base,
{
    if channel.div > 0 {
        assert(channel.delta * 0 == 0);
        assert(round_div(0, channel.div as int) == 0) by (nonlinear_arith)
            requires
                channel.div > 0,
        {
            let d = channel.div as int;
            assert((2 * 0 + d) / (2 * d) == 0);
        }
    }
}

/// Within its first lap, a channel stands after `k` steps at its start plus
/// the `k`-th part of the movement, rounded; at the end of the lap that is
/// the start plus the whole movement, exactly.
pub proof fn lemma_value_after(channel: ChannelView, count: nat, k: nat)
    requires
        channel.wf(count),
        channel.steps == 0,
        channel.div > 0,
        k <= channel.div,
    ensures
        channel.after(k).wf(count),
        k < channel.div ==> channel.after(k) == (ChannelView { steps: k, ..channel }),
        channel.after(k).value() == saturate(
            channel.base + round_div(channel.delta * k, channel.div as int),
        ),
        k == channel.div ==> channel.after(k).value() == saturate(channel.base + channel.delta),
    decreases k,
{
    if k == 0 {
        lemma_value_at_start(channel, count);
        assert(channel.after(0) == channel);
    } else {
        lemma_value_after(channel, count, (k - 1) as nat);
        let before = channel.after((k - 1) as nat);
        assert(before == (ChannelView { steps: (k - 1) as nat, ..channel }));
        lemma_advanced_wf(before, count);
        if k == channel.div {
            lemma_round_div_exact(channel.delta, channel.div as int);
            lemma_value_at_start(before.advanced(), count);
        }
    }
}

/// A channel that does not move stays as it is, however many steps pass.
pub proof fn lemma_still_after(channel: ChannelView, k: nat)
    requires
        channel.div == 0,
    ensures
        channel.after(k) == channel,
    decreases k,
{
    if k > 0 {
        lemma_still_after(channel, (k - 1) as nat);
    }
}

/// Steps keep a channel in order and leave its rule alone.
pub proof fn lemma_after_wf(channel: ChannelView, count: nat, k: nat)
    requires
        channel.wf(count),
    ensures
        channel.after(k).wf(count),
        channel.after(k).rule == channel.rule,
    decreases k,
{
    if k > 0 {
        lemma_after_wf(channel, count, (k - 1) as nat);
        lemma_advanced_wf(channel.after((k - 1) as nat), count);
    }
}

/// Within a round, a channel that had taken no step stands after `k` steps
/// where `value_at` says.
pub proof fn lemma_after_value_at(channel: ChannelView, count: nat, k: nat)
    requires
        channel.wf(count),
        channel.steps == 0,
        k < count,
    ensures
        channel.after(k).value() == channel.value_at(k),
{
    if channel.div == 0 {
        lemma_still_after(channel, k);
    } else {
        lemma_value_after(channel, count, k);
    }
}

/// A channel set to `Absolute` stands on its goal at the last step of a
/// round of two or more colors.
pub proof fn lemma_absolute_ends_on_goal(channel: ChannelView, count: nat, goal: int)
    requires
        count >= 2,
        channel.wf(count),
        channel.is_anchored(count),
        channel.rule == Rule::Absolute(goal),
    ensures
        channel.shown_at((count - 1) as nat) == goal,
{
    lemma_round_div_exact(channel.delta, channel.div as int);
}

/// A channel set to `RelativeIncl` has moved by its goal at the last step
/// of a round of two or more colors, as far as a channel can hold it.
pub proof fn lemma_relative_incl_ends_on_goal(channel: ChannelView, count: nat, goal: int)
    requires
        count >= 2,
        channel.wf(count),
        channel.is_anchored(count),
        channel.rule == Rule::RelativeIncl(goal),
    ensures
        channel.shown_at((count - 1) as nat) == saturate(channel.base + goal),
{
    lemma_round_div_exact(channel.delta, channel.div as int);
}

/// A channel set to `RelativeExcl` would have moved by its goal one step
/// after the last of a round; at the last step it has moved by the goal
/// less one `count`-th of it, and so stops short of the goal wherever the
/// goal is more than half a unit for each color.
pub proof fn lemma_relative_excl_stops_short(channel: ChannelView, count: nat, goal: int)
    requires
        count >= 1,
        channel.wf(count),
        channel.is_anchored(count),
        channel.rule == Rule::RelativeExcl(goal),
    ensures
        channel.value_at(count) == saturate(channel.base + goal),
        channel.shown_at((count - 1) as nat) == saturate(
            channel.base + round_div(goal * (count - 1), count as int),
        ),
        goal >= 0 ==> round_div(goal * (count - 1), count as int) <= goal,
        goal <= 0 ==> round_div(goal * (count - 1), count as int) >= goal,
        count < 2 * goal ==> round_div(goal * (count - 1), count as int) < goal,
        count < -2 * goal ==> round_div(goal * (count - 1), count as int) > goal,
{
    let n = count as int;
    lemma_round_div_exact(goal, n);
    let size = if goal >= 0 { goal } else { -goal };
    let part = size * (n - 1);
    assert(part >= 0 && part <= size * n && 2 * part + n == size * (2 * n) + (n - 2 * size))
        by (nonlinear_arith)
        requires
            size >= 0,
            n >= 1,
            part == size * (n - 1),
    ;
    assert((2 * part + n) / (2 * n) <= size) by (nonlinear_arith)
        requires
            n >= 1,
            size >= 0,
            2 * part + n == size * (2 * n) + (n - 2 * size),
    {
        assert(2 * part + n < (size + 1) * (2 * n));
        assert((2 * part + n) / (2 * n) < size + 1);
    }
    if n < 2 * size {
        assert((2 * part + n) / (2 * n) < size) by (nonlinear_arith)
            requires
                n >= 1,
                size >= 0,
                n < 2 * size,
                2 * part + n == size * (2 * n) + (n - 2 * size),
        {
            assert(2 * part + n < size * (2 * n));
        }
    }
    if goal >= 0 {
        assert(goal * (n - 1) == part);
    } else {
        assert(goal * (n - 1) == -part) by (nonlinear_arith)
            requires
                part == (-goal) * (n - 1),
        ;
        if part == 0 {
            assert(round_div(0, n) == 0) by (nonlinear_arith)
                requires
                    n >= 1,
            {
                assert((2 * 0 + n) / (2 * n) == 0);
            }
        }
    }
}

/// The rule of a channel, as it is stored.
pub(crate) enum StoredRule {
    Still,
    Absolute(i64),
    RelativeIncl(i64),
    RelativeExcl(i64),
    Offset(Vec<i32>),
}

impl View for StoredRule {
    type V = Rule;

    closed spec fn view(&self) -> Rule {
        match *self {
            StoredRule::Still => Rule::Still,
            StoredRule::Absolute(goal) => Rule::Absolute(goal as int),
            StoredRule::RelativeIncl(goal) => Rule::RelativeIncl(goal as int),
            StoredRule::RelativeExcl(goal) => Rule::RelativeExcl(goal as int),
            StoredRule::Offset(list) => Rule::Offset(list@),
        }
    }
}

impl StoredRule {
    /// The rule that a spin mode asks for, with its list of offsets copied.
    pub(crate) fn of_mode(spin_mode: SpinMode) -> (rule: StoredRule)
        ensures
            rule@ == spin_mode@,
    {
        match spin_mode {
            SpinMode::Still => StoredRule::Still,
            SpinMode::Absolute(goal) => StoredRule::Absolute(goal as i64 * UNITS),
            SpinMode::RelativeIncl(goal) => StoredRule::RelativeIncl(goal as i64 * UNITS),
            SpinMode::RelativeExcl(goal) => StoredRule::RelativeExcl(goal as i64 * UNITS),
            SpinMode::Offset(values) => StoredRule::Offset(Self::store_spin_values(values)),
        }
    }

    /// The rule that reaches `goal`, in units, at the last step.
    pub(crate) fn absolute(goal: i64) -> (rule: StoredRule)
        ensures
            rule@ == Rule::Absolute(goal as int),
    {
        StoredRule::Absolute(goal)
    }

    /// A copy of the offsets.
    pub(crate) fn store_spin_values(values: &[i32]) -> (stored: Vec<i32>)
        ensures
            stored@ == values@,
    {
        let mut stored: Vec<i32> = Vec::new();
        let mut i: usize = 0;
        while i < values.len()
            invariant
                i <= values.len(),
                stored@ == values@.take(i as int),
            decreases values.len() - i,
        {
            stored.push(values[i]);
            i += 1;
        }
        stored
    }

    /// The movement of one lap and the steps it is spread over, for a
    /// channel that starts at `base_value` in a spinner of `count` colors.
    pub(crate) fn calc_spin_value(&self, base_value: i64, count: usize) -> (lap: (i128, usize))
        requires
            count >= 1,
        ensures
            lap.0 == self@.movement(base_value as int, count as nat),
            lap.1 == self@.span(count as nat),
    {
        match self {
            StoredRule::Absolute(goal) => {
                if count == 1 {
                    (0, 0)
                } else {
                    (*goal as i128 - base_value as i128, count - 1)
                }
            },
            StoredRule::RelativeIncl(goal) => {
                if count == 1 {
                    (0, 0)
                } else {
                    (*goal as i128, count - 1)
                }
            },
            StoredRule::RelativeExcl(goal) => (*goal as i128, count),
            _ => (0, 0),
        }
    }
}

/// One channel of a spinner.
pub(crate) struct Channel {
    base: i64,
    steps: usize,
    delta: i128,
    div: usize,
    rule: StoredRule,
}

impl View for Channel {
    type V = ChannelView;

    closed spec fn view(&self) -> ChannelView {
        ChannelView {
            base: self.base as int,
            steps: self.steps as nat,
            delta: self.delta as int,
            div: self.div as nat,
            rule: self.rule@,
        }
    }
}

impl Channel {
    /// A channel that stands still at `at`.
    pub(crate) fn new(at: i64) -> (channel: Channel)
        ensures
            forall|count: nat| channel@ == #[trigger] ChannelView::anchored(Rule::Still, at as int, count),
    {
        Channel { base: at, steps: 0, delta: 0, div: 0, rule: StoredRule::Still }
    }

    /// Sets the rule; the channel starts anew from where it stands.
    pub(crate) fn set_rule(&mut self, rule: StoredRule, count: usize)
        requires
            count >= 1,
            old(self)@.wf(count as nat),
            rule@.well_formed(),
        ensures
            final(self)@ == ChannelView::anchored(rule@, old(self)@.value(), count as nat),
            final(self)@.wf(count as nat),
    {
        let at: i64 = self.value();
        let lap = rule.calc_spin_value(at, count);
        self.base = at;
        self.steps = 0;
        self.delta = lap.0;
        self.div = lap.1;
        self.rule = rule;
    }

    /// Moves the channel to `at`; it starts anew from there under its rule.
    pub(crate) fn reseed(&mut self, at: i64, count: usize)
        requires
            count >= 1,
            old(self)@.wf(count as nat),
        ensures
            final(self)@ == ChannelView::anchored(old(self)@.rule, at as int, count as nat),
            final(self)@.wf(count as nat),
    {
        let lap = self.rule.calc_spin_value(at, count);
        self.base = at;
        self.steps = 0;
        self.delta = lap.0;
        self.div = lap.1;
    }

    /// The running value.
    pub(crate) fn value(&self) -> (value: i64)
        requires
            exists|count: nat| self@.wf(count),
        ensures
            value == self@.value(),
    {
        if self.div == 0 {
            self.base
        } else {
            saturate_to_i64(self.base as i128 + scaled_part(self.delta, self.steps, self.div))
        }
    }

    /// Takes one step.
    pub(crate) fn spin_calculated_channel(&mut self)
        requires
            exists|count: nat| old(self)@.wf(count),
        ensures
            final(self)@ == old(self)@.advanced(),
            forall|count: nat| old(self)@.wf(count) ==> final(self)@.wf(count),
    {
        if self.div > 0 {
            if self.steps + 1 >= self.div {
                self.base = saturate_to_i64(self.base as i128 + self.delta);
                self.steps = 0;
            } else {
                self.steps = self.steps + 1;
            }
        }
    }

    /// What the step numbered `counter` shows of this channel, before it is
    /// brought into range.
    pub(crate) fn spin_stored_channel(&self, counter: usize) -> (shown: i128)
        requires
            exists|count: nat| self@.wf(count),
        ensures
            shown == self@.shown(counter as nat),
    {
        let value: i128 = self.value() as i128;
        match &self.rule {
            StoredRule::Offset(offsets) => {
                let index: usize = counter % offsets.len();
                value + offsets[index] as i128 * UNITS as i128
            },
            _ => value,
        }
    }
}

} // verus!
