//! The single-level stepper: one running color, one rule per channel.

use vstd::prelude::*;
use crate::channel::{
    lemma_absolute_ends_on_goal, lemma_after_value_at, lemma_after_wf, lemma_value_at_start,
    Channel, ChannelView, StoredRule,
};
use crate::hsl_color::HslColor;
use crate::spin_mode::{Rule, SpinMode};
use crate::units::{clamp_percent, clamp_percent_of, wrap_hue, wrap_hue_of};

verus! {

/// A spinner as the contracts see it.
pub struct SpinnerView {
    /// The number of colors in one round.
    pub count: nat,
    /// The number of colors given out since the start or the last rewind.
    pub counter: nat,
    /// The hue channel.
    pub hue: ChannelView,
    /// The saturation channel.
    pub saturation: ChannelView,
    /// The lightness channel.
    pub lightness: ChannelView,
}

impl SpinnerView {
    /// Whether this is a state that a spinner can be in.
    pub open spec fn wf(self) -> bool {
        &&& 1 <= self.count <= usize::MAX
        &&& self.counter <= usize::MAX
        &&& self.hue.wf(self.count)
        &&& self.saturation.wf(self.count)
        &&& self.lightness.wf(self.count)
    }

    /// The spinner that starts at `color`, with every channel still.
    pub open spec fn fresh(color: HslColor, count: nat) -> SpinnerView {
        SpinnerView {
            count,
            counter: 0,
            hue: ChannelView::anchored(Rule::Still, color.h as int, count),
            saturation: ChannelView::anchored(Rule::Still, color.s as int, count),
            lightness: ChannelView::anchored(Rule::Still, color.l as int, count),
        }
    }

    /// Whether the round is over.
    pub open spec fn finished(self) -> bool {
        self.counter >= self.count
    }

    /// The running color: where the channels stand, offsets apart, not normalized.
    pub open spec fn color(self) -> HslColor {
        HslColor {
            h: self.hue.value() as i64,
            s: self.saturation.value() as i64,
            l: self.lightness.value() as i64,
        }
    }

    /// The spinner at the start of a round, its running color and rules as they are.
    pub open spec fn rewound(self) -> SpinnerView {
        SpinnerView { counter: 0, ..self }
    }

    /// The spinner with its running color replaced; every channel starts
    /// anew from there under its rule.
    pub open spec fn recolored(self, color: HslColor) -> SpinnerView {
        SpinnerView {
            hue: ChannelView::anchored(self.hue.rule, color.h as int, self.count),
            saturation: ChannelView::anchored(self.saturation.rule, color.s as int, self.count),
            lightness: ChannelView::anchored(self.lightness.rule, color.l as int, self.count),
            ..self
        }
    }

    /// The spinner with a rule set for the hue, which replaces the one it had.
    pub open spec fn with_hue(self, rule: Rule) -> SpinnerView {
        SpinnerView { hue: ChannelView::anchored(rule, self.hue.value(), self.count), ..self }
    }

    /// The spinner with a rule set for the saturation, which replaces the one it had.
    pub open spec fn with_saturation(self, rule: Rule) -> SpinnerView {
        SpinnerView {
            saturation: ChannelView::anchored(rule, self.saturation.value(), self.count),
            ..self
        }
    }

    /// The spinner with a rule set for the lightness, which replaces the one it had.
    pub open spec fn with_lightness(self, rule: Rule) -> SpinnerView {
        SpinnerView {
            lightness: ChannelView::anchored(rule, self.lightness.value(), self.count),
            ..self
        }
    }

    /// The spinner with its running color moved on for the coming step: not
    /// at all for the first color of a round, one step for every other.
    pub open spec fn moved(self) -> SpinnerView {
        if self.counter > 0 {
            SpinnerView {
                hue: self.hue.advanced(),
                saturation: self.saturation.advanced(),
                lightness: self.lightness.advanced(),
                ..self
            }
        } else {
            self
        }
    }

    /// The color that the coming step gives out: the running color moved on,
    /// each channel with the offset of this step, then normalized.
    pub open spec fn emitted(self) -> HslColor {
        let moved = self.moved();
        HslColor {
            h: wrap_hue(moved.hue.shown(self.counter)) as i64,
            s: clamp_percent(moved.saturation.shown(self.counter)) as i64,
            l: clamp_percent(moved.lightness.shown(self.counter)) as i64,
        }
    }

    /// The spinner after the coming step.
    pub open spec fn spun(self) -> SpinnerView {
        SpinnerView { counter: self.counter + 1, ..self.moved() }
    }

    /// The spinner after `k` steps.
    pub open spec fn after(self, k: nat) -> SpinnerView
        decreases k,
    {
        if k == 0 {
            self
        } else {
            self.after((k - 1) as nat).spun()
        }
    }

    /// Whether the spinner stands at the start of a round with no channel
    /// having taken a step: as it is when made, given a color, or given
    /// its rules before the first color.
    pub open spec fn at_start(self) -> bool {
        &&& self.counter == 0
        &&& self.hue.steps == 0
        &&& self.saturation.steps == 0
        &&& self.lightness.steps == 0
    }

    /// The color numbered `k` of the round of a spinner at its start: each
    /// channel at its start plus the `k`-th part of its movement, with the
    /// offset of step `k`, normalized.
    pub open spec fn color_at(self, k: nat) -> HslColor {
        HslColor {
            h: wrap_hue(self.hue.shown_at(k)) as i64,
            s: clamp_percent(self.saturation.shown_at(k)) as i64,
            l: clamp_percent(self.lightness.shown_at(k)) as i64,
        }
    }

    /// Whether the two spinners are set up alike: same count, same rules.
    pub open spec fn same_setup(self, other: SpinnerView) -> bool {
        &&& self.count == other.count
        &&& self.hue.rule == other.hue.rule
        &&& self.saturation.rule == other.saturation.rule
        &&& self.lightness.rule == other.lightness.rule
    }
}

/// Every color that a spinner gives out is normalized.
pub proof fn lemma_emitted_is_normalized(spinner: SpinnerView)
    ensures
        spinner.emitted().is_normalized(),
{
}

/// After `k` steps from the start of a round, a spinner has counted `k`
/// colors, and each channel has taken one step fewer, none for the first.
pub proof fn lemma_after_steps(spinner: SpinnerView, k: nat)
    requires
        spinner.counter == 0,
    ensures
        spinner.after(k).counter == k,
        spinner.after(k).count == spinner.count,
        k == 0 ==> spinner.after(k) == spinner,
        k > 0 ==> spinner.after(k).hue == spinner.hue.after((k - 1) as nat),
        k > 0 ==> spinner.after(k).saturation == spinner.saturation.after((k - 1) as nat),
        k > 0 ==> spinner.after(k).lightness == spinner.lightness.after((k - 1) as nat),
        spinner.after(k).moved().hue == spinner.hue.after(k),
        spinner.after(k).moved().saturation == spinner.saturation.after(k),
        spinner.after(k).moved().lightness == spinner.lightness.after(k),
    decreases k,
{
    if k > 0 {
        lemma_after_steps(spinner, (k - 1) as nat);
    }
}

/// The colors of a round in closed form: the color numbered `k` that a
/// spinner at its start gives out is `color_at(k)`. Rounded parts of the
/// movement do not add up from step to step.
pub proof fn lemma_round_in_closed_form(spinner: SpinnerView, k: nat)
    requires
        spinner.wf(),
        spinner.at_start(),
        k < spinner.count,
    ensures
        spinner.after(k).emitted() == spinner.color_at(k),
        spinner.after(k).counter == k,
{
    lemma_after_steps(spinner, k);
    lemma_after_value_at(spinner.hue, spinner.count, k);
    lemma_after_value_at(spinner.saturation, spinner.count, k);
    lemma_after_value_at(spinner.lightness, spinner.count, k);
    lemma_after_wf(spinner.hue, spinner.count, k);
    lemma_after_wf(spinner.saturation, spinner.count, k);
    lemma_after_wf(spinner.lightness, spinner.count, k);
}

/// The first color of a round is the color the spinner starts at, with the
/// offsets of step 0, normalized: no part of any movement is in it.
pub proof fn lemma_first_color(spinner: SpinnerView)
    requires
        spinner.wf(),
        spinner.at_start(),
    ensures
        spinner.emitted().h == wrap_hue(spinner.hue.base + spinner.hue.rule.offset_at(0)),
        spinner.emitted().s == clamp_percent(
            spinner.saturation.base + spinner.saturation.rule.offset_at(0),
        ),
        spinner.emitted().l == clamp_percent(
            spinner.lightness.base + spinner.lightness.rule.offset_at(0),
        ),
{
    lemma_value_at_start(spinner.hue, spinner.count);
    lemma_value_at_start(spinner.saturation, spinner.count);
    lemma_value_at_start(spinner.lightness, spinner.count);
}

/// `Absolute` is exact: in a round of two or more colors, the last color
/// has every channel that was set to `Absolute` on its goal, normalized.
pub proof fn lemma_absolute_is_exact(spinner: SpinnerView)
    requires
        spinner.wf(),
        spinner.at_start(),
        spinner.count >= 2,
    ensures
        spinner.hue.is_anchored(spinner.count) ==> (spinner.hue.rule matches Rule::Absolute(goal)
            ==> spinner.after((spinner.count - 1) as nat).emitted().h == wrap_hue(goal)),
        spinner.saturation.is_anchored(spinner.count) ==> (spinner.saturation.rule matches Rule::Absolute(
            goal,
        ) ==> spinner.after((spinner.count - 1) as nat).emitted().s == clamp_percent(goal)),
        spinner.lightness.is_anchored(spinner.count) ==> (spinner.lightness.rule matches Rule::Absolute(
            goal,
        ) ==> spinner.after((spinner.count - 1) as nat).emitted().l == clamp_percent(goal)),
{
    let last = (spinner.count - 1) as nat;
    lemma_round_in_closed_form(spinner, last);
    if spinner.hue.is_anchored(spinner.count) {
        if let Rule::Absolute(goal) = spinner.hue.rule {
            lemma_absolute_ends_on_goal(spinner.hue, spinner.count, goal);
        }
    }
    if spinner.saturation.is_anchored(spinner.count) {
        if let Rule::Absolute(goal) = spinner.saturation.rule {
            lemma_absolute_ends_on_goal(spinner.saturation, spinner.count, goal);
        }
    }
    if spinner.lightness.is_anchored(spinner.count) {
        if let Rule::Absolute(goal) = spinner.lightness.rule {
            lemma_absolute_ends_on_goal(spinner.lightness, spinner.count, goal);
        }
    }
}

/// The single-level stepper.
pub struct Spinner {
    count: usize,
    counter: usize,
    hue: Channel,
    saturation: Channel,
    lightness: Channel,
}

impl View for Spinner {
    type V = SpinnerView;

    closed spec fn view(&self) -> SpinnerView {
        SpinnerView {
            count: self.count as nat,
            counter: self.counter as nat,
            hue: self.hue@,
            saturation: self.saturation@,
            lightness: self.lightness@,
        }
    }
}

impl Spinner {
    /// A spinner of `count` colors that starts at `color`, every channel still.
    pub fn new(color: HslColor, count: usize) -> (spinner: Self)
        requires
            count >= 1,
        ensures
            spinner@ == SpinnerView::fresh(color, count as nat),
            spinner@.wf(),
    {
        Spinner {
            count,
            counter: 0,
            hue: Channel::new(color.h),
            saturation: Channel::new(color.s),
            lightness: Channel::new(color.l),
        }
    }

    /// The running color.
    pub fn color(&self) -> (color: HslColor)
        requires
            self@.wf(),
        ensures
            color == self@.color(),
    {
        HslColor { h: self.hue.value(), s: self.saturation.value(), l: self.lightness.value() }
    }

    /// The number of colors in one round.
    pub fn count(&self) -> (count: usize)
        ensures
            count == self@.count,
    {
        self.count
    }

    /// The number of colors given out since the start or the last rewind.
    pub fn counter(&self) -> (counter: usize)
        ensures
            counter == self@.counter,
    {
        self.counter
    }

    /// Starts a new round; the running color and the rules stay.
    pub fn rewind(&mut self) -> (spinner: &mut Self)
        ensures
            spinner@ == old(self)@.rewound(),
            *final(self) == *final(spinner),
    {
        self.counter = 0;
        self
    }

    /// Replaces the running color; every channel starts anew from it.
    pub fn with_color(&mut self, color: HslColor) -> (spinner: &mut Self)
        requires
            old(self)@.wf(),
        ensures
            spinner@ == old(self)@.recolored(color),
            spinner@.wf(),
            *final(self) == *final(spinner),
    {
        self.hue.reseed(color.h, self.count);
        self.saturation.reseed(color.s, self.count);
        self.lightness.reseed(color.l, self.count);
        self
    }

    /// Set spin mode for Hue channel
    pub fn with_hue(&mut self, spin_mode: SpinMode)
        requires
            old(self)@.wf(),
            spin_mode@.well_formed(),
        ensures
            final(self)@ == old(self)@.with_hue(spin_mode@),
            final(self)@.wf(),
    {
        self.hue.set_rule(StoredRule::of_mode(spin_mode), self.count);
    }

    /// Set spin mode for Saturation channel
    pub fn with_saturation(&mut self, spin_mode: SpinMode)
        requires
            old(self)@.wf(),
            spin_mode@.well_formed(),
        ensures
            final(self)@ == old(self)@.with_saturation(spin_mode@),
            final(self)@.wf(),
    {
        self.saturation.set_rule(StoredRule::of_mode(spin_mode), self.count);
    }

    /// Set spin mode for Lightness channel
    pub fn with_lightness(&mut self, spin_mode: SpinMode)
        requires
            old(self)@.wf(),
            spin_mode@.well_formed(),
        ensures
            final(self)@ == old(self)@.with_lightness(spin_mode@),
            final(self)@.wf(),
    {
        self.lightness.set_rule(StoredRule::of_mode(spin_mode), self.count);
    }

    /// Sets every channel to reach the channel of `target` at the last step.
    pub fn with_gradient(&mut self, target: HslColor)
        requires
            old(self)@.wf(),
        ensures
            final(self)@ == old(self)@.with_hue(Rule::Absolute(target.h as int)).with_saturation(
                Rule::Absolute(target.s as int),
            ).with_lightness(Rule::Absolute(target.l as int)),
            final(self)@.wf(),
    {
        self.hue.set_rule(StoredRule::absolute(target.h), self.count);
        self.saturation.set_rule(StoredRule::absolute(target.s), self.count);
        self.lightness.set_rule(StoredRule::absolute(target.l), self.count);
    }

    /// Whether the round is over.
    pub fn spin_finished(&self) -> (finished: bool)
        ensures
            finished == self@.finished(),
    {
        self.counter >= self.count
    }

    /// Gives out the next color.
    pub fn spin_next(&mut self) -> (color: HslColor)
        requires
            old(self)@.wf(),
            old(self)@.counter < usize::MAX,
        ensures
            color == old(self)@.emitted(),
            color.is_normalized(),
            final(self)@ == old(self)@.spun(),
            final(self)@.wf(),
    {
        if self.counter > 0 {
            self.spin_calculated_hsl();
        }
        let offseted_color = self.spin_stored_hsl();
        self.counter += 1;
        offseted_color
    }

    /// Moves the running color one step on.
    fn spin_calculated_hsl(&mut self)
        requires
            old(self)@.wf(),
        ensures
            final(self)@ == (SpinnerView {
                hue: old(self)@.hue.advanced(),
                saturation: old(self)@.saturation.advanced(),
                lightness: old(self)@.lightness.advanced(),
                ..old(self)@
            }),
            final(self)@.wf(),
    {
        self.hue.spin_calculated_channel();
        self.saturation.spin_calculated_channel();
        self.lightness.spin_calculated_channel();
    }

    /// The running color with the offsets of the coming step, normalized.
    fn spin_stored_hsl(&self) -> (color: HslColor)
        requires
            self@.wf(),
        ensures
            color.h == wrap_hue(self@.hue.shown(self@.counter)),
            color.s == clamp_percent(self@.saturation.shown(self@.counter)),
            color.l == clamp_percent(self@.lightness.shown(self@.counter)),
            color.is_normalized(),
    {
        let h = wrap_hue_of(self.hue.spin_stored_channel(self.counter));
        let s = clamp_percent_of(self.saturation.spin_stored_channel(self.counter));
        let l = clamp_percent_of(self.lightness.spin_stored_channel(self.counter));
        HslColor { h, s, l }
    }
}

} // verus!
