//! The color wheel: spinners nested in levels, and the series they give.

use vstd::prelude::*;
use crate::hsl_color::HslColor;
use crate::spin_mode::{Rule, SpinMacro, SpinMode};
use crate::spinner::{Spinner, SpinnerView};
use crate::units::UNITS;

verus! {

/// A wheel as the contracts see it.
pub struct WheelView {
    /// The spinners, outermost first. The last one is the top level, the
    /// only one whose colors are given out, and the one that is configured.
    pub levels: Seq<SpinnerView>,
    /// The level at which the next step is taken.
    pub cursor: nat,
}

/// The colors given out while level `i` runs from the state `current` to the
/// end of its round. At the top level these are the colors of `current`
/// itself; at any other, each color of `current` starts the level below
/// anew, and that level's whole run stands in the color's place.
pub open spec fn run_of(levels: Seq<SpinnerView>, i: int, current: SpinnerView) -> Seq<HslColor>
    decreases levels.len() - i, current.count - current.counter,
{
    if i < 0 || i >= levels.len() || current.finished() {
        Seq::empty()
    } else {
        let color = current.emitted();
        let rest = run_of(levels, i, current.spun());
        if i + 1 == levels.len() {
            seq![color] + rest
        } else {
            run_of(levels, i + 1, levels[i + 1].rewound().recolored(color)) + rest
        }
    }
}

/// The colors still to come from the levels `0..=i`, each in the state it
/// is in: what is left of the run of level `i`, then of the level above it,
/// and so on up to the outermost.
pub open spec fn pending_from(levels: Seq<SpinnerView>, i: int) -> Seq<HslColor>
    decreases i + 1,
{
    if i < 0 {
        Seq::empty()
    } else {
        run_of(levels, i, levels[i]) + pending_from(levels, i - 1)
    }
}

/// Whether the two lists of spinners are set up alike from level `from` on.
pub open spec fn same_setup_from(a: Seq<SpinnerView>, b: Seq<SpinnerView>, from: int) -> bool {
    &&& a.len() == b.len()
    &&& forall|j: int| from <= j < a.len() ==> (#[trigger] a[j]).same_setup(b[j])
}

impl WheelView {
    /// Whether this is a state that a wheel can be in.
    pub open spec fn wf(self) -> bool {
        &&& self.levels.len() >= 1
        &&& self.cursor < self.levels.len()
        &&& forall|i: int| 0 <= i < self.levels.len() ==> (#[trigger] self.levels[i]).wf()
        &&& forall|i: int|
            0 <= i < self.levels.len() ==> (#[trigger] self.levels[i]).counter
                <= self.levels[i].count
    }

    /// The index of the top level.
    pub open spec fn top_level(self) -> int {
        self.levels.len() - 1
    }

    /// The wheel of one level that starts at `color`.
    pub open spec fn fresh(color: HslColor, count: nat) -> WheelView {
        WheelView { levels: seq![SpinnerView::fresh(color, count)], cursor: 0 }
    }

    /// The wheel with the top level replaced.
    pub open spec fn with_top(self, top: SpinnerView) -> WheelView {
        WheelView { levels: self.levels.update(self.top_level(), top), ..self }
    }

    /// The wheel with a rule set for the hue of the top level.
    pub open spec fn with_hue(self, rule: Rule) -> WheelView {
        self.with_top(self.levels[self.top_level()].with_hue(rule))
    }

    /// The wheel with a rule set for the saturation of the top level.
    pub open spec fn with_saturation(self, rule: Rule) -> WheelView {
        self.with_top(self.levels[self.top_level()].with_saturation(rule))
    }

    /// The wheel with a rule set for the lightness of the top level.
    pub open spec fn with_lightness(self, rule: Rule) -> WheelView {
        self.with_top(self.levels[self.top_level()].with_lightness(rule))
    }

    /// The wheel with a new top level of `count` colors, which starts at
    /// the running color of the level that was the top.
    pub open spec fn forked(self, count: nat) -> WheelView {
        WheelView {
            levels: self.levels.push(
                SpinnerView::fresh(self.levels[self.top_level()].color(), count),
            ),
            ..self
        }
    }

    /// The wheel with the rules of a shortcut set for the top level.
    pub open spec fn with_macro(self, spin_macro: SpinMacro) -> WheelView {
        match spin_macro {
            SpinMacro::GradientColor(target) => self.with_hue(
                Rule::Absolute(target.h as int),
            ).with_saturation(Rule::Absolute(target.s as int)).with_lightness(
                Rule::Absolute(target.l as int),
            ),
            SpinMacro::FadeToGray(percent) => self.with_saturation(
                Rule::Absolute(0),
            ).with_lightness(Rule::Absolute(percent * UNITS)),
            SpinMacro::FadeToBlack => self.with_saturation(Rule::Absolute(0)).with_lightness(
                Rule::Absolute(0),
            ),
            SpinMacro::FadeToWhite => self.with_saturation(Rule::Absolute(0)).with_lightness(
                Rule::Absolute(100 * UNITS),
            ),
        }
    }

    /// The wheel with the cursor handed back from every level whose round
    /// is over to the level above it, as far as the outermost level.
    pub open spec fn settled(self) -> WheelView
        decreases self.cursor,
    {
        if self.cursor > 0 && self.levels[self.cursor as int].finished() {
            (WheelView { cursor: (self.cursor - 1) as nat, ..self }).settled()
        } else {
            self
        }
    }

    /// Whether the series is over: the cursor has come back to the
    /// outermost level, and that level's round is over.
    pub open spec fn exhausted(self) -> bool {
        self.settled().levels[self.settled().cursor as int].finished()
    }

    /// The wheel after the level at the cursor has taken a step and every
    /// level below it, started anew from the color of the level above, has
    /// taken its first: the cursor stands at the top level.
    pub open spec fn descended(self) -> WheelView
        decreases self.levels.len() - self.cursor,
    {
        if self.cursor >= self.levels.len() {
            self
        } else {
            let current = self.levels[self.cursor as int];
            let stepped = self.levels.update(self.cursor as int, current.spun());
            if self.cursor + 1 >= self.levels.len() {
                WheelView { levels: stepped, ..self }
            } else {
                let below = self.levels[self.cursor as int + 1].rewound().recolored(current.emitted());
                (WheelView {
                    levels: stepped.update(self.cursor as int + 1, below),
                    cursor: self.cursor + 1,
                }).descended()
            }
        }
    }

    /// The wheel after it has given out a color, or found the series over.
    pub open spec fn turned(self) -> WheelView {
        if self.exhausted() {
            self.settled()
        } else {
            self.settled().descended()
        }
    }

    /// The colors still to come, in the order in which they are given out.
    pub open spec fn pending(self) -> Seq<HslColor> {
        pending_from(self.levels, self.cursor as int)
    }
}

/// A run depends on the levels below it only through their setup.
pub proof fn lemma_run_of_same_setup(
    a: Seq<SpinnerView>,
    b: Seq<SpinnerView>,
    i: int,
    current: SpinnerView,
)
    requires
        same_setup_from(a, b, i + 1),
    ensures
        run_of(a, i, current) == run_of(b, i, current),
    decreases a.len() - i, current.count - current.counter,
{
    if i < 0 || i >= a.len() || current.finished() {
    } else {
        lemma_run_of_same_setup(a, b, i, current.spun());
        if i + 1 < a.len() {
            let color = current.emitted();
            assert(a[i + 1].same_setup(b[i + 1]));
            assert(a[i + 1].rewound().recolored(color) == b[i + 1].rewound().recolored(color));
            lemma_run_of_same_setup(a, b, i + 1, a[i + 1].rewound().recolored(color));
        }
    }
}

/// What is still to come depends on the levels beyond `i` only through their setup.
pub proof fn lemma_pending_from_same_setup(a: Seq<SpinnerView>, b: Seq<SpinnerView>, i: int)
    requires
        i < a.len(),
        same_setup_from(a, b, 0),
        forall|j: int| 0 <= j <= i ==> a[j] == b[j],
    ensures
        pending_from(a, i) == pending_from(b, i),
    decreases i + 1,
{
    if i >= 0 {
        lemma_run_of_same_setup(a, b, i, a[i]);
        lemma_pending_from_same_setup(a, b, i - 1);
    }
}

/// The product of the counts of the levels below level `i`.
pub open spec fn product_below(levels: Seq<SpinnerView>, i: int) -> nat
    decreases levels.len() - i,
{
    if i + 1 >= levels.len() {
        1
    } else {
        levels[i + 1].count * product_below(levels, i + 1)
    }
}

/// The product of the counts of all levels.
pub open spec fn product_of_counts(levels: Seq<SpinnerView>) -> nat {
    product_below(levels, -1)
}

/// The number of colors still to come from the levels `0..=i`: for each of
/// them, the steps left in its round times the counts of the levels below.
pub open spec fn to_come(levels: Seq<SpinnerView>, i: int) -> nat
    decreases i + 1,
{
    if i < 0 {
        0
    } else {
        ((levels[i].count - levels[i].counter) * product_below(levels, i)) as nat + to_come(
            levels,
            i - 1,
        )
    }
}

/// A run has as many colors as its level has steps left, times the counts
/// of the levels below.
pub proof fn lemma_run_of_len(levels: Seq<SpinnerView>, i: int, current: SpinnerView)
    requires
        0 <= i < levels.len(),
        current.counter <= current.count,
    ensures
        run_of(levels, i, current).len() == (current.count - current.counter) * product_below(
            levels,
            i,
        ),
    decreases levels.len() - i, current.count - current.counter,
{
    let left = current.count - current.counter;
    let below = product_below(levels, i);
    if current.finished() {
        assert(left * below == 0) by (nonlinear_arith)
            requires
                left == 0,
        ;
    } else {
        lemma_run_of_len(levels, i, current.spun());
        assert((left - 1) * below + below == left * below) by (nonlinear_arith);
        if i + 1 < levels.len() {
            let seeded = levels[i + 1].rewound().recolored(current.emitted());
            lemma_run_of_len(levels, i + 1, seeded);
        } else {
            assert(below == 1);
        }
    }
}

/// Cardinality: what is still to come counts, for each level down to the
/// cursor, the steps left in its round times the counts of the levels below.
pub proof fn lemma_pending_len(wheel: WheelView)
    requires
        wheel.wf(),
    ensures
        wheel.pending().len() == to_come(wheel.levels, wheel.cursor as int),
{
    lemma_pending_from_len(wheel.levels, wheel.cursor as int);
}

/// The same, for the levels `0..=i` of any list of spinners.
pub proof fn lemma_pending_from_len(levels: Seq<SpinnerView>, i: int)
    requires
        i < levels.len(),
        forall|j: int| 0 <= j <= i ==> (#[trigger] levels[j]).counter <= levels[j].count,
    ensures
        pending_from(levels, i).len() == to_come(levels, i),
    decreases i + 1,
{
    if i >= 0 {
        lemma_run_of_len(levels, i, levels[i]);
        lemma_pending_from_len(levels, i - 1);
        let left = levels[i].count - levels[i].counter;
        assert(left * product_below(levels, i) >= 0) by (nonlinear_arith)
            requires
                left >= 0,
        ;
    }
}

/// Cardinality of a whole series: a wheel that has given out no color yet
/// gives out as many colors as the product of the counts of its levels.
pub proof fn lemma_series_len(wheel: WheelView)
    requires
        wheel.wf(),
        wheel.cursor == 0,
        wheel.levels[0].counter == 0,
    ensures
        wheel.pending().len() == product_of_counts(wheel.levels),
{
    lemma_pending_len(wheel);
    assert(to_come(wheel.levels, -1) == 0);
    assert(product_of_counts(wheel.levels) == wheel.levels[0].count * product_below(
        wheel.levels,
        0,
    ));
}

/// A new level multiplies the product of the counts by its own.
pub proof fn lemma_product_below_push(levels: Seq<SpinnerView>, level: SpinnerView, i: int)
    requires
        -1 <= i < levels.len(),
    ensures
        product_below(levels.push(level), i) == product_below(levels, i) * level.count,
    decreases levels.len() - i,
{
    let longer = levels.push(level);
    let count = level.count;
    if i + 1 >= levels.len() {
        assert(longer[i + 1] == level);
        assert(product_below(longer, i + 1) == 1);
        assert(product_below(longer, i) == count * product_below(longer, i + 1));
        assert(count * 1 == 1 * count) by (nonlinear_arith);
    } else {
        lemma_product_below_push(levels, level, i + 1);
        assert(longer[i + 1] == levels[i + 1]);
        let c = levels[i + 1].count;
        let p = product_below(levels, i + 1);
        assert(product_below(longer, i) == c * product_below(longer, i + 1));
        assert(product_below(levels, i) == c * p);
        assert(c * (p * count) == (c * p) * count) by (nonlinear_arith);
    }
}

/// A fork multiplies the number of colors still to come by its count.
pub proof fn lemma_fork_multiplies(wheel: WheelView, count: nat)
    requires
        wheel.wf(),
    ensures
        wheel.forked(count).pending().len() == wheel.pending().len() * count,
{
    let level = SpinnerView::fresh(wheel.levels[wheel.top_level()].color(), count);
    lemma_pending_from_len(wheel.levels, wheel.cursor as int);
    let longer = wheel.levels.push(level);
    assert forall|j: int| 0 <= j <= wheel.cursor implies (#[trigger] longer[j]).counter
        <= longer[j].count by {
        assert(longer[j] == wheel.levels[j]);
    }
    lemma_pending_from_len(longer, wheel.cursor as int);
    lemma_to_come_push(wheel.levels, level, wheel.cursor as int);
}

/// A new level multiplies the colors still to come from the levels above it.
pub proof fn lemma_to_come_push(levels: Seq<SpinnerView>, level: SpinnerView, i: int)
    requires
        i < levels.len(),
        forall|j: int| 0 <= j <= i ==> (#[trigger] levels[j]).counter <= levels[j].count,
    ensures
        to_come(levels.push(level), i) == to_come(levels, i) * level.count,
    decreases i + 1,
{
    if i >= 0 {
        lemma_to_come_push(levels, level, i - 1);
        lemma_product_below_push(levels, level, i);
        let longer = levels.push(level);
        assert(longer[i] == levels[i]);
        let count = level.count;
        let left = levels[i].count - levels[i].counter;
        let p = product_below(levels, i);
        let rest = to_come(levels, i - 1);
        assert(product_below(longer, i) == p * count);
        assert(to_come(longer, i - 1) == rest * count);
        assert(left * p >= 0 && left * (p * count) >= 0 && left * (p * count) == (left * p)
            * count && (left * p + rest) * count == (left * p) * count + rest * count)
            by (nonlinear_arith)
            requires
                left >= 0,
                p >= 0,
                count >= 0,
        ;
        assert(to_come(levels, i) == left * p + rest);
        assert(to_come(longer, i) == left * (p * count) + rest * count);
    } else {
        assert(0 * level.count == 0) by (nonlinear_arith);
    }
}

/// The top level gives out its own colors, one for each step.
pub proof fn lemma_run_of_top(levels: Seq<SpinnerView>, current: SpinnerView, a: nat)
    requires
        levels.len() >= 1,
        current.counter <= current.count,
        a < current.count - current.counter,
    ensures
        run_of(levels, levels.len() - 1, current).len() == current.count - current.counter,
        run_of(levels, levels.len() - 1, current)[a as int] == current.after(a).emitted(),
    decreases a,
{
    let top = levels.len() - 1;
    lemma_run_of_len(levels, top, current);
    assert(product_below(levels, top) == 1);
    if a > 0 {
        lemma_run_of_top(levels, current.spun(), (a - 1) as nat);
        lemma_after_spun(current, (a - 1) as nat);
    }
}

/// Taking a step first and `k` steps after is taking `k + 1` steps.
pub proof fn lemma_after_spun(spinner: SpinnerView, k: nat)
    ensures
        spinner.spun().after(k) == spinner.after(k + 1),
    decreases k,
{
    if k > 0 {
        lemma_after_spun(spinner, (k - 1) as nat);
        assert(spinner.after(k + 1) == spinner.after(k).spun());
    } else {
        assert(spinner.after(1) == spinner.after(0).spun());
    }
}

/// Order: the outer level varies slowest. The run of a level that is not
/// the top is made of blocks, one for each of its steps and each as long as
/// the product of the counts below; block `a` is the whole run of the level
/// below, started anew from the color of step `a`.
pub proof fn lemma_run_of_blocks(
    levels: Seq<SpinnerView>,
    i: int,
    current: SpinnerView,
    a: nat,
    b: nat,
)
    requires
        0 <= i,
        i + 1 < levels.len(),
        current.counter <= current.count,
        a < current.count - current.counter,
        b < product_below(levels, i),
    ensures
        a * product_below(levels, i) + b < run_of(levels, i, current).len(),
        run_of(levels, i, current)[(a * product_below(levels, i) + b) as int] == run_of(
            levels,
            i + 1,
            levels[i + 1].rewound().recolored(current.after(a).emitted()),
        )[b as int],
    decreases a,
{
    let block = product_below(levels, i);
    let left = current.count - current.counter;
    lemma_run_of_len(levels, i, current);
    assert(a * block + b < left * block) by (nonlinear_arith)
        requires
            a < left,
            b < block,
    ;
    let seeded = levels[i + 1].rewound().recolored(current.emitted());
    lemma_run_of_len(levels, i + 1, seeded);
    let first = run_of(levels, i + 1, seeded);
    let rest = run_of(levels, i, current.spun());
    assert(first.len() == block);
    if a == 0 {
        assert(a * block + b == b) by (nonlinear_arith)
            requires
                a == 0,
        ;
    } else {
        lemma_run_of_blocks(levels, i, current.spun(), (a - 1) as nat, b);
        lemma_after_spun(current, (a - 1) as nat);
        assert(a * block + b == block + ((a - 1) * block + b)) by (nonlinear_arith);
        assert((a - 1) * block + b >= 0) by (nonlinear_arith)
            requires
                a >= 1,
                block >= 0,
                b >= 0,
        ;
        assert((first + rest)[(a * block + b) as int] == rest[(a - 1) * block + b]);
    }
}

/// Every color still to come is normalized.
pub proof fn lemma_run_of_normalized(levels: Seq<SpinnerView>, i: int, current: SpinnerView)
    ensures
        forall|n: int|
            0 <= n < run_of(levels, i, current).len() ==> (#[trigger] run_of(
                levels,
                i,
                current,
            )[n]).is_normalized(),
    decreases levels.len() - i, current.count - current.counter,
{
    let run = run_of(levels, i, current);
    if i < 0 || i >= levels.len() || current.finished() {
    } else {
        let rest = run_of(levels, i, current.spun());
        lemma_run_of_normalized(levels, i, current.spun());
        if i + 1 < levels.len() {
            let seeded = levels[i + 1].rewound().recolored(current.emitted());
            let first = run_of(levels, i + 1, seeded);
            lemma_run_of_normalized(levels, i + 1, seeded);
            assert forall|n: int| 0 <= n < run.len() implies (#[trigger] run[n]).is_normalized() by {
                if n < first.len() {
                    assert(run[n] == first[n]);
                } else {
                    assert(run[n] == rest[n - first.len()]);
                }
            }
        } else {
            assert forall|n: int| 0 <= n < run.len() implies (#[trigger] run[n]).is_normalized() by {
                if n > 0 {
                    assert(run[n] == rest[n - 1]);
                }
            }
        }
    }
}

/// The color wheel object, which emits series of
/// [`HslColor`](HslColor) color objects upon spin
pub struct KolorWheel {
    spinner_vec: Vec<Spinner>,
    level: usize,
}

impl View for KolorWheel {
    type V = WheelView;

    closed spec fn view(&self) -> WheelView {
        WheelView {
            levels: Seq::new(self.spinner_vec@.len(), |i: int| self.spinner_vec@[i]@),
            cursor: self.level as nat,
        }
    }
}

impl KolorWheel {
    /// Create the object with specified color and
    /// number of spin steps.
    pub fn new(color: HslColor, count: usize) -> (wheel: Self)
        requires
            count >= 1,
        ensures
            wheel@ == WheelView::fresh(color, count as nat),
            wheel@.wf(),
    {
        let mut vec: Vec<Spinner> = Vec::new();
        let spinner = Spinner::new(color, count);
        vec.push(spinner);
        let wheel = KolorWheel { spinner_vec: vec, level: 0 };
        assert(wheel@.levels =~= seq![SpinnerView::fresh(color, count as nat)]);
        wheel
    }

    /// Set spin mode for Hue channel
    pub fn with_hue(&mut self, spin_mode: SpinMode) -> (wheel: &mut Self)
        requires
            old(self)@.wf(),
            spin_mode@.well_formed(),
        ensures
            wheel@ == old(self)@.with_hue(spin_mode@),
            wheel@.wf(),
            *final(self) == *final(wheel),
    {
        let index: usize = self.spinner_vec.len() - 1;
        assert(self@.levels[index as int].wf());
        self.spinner_vec[index].with_hue(spin_mode);
        proof {
            assert(self@.levels =~= old(self)@.with_hue(spin_mode@).levels);
        }
        self
    }

    /// Set spin mode for Saturarion channel
    pub fn with_saturation(&mut self, spin_mode: SpinMode) -> (wheel: &mut Self)
        requires
            old(self)@.wf(),
            spin_mode@.well_formed(),
        ensures
            wheel@ == old(self)@.with_saturation(spin_mode@),
            wheel@.wf(),
            *final(self) == *final(wheel),
    {
        let index: usize = self.spinner_vec.len() - 1;
        assert(self@.levels[index as int].wf());
        self.spinner_vec[index].with_saturation(spin_mode);
        proof {
            assert(self@.levels =~= old(self)@.with_saturation(spin_mode@).levels);
        }
        self
    }

    /// Set spin mode for Lightness channel
    pub fn with_lightness(&mut self, spin_mode: SpinMode) -> (wheel: &mut Self)
        requires
            old(self)@.wf(),
            spin_mode@.well_formed(),
        ensures
            wheel@ == old(self)@.with_lightness(spin_mode@),
            wheel@.wf(),
            *final(self) == *final(wheel),
    {
        let index: usize = self.spinner_vec.len() - 1;
        assert(self@.levels[index as int].wf());
        self.spinner_vec[index].with_lightness(spin_mode);
        proof {
            assert(self@.levels =~= old(self)@.with_lightness(spin_mode@).levels);
        }
        self
    }

    /// Set spin mode with macro
    pub fn with_macro(&mut self, spin_macro: SpinMacro) -> (wheel: &mut Self)
        requires
            old(self)@.wf(),
        ensures
            wheel@ == old(self)@.with_macro(spin_macro),
            wheel@.wf(),
            *final(self) == *final(wheel),
    {
        match spin_macro {
            SpinMacro::GradientColor(hsl_color) => {
                let index: usize = self.spinner_vec.len() - 1;
                assert(self@.levels[index as int].wf());
                self.spinner_vec[index].with_gradient(hsl_color);
                proof {
                    assert(self@.levels =~= old(self)@.with_macro(spin_macro).levels);
                }
            },
            SpinMacro::FadeToGray(percent) => {
                self.with_saturation(SpinMode::Absolute(0));
                self.with_lightness(SpinMode::Absolute(percent));
            },
            SpinMacro::FadeToBlack => {
                self.with_saturation(SpinMode::Absolute(0));
                self.with_lightness(SpinMode::Absolute(0));
            },
            SpinMacro::FadeToWhite => {
                self.with_saturation(SpinMode::Absolute(0));
                self.with_lightness(SpinMode::Absolute(100));
            },
        };
        self
    }

    /// Fork the state of KolorWheel,
    /// produce a separate series of colors
    /// using current item as base color,
    /// the size of sub-series should be specified.
    pub fn fork(&mut self, count: usize) -> (wheel: &mut Self)
        requires
            old(self)@.wf(),
            count >= 1,
        ensures
            wheel@ == old(self)@.forked(count as nat),
            wheel@.wf(),
            *final(self) == *final(wheel),
    {
        let index: usize = self.spinner_vec.len() - 1;
        assert(self@.levels[index as int].wf());
        let color = self.spinner_vec[index].color();
        let spinner = Spinner::new(color, count);
        self.spinner_vec.push(spinner);
        proof {
            assert(self@.levels =~= old(self)@.forked(count as nat).levels);
        }
        self
    }

    /// Gives out the next color of the series, or `None` when the series is over.
    ///
    /// Starting at the cursor, a level whose round is over hands back to the
    /// level above it, and the series is over when the outermost level's
    /// round is; any other level takes a step, and its color either is given
    /// out, at the top level, or starts the level below anew.
    pub fn spin_iter(&mut self) -> (item: Option<HslColor>)
        requires
            old(self)@.wf(),
        ensures
            final(self)@.wf(),
            final(self)@ == old(self)@.turned(),
            same_setup_from(final(self)@.levels, old(self)@.levels, 0),
            item is None <==> old(self)@.exhausted(),
            item is None <==> old(self)@.pending().len() == 0,
            item is None ==> final(self)@.pending().len() == 0,
            item matches Some(color) ==> {
                &&& color == old(self)@.pending().first()
                &&& color.is_normalized()
                &&& final(self)@.pending() == old(self)@.pending().drop_first()
            },
    {
        let ghost mut descending: bool = false;
        loop
            invariant
                self@.wf(),
                same_setup_from(self@.levels, old(self)@.levels, 0),
                self@.pending() == old(self)@.pending(),
                !descending ==> self@.settled() == old(self)@.settled(),
                descending ==> {
                    &&& !self@.levels[self@.cursor as int].finished()
                    &&& !old(self)@.exhausted()
                    &&& self@.descended() == old(self)@.settled().descended()
                },
            decreases
                    (if descending { 0int } else { 1int }),
                    (if descending { self@.top_level() - self@.cursor } else { self@.cursor as int }),
        {
            let level: usize = self.level;
            let top: usize = self.spinner_vec.len() - 1;
            let ghost before = self@;
            assert(before.levels[level as int].wf());
            if self.spinner_vec[level].spin_finished() {
                if level == 0 {
                    proof {
                        assert(pending_from(before.levels, -1) =~= Seq::<HslColor>::empty());
                        assert(before.pending() =~= Seq::<HslColor>::empty());
                    }
                    return None;
                }
                self.level = level - 1;
                proof {
                    assert(self@.levels =~= before.levels);
                    assert(before.pending() =~= pending_from(before.levels, level - 1));
                }
                continue;
            }
            let color = self.spinner_vec[level].spin_next();
            let ghost current = before.levels[level as int];
            let ghost stepped = before.levels.update(level as int, current.spun());
            proof {
                assert(self@.levels =~= stepped);
                assert(same_setup_from(stepped, before.levels, 0));
                lemma_pending_from_same_setup(stepped, before.levels, level - 1);
                lemma_run_of_same_setup(stepped, before.levels, level as int, current.spun());
                if !descending {
                    assert(before.settled() == before);
                }
            }
            if level == top {
                proof {
                    let rest = run_of(before.levels, level as int, current.spun());
                    let above = pending_from(before.levels, level - 1);
                    assert(before.pending() =~= (seq![color] + rest) + above);
                    assert(self@.pending() =~= rest + above);
                    assert(before.pending().drop_first() =~= rest + above);
                    assert(self@ == before.descended());
                }
                return Some(color);
            }
            self.level = level + 1;
            assert(before.levels[level + 1].wf());
            self.spinner_vec[level + 1].rewind().with_color(color);
            proof {
                let child = before.levels[level + 1].rewound().recolored(color);
                let seeded = stepped.update(level + 1, child);
                assert(self@.levels =~= seeded);
                assert(same_setup_from(seeded, before.levels, 0));
                lemma_run_of_same_setup(seeded, before.levels, level + 1, child);
                lemma_run_of_same_setup(seeded, before.levels, level as int, current.spun());
                lemma_pending_from_same_setup(seeded, before.levels, level - 1);
                let below = run_of(before.levels, level + 1, child);
                let rest = run_of(before.levels, level as int, current.spun());
                let above = pending_from(before.levels, level - 1);
                assert(before.pending() =~= (below + rest) + above);
                assert(pending_from(seeded, level as int) =~= rest + above);
                assert(self@.pending() =~= below + (rest + above));
                assert(self@ == (WheelView { levels: seeded, cursor: (level + 1) as nat }));
                assert(before.descended() == self@.descended());
                descending = true;
            }
        }
    }

    /// Gives out the next color of the series, or `None` when the series is over.
    pub fn next(&mut self) -> (item: Option<HslColor>)
        requires
            old(self)@.wf(),
        ensures
            final(self)@.wf(),
            final(self)@ == old(self)@.turned(),
            same_setup_from(final(self)@.levels, old(self)@.levels, 0),
            item is None <==> old(self)@.exhausted(),
            item is None <==> old(self)@.pending().len() == 0,
            item is None ==> final(self)@.pending().len() == 0,
            item matches Some(color) ==> {
                &&& color == old(self)@.pending().first()
                &&& color.is_normalized()
                &&& final(self)@.pending() == old(self)@.pending().drop_first()
            },
    {
        self.spin_iter()
    }

    /// Gives out all the colors that are still to come.
    pub fn collect(&mut self) -> (colors: Vec<HslColor>)
        requires
            old(self)@.wf(),
        ensures
            colors@ == old(self)@.pending(),
            final(self)@.wf(),
            final(self)@.pending().len() == 0,
            same_setup_from(final(self)@.levels, old(self)@.levels, 0),
    {
        let mut colors: Vec<HslColor> = Vec::new();
        loop
            invariant
                self@.wf(),
                same_setup_from(self@.levels, old(self)@.levels, 0),
                colors@ + self@.pending() == old(self)@.pending(),
            decreases self@.pending().len(),
        {
            let ghost before = self@;
            match self.spin_iter() {
                Some(color) => {
                    colors.push(color);
                    proof {
                        assert(colors@ + self@.pending() =~= old(self)@.pending());
                    }
                },
                None => {
                    proof {
                        assert(colors@ =~= old(self)@.pending());
                    }
                    return colors;
                },
            }
        }
    }
}

} // verus!
