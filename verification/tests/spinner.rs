use kolorwheel::spinner::Spinner;
use kolorwheel::{HslColor, SpinMode, UNITS};

fn whole(units: i64) -> f32 {
    units as f32 / UNITS as f32
}

fn key(x: f32) -> i64 {
    let bits = x.to_bits() as i32;
    if bits < 0 {
        (i32::MIN as i64) - (bits as i64)
    } else {
        bits as i64
    }
}

fn near(a: f32, b: f32, steps: i64) -> bool {
    (key(a) - key(b)).abs() <= steps
}

#[test]
fn spinner_hue_abs_simple() {
    let color = HslColor::new(0, 100, 50);
    let mut spinner = Spinner::new(color, 3);
    spinner.with_hue(SpinMode::Absolute(2));

    let result = spinner.spin_next();
    assert!(near(whole(result.h), 0.0, 99999));
    let finished = spinner.spin_finished();
    assert!(!finished);

    let result = spinner.spin_next();
    assert!(near(whole(result.h), 1.0, 99999));
    let finished = spinner.spin_finished();
    assert!(!finished);

    let result = spinner.spin_next();
    assert!(near(whole(result.h), 2.0, 99999));
    let finished = spinner.spin_finished();
    assert!(finished);
}

#[test]
fn spinner_sat_rel_incl() {
    let color = HslColor::new(0, 20, 50);
    let mut spinner = Spinner::new(color, 3);
    spinner.with_saturation(SpinMode::RelativeIncl(10));

    let result = spinner.spin_next();
    assert!(near(whole(result.s), 20.0, 99999));

    let result = spinner.spin_next();
    assert!(near(whole(result.s), 25.0, 99999));

    let result = spinner.spin_next();
    assert!(near(whole(result.s), 30.0, 99999));
}

#[test]
fn spinner_lit_rel_excl() {
    let color = HslColor::new(0, 20, 50);
    let mut spinner = Spinner::new(color, 3);
    spinner.with_lightness(SpinMode::RelativeExcl(10));

    let result = spinner.spin_next();
    assert!(near(whole(result.l), 50.0, 99999));

    let result = spinner.spin_next();
    assert!(near(whole(result.l), 53.333, 99999));

    let result = spinner.spin_next();
    assert!(near(whole(result.l), 56.667, 99999));
}

#[test]
fn spinner_circular_overflow() {
    let color = HslColor::new(0, 100, 50);
    let mut spinner = Spinner::new(color, 5);
    spinner.with_hue(SpinMode::RelativeIncl(400));

    let result = spinner.spin_next();
    assert!(near(whole(result.h), 0.0, 99999));

    let result = spinner.spin_next();
    assert!(near(whole(result.h), 100.0, 99999));

    let result = spinner.spin_next();
    assert!(near(whole(result.h), 200.0, 99999));

    let result = spinner.spin_next();
    assert!(near(whole(result.h), 300.0, 99999));

    let result = spinner.spin_next();
    assert!(near(whole(result.h), 400.0 - 360.0, 99999));
}

#[test]
fn spinner_circular_underflow_hue() {
    let color = HslColor::new(0, 100, 50);
    let mut spinner = Spinner::new(color, 5);
    spinner.with_hue(SpinMode::RelativeIncl(-400));

    let result = spinner.spin_next();
    assert!(near(whole(result.h), 0.0, 99999));

    let result = spinner.spin_next();
    assert!(near(whole(result.h), -100.0 + 360.0, 99999));
}

#[test]
fn spinner_percent_overflow_sat() {
    let color = HslColor::new(0, 90, 50);
    let mut spinner = Spinner::new(color, 5);
    spinner.with_saturation(SpinMode::RelativeIncl(100));

    let result = spinner.spin_next();
    assert!(near(whole(result.s), 90.0, 99999));

    let result = spinner.spin_next();
    assert!(near(whole(result.s), 100.0, 99999));

    let result = spinner.spin_next();
    assert!(near(whole(result.s), 100.0, 99999));
}

#[test]
fn spinner_percent_underflow_lit() {
    let color = HslColor::new(0, 100, 10);
    let mut spinner = Spinner::new(color, 5);
    spinner.with_lightness(SpinMode::RelativeExcl(-200));

    let result = spinner.spin_next();
    assert!(near(whole(result.l), 10.0, 99999));

    let result = spinner.spin_next();
    assert!(near(whole(result.l), 0.0, 99999));

    let result = spinner.spin_next();
    assert!(near(whole(result.l), 0.0, 99999));
}

#[test]
fn spinner_stored_normal() {
    let color = HslColor::new(0, 100, 50);
    let mut spinner = Spinner::new(color, 5);
    spinner.with_lightness(SpinMode::Offset(&[-10, 10]));

    let result = spinner.spin_next();
    assert!(near(whole(result.l), 40.0, 99999));

    let result = spinner.spin_next();
    assert!(near(whole(result.l), 60.0, 99999));

    let result = spinner.spin_next();
    assert!(near(whole(result.l), 40.0, 99999));
}

#[test]
fn spinner_stored_overflow() {
    let color = HslColor::new(0, 100, 95);
    let mut spinner = Spinner::new(color, 5);
    spinner.with_lightness(SpinMode::Offset(&[-10, 10]));

    let result = spinner.spin_next();
    assert!(near(whole(result.l), 85.0, 99999));

    let result = spinner.spin_next();
    assert!(near(whole(result.l), 100.0, 99999));

    let result = spinner.spin_next();
    assert!(near(whole(result.l), 85.0, 99999));
}

fn round_of(spinner: &mut Spinner) -> Vec<HslColor> {
    let mut colors = Vec::new();
    while !spinner.spin_finished() {
        colors.push(spinner.spin_next());
    }
    colors
}

#[test]
fn spinner_absolute_hue_is_exact() {
    let mut spinner = Spinner::new(HslColor::new(0, 100, 50), 3);
    spinner.with_hue(SpinMode::Absolute(10));
    let hues: Vec<i64> = round_of(&mut spinner).iter().map(|c| c.h).collect();
    assert_eq!(hues, vec![0, 5_000_000, 10_000_000]);
}

#[test]
fn spinner_absolute_ends_on_its_goal_whatever_the_count() {
    for count in [2usize, 3, 7, 13, 64, 1000] {
        let mut spinner = Spinner::new(HslColor::new(11, 22, 33), count);
        spinner.with_hue(SpinMode::Absolute(350));
        spinner.with_saturation(SpinMode::Absolute(1));
        spinner.with_lightness(SpinMode::Absolute(99));
        let colors = round_of(&mut spinner);
        assert_eq!(colors.len(), count);
        assert_eq!(colors[0], HslColor::new(11, 22, 33));
        assert_eq!(colors[count - 1], HslColor::new(350, 1, 99));
    }
}

#[test]
fn spinner_relative_incl_ends_on_base_plus_delta() {
    let mut spinner = Spinner::new(HslColor::new(0, 0, 50), 3);
    spinner.with_lightness(SpinMode::RelativeIncl(10));
    let colors = round_of(&mut spinner);
    assert_eq!(colors[2].l, 60_000_000);
}

#[test]
fn spinner_relative_excl_stops_one_step_short() {
    let mut spinner = Spinner::new(HslColor::new(0, 0, 50), 3);
    spinner.with_lightness(SpinMode::RelativeExcl(10));
    let lightness: Vec<i64> = round_of(&mut spinner).iter().map(|c| c.l).collect();
    // 50 + 10/3 and 50 + 20/3, each rounded to the nearest unit
    assert_eq!(lightness, vec![50_000_000, 53_333_333, 56_666_667]);
    assert!(lightness[2] < 60_000_000);
    // the step that is never part of the round would land on base + delta
    assert_eq!(spinner.spin_next().l, 60_000_000);
}

#[test]
fn spinner_negative_steps_round_away_from_zero_on_a_tie() {
    let mut spinner = Spinner::new(HslColor { h: 0, s: 0, l: 50_000_000 }, 3);
    spinner.with_gradient(HslColor { h: 0, s: 0, l: 50_000_001 });
    let up: Vec<i64> = round_of(&mut spinner).iter().map(|c| c.l).collect();
    assert_eq!(up, vec![50_000_000, 50_000_001, 50_000_001]);

    let mut spinner = Spinner::new(HslColor { h: 0, s: 0, l: 50_000_000 }, 3);
    spinner.with_gradient(HslColor { h: 0, s: 0, l: 49_999_999 });
    let down: Vec<i64> = round_of(&mut spinner).iter().map(|c| c.l).collect();
    assert_eq!(down, vec![50_000_000, 49_999_999, 49_999_999]);
}

#[test]
fn spinner_saturation_never_leaves_its_range() {
    let mut spinner = Spinner::new(HslColor::new(0, 90, 10), 5);
    spinner.with_saturation(SpinMode::RelativeIncl(100));
    spinner.with_lightness(SpinMode::RelativeExcl(-200));
    let colors = round_of(&mut spinner);
    let saturation: Vec<i64> = colors.iter().map(|c| c.s).collect();
    let lightness: Vec<i64> = colors.iter().map(|c| c.l).collect();
    assert_eq!(saturation, vec![90_000_000, 100_000_000, 100_000_000, 100_000_000, 100_000_000]);
    assert_eq!(lightness, vec![10_000_000, 0, 0, 0, 0]);
}

#[test]
fn spinner_hue_wraps_around() {
    let mut spinner = Spinner::new(HslColor::new(0, 100, 50), 5);
    spinner.with_hue(SpinMode::RelativeIncl(400));
    let hues: Vec<i64> = round_of(&mut spinner).iter().map(|c| c.h).collect();
    assert_eq!(hues, vec![0, 100_000_000, 200_000_000, 300_000_000, 40_000_000]);

    let mut spinner = Spinner::new(HslColor::new(0, 100, 50), 5);
    spinner.with_hue(SpinMode::RelativeIncl(-400));
    let hues: Vec<i64> = round_of(&mut spinner).iter().map(|c| c.h).collect();
    assert_eq!(hues, vec![0, 260_000_000, 160_000_000, 60_000_000, 320_000_000]);
}

#[test]
fn spinner_offsets_cycle_and_do_not_add_up() {
    let mut spinner = Spinner::new(HslColor::new(0, 100, 50), 3);
    spinner.with_lightness(SpinMode::Offset(&[-10, 10]));
    let lightness: Vec<i64> = round_of(&mut spinner).iter().map(|c| c.l).collect();
    assert_eq!(lightness, vec![40_000_000, 60_000_000, 40_000_000]);
    assert_eq!(spinner.color(), HslColor::new(0, 100, 50));

    let mut spinner = Spinner::new(HslColor::new(350, 100, 5), 4);
    spinner.with_hue(SpinMode::Offset(&[0, 20, -710]));
    spinner.with_lightness(SpinMode::Offset(&[-10]));
    let colors = round_of(&mut spinner);
    let hues: Vec<i64> = colors.iter().map(|c| c.h).collect();
    assert_eq!(hues, vec![350_000_000, 10_000_000, 0, 350_000_000]);
    assert!(colors.iter().all(|c| c.l == 0));
}

#[test]
fn spinner_offset_replaces_a_linear_rule_and_back() {
    let mut spinner = Spinner::new(HslColor::new(0, 50, 50), 3);
    spinner.with_saturation(SpinMode::RelativeIncl(20));
    spinner.with_saturation(SpinMode::Offset(&[5]));
    let saturation: Vec<i64> = round_of(&mut spinner).iter().map(|c| c.s).collect();
    assert_eq!(saturation, vec![55_000_000, 55_000_000, 55_000_000]);

    let mut spinner = Spinner::new(HslColor::new(0, 50, 50), 3);
    spinner.with_saturation(SpinMode::Offset(&[5]));
    spinner.with_saturation(SpinMode::RelativeIncl(20));
    let saturation: Vec<i64> = round_of(&mut spinner).iter().map(|c| c.s).collect();
    assert_eq!(saturation, vec![50_000_000, 60_000_000, 70_000_000]);

    let mut spinner = Spinner::new(HslColor::new(0, 50, 50), 3);
    spinner.with_saturation(SpinMode::RelativeIncl(20));
    spinner.with_saturation(SpinMode::Still);
    let saturation: Vec<i64> = round_of(&mut spinner).iter().map(|c| c.s).collect();
    assert_eq!(saturation, vec![50_000_000, 50_000_000, 50_000_000]);
}

#[test]
fn spinner_of_one_color_gives_its_seed() {
    let mut spinner = Spinner::new(HslColor::new(10, 20, 30), 1);
    spinner.with_hue(SpinMode::Absolute(200));
    spinner.with_saturation(SpinMode::RelativeIncl(50));
    spinner.with_lightness(SpinMode::RelativeExcl(50));
    assert!(!spinner.spin_finished());
    assert_eq!(spinner.spin_next(), HslColor::new(10, 20, 30));
    assert!(spinner.spin_finished());
    // past the end the first two stay, the third goes on by its whole delta
    assert_eq!(spinner.spin_next(), HslColor::new(10, 20, 80));
}

#[test]
fn spinner_first_color_is_the_seed_normalized() {
    let mut spinner = Spinner::new(HslColor::new(-30, 140, -7), 4);
    spinner.with_hue(SpinMode::Absolute(90));
    assert_eq!(spinner.spin_next(), HslColor::new(330, 100, 0));
    assert_eq!(spinner.color(), HslColor::new(-30, 140, -7));
}

#[test]
fn spinner_rewind_keeps_color_and_rules() {
    let mut spinner = Spinner::new(HslColor::new(0, 100, 50), 3);
    spinner.with_hue(SpinMode::Absolute(10));
    let first: Vec<i64> = round_of(&mut spinner).iter().map(|c| c.h).collect();
    assert_eq!(first, vec![0, 5_000_000, 10_000_000]);
    assert_eq!(spinner.counter(), 3);
    spinner.rewind();
    assert_eq!(spinner.counter(), 0);
    assert!(!spinner.spin_finished());
    let second: Vec<i64> = round_of(&mut spinner).iter().map(|c| c.h).collect();
    assert_eq!(second, vec![10_000_000, 15_000_000, 20_000_000]);
}

#[test]
fn spinner_with_color_starts_the_rules_anew() {
    let mut spinner = Spinner::new(HslColor::new(0, 100, 50), 3);
    spinner.with_hue(SpinMode::Absolute(10));
    spinner.with_lightness(SpinMode::RelativeIncl(10));
    round_of(&mut spinner);
    spinner.rewind().with_color(HslColor::new(100, 100, 20));
    let colors = round_of(&mut spinner);
    assert_eq!(
        colors,
        vec![HslColor::new(100, 100, 20), HslColor::new(55, 100, 25), HslColor::new(10, 100, 30)]
    );
}

#[test]
fn spinner_rule_set_midway_starts_from_the_running_value() {
    let mut spinner = Spinner::new(HslColor::new(0, 0, 0), 5);
    spinner.with_lightness(SpinMode::RelativeIncl(40));
    assert_eq!(spinner.spin_next().l, 0);
    assert_eq!(spinner.spin_next().l, 10_000_000);
    spinner.with_lightness(SpinMode::Absolute(90));
    assert_eq!(spinner.color().l, 10_000_000);
    assert_eq!(spinner.spin_next().l, 30_000_000);
    assert_eq!(spinner.spin_next().l, 50_000_000);
    assert_eq!(spinner.spin_next().l, 70_000_000);
    assert!(spinner.spin_finished());
}

#[test]
fn spinner_gradient_reaches_the_target_exactly() {
    let target = HslColor { h: 123_456_789, s: 1, l: 99_999_999 };
    let mut spinner = Spinner::new(HslColor::new(300, 80, 10), 7);
    spinner.with_gradient(target);
    let colors = round_of(&mut spinner);
    assert_eq!(colors[0], HslColor::new(300, 80, 10));
    assert_eq!(colors[6], target);
}

#[test]
fn spinner_running_color_stays_within_what_a_channel_holds() {
    let mut spinner = Spinner::new(HslColor { h: i64::MAX, s: i64::MIN, l: 0 }, 2);
    spinner.with_hue(SpinMode::RelativeIncl(i32::MAX));
    spinner.with_saturation(SpinMode::RelativeIncl(i32::MIN));
    spinner.spin_next();
    let color = spinner.spin_next();
    assert_eq!(spinner.color().h, i64::MAX);
    assert_eq!(spinner.color().s, i64::MIN);
    assert_eq!(color.h, i64::MAX % 360_000_000);
    assert_eq!(color.s, 0);
}

#[test]
fn spinner_counts_its_steps() {
    let mut spinner = Spinner::new(HslColor::new(0, 0, 0), 2);
    assert_eq!(spinner.count(), 2);
    assert_eq!(spinner.counter(), 0);
    spinner.spin_next();
    assert_eq!(spinner.counter(), 1);
    assert!(!spinner.spin_finished());
    spinner.spin_next();
    assert_eq!(spinner.counter(), 2);
    assert!(spinner.spin_finished());
}
