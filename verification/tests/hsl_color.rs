use kolorwheel::{HslColor, FULL_SCALE, FULL_TURN, UNITS};

fn whole(units: i64) -> f32 {
    units as f32 / UNITS as f32
}

fn key(x: f32) -> i64 {
    let bits = x.to_bits() as i32;
    if bits < 0 {
        (i32::MIN as i64) - (bits as i64)
    } else {
        bits as i64
    }
}

fn near(a: f32, b: f32, steps: i64) -> bool {
    (key(a) - key(b)).abs() <= steps
}

#[test]
fn normalize_turnover() {
    let mut hsl = HslColor::new(370, 0, 0);
    hsl.normalize();
    assert!(near(whole(hsl.h), 10.0, 99999));
}

#[test]
fn normalize_ceil_sat() {
    let mut hsl = HslColor::new(0, 120, 0);
    hsl.normalize();
    assert!(near(whole(hsl.s), 100.0, 99999));
}

#[test]
fn normalize_floor_lit() {
    let mut hsl = HslColor::new(0, 0, -10);
    hsl.normalize();
    assert!(near(whole(hsl.l), 0.0, 99999));
}

#[test]
fn new_scales_whole_values_to_units() {
    let hsl = HslColor::new(370, -5, 100);
    assert_eq!(hsl, HslColor { h: 370_000_000, s: -5_000_000, l: 100_000_000 });
    let far = HslColor::new(i32::MAX, i32::MIN, 0);
    assert_eq!(far.h, 2_147_483_647_000_000);
    assert_eq!(far.s, -2_147_483_648_000_000);
}

#[test]
fn normalize_exact_values() {
    let mut hsl = HslColor::new(-10, 101, -1);
    hsl.normalize();
    assert_eq!(hsl, HslColor::new(350, 100, 0));

    let mut hsl = HslColor::new(360, 100, 0);
    hsl.normalize();
    assert_eq!(hsl, HslColor::new(0, 100, 0));

    let mut hsl = HslColor::new(-360, 0, 100);
    hsl.normalize();
    assert_eq!(hsl, HslColor::new(0, 0, 100));

    let mut hsl = HslColor { h: -1, s: FULL_SCALE + 1, l: FULL_SCALE };
    hsl.normalize();
    assert_eq!(hsl, HslColor { h: FULL_TURN - 1, s: FULL_SCALE, l: FULL_SCALE });
}

#[test]
fn normalize_takes_any_value() {
    let mut hsl = HslColor { h: i64::MIN, s: i64::MAX, l: i64::MIN };
    hsl.normalize();
    assert_eq!(hsl.h, i64::MIN.rem_euclid(FULL_TURN));
    assert_eq!(hsl.s, FULL_SCALE);
    assert_eq!(hsl.l, 0);

    let mut hsl = HslColor { h: i64::MAX, s: 0, l: 0 };
    hsl.normalize();
    assert_eq!(hsl.h, i64::MAX % FULL_TURN);
}

#[test]
fn normalize_keeps_what_is_in_range() {
    let mut hsl = HslColor { h: 359_999_999, s: 1, l: 99_999_999 };
    let before = hsl;
    hsl.normalize();
    assert_eq!(hsl, before);
    hsl.normalize();
    assert_eq!(hsl, before);
}

#[test]
fn hsl_from_whole_triples() {
    let expected = HslColor::new(10, 20, 30);
    assert_eq!(HslColor::from((10, 20, 30)), expected);
    assert_eq!(HslColor::from([10, 20, 30]), expected);
    assert_eq!(HslColor::from(&[10, 20, 30]), expected);
    let into: HslColor = (10, 20, 30).into();
    assert_eq!(into, expected);
}

#[test]
fn hsl_default_is_all_zero() {
    assert_eq!(HslColor::default(), HslColor { h: 0, s: 0, l: 0 });
}
