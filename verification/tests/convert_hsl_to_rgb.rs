use kolorwheel::{HslColor, RgbColor};

#[test]
fn hsl_to_rgb_black() {
    let hsl = HslColor::new(0, 0, 0);
    let rgb: RgbColor = hsl.into();
    assert_eq!(rgb, RgbColor::new(0, 0, 0));
}

#[test]
fn hsl_to_rgb_white() {
    let hsl = HslColor::new(0, 100, 100);
    let rgb: RgbColor = hsl.into();
    assert_eq!(rgb, RgbColor::new(255, 255, 255));
}

#[test]
fn hsl_to_rgb_gray() {
    let hsl = HslColor::new(240, 0, 40);
    let rgb: RgbColor = hsl.into();
    assert!(rgb.r == rgb.g);
    assert!(rgb.g == rgb.b);
    assert!(rgb.r > 1);
}

#[test]
fn hsl_to_rgb_red() {
    let hsl = HslColor::new(0, 100, 50);
    let rgb: RgbColor = hsl.into();
    assert_eq!(rgb, RgbColor::new(255, 0, 0));
}

#[test]
fn hsl_to_rgb_green() {
    let hsl = HslColor::new(120, 100, 50);
    let rgb: RgbColor = hsl.into();
    assert_eq!(rgb, RgbColor::new(0, 255, 0));
}

#[test]
fn hsl_to_rgb_cyan() {
    let hsl = HslColor::new(180, 100, 50);
    let rgb: RgbColor = hsl.into();
    assert_eq!(rgb, RgbColor::new(0, 255, 255));
}

#[test]
fn hsl_to_rgb_overflow_cyan() {
    let hsl = HslColor::new(360 + 180, 100, 50);
    let rgb: RgbColor = hsl.into();
    assert_eq!(rgb, RgbColor::new(0, 255, 255));
}

#[test]
fn hsl_to_rgb_blue() {
    let hsl = HslColor::new(240, 100, 50);
    let rgb: RgbColor = hsl.into();
    assert_eq!(rgb, RgbColor::new(0, 0, 255));
}

#[test]
fn hsl_to_rgb_light_blue() {
    let hsl = HslColor::new(240, 100, 90);
    let rgb: RgbColor = hsl.into();
    assert!(rgb.r == rgb.g);
    assert!(rgb.b > rgb.r);
    assert!(rgb.b > 240);
}

#[test]
fn hsl_to_rgb_secondary_hues() {
    assert_eq!(HslColor::new(60, 100, 50).convert_hsl_to_rgb(), RgbColor::new(255, 255, 0));
    assert_eq!(HslColor::new(300, 100, 50).convert_hsl_to_rgb(), RgbColor::new(255, 0, 255));
}

#[test]
fn hsl_to_rgb_exact_values() {
    // q = 0.9 + 1 - 0.9 = 1, p = 0.8: red and green are p, 0.8 * 255 = 204
    assert_eq!(HslColor::new(240, 100, 90).convert_hsl_to_rgb(), RgbColor::new(204, 204, 255));
    // q = 0.25 * 1.5 = 0.375, p = 0.125; red at a third of the rise
    assert_eq!(HslColor::new(30, 50, 25).convert_hsl_to_rgb(), RgbColor::new(95, 63, 31));
    // gray of lightness 40: 0.4 * 255 = 102
    assert_eq!(HslColor::new(240, 0, 40).convert_hsl_to_rgb(), RgbColor::new(102, 102, 102));
    // a channel is truncated, not rounded: 0.5 * 255 = 127.5
    assert_eq!(HslColor::new(0, 0, 50).convert_hsl_to_rgb(), RgbColor::new(127, 127, 127));
}

#[test]
fn hsl_to_rgb_rounds_to_the_grid_before_scaling() {
    // hue 20: green's share is p + (q - p) / 3 = 1/3, which the grid keeps as
    // 4000/12000, so the byte is 85 exactly
    assert_eq!(HslColor::new(20, 100, 50).convert_hsl_to_rgb(), RgbColor::new(255, 85, 0));
}

#[test]
fn hsl_to_rgb_gray_threshold() {
    // a saturation below a thousandth of the scale counts as none
    let almost = HslColor { h: 0, s: 99_999, l: 50_000_000 };
    assert_eq!(almost.convert_hsl_to_rgb(), RgbColor::new(127, 127, 127));
    let barely = HslColor { h: 0, s: 100_000, l: 50_000_000 };
    let rgb = barely.convert_hsl_to_rgb();
    assert!(rgb.r >= rgb.g);
    assert_eq!(rgb.g, rgb.b);
}

#[test]
fn hsl_to_rgb_normalizes_first() {
    assert_eq!(
        HslColor::new(-120, 150, 50).convert_hsl_to_rgb(),
        HslColor::new(240, 100, 50).convert_hsl_to_rgb()
    );
    assert_eq!(HslColor::new(0, 100, 170).convert_hsl_to_rgb(), RgbColor::new(255, 255, 255));
    assert_eq!(HslColor::new(0, 100, -3).convert_hsl_to_rgb(), RgbColor::new(0, 0, 0));
}

#[test]
fn hsl_to_rgb_whole_turns_are_invisible() {
    for turns in -3i32..=3 {
        for hue in [0, 17, 59, 60, 61, 119, 120, 180, 239, 240, 300, 359] {
            let plain = HslColor::new(hue, 80, 40).convert_hsl_to_rgb();
            let turned = HslColor::new(hue + 360 * turns, 80, 40).convert_hsl_to_rgb();
            assert_eq!(plain, turned);
        }
    }
}

#[test]
fn hsl_to_rgb_without_saturation_is_gray() {
    for hue in [-400, 0, 45, 180, 359, 1000] {
        for lightness in [0, 1, 33, 50, 99, 100] {
            let rgb = HslColor::new(hue, 0, lightness).convert_hsl_to_rgb();
            assert_eq!(rgb.r, rgb.g);
            assert_eq!(rgb.g, rgb.b);
        }
    }
}

#[test]
fn hsl_to_rgb_into_is_the_conversion() {
    let hsl = HslColor::new(200, 70, 30);
    assert_eq!(RgbColor::from(hsl), hsl.convert_hsl_to_rgb());
}

#[test]
fn hsl_to_rgb_component_segments() {
    let scale: u128 = 10_000_000_000_000_000;
    // p = 0, q = 1: rising, high, falling, low
    assert_eq!(HslColor::hue_to_rgb_component(0, scale, 0), 0);
    assert_eq!(HslColor::hue_to_rgb_component(0, scale, 30_000_000), 127);
    assert_eq!(HslColor::hue_to_rgb_component(0, scale, 60_000_000), 255);
    assert_eq!(HslColor::hue_to_rgb_component(0, scale, 179_999_999), 255);
    assert_eq!(HslColor::hue_to_rgb_component(0, scale, 210_000_000), 127);
    assert_eq!(HslColor::hue_to_rgb_component(0, scale, 240_000_000), 0);
    assert_eq!(HslColor::hue_to_rgb_component(0, scale, 360_000_000), 0);
    // a hue a third of a turn off is folded back
    assert_eq!(HslColor::hue_to_rgb_component(0, scale, -120_000_000), 0);
    assert_eq!(HslColor::hue_to_rgb_component(0, scale, 480_000_000), 255);
}
