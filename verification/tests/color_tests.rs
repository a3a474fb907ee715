use dirspace::color::{
    calc_hue, calc_saturation, calc_value, convert_file_size_to_color, hsv_to_rgb, size_to_hsv,
    BLUE_HUE, HUE_MAX_SIZE, HUE_MIN_SIZE, LOWEST_VALUE, SATURATION_MAX_SIZE,
};

#[test]
fn extremes_are_visually_distinct_and_stable() {
    let cold = convert_file_size_to_color(0);
    let hot = convert_file_size_to_color(u64::MAX);
    assert_ne!(cold, hot);
    // The mapping is a pure function: repeated calls agree.
    assert_eq!(cold, convert_file_size_to_color(0));
    assert_eq!(hot, convert_file_size_to_color(u64::MAX));
}

#[test]
fn tiny_sizes_render_white() {
    assert_eq!(convert_file_size_to_color(0), (255, 255, 255));
}

#[test]
fn huge_sizes_render_dark_red() {
    let (r, g, b) = convert_file_size_to_color(u64::MAX);
    assert_eq!((g, b), (0, 0));
    assert!(r > 0);
}

#[test]
fn hue_is_cold_below_the_minimum_and_hot_above_the_maximum() {
    assert_eq!(calc_hue(1_000_000, 1_000_000, 1_000_000_000, 240_000), 240_000);
    assert_eq!(calc_hue(999_999, 1_000_000, 1_000_000_000, 240_000), 240_000);
    assert_eq!(calc_hue(1_000_000_000, 1_000_000, 1_000_000_000, 240_000), 0);
    assert_eq!(calc_hue(2_000_000_000, 1_000_000, 1_000_000_000, 240_000), 0);
}

#[test]
fn hue_decays_as_sizes_grow() {
    let far = calc_hue(1_250_000_000, 1_000_000_000, 2_000_000_000, 240_000);
    let mid = calc_hue(1_500_000_000, 1_000_000_000, 2_000_000_000, 240_000);
    let near = calc_hue(1_750_000_000, 1_000_000_000, 2_000_000_000, 240_000);
    assert!(0 < near && near < mid && mid < far && far < 240_000);
    // Exact fixed-point values of the logarithmic decay.
    assert_eq!(far, 48_240);
    assert_eq!(mid, 24_240);
    assert_eq!(near, 12_000);
}

#[test]
fn saturation_is_empty_at_zero_and_full_at_the_ceiling() {
    assert_eq!(calc_saturation(0, SATURATION_MAX_SIZE), 0);
    assert_eq!(calc_saturation(SATURATION_MAX_SIZE, SATURATION_MAX_SIZE), 1000);
    assert_eq!(calc_saturation(10 * SATURATION_MAX_SIZE, SATURATION_MAX_SIZE), 1000);
    let half = calc_saturation(SATURATION_MAX_SIZE / 2, SATURATION_MAX_SIZE);
    let quarter = calc_saturation(SATURATION_MAX_SIZE / 4, SATURATION_MAX_SIZE);
    assert!(0 < quarter && quarter < half && half < 1000);
    // Exact fixed-point values of the logarithmic curve.
    assert_eq!(half, 899);
    assert_eq!(quarter, 799);
}

#[test]
fn value_falls_linearly_to_the_floor() {
    assert_eq!(calc_value(0, 0, 1000, 0), 1000);
    assert_eq!(calc_value(500, 0, 1000, 0), 500);
    assert_eq!(calc_value(1000, 0, 1000, 0), 0);
    assert_eq!(calc_value(5000, 0, 1000, 0), 0);
    assert_eq!(calc_value(1000, 0, 1000, 550), 550);
}

#[test]
fn size_to_hsv_uses_the_configured_thresholds() {
    let (h, s, v) = size_to_hsv(HUE_MIN_SIZE);
    assert_eq!(h, BLUE_HUE);
    assert!(s > 0);
    assert_eq!(v, 1000);
    let (h, _, v) = size_to_hsv(u64::MAX);
    assert_eq!(h, 0);
    assert_eq!(v, LOWEST_VALUE);
    assert!(HUE_MAX_SIZE > HUE_MIN_SIZE);
}

#[test]
fn primary_corners_of_the_hsv_cube() {
    assert_eq!(hsv_to_rgb(0, 0, 0), (0, 0, 0));
    assert_eq!(hsv_to_rgb(0, 0, 1000), (255, 255, 255));
    assert_eq!(hsv_to_rgb(0, 1000, 1000), (255, 0, 0));
    assert_eq!(hsv_to_rgb(120_000, 1000, 1000), (0, 255, 0));
    assert_eq!(hsv_to_rgb(240_000, 1000, 1000), (0, 0, 255));
    assert_eq!(hsv_to_rgb(60_000, 1000, 1000), (255, 255, 0));
    assert_eq!(hsv_to_rgb(180_000, 1000, 1000), (0, 255, 255));
    assert_eq!(hsv_to_rgb(300_000, 1000, 1000), (255, 0, 255));
}
