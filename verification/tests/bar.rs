use bar_module::RATIO_SCALE;
use bar_module::Ratio;
use bar_module::get_color;
use bar_module::humanize;
use bar_module::normalize;

#[test]
fn check_color() {
    assert_eq!(get_color(&Ratio::new(0, 1)), "00FF00");
    assert_eq!(get_color(&Ratio::new(1, 1)), "FF0000");
    assert_eq!(get_color(&Ratio::new(1, 2)), "FFFF00");
}

#[test]
fn color_channels_saturate() {
    // Below one half the green channel stays FF; above it the red does.
    assert_eq!(get_color(&Ratio::new(1, 4)), "7FFF00");
    assert_eq!(get_color(&Ratio::new(3, 4)), "FF7F00");
    assert_eq!(get_color(&Ratio::new(1, 10)), "33FF00");
    assert_eq!(get_color(&Ratio::new(9, 10)), "FF3300");
}

#[test]
fn color_saturates_past_one() {
    // A numerator past the denominator is clamped to a full red.
    assert_eq!(get_color(&Ratio::new(7, 2)), "FF0000");
}

#[test]
fn humanize_zero_is_plain_bytes() {
    assert_eq!(humanize(0), "    0B");
}

#[test]
fn humanize_one_gib() {
    assert_eq!(humanize(1u64 << 30), "  1.0G");
}

#[test]
fn humanize_below_one_tib_keeps_g() {
    // The unit is chosen by magnitude before scaling, so the rounded-up
    // value keeps G rather than moving to T.
    assert_eq!(humanize((1u64 << 40) - 1), "1024.0G");
}

#[test]
fn humanize_boundary_selects_k() {
    assert_eq!(humanize(1u64 << 10), "  1.0K");
    assert_eq!(humanize((1u64 << 10) - 1), " 1023B");
}

#[test]
fn humanize_other_units() {
    assert_eq!(humanize(1u64 << 20), "  1.0M");
    assert_eq!(humanize(1u64 << 40), "  1.0T");
    assert_eq!(humanize(1536), "  1.5K");
}

#[test]
fn humanize_largest_count() {
    assert_eq!(humanize(u64::MAX), "16777216.0T");
}

#[test]
fn humanize_rounds_to_nearest() {
    assert_eq!(humanize(1675037245), "  1.6G");
    assert_eq!(humanize(1653562409), "  1.5G");
    assert_eq!(humanize(1075), "  1.0K");
    assert_eq!(humanize(1076), "  1.1K");
}

#[test]
fn normalize_zero_value_is_zero() {
    assert_eq!(normalize(0, 1).num, 0);
    assert_eq!(normalize(0, 100_000_000).num, 0);
    assert_eq!(normalize(0, u64::MAX).num, 0);
}

#[test]
fn normalize_at_scale_is_strongly_saturated() {
    // 1 - e^-2 is about 0.8647; the fixed-point curve lands within a
    // fraction of a percent of it.
    let r = normalize(100_000_000, 100_000_000);
    assert_eq!(r.den, RATIO_SCALE);
    assert_eq!(r.num, 3713694795);
}

#[test]
fn normalize_is_monotone() {
    let a = normalize(10_000_000, 100_000_000).num;
    let b = normalize(20_000_000, 100_000_000).num;
    let c = normalize(400_000_000, 100_000_000).num;
    assert!(a < b);
    assert!(b < c);
    assert_eq!(normalize(10_000_000, 100_000_000).num, 778545603);
}

#[test]
fn normalize_zero_scale_saturates() {
    let r = normalize(5, 0);
    assert_eq!(r.num, RATIO_SCALE);
    assert_eq!(get_color(&r), "FF0000");
}

#[test]
fn normalize_huge_value_approaches_one() {
    let r = normalize(u64::MAX, 1);
    assert_eq!(r.num, RATIO_SCALE);
    assert_eq!(get_color(&r), "FF0000");
}
