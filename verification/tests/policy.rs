use mandelbrot::policy::{
    escalate, required_precision, select_mode, update_precision, zoom_log_term, ComputeMode,
    ZoomFactor, HIGH_THRESHOLD, INITIAL_PRECISION, LOW_THRESHOLD, MAX_PRECISION,
};

fn zoom(numerator: u64, denominator: u64) -> ZoomFactor {
    ZoomFactor { numerator, denominator }
}

#[test]
fn thresholds_are_strict() {
    assert_eq!(select_mode(zoom(1, 1), true), ComputeMode::Gpu);
    assert_eq!(select_mode(zoom(LOW_THRESHOLD, 1), true), ComputeMode::Gpu);
    assert_eq!(select_mode(zoom(LOW_THRESHOLD + 1, 1), true), ComputeMode::CpuF64);
    assert_eq!(select_mode(zoom(HIGH_THRESHOLD, 1), true), ComputeMode::CpuF64);
    assert_eq!(select_mode(zoom(HIGH_THRESHOLD + 1, 1), true), ComputeMode::CpuHighPrecision);
    assert_eq!(select_mode(zoom(u64::MAX, 1), true), ComputeMode::CpuHighPrecision);
    assert_eq!(select_mode(zoom(0, 1), true), ComputeMode::Gpu);
}

#[test]
fn thresholds_compare_exact_ratios() {
    assert_eq!(select_mode(zoom(3_000_000, 3), true), ComputeMode::Gpu);
    assert_eq!(select_mode(zoom(3_000_001, 3), true), ComputeMode::CpuF64);
    assert_eq!(select_mode(zoom(u64::MAX, u64::MAX), true), ComputeMode::Gpu);
    assert_eq!(select_mode(zoom(u64::MAX, 1_844_674), true), ComputeMode::CpuHighPrecision);
    assert_eq!(select_mode(zoom(u64::MAX, 1_844_675), true), ComputeMode::CpuF64);
}

#[test]
fn without_a_device_two_modes_are_left() {
    assert_eq!(select_mode(zoom(1, 1), false), ComputeMode::CpuF64);
    assert_eq!(select_mode(zoom(LOW_THRESHOLD + 1, 1), false), ComputeMode::CpuF64);
    assert_eq!(select_mode(zoom(HIGH_THRESHOLD, 1), false), ComputeMode::CpuF64);
    assert_eq!(select_mode(zoom(HIGH_THRESHOLD + 1, 1), false), ComputeMode::CpuHighPrecision);
}

#[test]
fn mode_titles() {
    assert_eq!(ComputeMode::Gpu.title(), "GPU");
    assert_eq!(ComputeMode::CpuF64.title(), "CPU");
    assert_eq!(ComputeMode::CpuHighPrecision.title(), "HP");
}

#[test]
fn log_term_is_the_ceiling_of_three_and_a_half_log2() {
    assert_eq!(zoom_log_term(zoom(1, 1)), 0);
    assert_eq!(zoom_log_term(zoom(2, 1)), 4);
    assert_eq!(zoom_log_term(zoom(3, 1)), 6);
    assert_eq!(zoom_log_term(zoom(4, 1)), 7);
    assert_eq!(zoom_log_term(zoom(5, 4)), 2);
    assert_eq!(zoom_log_term(zoom(7, 2)), 7);
    assert_eq!(zoom_log_term(zoom(1 << 20, 1)), 70);
    assert_eq!(zoom_log_term(zoom(10_000_000_000_000, 1)), 152);
    assert_eq!(zoom_log_term(zoom(1 << 54, 1)), 189);
    assert_eq!(zoom_log_term(zoom(1 << 55, 1)), 193);
    assert_eq!(zoom_log_term(zoom(u64::MAX, 1)), 224);
}

#[test]
fn log_term_of_a_zoom_factor_below_one_is_zero() {
    assert_eq!(zoom_log_term(zoom(1, 2)), 0);
    assert_eq!(zoom_log_term(zoom(0, 1)), 0);
    assert_eq!(zoom_log_term(zoom(u64::MAX, u64::MAX)), 0);
    assert_eq!(zoom_log_term(zoom(u64::MAX - 1, u64::MAX)), 0);
}

#[test]
fn log_term_agrees_with_floating_point() {
    for &(n, d) in &[(10u64, 3u64), (1000, 7), (123_456_789, 10), (987_654_321_987, 5), (1 << 40, 3)]
    {
        let expected = (3.5 * (n as f64 / d as f64).log2()).ceil() as u32;
        assert_eq!(zoom_log_term(zoom(n, d)), expected);
    }
}

#[test]
fn equal_ratios_get_equal_answers() {
    let a = zoom(30_000_000_000_000, 2);
    let b = zoom(45_000_000_000_000, 3);
    assert_eq!(select_mode(a, true), select_mode(b, true));
    assert_eq!(zoom_log_term(a), zoom_log_term(b));
    assert_eq!(required_precision(a), required_precision(b));
    assert_eq!(escalate(128, a), escalate(128, b));
    assert_eq!(select_mode(a, true), select_mode(a, true));
    assert_eq!(required_precision(a), required_precision(a));
}

#[test]
fn required_precision_is_rounded_up_to_a_power_of_two() {
    assert_eq!(required_precision(zoom(1, 1)), 64);
    assert_eq!(required_precision(zoom(2, 1)), 128);
    assert_eq!(required_precision(zoom(1 << 20, 1)), 256);
    assert_eq!(required_precision(zoom(10_000_000_000_001, 1)), 256);
    assert_eq!(required_precision(zoom(1 << 54, 1)), 256);
    assert_eq!(required_precision(zoom(1 << 55, 1)), 512);
    assert_eq!(required_precision(zoom(u64::MAX, 1)), 512);
}

#[test]
fn required_precision_grows_with_the_zoom_factor() {
    let mut last = 0;
    for shift in 0..64 {
        let bits = required_precision(zoom(1 << shift, 1));
        assert!(bits >= last);
        assert!(bits.is_power_of_two());
        assert!(bits <= MAX_PRECISION);
        let needed = 64.0 + 3.5 * shift as f64;
        assert!(bits as f64 >= needed);
        last = bits;
    }
}

#[test]
fn escalation_never_narrows() {
    assert_eq!(escalate(INITIAL_PRECISION, zoom(1, 1)), 128);
    assert_eq!(escalate(INITIAL_PRECISION, zoom(1 << 20, 1)), 256);
    assert_eq!(escalate(256, zoom(1 << 20, 1)), 256);
    assert_eq!(escalate(512, zoom(1 << 20, 1)), 512);
    assert_eq!(escalate(256, zoom(1 << 55, 1)), 512);
    assert_eq!(escalate(MAX_PRECISION, zoom(u64::MAX, 1)), MAX_PRECISION);
    assert_eq!(escalate(5000, zoom(u64::MAX, 1)), 5000);
    // a width that is no power of two is replaced by one when it is too small
    assert_eq!(escalate(200, zoom(1 << 54, 1)), 256);
    assert_eq!(escalate(253, zoom(1 << 54, 1)), 253);
}

#[test]
fn precision_is_left_alone_below_the_high_threshold() {
    assert_eq!(update_precision(128, zoom(1 << 20, 1)), 128);
    assert_eq!(update_precision(128, zoom(HIGH_THRESHOLD, 1)), 128);
    assert_eq!(update_precision(128, zoom(HIGH_THRESHOLD + 1, 1)), 256);
    assert_eq!(update_precision(128, zoom(1 << 55, 1)), 512);
    assert_eq!(update_precision(1024, zoom(1 << 55, 1)), 1024);
}

#[test]
fn rounding_up_to_a_power_of_two() {
    use_round_up(0, 1);
    use_round_up(1, 1);
    use_round_up(2, 2);
    use_round_up(3, 4);
    use_round_up(216, 256);
    use_round_up(256, 256);
    use_round_up(257, 512);
    use_round_up(0x8000_0000, 0x8000_0000);
    use_round_up(0x7FFF_FFFF, 0x8000_0000);
}

fn use_round_up(n: u32, expected: u32) {
    assert_eq!(mandelbrot::power::round_up_to_power_of_two(n), expected);
    assert_eq!(n.next_power_of_two(), expected);
}

#[test]
fn seventh_powers() {
    assert_eq!(mandelbrot::power::seventh_power(0), vec![0; 8]);
    assert_eq!(mandelbrot::power::seventh_power(1), vec![1, 0, 0, 0, 0, 0, 0, 0]);
    assert_eq!(mandelbrot::power::seventh_power(3), vec![2187, 0, 0, 0, 0, 0, 0, 0]);
    assert_eq!(mandelbrot::power::seventh_power(1 << 32), vec![0, 0, 0, 1 << 32, 0, 0, 0, 0]);
    // (2^64 - 1)^7 = -1 + 7 * 2^64 - 21 * 2^128 + ... modulo 2^64 per limb
    let top = mandelbrot::power::seventh_power(u64::MAX);
    assert_eq!(top[0], u64::MAX);
    assert_eq!(top[7], 0);
    assert_eq!(top[6], u64::MAX - 6);
}
