use dicon_nifti_formatting::number::Real;

fn fixed64(x: f64, places: u32) -> String {
    Real::from_double_bits(x.to_bits()).to_fixed(places)
}

fn fixed32(x: f32, places: u32) -> String {
    Real::from_single_bits(x.to_bits()).to_fixed(places)
}

fn next(state: &mut u64) -> u64 {
    *state = state
        .wrapping_mul(6364136223846793005)
        .wrapping_add(1442695040888963407);
    let mut z = *state;
    z ^= z >> 33;
    z = z.wrapping_mul(0xff51afd7ed558ccd);
    z ^= z >> 29;
    z
}

#[test]
fn ten_places_of_simple_values() {
    assert_eq!(fixed64(0.0, 10), "0.0000000000");
    assert_eq!(fixed64(1.0, 10), "1.0000000000");
    assert_eq!(fixed64(-1.5, 10), "-1.5000000000");
    assert_eq!(fixed64(0.1, 10), "0.1000000000");
    assert_eq!(fixed64(123456.789, 10), "123456.7890000000");
    assert_eq!(fixed64(1e-11, 10), "0.0000000000");
    assert_eq!(fixed64(-1e-20, 10), "-0.0000000000");
    assert_eq!(fixed64(-0.0, 10), "-0.0000000000");
}

#[test]
fn ties_go_to_the_even_digit() {
    assert_eq!(fixed64(0.5, 0), "0");
    assert_eq!(fixed64(1.5, 0), "2");
    assert_eq!(fixed64(2.5, 0), "2");
    assert_eq!(fixed64(0.125, 2), "0.12");
    assert_eq!(fixed64(0.375, 2), "0.38");
    assert_eq!(fixed64(0.25, 1), "0.2");
    assert_eq!(fixed64(0.75, 1), "0.8");
}

#[test]
fn values_that_are_not_numbers() {
    assert_eq!(fixed64(f64::NAN, 10), "NaN");
    assert_eq!(fixed64(-f64::NAN, 10), "NaN");
    assert_eq!(fixed64(f64::INFINITY, 10), "inf");
    assert_eq!(fixed64(f64::NEG_INFINITY, 10), "-inf");
    assert_eq!(fixed32(f32::NAN, 6), "NaN");
    assert_eq!(fixed32(f32::INFINITY, 6), "inf");
    assert_eq!(fixed32(f32::NEG_INFINITY, 1), "-inf");
}

#[test]
fn large_magnitudes_keep_every_digit() {
    assert_eq!(fixed64(1e22, 10), "10000000000000000000000.0000000000");
    assert_eq!(fixed64(f64::MAX, 10), format!("{:.10}", f64::MAX));
    assert_eq!(fixed64(f64::MAX, 10).len(), 309 + 1 + 10);
    assert_eq!(fixed64(f64::MIN, 10), format!("{:.10}", f64::MIN));
    assert_eq!(fixed32(f32::MAX, 6), "340282346638528859811704183484516925440.000000");
    assert_eq!(fixed64(18446744073709551616.0, 10), "18446744073709551616.0000000000");
}

#[test]
fn tiny_magnitudes_round_to_zero() {
    assert_eq!(fixed64(f64::MIN_POSITIVE, 10), "0.0000000000");
    assert_eq!(fixed64(f64::from_bits(1), 10), "0.0000000000");
    assert_eq!(fixed64(-f64::from_bits(1), 10), "-0.0000000000");
    assert_eq!(fixed32(f32::from_bits(1), 6), "0.000000");
    assert_eq!(fixed64(4.9e-11, 10), "0.0000000000");
    assert_eq!(fixed64(5.1e-11, 10), "0.0000000001");
}

#[test]
fn compatibility_maxima_are_single_precision_values() {
    assert_eq!(fixed32(70.0, 6), "70.000000");
    assert_eq!(fixed32(71.63, 6), "71.629997");
    assert_eq!(fixed32(77.38, 6), "77.379997");
}

#[test]
fn one_place_of_band_limits() {
    assert_eq!(fixed32(4.0, 1), "4.0");
    assert_eq!(fixed32(30.0, 1), "30.0");
    assert_eq!(fixed32(8.0, 1), "8.0");
    assert_eq!(fixed32(14.0, 1), "14.0");
    assert_eq!(fixed32(0.05, 1), "0.1");
    assert_eq!(fixed32(0.04, 1), "0.0");
}

#[test]
fn agrees_with_the_standard_formatter_on_doubles() {
    let mut state: u64 = 0x1234_5678_9abc_def0;
    for _ in 0..3000 {
        let bits = next(&mut state);
        let x = f64::from_bits(bits);
        assert_eq!(fixed64(x, 10), format!("{:.10}", x), "bits {bits:#x}");
        assert_eq!(fixed64(x, 6), format!("{:.6}", x), "bits {bits:#x}");
    }
}

#[test]
fn agrees_with_the_standard_formatter_near_one() {
    let mut state: u64 = 77;
    for _ in 0..20000 {
        let r = next(&mut state);
        let exponent = 1023 - 40 + (r >> 58) * 2;
        let bits = (r & 0x800f_ffff_ffff_ffff) | (exponent << 52);
        let x = f64::from_bits(bits);
        assert_eq!(fixed64(x, 10), format!("{:.10}", x), "bits {bits:#x}");
        assert_eq!(fixed64(x, 1), format!("{:.1}", x), "bits {bits:#x}");
        assert_eq!(fixed64(x, 0), format!("{:.0}", x), "bits {bits:#x}");
        assert_eq!(fixed64(x, 18), format!("{:.18}", x), "bits {bits:#x}");
    }
}

#[test]
fn agrees_with_the_standard_formatter_on_singles() {
    let mut state: u64 = 5;
    for _ in 0..20000 {
        let bits = next(&mut state) as u32;
        let x = f32::from_bits(bits);
        assert_eq!(fixed32(x, 6), format!("{:.6}", x), "bits {bits:#x}");
        assert_eq!(fixed32(x, 1), format!("{:.1}", x), "bits {bits:#x}");
    }
}

#[test]
fn agrees_with_the_standard_formatter_on_short_decimals() {
    for i in -5000i32..5000 {
        let x = f64::from(i) / 1000.0;
        assert_eq!(fixed64(x, 10), format!("{:.10}", x));
        assert_eq!(fixed64(x, 2), format!("{:.2}", x));
        let y = x as f32;
        assert_eq!(fixed32(y, 6), format!("{:.6}", y));
        assert_eq!(fixed32(y, 1), format!("{:.1}", y));
    }
}

#[test]
fn single_and_widened_double_render_alike() {
    let mut state: u64 = 99;
    for _ in 0..5000 {
        let bits = next(&mut state) as u32;
        let x = f32::from_bits(bits);
        assert_eq!(fixed32(x, 10), fixed64(f64::from(x), 10), "bits {bits:#x}");
    }
}
