use graph_embedding::columns::{accumulate_column, scale};
use graph_embedding::embedding::sum_squares;
use graph_embedding::sparse::Entry;

fn next_pattern(state: &mut u64) -> u32 {
    *state = state.wrapping_mul(6364136223846793005).wrapping_add(1442695040888963407);
    (*state >> 32) as u32
}

fn same(got: u32, expected: f32) -> bool {
    if expected.is_nan() {
        f32::from_bits(got).is_nan()
    } else {
        got == expected.to_bits()
    }
}

// 0 + a * b, through one entry.
fn product(a: u32, b: u32) -> u32 {
    let entries = vec![Entry { row: 0, col: 1, value: b }];
    accumulate_column(&vec![0, a], &entries, vec![0; 2])[0]
}

// (0 + a * 1) + b * 1, through two entries.
fn sum(a: u32, b: u32) -> u32 {
    let one = 1.0f32.to_bits();
    let entries = vec![Entry { row: 0, col: 1, value: one }, Entry { row: 0, col: 2, value: one }];
    accumulate_column(&vec![0, a, b], &entries, vec![0; 3])[0]
}

#[test]
fn products_are_those_of_single_precision() {
    assert_eq!(product(1.5f32.to_bits(), 2.0f32.to_bits()), 3.0f32.to_bits());
    assert_eq!(product(0.1f32.to_bits(), 0.1f32.to_bits()), (0.1f32 * 0.1f32).to_bits());
    assert_eq!(product((-3.0f32).to_bits(), 0.5f32.to_bits()), (-1.5f32).to_bits());
    assert_eq!(product(1.0e30f32.to_bits(), 1.0e30f32.to_bits()), f32::INFINITY.to_bits());
}

#[test]
fn products_round_correctly_below_the_normal_range() {
    // products that are subnormal, where rounding is delicate
    for (a, b) in [
        (0x95d1088bu32, 0xa0d0efeeu32),
        (0x9c0f6a17, 0x9468827e),
        (0x9d1562df, 0x188b908a),
        (0x1688cb28, 0x1ac711ac),
        (0x11612f3f, 0xa904bb1a),
        (0x06e8e483, 0x31a620ed),
    ] {
        let expected = 0.0f32 + f32::from_bits(a) * f32::from_bits(b);
        assert_eq!(product(a, b), expected.to_bits());
    }
    assert_eq!(product(0x95d1088b, 0xa0d0efee), 0x0000_0015);
    assert_eq!(product(0x9c0f6a17, 0x9468827e), 0);
}

#[test]
fn products_agree_with_the_processor_on_many_patterns() {
    let mut state: u64 = 0x1234_5678_9abc_def0;
    for k in 0..300_000u32 {
        let mut a = next_pattern(&mut state);
        let mut b = next_pattern(&mut state);
        if k % 3 == 0 {
            let exponent = (k / 3) % 70 + 20;
            a = (a & 0x807f_ffff) | (exponent << 23);
            b = (b & 0x807f_ffff) | ((127 - exponent - k % 30) << 23);
        }
        let expected = 0.0f32 + f32::from_bits(a) * f32::from_bits(b);
        assert!(same(product(a, b), expected), "{:08x} * {:08x}", a, b);
    }
}

#[test]
fn sums_are_those_of_single_precision() {
    assert_eq!(sum(1.5f32.to_bits(), 2.25f32.to_bits()), 3.75f32.to_bits());
    assert_eq!(sum(0.1f32.to_bits(), 0.2f32.to_bits()), (0.1f32 + 0.2f32).to_bits());
    assert_eq!(sum(1.0f32.to_bits(), (-1.0f32).to_bits()), 0);
    assert_eq!(sum(16777216.0f32.to_bits(), 1.0f32.to_bits()), 16777216.0f32.to_bits());
}

#[test]
fn sums_agree_with_the_processor_on_many_patterns() {
    let mut state: u64 = 0x0bad_cafe_0123_4567;
    for k in 0..300_000u32 {
        let mut a = next_pattern(&mut state);
        let mut b = next_pattern(&mut state);
        if k % 2 == 0 {
            b = (b & 0x807f_ffff) | (a & 0x7f80_0000);
        }
        if k % 5 == 0 {
            a &= 0x80ff_ffff;
            b &= 0x80ff_ffff;
        }
        let expected = (0.0f32 + f32::from_bits(a)) + f32::from_bits(b);
        assert!(same(sum(a, b), expected), "{:08x} + {:08x}", a, b);
    }
}

#[test]
fn scaling_divides_by_the_correctly_rounded_root() {
    assert_eq!(scale(1.0f32.to_bits(), 4.0f32.to_bits()), 0.5f32.to_bits());
    assert_eq!(scale(1.0f32.to_bits(), 2.0f32.to_bits()), (1.0f32 / 2.0f32.sqrt()).to_bits());
    assert_eq!(scale(1.0f32.to_bits(), f32::INFINITY.to_bits()), 0);
    assert!(f32::from_bits(scale(1.0f32.to_bits(), f32::NAN.to_bits())).is_nan());
}

#[test]
fn scaling_agrees_with_the_processor_on_many_patterns() {
    let mut state: u64 = 0x0fed_cba9_8765_4321;
    let mut compared = 0;
    for k in 0..300_000u32 {
        let mut cell = next_pattern(&mut state);
        let mut total = next_pattern(&mut state) & 0x7fff_ffff;
        if k % 5 == 0 {
            total &= 0x00ff_ffff;
        }
        if k % 7 == 0 {
            cell = (cell & 0x807f_ffff) | ((k % 40) << 23);
            total = (total & 0x007f_ffff) | ((200 + k % 50) << 23);
        }
        if total == 0 {
            continue;
        }
        let expected = f32::from_bits(cell) / f32::from_bits(total).sqrt();
        assert!(same(scale(cell, total), expected), "{:08x} / sqrt {:08x}", cell, total);
        compared += 1;
    }
    assert!(compared > 250_000);
}

#[test]
fn sums_of_squares_agree_with_the_processor_on_unit_fractions() {
    let mut state: u64 = 42;
    for _ in 0..2_000 {
        let values: Vec<f32> =
            (0..6).map(|_| (next_pattern(&mut state) % 8388608) as f32 / 8388608.0).collect();
        let res: Vec<Vec<u32>> = values.iter().map(|v| vec![v.to_bits()]).collect();
        let mut expected = 0.0f32;
        for v in &values {
            expected += v * v;
        }
        assert_eq!(sum_squares(&res, 1), vec![expected.to_bits()]);
    }
}
