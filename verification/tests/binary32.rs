use overmatch::binary32::encoding::Binary32;

fn b(x: f32) -> Binary32 {
    Binary32::from_bits(x.to_bits())
}

fn same(got: Binary32, want: f32) {
    let back = f32::from_bits(got.to_bits());
    if want.is_nan() {
        assert!(back.is_nan());
    } else {
        assert_eq!(got.to_bits(), want.to_bits(), "{} {}", back, want);
    }
}

/// A spread of patterns: all exponents, both signs, with sparse and dense fractions.
fn samples() -> Vec<f32> {
    let mut out = Vec::new();
    for e in 0u32..256 {
        for f in [0u32, 1, 0x400000, 0x7fffff, 0x2aaaaa] {
            if e % 7 == 0 || e > 250 || (120..134).contains(&e) {
                out.push(f32::from_bits((e << 23) | f));
                out.push(f32::from_bits(0x8000_0000 | (e << 23) | f));
            }
        }
    }
    let mut state: u32 = 0x1234_5678;
    for _ in 0..200 {
        state = state.wrapping_mul(1664525).wrapping_add(1013904223);
        out.push(f32::from_bits(state));
    }
    out
}

#[test]
fn sums_match_the_hardware() {
    for &x in &samples() {
        for &y in &samples() {
            same(b(x) + b(y), x + y);
            same(b(x) - b(y), x - y);
        }
    }
}

#[test]
fn products_match_the_hardware() {
    for &x in &samples() {
        for &y in &samples() {
            same(b(x) * b(y), x * y);
        }
    }
}

#[test]
fn quotients_match_the_hardware() {
    for &x in &samples() {
        for &y in &samples() {
            same(b(x) / b(y), x / y);
        }
    }
}

#[test]
fn remainders_match_the_hardware() {
    for &x in &samples() {
        for &y in &samples() {
            same(b(x) % b(y), x % y);
            same(b(x).rem_euclid(b(y)), x.rem_euclid(y));
        }
    }
}

#[test]
fn unary_functions_match_the_hardware() {
    for &x in &samples() {
        same(b(x).sqrt(), x.sqrt());
        same(b(x).negated(), -x);
        same(b(x).abs(), x.abs());
        same(b(x).signum(), x.signum());
        same(b(x).recip(), x.recip());
        same(b(x).to_radians(), x.to_radians());
        assert_eq!(b(x).round_to_i32(), x.round() as i32);
    }
    for i in -1000i32..1000 {
        let x = i as f32 * 0.25;
        assert_eq!(b(x).round_to_i32(), x.round() as i32);
    }
}

#[test]
fn comparisons_match_the_hardware() {
    for &x in &samples() {
        for &y in &samples() {
            assert_eq!(b(x) < b(y), x < y);
            assert_eq!(b(x) <= b(y), x <= y);
            assert_eq!(b(x) > b(y), x > y);
            assert_eq!(b(x) >= b(y), x >= y);
            assert_eq!(b(x) == b(y), x == y);
            if x != y {
                same(b(x).min(b(y)), x.min(y));
                same(b(x).max(b(y)), x.max(y));
            }
        }
        same(b(x).clamp(b(-1.5), b(2.5)), x.clamp(-1.5, 2.5));
    }
}
