use llhls::float::{divide_whole, Double, FOUR, HALF, ONE, SIXTY, THIRTY, THREE, TWO};

fn double(value: f64) -> Double {
    Double::from_bits(value.to_bits())
}

/// The bits, where what is no number has but one form.
fn bits(value: f64) -> u64 {
    if value.is_nan() {
        0x7ff8_0000_0000_0000
    } else {
        value.to_bits()
    }
}

/// Numbers of every size, with their neighbours and both signs.
fn samples() -> Vec<f64> {
    let mut out = vec![f64::NAN, f64::INFINITY, 0.0, f64::MAX, f64::MIN_POSITIVE, 5e-324];
    let near: [f64; 36] = [
        0.1, 0.2, 0.3, 0.5, 1.0, 1.001, 1.5, 2.0, 2.0005, 2.9999995, 3.0, 4.0, 4.167, 4.1675,
        10.0, 29.97, 59.94, 60.0, 0.0005, 0.0025, 0.0000005, 0.0000015, 123456.789,
        4294967295.0, 4294967296.0, 4503599627370496.0, 9007199254740992.0,
        18446744073709551616.0, 1e15, 1e22, 1e100, 1e300, 1e-10, 1e-100, 1e-300, 2.2e-308,
    ];
    for v in near {
        let b = v.to_bits();
        out.push(v);
        out.push(f64::from_bits(b - 1));
        out.push(f64::from_bits(b + 1));
    }
    // a sequence of bits that is spread over the format
    let mut b: u64 = 0x1234_5678_9abc_def1;
    for _ in 0..60 {
        b = b.wrapping_mul(6364136223846793005).wrapping_add(1442695040888963407);
        out.push(f64::from_bits(b & 0x7fff_ffff_ffff_ffff));
        out.push(f64::from_bits(0x3f00_0000_0000_0000 + (b >> 8)));
        out.push(f64::from_bits(0x4300_0000_0000_0000 + (b >> 9)));
    }
    let minus: Vec<f64> = out.iter().map(|v| -v).collect();
    out.extend(minus);
    out
}

#[test]
fn sums_are_those_of_the_machine() {
    let all = samples();
    for a in &all {
        for b in &all {
            assert_eq!(double(*a).plus(&double(*b)).bits, bits(a + b), "{:e} {:e}", a, b);
        }
    }
}

#[test]
fn triples_are_those_of_the_machine() {
    for a in samples() {
        assert_eq!(double(a).triple().bits, bits(a * 3.0), "{:e}", a);
    }
}

#[test]
fn texts_are_those_of_the_machine() {
    for a in samples() {
        assert_eq!(double(a).text_two(), format!("{:.2}", a));
        assert_eq!(double(a).text_three(), format!("{:.3}", a));
        assert_eq!(double(a).text_six(), format!("{:.6}", a));
    }
    assert_eq!(double(2.0005).text_three(), "2.001");
    assert_eq!(double(0.0025).text_three(), "0.003");
    assert_eq!(double(0.125).text_two(), "0.12");
    assert_eq!(double(4.1675).text_six(), "4.167500");
    assert_eq!(double(-0.0).text_two(), "-0.00");
    assert_eq!(double(f64::NAN).text_two(), "NaN");
    assert_eq!(double(f64::NEG_INFINITY).text_six(), "-inf");
}

#[test]
fn whole_parts_are_those_of_the_machine() {
    for a in samples() {
        assert_eq!(double(a).whole_part(), a as u64, "{:e}", a);
        assert_eq!(double(a).ceiling(), a.ceil() as u32, "{:e}", a);
        assert_eq!(double(a).above_zero(), a > 0.0, "{:e}", a);
    }
}

#[test]
fn single_precision_is_that_of_the_machine() {
    let mut all = samples();
    for b in [0x380f_ffff_f000_0000u64, 0x3810_0000_0000_0000, 0x47ef_ffff_e000_0000] {
        for step in [0u64, 1, 0xfff_ffff, 0x1000_0000, 0x1000_0001, 0x3000_0000] {
            all.push(f64::from_bits(b + step));
            all.push(f64::from_bits(b - step));
        }
    }
    for e in 0x368..0x482u64 {
        for f in [0u64, 0x8_0000_0000_0000, 0xf_ffff_efff_ffff, 0xf_ffff_f000_0000, 0x1000_0000] {
            all.push(f64::from_bits((e << 52) + f));
        }
    }
    for a in all {
        assert_eq!(double(a).to_single().bits, bits(f64::from(a as f32)), "{:e}", a);
    }
}

#[test]
fn quotients_are_those_of_the_machine() {
    let counts: Vec<u128> = vec![0, 8, 9, 16, 1 << 52, (1 << 53) + 8, (1 << 54) + 24, u128::from(u64::MAX)];
    for n in counts {
        for d in samples() {
            if d > 0.0 {
                let expected = (n as f64 / d) as u64;
                assert_eq!(divide_whole(n, &double(d)), expected, "{} {:e}", n, d);
            }
        }
    }
}

#[test]
fn named_numbers() {
    let named = [
        (HALF, 0.5),
        (ONE, 1.0),
        (TWO, 2.0),
        (THREE, 3.0),
        (FOUR, 4.0),
        (THIRTY, 30.0),
        (SIXTY, 60.0),
    ];
    for (number, value) in named {
        assert_eq!(f64::from_bits(number), value);
    }
    assert_eq!(Double::from_bits(ONE).triple(), Double::from_bits(THREE));
}
