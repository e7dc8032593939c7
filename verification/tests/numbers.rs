use bakhtscript::number::{
    equal, index_of, less, less_equal, nan, of_digits, of_usize, round, zero, INFINITY,
    NEGATIVE_ONE,
};

fn samples() -> Vec<f32> {
    let mut all = vec![
        0.0,
        -0.0,
        1.0,
        -1.0,
        0.5,
        -0.5,
        1.5,
        2.0,
        255.0,
        1e10,
        -1e10,
        3.4e38,
        -3.4e38,
        f32::MIN_POSITIVE,
        1e-45,
        -1e-45,
        f32::MAX,
        f32::MIN,
        f32::INFINITY,
        f32::NEG_INFINITY,
        f32::NAN,
        -f32::NAN,
        f32::from_bits(0x7f80_0001),
        f32::from_bits(0xffff_ffff),
        16777216.0,
        16777218.0,
        4294967296.0,
        18446744073709551616.0,
        9223372036854775808.0,
        0.99999994,
        1.0000001,
    ];
    let mut x: u32 = 12345;
    for _ in 0..2000 {
        x = x.wrapping_mul(1664525).wrapping_add(1013904223);
        all.push(f32::from_bits(x));
    }
    all
}

#[test]
fn constants() {
    assert_eq!(NEGATIVE_ONE, (-1.0f32).to_bits());
    assert_eq!(INFINITY, f32::INFINITY.to_bits());
}

#[test]
fn relations_agree_with_the_hardware() {
    let all = samples();
    for a in &all {
        assert_eq!(nan(a.to_bits()), a.is_nan());
        assert_eq!(zero(a.to_bits()), *a == 0.0);
        for b in &all {
            let (x, y) = (a.to_bits(), b.to_bits());
            assert_eq!(equal(x, y), a == b, "{} == {}", a, b);
            assert_eq!(less(x, y), a < b, "{} < {}", a, b);
            assert_eq!(less_equal(x, y), a <= b, "{} <= {}", a, b);
        }
    }
}

#[test]
fn index_agrees_with_the_cast() {
    for a in samples() {
        let expected = if a.is_nan() || a <= -1.0 {
            None
        } else {
            Some(a as usize)
        };
        assert_eq!(index_of(a.to_bits()), expected, "{}", a);
    }
    assert_eq!(index_of(0.0f32.to_bits()), Some(0));
    assert_eq!(index_of((-0.0f32).to_bits()), Some(0));
    assert_eq!(index_of(0.99f32.to_bits()), Some(0));
    assert_eq!(index_of((-0.99f32).to_bits()), Some(0));
    assert_eq!(index_of(1.0f32.to_bits()), Some(1));
    assert_eq!(index_of(2.9f32.to_bits()), Some(2));
    assert_eq!(index_of((-1.0f32).to_bits()), None);
    assert_eq!(index_of((-5.0f32).to_bits()), None);
    assert_eq!(index_of(f32::NEG_INFINITY.to_bits()), None);
    assert_eq!(index_of(f32::NAN.to_bits()), None);
    assert_eq!(index_of((-f32::NAN).to_bits()), None);
    assert_eq!(index_of(f32::INFINITY.to_bits()), Some(usize::MAX));
    assert_eq!(index_of(16777216.0f32.to_bits()), Some(16777216));
    assert_eq!(index_of(1e30f32.to_bits()), Some(usize::MAX));
}

#[test]
fn whole_numbers_round_as_the_cast_does() {
    let mut cases: Vec<u128> = vec![
        0,
        1,
        2,
        3,
        7,
        255,
        256,
        8388607,
        8388608,
        16777215,
        16777216,
        16777217,
        16777218,
        16777219,
        16777220,
        33554430,
        33554431,
        33554433,
        33554434,
        33554435,
        4294967295,
        4294967296,
        u64::MAX as u128,
        u128::MAX,
        u128::MAX - (1 << 103),
        u128::MAX - (1 << 103) + 1,
        (1 << 127) + (1 << 103),
        (1 << 127) + (1 << 103) + 1,
        340282346638528859811704183484516925440,
        340282356779733661637539395458142568447,
        340282356779733661637539395458142568448,
    ];
    let mut x: u128 = 0x9e3779b97f4a7c15;
    for _ in 0..5000 {
        x = x.wrapping_mul(6364136223846793005).wrapping_add(1442695040888963407);
        x ^= x << 31;
        cases.push(x >> (x % 128));
    }
    for n in cases {
        assert_eq!(round(n), (n as f32).to_bits(), "{}", n);
        if n <= usize::MAX as u128 {
            assert_eq!(of_usize(n as usize), (n as usize as f32).to_bits(), "{}", n);
        }
    }
    assert_eq!(of_usize(3), 3.0f32.to_bits());
    assert_eq!(round(16777217), 16777216.0f32.to_bits());
    assert_eq!(round(16777219), 16777220.0f32.to_bits());
}

fn digits(s: &str) -> u32 {
    let text: Vec<char> = s.chars().collect();
    of_digits(&text, 0, text.len())
}

#[test]
fn numerals_round_as_parsing_does() {
    let cases = [
        "0",
        "1",
        "3",
        "007",
        "10",
        "255",
        "16777216",
        "16777217",
        "16777219",
        "4294967295",
        "123456789012345678901234567890",
        "340282346638528859811704183484516925440",
        "340282356779733661637539395458142568447",
        "340282356779733661637539395458142568448",
        "340282366920938463463374607431768211455",
        "340282366920938463463374607431768211456",
        "999999999999999999999999999999999999999999999999",
        "00000000000000000000000000000000000000000000000000000000000000000001",
    ];
    for s in cases {
        assert_eq!(digits(s), s.parse::<f32>().unwrap().to_bits(), "{}", s);
    }
    assert_eq!(digits("7"), 7.0f32.to_bits());
    assert_eq!(digits(""), 0);
    let text: Vec<char> = "a = 42 + 1".chars().collect();
    assert_eq!(of_digits(&text, 4, 2), 42.0f32.to_bits());
}
