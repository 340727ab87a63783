use tcod_rng::{get_double_bits, get_float_bits, Algorithm, Bits, ComplementaryMultiplyWithCarry, MersenneTwister};

#[test]
fn float_bits_mt_seed_1() {
    let mut g = MersenneTwister::new(1);
    assert_eq!(get_float_bits(&mut g), 0x3f4780eb);
    assert_eq!(get_float_bits(&mut g), 0x3e3c1448);
    assert_eq!(get_float_bits(&mut g), 0x3f4cc389);
}

#[test]
fn double_bits_mt_seed_1() {
    let mut g = MersenneTwister::new(1);
    assert_eq!(get_double_bits(&mut g), 0x3fe780ebb8672f8c);
    assert_eq!(get_double_bits(&mut g), 0x3fb77eff20ccc389);
    assert_eq!(get_double_bits(&mut g), 0x3fe11e852591cb4f);
}

#[test]
fn float_bits_cmwc_seed_1() {
    let mut g = ComplementaryMultiplyWithCarry::new(1);
    assert_eq!(get_float_bits(&mut g), 0x3f1fa733);
    assert_eq!(get_float_bits(&mut g), 0x3e7e49e6);
    assert_eq!(get_float_bits(&mut g), 0x3f5ac292);
}

#[test]
fn double_bits_cmwc_seed_1() {
    let mut g = ComplementaryMultiplyWithCarry::new(1);
    assert_eq!(get_double_bits(&mut g), 0x3fefa733313856fc);
    assert_eq!(get_double_bits(&mut g), 0x3fd16a7758dac292);
    assert_eq!(get_double_bits(&mut g), 0x3fd277e8c060a5b4);
}

#[test]
fn bits_lowest_first_and_refilled_every_32() {
    let mut g = MersenneTwister::new(1);
    let mut bits = Bits::new();
    let first: u32 = 1791095845;
    for i in 0..32 {
        assert_eq!(bits.get_bit(&mut g), (first >> i) & 1);
    }
    let second: u32 = 4282876139;
    assert_eq!(bits.get_bit(&mut g), second & 1);
    assert_eq!(g.get_int(), 3093770124);
}

fn compat_float(v: u32) -> f32 {
    v as f32 * (1.0 / 0xffff_ffff_u32 as f32)
}

fn compat_double(v: u32) -> f64 {
    f64::from(v) * (1.0 / 0xffff_ffff_u32 as f64)
}

#[test]
fn precise_samples_in_unit_interval_mt() {
    let mut g = MersenneTwister::new(123);
    for _ in 0..10000 {
        let f = f32::from_bits(get_float_bits(&mut g));
        assert!((0.0..1.0).contains(&f));
        let d = f64::from_bits(get_double_bits(&mut g));
        assert!((0.0..1.0).contains(&d));
    }
}

#[test]
fn precise_samples_in_unit_interval_cmwc() {
    let mut g = ComplementaryMultiplyWithCarry::new(123);
    for _ in 0..10000 {
        let f = f32::from_bits(get_float_bits(&mut g));
        assert!((0.0..1.0).contains(&f));
        let d = f64::from_bits(get_double_bits(&mut g));
        assert!((0.0..1.0).contains(&d));
    }
}

#[test]
fn compat_samples_in_unit_interval() {
    let mut a = MersenneTwister::new(321);
    let mut b = ComplementaryMultiplyWithCarry::new(321);
    for _ in 0..10000 {
        for v in [a.get_int(), b.get_int()] {
            let f = compat_float(v);
            assert!((0.0..1.0).contains(&f));
            let d = compat_double(v);
            assert!((0.0..1.0).contains(&d));
        }
    }
}

fn fraction_below(samples: &[f64], bound: f64) -> f64 {
    samples.iter().filter(|&&x| x < bound).count() as f64 / samples.len() as f64
}

#[test]
fn exponent_distribution_follows_powers_of_two() {
    let mut a = MersenneTwister::new(2024);
    let mut b = ComplementaryMultiplyWithCarry::new(2024);
    let mut floats = Vec::new();
    let mut doubles = Vec::new();
    for _ in 0..40000 {
        floats.push(f32::from_bits(get_float_bits(&mut a)) as f64);
        doubles.push(f64::from_bits(get_double_bits(&mut b)));
    }
    for k in 1..6 {
        let p = 0.5f64.powi(k);
        assert!((fraction_below(&floats, p) - p).abs() < 0.01);
        assert!((fraction_below(&doubles, p) - p).abs() < 0.01);
    }
}

#[test]
fn precise_floats_reach_small_values() {
    let mut g = MersenneTwister::new(5);
    let mut smallest = 1.0f32;
    for _ in 0..20000 {
        let f = f32::from_bits(get_float_bits(&mut g));
        if f < smallest {
            smallest = f;
        }
    }
    assert!(smallest < 1.0e-4);
    assert!(smallest > 0.0);
}

#[test]
fn leading_zero_bits_bound_the_sample() {
    for seed in 0..300u32 {
        let g = MersenneTwister::new(seed);
        let mut peek = g;
        let first = peek.get_int();
        let mut a = g;
        let f = f32::from_bits(get_float_bits(&mut a));
        let mut b = g;
        let d = f64::from_bits(get_double_bits(&mut b));
        for k in 1..4u32 {
            let zeros = first & ((1u32 << k) - 1) == 0;
            let bound = 0.5f64.powi(k as i32);
            if (f as f64) < bound || d < bound {
                assert!(zeros);
            }
            if zeros {
                assert!((f as f64) <= bound);
                assert!(d <= bound);
            }
        }
    }
}
