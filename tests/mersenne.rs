use tcod_rng::{Algorithm, MersenneTwister};

#[test]
fn mt_reference_first_output_seed_1() {
    let mut g = MersenneTwister::new(1);
    assert_eq!(g.get_int(), 1791095845);
}

#[test]
fn mt_reference_sequence_seed_1() {
    let expected: [u32; 10] = [
        1791095845, 4282876139, 3093770124, 4005303368, 491263, 550290313, 1298508491,
        4290846341, 630311759, 1013994432,
    ];
    let mut g = MersenneTwister::new(1);
    for &e in expected.iter() {
        assert_eq!(g.get_int(), e);
    }
}

#[test]
fn mt_reference_seed_5489_ten_thousandth_output() {
    let mut g = MersenneTwister::new(5489);
    assert_eq!(g.get_int(), 3499211612);
    let mut last = 0;
    for _ in 1..10000 {
        last = g.get_int();
    }
    assert_eq!(last, 4123659995);
}

#[test]
fn mt_fresh_generator_twists_on_first_draw() {
    let mut g = MersenneTwister::new(5489);
    assert_eq!(g.cursor(), 624);
    g.get_int();
    assert_eq!(g.cursor(), 1);
}

#[test]
fn mt_regeneration_boundary() {
    let mut g = MersenneTwister::new(5489);
    let mut values = Vec::new();
    for _ in 0..624 {
        values.push(g.get_int());
    }
    assert_eq!(g.cursor(), 624);
    assert_eq!(values[623], 4020325887);
    assert_eq!(g.get_int(), 4178893912);
    assert_eq!(g.cursor(), 1);
}

#[test]
fn mt_same_seed_same_outputs() {
    let mut a = MersenneTwister::new(20240);
    let mut b = MersenneTwister::new(20240);
    for i in 0..3000 {
        match i % 3 {
            0 => assert_eq!(a.get_int(), b.get_int()),
            1 => assert_eq!(tcod_rng::get_float_bits(&mut a), tcod_rng::get_float_bits(&mut b)),
            _ => assert_eq!(
                tcod_rng::get_double_bits(&mut a),
                tcod_rng::get_double_bits(&mut b)
            ),
        }
    }
}

#[test]
fn mt_different_seeds_differ() {
    let mut a = MersenneTwister::new(1);
    let mut b = MersenneTwister::new(2);
    assert_ne!(a.get_int(), b.get_int());
}

#[test]
fn mt_copy_is_a_snapshot() {
    let mut a = MersenneTwister::new(77);
    a.get_int();
    let mut b = a;
    for _ in 0..1000 {
        assert_eq!(a.get_int(), b.get_int());
    }
}
