use tcod_rng::{Algorithm, ComplementaryMultiplyWithCarry};

#[test]
fn cmwc_seeded_state() {
    let g = ComplementaryMultiplyWithCarry::new(42);
    assert_eq!(g.cursor(), 0);
    assert_eq!(g.word(0), 42u32.wrapping_mul(1103515245).wrapping_add(12345));
    assert_eq!(g.word(1), 3263785912);
    assert_eq!(g.carry(), 54661015);
    assert!(g.carry() < 809430660);
}

#[test]
fn cmwc_seed_zero_carry() {
    let g = ComplementaryMultiplyWithCarry::new(0);
    assert_eq!(g.word(0), 12345);
    assert_eq!(g.carry(), 680309173);
}

#[test]
fn cmwc_first_outputs_seed_1() {
    let expected: [u32; 5] = [2556791925, 1948231475, 825775868, 3548269030, 963734135];
    let mut g = ComplementaryMultiplyWithCarry::new(1);
    for &e in expected.iter() {
        assert_eq!(g.get_int(), e);
    }
}

#[test]
fn cmwc_draw_stores_its_output() {
    let mut g = ComplementaryMultiplyWithCarry::new(9);
    for _ in 0..10 {
        let v = g.get_int();
        assert_eq!(g.word(g.cursor()), v);
    }
}

#[test]
fn cmwc_wraparound() {
    let mut g = ComplementaryMultiplyWithCarry::new(42);
    let seeded_word_1 = g.word(1);
    let mut values = Vec::new();
    for _ in 0..4096 {
        values.push(g.get_int());
    }
    assert_eq!(values[0], 1586541335);
    assert_eq!(values[4095], 2359739403);
    assert_eq!(g.cursor(), 0);
    assert_eq!(g.word(0), values[4095]);
    assert_eq!(g.word(1), values[0]);
    assert_ne!(g.word(1), seeded_word_1);
    assert_eq!(g.get_int(), 63723880);
    assert_eq!(g.cursor(), 1);
}

#[test]
fn cmwc_same_seed_same_outputs() {
    let mut a = ComplementaryMultiplyWithCarry::new(31337);
    let mut b = ComplementaryMultiplyWithCarry::new(31337);
    for i in 0..9000 {
        match i % 3 {
            0 => assert_eq!(a.get_int(), b.get_int()),
            1 => assert_eq!(tcod_rng::get_float_bits(&mut a), tcod_rng::get_float_bits(&mut b)),
            _ => assert_eq!(
                tcod_rng::get_double_bits(&mut a),
                tcod_rng::get_double_bits(&mut b)
            ),
        }
    }
}

#[test]
fn cmwc_full_cycle_every_word_drawn() {
    let mut g = ComplementaryMultiplyWithCarry::new(5);
    for _ in 0..100 {
        g.get_int();
    }
    let start = g.cursor();
    let mut values = Vec::new();
    for _ in 0..4096 {
        values.push(g.get_int());
    }
    assert_eq!(g.cursor(), start);
    for j in 1..=4096usize {
        assert_eq!(g.word((start + j) % 4096), values[j - 1]);
    }
}
