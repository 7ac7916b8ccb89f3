use nopki_dilithium::decompose_test;
use nopki_dilithium::params::{GAMMA2_I32, Q_I32};
use nopki_dilithium::rounding::{
    decompose, decompose_scaled, decompose_simple, make_hint, make_hint_scaled, make_hint_simple,
    power2round, use_hint, use_hint_scaled, use_hint_simple,
};

fn dec(a: i32) -> (i32, i32) {
    let mut a0 = 0;
    let a1 = decompose(&mut a0, a);
    (a1, a0)
}

fn dec_simple(a: i32) -> (i32, i32) {
    let mut a0 = 0;
    let a1 = decompose_simple(&mut a0, a);
    (a1, a0)
}

fn dec_scaled(a: i32) -> (i32, i32) {
    let mut a0 = 0;
    let a1 = decompose_scaled(&mut a0, a);
    (a1, a0)
}

#[test]
fn power2round_values() {
    let mut a0 = 0;
    assert_eq!(power2round(0, &mut a0), 0);
    assert_eq!(a0, 0);
    assert_eq!(power2round(4096, &mut a0), 0);
    assert_eq!(a0, 4096);
    assert_eq!(power2round(4097, &mut a0), 1);
    assert_eq!(a0, -4095);
    assert_eq!(power2round(Q_I32 - 1, &mut a0), 1023);
    assert_eq!(a0, 0);
}

#[test]
fn power2round_recomposes() {
    let mut a = 0;
    while a < Q_I32 {
        let mut a0 = 0;
        let a1 = power2round(a, &mut a0);
        assert_eq!(a1 * 8192 + a0, a);
        assert!(-4096 < a0 && a0 <= 4096);
        a += 977;
    }
}

#[test]
fn decompose_values() {
    assert_eq!(dec(0), (0, 0));
    assert_eq!(dec(GAMMA2_I32), (0, GAMMA2_I32));
    assert_eq!(dec(GAMMA2_I32 + 1), (1, -GAMMA2_I32 + 1));
    assert_eq!(dec(2 * GAMMA2_I32), (1, 0));
    // The top value wraps to high part 0 with a negative low part.
    assert_eq!(dec(Q_I32 - 1), (0, -1));
    assert_eq!(dec(Q_I32 - 1 - GAMMA2_I32), (15, GAMMA2_I32));
    assert_eq!(dec(Q_I32 - GAMMA2_I32), (0, -GAMMA2_I32));
    let mut t = 0;
    assert_eq!(decompose_test(&mut t, 15 * 2 * GAMMA2_I32), 15);
    assert_eq!(t, 0);
}

#[test]
fn decompose_agrees_with_decompose_simple() {
    let mut a = 0;
    while a < Q_I32 {
        assert_eq!(dec(a), dec_simple(a));
        let (a1, a0) = dec(a);
        assert!(0 <= a1 && a1 < 16);
        assert_eq!((a1 * 2 * GAMMA2_I32 + a0).rem_euclid(Q_I32), a);
        a += 499;
    }
    for a in [Q_I32 - 1, Q_I32 - 2, Q_I32 - GAMMA2_I32, Q_I32 - GAMMA2_I32 - 1, GAMMA2_I32, GAMMA2_I32 + 1] {
        assert_eq!(dec(a), dec_simple(a));
    }
}

#[test]
fn decompose_scaled_values() {
    assert_eq!(dec_scaled(0), (0, 0));
    assert_eq!(dec_scaled(2 * GAMMA2_I32), (0, 2 * GAMMA2_I32));
    assert_eq!(dec_scaled(2 * GAMMA2_I32 + 1), (1, -2 * GAMMA2_I32 + 1));
    assert_eq!(dec_scaled(Q_I32 - 1), (0, -1));
    // A negative input is decomposed around its centred remainder.
    assert_eq!(dec_scaled(-5), (0, -5));
    assert_eq!(dec_scaled(-4 * GAMMA2_I32), (-1, 0));
}

#[test]
fn make_hint_values() {
    assert_eq!(make_hint(GAMMA2_I32 + 1, 0), 1);
    assert_eq!(make_hint(GAMMA2_I32, 0), 0);
    assert_eq!(make_hint(-GAMMA2_I32, 0), 0);
    assert_eq!(make_hint(-GAMMA2_I32, 1), 1);
    assert_eq!(make_hint(-GAMMA2_I32 - 1, 0), 1);
}

#[test]
fn use_hint_values() {
    // Low part 0 is not positive: the high part moves down, cyclically.
    assert_eq!(use_hint(0, 1), 15);
    assert_eq!(use_hint(0, 0), 0);
    assert_eq!(use_hint(1, 1), 1);
    assert_eq!(use_hint(15 * 2 * GAMMA2_I32 + 1, 1), 0);
    assert_eq!(use_hint_simple(0, 1), 15);
    assert_eq!(use_hint_simple(1, 1), 1);
    assert_eq!(use_hint_scaled(0, 1), 7);
    assert_eq!(use_hint_scaled(7 * 4 * GAMMA2_I32 + 1, 1), 0);
    assert_eq!(use_hint_scaled(5, 0), 0);
}

#[test]
fn make_hint_simple_and_scaled_values() {
    // Adding GAMMA2 + 1 to 0 crosses into the next high part (range 2 * GAMMA2).
    assert_eq!(make_hint_simple(GAMMA2_I32 + 1, 0), 1);
    assert_eq!(make_hint_simple(GAMMA2_I32, 0), 0);
    assert_eq!(make_hint_scaled(GAMMA2_I32 + 1, 0), 0);
    assert_eq!(make_hint_scaled(2 * GAMMA2_I32 + 1, 0), 1);
    // Wrapping below zero lands in the top values, whose high part is 0.
    assert_eq!(make_hint_simple(-1, 0), 0);
    assert_eq!(make_hint_scaled(-1, 0), 0);
}

#[test]
fn use_hint_recovers_high_bits_simple() {
    let mut r = 0;
    while r < Q_I32 {
        let mut z = -GAMMA2_I32;
        while z <= GAMMA2_I32 {
            let y = (r + z).rem_euclid(Q_I32);
            let h = make_hint_simple(z, r);
            assert_eq!(use_hint_simple(r, h), dec_simple(y).0, "r = {}, z = {}", r, z);
            z += 8191;
        }
        r += 7919;
    }
}

#[test]
fn use_hint_recovers_high_bits_scaled() {
    let mut r = 0;
    while r < Q_I32 {
        let mut z = -2 * GAMMA2_I32;
        while z <= 2 * GAMMA2_I32 {
            let y = (r + z).rem_euclid(Q_I32);
            let h = make_hint_scaled(z, r);
            assert_eq!(use_hint_scaled(r, h), dec_scaled(y).0, "r = {}, z = {}", r, z);
            z += 16381;
        }
        r += 7919;
    }
    for r in [0, 1, Q_I32 - 1, Q_I32 - 2 * GAMMA2_I32, 2 * GAMMA2_I32] {
        for z in [-2 * GAMMA2_I32, -1, 0, 1, 2 * GAMMA2_I32] {
            let y = (r + z).rem_euclid(Q_I32);
            assert_eq!(use_hint_scaled(r, make_hint_scaled(z, r)), dec_scaled(y).0);
        }
    }
}
