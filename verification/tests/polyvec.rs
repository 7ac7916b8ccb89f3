use nopki_dilithium::params::{GAMMA2_I32, K, N, Q_I32, TAU};
use nopki_dilithium::poly::Poly;
use nopki_dilithium::polyvec::{
    polyveck_add, polyveck_caddq, polyveck_chknorm, polyveck_decompose, polyveck_decompose_scaled,
    polyveck_make_hint_scaled, polyveck_make_hint_simple, polyveck_power2round,
    polyveck_use_hint_scaled, polyveck_use_hint_simple, Polyveck,
};
use nopki_dilithium::poly::{poly_decompose_scaled, poly_make_hint_scaled, poly_use_hint_scaled};
use nopki_dilithium::sample::{poly_challenge_nonced, poly_uniform, poly_uniform_eta, poly_uniform_gamma1};

struct Lcg(u64);

impl Lcg {
    fn next(&mut self) -> i32 {
        self.0 = self.0.wrapping_mul(6364136223846793005).wrapping_add(1442695040888963407);
        (self.0 >> 33) as i32
    }
}

#[test]
fn polyvectorization() {
    let mut rng = Lcg(12345);
    let mut count_satisfied = 0;
    for _ in 0..64 {
        let mut z = Polyveck::default();
        let mut y = Polyveck::default();
        for i in 0..K {
            for j in 0..N {
                z.vec[i].coeffs[j] = rng.next() % (2 * GAMMA2_I32);
                y.vec[i].coeffs[j] = rng.next() % Q_I32;
            }
        }
        polyveck_caddq(&mut y);
        let mut y_z = y;
        polyveck_add(&mut y_z, &z);
        polyveck_caddq(&mut y_z);
        let mut high = Polyveck::default();
        let mut low = Polyveck::default();
        polyveck_decompose_scaled(&mut high, &mut low, &y_z);
        let mut hint = Polyveck::default();
        let n = polyveck_make_hint_scaled(&mut hint, &z, &y);
        let mut high_hinted = Polyveck::default();
        polyveck_use_hint_scaled(&mut high_hinted, &hint, &y);
        for i in 0..K {
            assert_eq!(high_hinted.vec[i].coeffs, high.vec[i].coeffs);
        }
        let ones: i32 = (0..K).map(|k| hint.vec[k].coeffs.iter().sum::<i32>()).sum();
        assert_eq!(n, ones);
        if n < 8 * 55 {
            count_satisfied += 1;
        }
    }
    assert!(count_satisfied <= 64);
}

#[test]
fn simple_hints_recover_high_bits_of_vectors() {
    let mut rng = Lcg(777);
    let mut z = Polyveck::default();
    let mut y = Polyveck::default();
    for i in 0..K {
        for j in 0..N {
            z.vec[i].coeffs[j] = rng.next() % GAMMA2_I32;
            y.vec[i].coeffs[j] = rng.next() % Q_I32;
        }
    }
    let mut hint = Polyveck::default();
    polyveck_make_hint_simple(&mut hint, &z, &y);
    let mut corrected = Polyveck::default();
    polyveck_use_hint_simple(&mut corrected, &hint, &y);
    let mut y_z = y;
    polyveck_add(&mut y_z, &z);
    for i in 0..K {
        for j in 0..N {
            y_z.vec[i].coeffs[j] = y_z.vec[i].coeffs[j].rem_euclid(Q_I32);
        }
    }
    let mut low = Polyveck::default();
    polyveck_decompose(&mut y_z, &mut low);
    for i in 0..K {
        assert_eq!(corrected.vec[i].coeffs, y_z.vec[i].coeffs);
    }
}

#[test]
fn poly_scaled_functions_agree_with_scalars() {
    let mut z = Poly::default();
    let mut y = Poly::default();
    for j in 0..N {
        z.coeffs[j] = (j as i32) * 4000 - 500_000;
        y.coeffs[j] = (j as i32) * 32_700;
    }
    let mut hint = Poly::default();
    let n = poly_make_hint_scaled(&mut hint, &z, &y);
    assert_eq!(n, hint.coeffs.iter().sum::<i32>());
    let mut high = Poly::default();
    poly_use_hint_scaled(&mut high, &hint, &y);
    let mut h2 = Poly::default();
    let mut l2 = Poly::default();
    poly_decompose_scaled(&mut h2, &mut l2, &y);
    for j in 0..N {
        let mut a0 = 0;
        let a1 = nopki_dilithium::rounding::decompose_scaled(&mut a0, y.coeffs[j]);
        assert_eq!((h2.coeffs[j], l2.coeffs[j]), (a1, a0));
    }
}

#[test]
fn power2round_and_chknorm_of_vectors() {
    let mut v = Polyveck::default();
    for k in 0..K {
        for i in 0..N {
            v.vec[k].coeffs[i] = ((k * N + i) as i32 * 5471) % Q_I32;
        }
    }
    let orig = v;
    let mut low = Polyveck::default();
    polyveck_power2round(&mut v, &mut low);
    for k in 0..K {
        for i in 0..N {
            assert_eq!(v.vec[k].coeffs[i] * 8192 + low.vec[k].coeffs[i], orig.vec[k].coeffs[i]);
        }
    }
    assert_eq!(polyveck_chknorm(&low, 4097), 0);
    assert_eq!(polyveck_chknorm(&low, 4000), 1);
    // A bound above (Q - 1) / 8 is always rejected.
    assert_eq!(polyveck_chknorm(&Polyveck::default(), (Q_I32 - 1) / 8 + 1), 1);
}

#[test]
fn samplers_stay_in_range() {
    let seed = [42u8; 64];
    let mut a = Poly::default();
    poly_uniform(&mut a, &seed, 0, 3);
    assert!(a.coeffs.iter().all(|&c| 0 <= c && c < Q_I32));
    poly_uniform_eta(&mut a, &seed, 0, 3);
    assert!(a.coeffs.iter().all(|&c| -4 <= c && c <= 4));
    poly_uniform_gamma1(&mut a, &seed, 0, 3);
    assert!(a.coeffs.iter().all(|&c| -524288 < c && c <= 524288));
    let mut c = Poly::default();
    poly_challenge_nonced(&mut c, &seed, 0, 1);
    assert!(c.coeffs.iter().all(|&x| -1 <= x && x <= 1));
    assert_eq!(c.coeffs.iter().filter(|&&x| x != 0).count(), TAU);
    let mut d = Poly::default();
    poly_challenge_nonced(&mut d, &seed, 0, 2);
    assert_ne!(c.coeffs, d.coeffs);
}
