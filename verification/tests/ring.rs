use nopki_dilithium::params::{N, Q_I32};
use nopki_dilithium::poly::Poly;
use nopki_dilithium::reduce::{caddq, reduce32};
use nopki_dilithium::ring::{center, poly_mul};

#[test]
fn center_values() {
    assert_eq!(center(0), 0);
    assert_eq!(center(Q_I32 as i64), 0);
    assert_eq!(center(-1), -1);
    assert_eq!(center((Q_I32 - 1) as i64 / 2), (Q_I32 - 1) / 2);
    assert_eq!(center((Q_I32 + 1) as i64 / 2), -(Q_I32 - 1) / 2);
    assert_eq!(center(3 * Q_I32 as i64 + 5), 5);
}

#[test]
fn reduce32_and_caddq_values() {
    assert_eq!(reduce32(Q_I32), 0);
    assert_eq!(reduce32(5), 5);
    assert_eq!(reduce32(-5), -5);
    assert_eq!(reduce32(2 * Q_I32 + 3), 3);
    assert_eq!(caddq(-1), Q_I32 - 1);
    assert_eq!(caddq(7), 7);
}

#[test]
fn x_times_x_to_the_255_is_minus_one() {
    let mut a = Poly::default();
    a.coeffs[1] = 1;
    let mut b = Poly::default();
    b.coeffs[N - 1] = 1;
    let mut c = Poly::default();
    poly_mul(&mut c, &a, &b);
    assert_eq!(c.coeffs[0], -1);
    assert!(c.coeffs[1..].iter().all(|&x| x == 0));
}

#[test]
fn product_is_reduced_modulo_q() {
    let mut a = Poly::default();
    a.coeffs[0] = Q_I32 - 1;
    let mut b = Poly::default();
    b.coeffs[3] = 2;
    let mut c = Poly::default();
    poly_mul(&mut c, &a, &b);
    assert_eq!(c.coeffs[3], -2);
    assert_eq!(c.coeffs[0], 0);
}

fn sample_poly(seed: i64) -> Poly {
    let mut p = Poly::default();
    let mut x = seed;
    for i in 0..N {
        x = (x * 1103515245 + 12345) % 2147483648;
        p.coeffs[i] = (x % 2001) as i32 - 1000;
    }
    p
}

#[test]
fn products_commute_and_associate() {
    let a = sample_poly(1);
    let c = sample_poly(2);
    let s = sample_poly(3);
    let mut cs = Poly::default();
    poly_mul(&mut cs, &c, &s);
    let mut a_cs = Poly::default();
    poly_mul(&mut a_cs, &a, &cs);
    let mut a_s = Poly::default();
    poly_mul(&mut a_s, &a, &s);
    let mut c_as = Poly::default();
    poly_mul(&mut c_as, &c, &a_s);
    assert_eq!(a_cs.coeffs, c_as.coeffs);
    let mut ac = Poly::default();
    poly_mul(&mut ac, &a, &c);
    let mut ca = Poly::default();
    poly_mul(&mut ca, &c, &a);
    assert_eq!(ac.coeffs, ca.coeffs);
}
