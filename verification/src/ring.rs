use vstd::prelude::*;
use crate::params::{K, L, N, Q_I32};
use crate::poly::{poly_in_range, Poly};
use crate::polyvec::{vecl_in_range, veck_in_range, Polyveck, Polyvecl};

verus! {

/// The representative of `x` modulo Q in `[-(Q-1)/2, (Q-1)/2]`.
pub open spec fn center_mod_q(x: int) -> int {
    let m = x % (Q_I32 as int);
    if m > (Q_I32 - 1) / 2 {
        m - Q_I32
    } else {
        m
    }
}

/// The coefficients of `p` as integers.
pub open spec fn poly_ints(p: Poly) -> Seq<int> {
    Seq::new(N as nat, |i: int| p.coeffs[i] as int)
}

/// Term `j` of coefficient `i` of the product of `a` and `b` in
/// `Z[X]/(X^N + 1)`, the polynomials given by their `N` coefficients.
pub open spec fn mul_term(a: Seq<int>, b: Seq<int>, i: int, j: int) -> int {
    if j <= i {
        a[j] * b[i - j]
    } else {
        -(a[j] * b[N + i - j])
    }
}

/// Sum of the first `n` terms of coefficient `i` of the product of `a` and
/// `b` in `Z[X]/(X^N + 1)`.
pub open spec fn mul_partial(a: Seq<int>, b: Seq<int>, i: int, n: int) -> int
    decreases n,
{
    if n <= 0 {
        0
    } else {
        mul_partial(a, b, i, n - 1) + mul_term(a, b, i, n - 1)
    }
}

/// Coefficient `i` of the product of `a` and `b` in `Z[X]/(X^N + 1)`.
pub open spec fn ring_coeff(a: Seq<int>, b: Seq<int>, i: int) -> int {
    mul_partial(a, b, i, N as int)
}

/// Coefficient `i` of the product of the polynomials `a` and `b` in
/// `Z[X]/(X^N + 1)`.
pub open spec fn ring_mul_coeff(a: Poly, b: Poly, i: int) -> int {
    ring_coeff(poly_ints(a), poly_ints(b), i)
}

/// Congruent values have the same centred representative.
pub proof fn lemma_center_congruent(x: int, y: int)
    requires
        (x - y) % (Q_I32 as int) == 0,
    ensures
        center_mod_q(x) == center_mod_q(y),
{
    vstd::arithmetic::div_mod::lemma_mod_equivalence(x, y, Q_I32 as int);
}

/// The centred representative is congruent to its argument.
pub proof fn lemma_center_mod(x: int)
    ensures
        (center_mod_q(x) - x) % (Q_I32 as int) == 0,
        -(Q_I32 - 1) / 2 <= center_mod_q(x) <= (Q_I32 - 1) / 2,
{
    vstd::arithmetic::div_mod::lemma_mod_equivalence(center_mod_q(x), x, Q_I32 as int);
}

/// A sum and difference of centred representatives is congruent to the
/// same sum and difference of the values.
pub proof fn lemma_center_combination(a: int, b: int, c: int, d: int)
    ensures
        (center_mod_q(a) + center_mod_q(b) - (center_mod_q(c) + center_mod_q(d))) % (Q_I32 as int)
            == (a + b - c - d) % (Q_I32 as int),
{
    let q = Q_I32 as int;
    lemma_center_mod(a);
    lemma_center_mod(b);
    lemma_center_mod(c);
    lemma_center_mod(d);
    lemma_congruent_add(center_mod_q(a), a, center_mod_q(b), b);
    lemma_congruent_add(center_mod_q(c), c, center_mod_q(d), d);
    lemma_congruent_add(center_mod_q(a) + center_mod_q(b), a + b, center_mod_q(c) + center_mod_q(d), c + d);
    vstd::arithmetic::div_mod::lemma_mod_equivalence(
        center_mod_q(a) + center_mod_q(b) - (center_mod_q(c) + center_mod_q(d)), a + b - c - d, q);
}

/// The centred representative of `x`.
#[verifier::spinoff_prover]
pub fn center(x: i64) -> (r: i32)
    ensures
        r == center_mod_q(x as int),
{
    let q: i64 = Q_I32 as i64;
    let mut m = x % q;
    assert(m == (x as int) % (q as int) || m == (x as int) % (q as int) - q);
    if m < 0 {
        m += q;
    }
    assert(m == (x as int) % (q as int));
    if m > (q - 1) / 2 {
        m -= q;
    }
    m as i32
}

/// `x - y` is a multiple of Q.
pub open spec fn congruent(x: int, y: int) -> bool {
    (x - y) % (Q_I32 as int) == 0
}

/// Sums and differences of congruent values are congruent.
proof fn lemma_congruent_add(a: int, b: int, c: int, d: int)
    requires
        congruent(a, b),
        congruent(c, d),
    ensures
        congruent(a + c, b + d),
        congruent(a - c, b - d),
{
    let q = Q_I32 as int;
    vstd::arithmetic::div_mod::lemma_mod_equivalence(a, b, q);
    vstd::arithmetic::div_mod::lemma_mod_equivalence(c, d, q);
    vstd::arithmetic::div_mod::lemma_add_mod_noop(a, c, q);
    vstd::arithmetic::div_mod::lemma_add_mod_noop(b, d, q);
    vstd::arithmetic::div_mod::lemma_sub_mod_noop(a, c, q);
    vstd::arithmetic::div_mod::lemma_sub_mod_noop(b, d, q);
    vstd::arithmetic::div_mod::lemma_mod_equivalence(a + c, b + d, q);
    vstd::arithmetic::div_mod::lemma_mod_equivalence(a - c, b - d, q);
}

/// The product of `a` and `b` in the ring `Z_Q[X]/(X^N + 1)`, each
/// coefficient as its centred representative.
pub fn poly_mul(c: &mut Poly, a: &Poly, b: &Poly)
    ensures
        forall|i: int| 0 <= i < N ==> #[trigger] final(c).coeffs[i] == center_mod_q(ring_mul_coeff(*a, *b, i)),
        poly_in_range(*final(c), -(Q_I32 - 1) / 2, (Q_I32 - 1) / 2),
{
    let q: i64 = Q_I32 as i64;
    for i in 0..N
        invariant
            q == Q_I32,
            forall|k: int| 0 <= k < i ==> #[trigger] c.coeffs[k] == center_mod_q(ring_mul_coeff(*a, *b, k)),
            forall|k: int| 0 <= k < i ==> -(Q_I32 - 1) / 2 <= #[trigger] c.coeffs[k] <= (Q_I32 - 1) / 2,
    {
        let mut acc: i64 = 0;
        for j in 0..N
            invariant
                0 <= i < N,
                q == Q_I32,
                congruent(acc as int, mul_partial(poly_ints(*a), poly_ints(*b), i as int, j as int)),
                -(j as int) * q <= acc <= (j as int) * q,
        {
            let x = a.coeffs[j] as i64;
            let y = if j <= i { b.coeffs[i - j] as i64 } else { b.coeffs[N + i - j] as i64 };
            assert(-2147483648 <= x <= 2147483647 && -2147483648 <= y <= 2147483647 ==>
                -4611686018427387904 <= x * y <= 4611686018427387904) by (nonlinear_arith);
            let p = x * y;
            let t = p % q;
            assert(t == (p as int) % (q as int) || t == (p as int) % (q as int) - q);
            proof {
                vstd::arithmetic::div_mod::lemma_fundamental_div_mod(p as int, q as int);
                assert(congruent(t as int, p as int)) by {
                    vstd::arithmetic::div_mod::lemma_mod_equivalence(t as int, p as int, q as int);
                    if t == (p as int) % (q as int) - q {
                        vstd::arithmetic::div_mod::lemma_mod_sub_multiples_vanish((p as int) % (q as int), q as int);
                    }
                }
                assert(p == mul_term(poly_ints(*a), poly_ints(*b), i as int, j as int)
                    || -p == mul_term(poly_ints(*a), poly_ints(*b), i as int, j as int));
                lemma_congruent_add(acc as int, mul_partial(poly_ints(*a), poly_ints(*b), i as int, j as int), t as int, p as int);
            }
            if j <= i {
                acc = acc + t;
            } else {
                acc = acc - t;
            }
        }
        c.coeffs[i] = center(acc);
        proof {
            lemma_center_congruent(acc as int, ring_mul_coeff(*a, *b, i as int));
        }
    }
}

/// Coefficient `i` of `sum_{l < n} mat[k][l] * v[l]` in `Z[X]/(X^N + 1)`.
pub open spec fn matvec_partial(mat: [Polyvecl; K], v: Polyvecl, k: int, i: int, n: int) -> int
    decreases n,
{
    if n <= 0 {
        0
    } else {
        matvec_partial(mat, v, k, i, n - 1) + ring_mul_coeff(mat[k].vec[n - 1], v.vec[n - 1], i)
    }
}

/// Coefficient `i` of row `k` of the product of the matrix `mat` and the
/// vector `v` in `Z[X]/(X^N + 1)`.
pub open spec fn matvec_coeff(mat: [Polyvecl; K], v: Polyvecl, k: int, i: int) -> int {
    matvec_partial(mat, v, k, i, L as int)
}

/// All coefficients of all entries of `mat` lie in `[lo, hi]`.
pub open spec fn matrix_in_range(mat: [Polyvecl; K], lo: int, hi: int) -> bool {
    forall|k: int| 0 <= k < K ==> #[trigger] vecl_in_range(mat[k], lo, hi)
}

/// Adds `b` to `acc` and keeps the centred representatives.
fn poly_add_center(acc: &mut Poly, b: &Poly)
    requires
        poly_in_range(*old(acc), -(Q_I32 - 1) / 2, (Q_I32 - 1) / 2),
        poly_in_range(*b, -(Q_I32 - 1) / 2, (Q_I32 - 1) / 2),
    ensures
        forall|i: int| 0 <= i < N ==> #[trigger] final(acc).coeffs[i] == center_mod_q(old(acc).coeffs[i] + b.coeffs[i]),
        poly_in_range(*final(acc), -(Q_I32 - 1) / 2, (Q_I32 - 1) / 2),
{
    for i in 0..N
        invariant
            poly_in_range(*old(acc), -(Q_I32 - 1) / 2, (Q_I32 - 1) / 2),
            poly_in_range(*b, -(Q_I32 - 1) / 2, (Q_I32 - 1) / 2),
            forall|k: int| 0 <= k < i ==> #[trigger] acc.coeffs[k] == center_mod_q(old(acc).coeffs[k] + b.coeffs[k]),
            forall|k: int| 0 <= k < i ==> -(Q_I32 - 1) / 2 <= #[trigger] acc.coeffs[k] <= (Q_I32 - 1) / 2,
            forall|k: int| i <= k < N ==> #[trigger] acc.coeffs[k] == old(acc).coeffs[k],
    {
        let x = acc.coeffs[i] as i64 + b.coeffs[i] as i64;
        acc.coeffs[i] = center(x);
        proof {
            lemma_center_mod(x as int);
        }
    }
}

/// Multiplies every polynomial of `v` by `c` in the ring, into `r`.
pub fn polyvecl_pointwise_poly(r: &mut Polyvecl, c: &Poly, v: &Polyvecl)
    ensures
        forall|l: int, i: int| 0 <= l < L && 0 <= i < N ==> #[trigger] final(r).vec[l].coeffs[i]
            == center_mod_q(ring_mul_coeff(*c, v.vec[l], i)),
        vecl_in_range(*final(r), -(Q_I32 - 1) / 2, (Q_I32 - 1) / 2),
{
    for l in 0..L
        invariant
            forall|ll: int, i: int| 0 <= ll < l && 0 <= i < N ==> #[trigger] r.vec[ll].coeffs[i]
                == center_mod_q(ring_mul_coeff(*c, v.vec[ll], i)),
            forall|ll: int, i: int| 0 <= ll < l && 0 <= i < N ==>
                -(Q_I32 - 1) / 2 <= #[trigger] r.vec[ll].coeffs[i] <= (Q_I32 - 1) / 2,
    {
        let mut p = r.vec[l];
        poly_mul(&mut p, c, &v.vec[l]);
        r.vec[l] = p;
    }
}

/// Multiplies every polynomial of `v` by `c` in the ring, into `r`.
pub fn polyveck_pointwise_poly(r: &mut Polyveck, c: &Poly, v: &Polyveck)
    ensures
        forall|k: int, i: int| 0 <= k < K && 0 <= i < N ==> #[trigger] final(r).vec[k].coeffs[i]
            == center_mod_q(ring_mul_coeff(*c, v.vec[k], i)),
        veck_in_range(*final(r), -(Q_I32 - 1) / 2, (Q_I32 - 1) / 2),
{
    for k in 0..K
        invariant
            forall|kk: int, i: int| 0 <= kk < k && 0 <= i < N ==> #[trigger] r.vec[kk].coeffs[i]
                == center_mod_q(ring_mul_coeff(*c, v.vec[kk], i)),
            forall|kk: int, i: int| 0 <= kk < k && 0 <= i < N ==>
                -(Q_I32 - 1) / 2 <= #[trigger] r.vec[kk].coeffs[i] <= (Q_I32 - 1) / 2,
    {
        let mut p = r.vec[k];
        poly_mul(&mut p, c, &v.vec[k]);
        r.vec[k] = p;
    }
}

/// The product of the matrix `mat` and the vector `v` in the ring, into `t`.
pub fn polyvec_matrix_mul(t: &mut Polyveck, mat: &[Polyvecl; K], v: &Polyvecl)
    ensures
        forall|k: int, i: int| 0 <= k < K && 0 <= i < N ==> #[trigger] final(t).vec[k].coeffs[i]
            == center_mod_q(matvec_coeff(*mat, *v, k, i)),
        veck_in_range(*final(t), -(Q_I32 - 1) / 2, (Q_I32 - 1) / 2),
{
    for k in 0..K
        invariant
            forall|kk: int, i: int| 0 <= kk < k && 0 <= i < N ==> #[trigger] t.vec[kk].coeffs[i]
                == center_mod_q(matvec_coeff(*mat, *v, kk, i)),
            forall|kk: int, i: int| 0 <= kk < k && 0 <= i < N ==>
                -(Q_I32 - 1) / 2 <= #[trigger] t.vec[kk].coeffs[i] <= (Q_I32 - 1) / 2,
    {
        let mut acc = Poly::default();
        let row = mat[k];
        for l in 0..L
            invariant
                0 <= k < K,
                row == mat[k as int],
                forall|i: int| 0 <= i < N ==> #[trigger] acc.coeffs[i] == center_mod_q(matvec_partial(*mat, *v, k as int, i, l as int)),
                poly_in_range(acc, -(Q_I32 - 1) / 2, (Q_I32 - 1) / 2),
        {
            let mut p = Poly::default();
            poly_mul(&mut p, &row.vec[l], &v.vec[l]);
            let ghost before = acc;
            poly_add_center(&mut acc, &p);
            assert forall|i: int| 0 <= i < N implies #[trigger] acc.coeffs[i]
                == center_mod_q(matvec_partial(*mat, *v, k as int, i, l + 1)) by {
                let prev = matvec_partial(*mat, *v, k as int, i, l as int);
                let term = ring_mul_coeff(mat[k as int].vec[l as int], v.vec[l as int], i);
                lemma_center_mod(prev);
                lemma_center_mod(term);
                assert(before.coeffs[i] == center_mod_q(prev));
                assert(p.coeffs[i] == center_mod_q(term));
                assert(((center_mod_q(prev) + center_mod_q(term)) - (prev + term)) % (Q_I32 as int) == 0) by {
                    vstd::arithmetic::div_mod::lemma_mod_equivalence(center_mod_q(prev), prev, Q_I32 as int);
                    vstd::arithmetic::div_mod::lemma_mod_equivalence(center_mod_q(term), term, Q_I32 as int);
                    vstd::arithmetic::div_mod::lemma_add_mod_noop(center_mod_q(prev), center_mod_q(term), Q_I32 as int);
                    vstd::arithmetic::div_mod::lemma_add_mod_noop(prev, term, Q_I32 as int);
                    vstd::arithmetic::div_mod::lemma_mod_equivalence(center_mod_q(prev) + center_mod_q(term), prev + term, Q_I32 as int);
                }
                lemma_center_congruent(center_mod_q(prev) + center_mod_q(term), prev + term);
            }
        }
        t.vec[k] = acc;
    }
}

} // verus!
