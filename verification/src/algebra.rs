use vstd::prelude::*;
use crate::params::{N, Q_I32};
use crate::params::{K, L};
use crate::polyvec::Polyvecl;
use crate::ring::{matvec_partial, mul_partial, mul_term, poly_ints, ring_coeff};

verus! {

/// `f(0) + ... + f(n - 1)`.
pub open spec fn sum_to(f: spec_fn(int) -> int, n: int) -> int
    decreases n,
{
    if n <= 0 {
        0
    } else {
        sum_to(f, n - 1) + f(n - 1)
    }
}

/// Coefficient `t` (`-2N <= t < N`) of the extension of the coefficients
/// `b` by `X^N = -1`.
pub open spec fn ext(b: Seq<int>, t: int) -> int {
    if t >= 0 {
        b[t]
    } else if t >= -(N as int) {
        -b[t + N]
    } else {
        b[t + 2 * N]
    }
}

/// The `N` coefficients of the product of `a` and `b` in `Z[X]/(X^N + 1)`.
pub open spec fn ring_seq(a: Seq<int>, b: Seq<int>) -> Seq<int> {
    Seq::new(N as nat, |t: int| ring_coeff(a, b, t))
}

/// Sums of functions that agree are equal.
pub proof fn lemma_sum_ext(f: spec_fn(int) -> int, g: spec_fn(int) -> int, n: int)
    requires
        forall|j: int| 0 <= j < n ==> #[trigger] f(j) == g(j),
    ensures
        sum_to(f, n) == sum_to(g, n),
    decreases n,
{
    if n > 0 {
        lemma_sum_ext(f, g, n - 1);
    }
}

/// The sum of a sum of functions is the sum of their sums.
pub proof fn lemma_sum_add(f: spec_fn(int) -> int, g: spec_fn(int) -> int, h: spec_fn(int) -> int, n: int)
    requires
        forall|j: int| 0 <= j < n ==> #[trigger] h(j) == f(j) + g(j),
    ensures
        sum_to(h, n) == sum_to(f, n) + sum_to(g, n),
    decreases n,
{
    if n > 0 {
        lemma_sum_add(f, g, h, n - 1);
    }
}

/// A factor comes out of a sum.
pub proof fn lemma_sum_scale(x: int, f: spec_fn(int) -> int, g: spec_fn(int) -> int, n: int)
    requires
        forall|j: int| 0 <= j < n ==> #[trigger] g(j) == x * f(j),
    ensures
        sum_to(g, n) == x * sum_to(f, n),
    decreases n,
{
    if n > 0 {
        lemma_sum_scale(x, f, g, n - 1);
        assert(x * sum_to(f, n - 1) + x * f(n - 1) == x * (sum_to(f, n - 1) + f(n - 1))) by (nonlinear_arith);
    }
}

/// `j |-> f(j, 0) + ... + f(j, m - 1)`.
pub open spec fn sum_second(f: spec_fn(int, int) -> int, m: int) -> spec_fn(int) -> int {
    |j: int| sum_to(|k: int| f(j, k), m)
}

/// `k |-> f(0, k) + ... + f(n - 1, k)`.
pub open spec fn sum_first(f: spec_fn(int, int) -> int, n: int) -> spec_fn(int) -> int {
    |k: int| sum_to(|j: int| f(j, k), n)
}

/// A sum of zeros is zero.
pub proof fn lemma_sum_zero(f: spec_fn(int) -> int, n: int)
    requires
        forall|j: int| 0 <= j < n ==> #[trigger] f(j) == 0,
    ensures
        sum_to(f, n) == 0,
    decreases n,
{
    if n > 0 {
        lemma_sum_zero(f, n - 1);
    }
}

/// The order of a double sum does not matter.
pub proof fn lemma_sum_swap(f: spec_fn(int, int) -> int, n: int, m: int)
    requires
        0 <= n,
        0 <= m,
    ensures
        sum_to(sum_second(f, m), n) == sum_to(sum_first(f, n), m),
    decreases n,
{
    if n == 0 {
        assert forall|k: int| 0 <= k < m implies #[trigger] sum_first(f, n)(k) == 0 by {}
        lemma_sum_zero(sum_first(f, n), m);
    } else {
        lemma_sum_swap(f, n - 1, m);
        let last = |k: int| f(n - 1, k);
        assert forall|k: int| 0 <= k < m implies #[trigger] sum_first(f, n)(k) == sum_first(f, n - 1)(k) + last(k) by {}
        lemma_sum_add(sum_first(f, n - 1), last, sum_first(f, n), m);
        assert(sum_second(f, m)(n - 1) == sum_to(last, m)) by {
            assert((|k: int| f(n - 1, k)) =~= last);
        }
    }
}

/// A term of the product in `Z[X]/(X^N + 1)` through the extension.
proof fn lemma_mul_term_ext(a: Seq<int>, b: Seq<int>, i: int, j: int)
    requires
        0 <= i < N,
        0 <= j < N,
    ensures
        mul_term(a, b, i, j) == a[j] * ext(b, i - j),
{
    if j > i {
        let x = a[j];
        let y = b[N + i - j];
        assert(-(x * y) == x * (-y)) by (nonlinear_arith);
    }
}

/// A coefficient of the product in `Z[X]/(X^N + 1)` as a sum over the
/// extension.
pub proof fn lemma_mul_partial_sum(a: Seq<int>, b: Seq<int>, i: int, n: int)
    requires
        0 <= i < N,
        0 <= n <= N,
    ensures
        mul_partial(a, b, i, n) == sum_to(|j: int| a[j] * ext(b, i - j), n),
    decreases n,
{
    if n > 0 {
        lemma_mul_partial_sum(a, b, i, n - 1);
        lemma_mul_term_ext(a, b, i, n - 1);
    }
}

/// The extension of a product is the sum over the extension of a factor.
proof fn lemma_ext_ring(c: Seq<int>, s: Seq<int>, u: int)
    requires
        -(N as int) <= u < N,
    ensures
        ext(ring_seq(c, s), u) == sum_to(|k: int| c[k] * ext(s, u - k), N as int),
{
    if u >= 0 {
        lemma_mul_partial_sum(c, s, u, N as int);
    } else {
        let w = u + N;
        lemma_mul_partial_sum(c, s, w, N as int);
        let f = |k: int| c[k] * ext(s, w - k);
        let g = |k: int| c[k] * ext(s, u - k);
        assert forall|k: int| 0 <= k < N implies #[trigger] g(k) == -1 * f(k) by {
            let x = c[k];
            let e = ext(s, w - k);
            assert(ext(s, u - k) == -e);
            assert(x * (-e) == -1 * (x * e)) by (nonlinear_arith);
        }
        lemma_sum_scale(-1, f, g, N as int);
    }
}

/// A coefficient of `a * (c * s)` as a double sum.
proof fn lemma_ring_ring_sum(a: Seq<int>, c: Seq<int>, s: Seq<int>, i: int)
    requires
        0 <= i < N,
    ensures
        ring_coeff(a, ring_seq(c, s), i)
            == sum_to(|j: int| sum_to(|k: int| a[j] * (c[k] * ext(s, i - j - k)), N as int), N as int),
{
    let r = ring_seq(c, s);
    lemma_mul_partial_sum(a, r, i, N as int);
    let outer = |j: int| a[j] * ext(r, i - j);
    let target = |j: int| sum_to(|k: int| a[j] * (c[k] * ext(s, i - j - k)), N as int);
    assert forall|j: int| 0 <= j < N implies #[trigger] outer(j) == target(j) by {
        lemma_ext_ring(c, s, i - j);
        let inner = |k: int| c[k] * ext(s, i - j - k);
        let scaled = |k: int| a[j] * (c[k] * ext(s, i - j - k));
        assert forall|k: int| 0 <= k < N implies #[trigger] scaled(k) == a[j] * inner(k) by {}
        lemma_sum_scale(a[j], inner, scaled, N as int);
        assert(sum_to(|k: int| c[k] * ext(s, (i - j) - k), N as int) == sum_to(inner, N as int)) by {
            lemma_sum_ext(|k: int| c[k] * ext(s, (i - j) - k), inner, N as int);
        }
    }
    lemma_sum_ext(outer, target, N as int);
}

/// Multiplication in `Z[X]/(X^N + 1)` is commutative and associative:
/// `a * (c * s) = c * (a * s)`.
pub proof fn lemma_ring_left_commute(a: Seq<int>, c: Seq<int>, s: Seq<int>, i: int)
    requires
        0 <= i < N,
    ensures
        ring_coeff(a, ring_seq(c, s), i) == ring_coeff(c, ring_seq(a, s), i),
{
    lemma_ring_ring_sum(a, c, s, i);
    lemma_ring_ring_sum(c, a, s, i);
    let f = |j: int, k: int| a[j] * (c[k] * ext(s, i - j - k));
    lemma_sum_swap(f, N as int, N as int);
    let lhs = |j: int| sum_to(|k: int| a[j] * (c[k] * ext(s, i - j - k)), N as int);
    assert forall|j: int| 0 <= j < N implies #[trigger] lhs(j) == sum_second(f, N as int)(j) by {
        assert((|k: int| a[j] * (c[k] * ext(s, i - j - k))) =~= (|k: int| f(j, k)));
    }
    lemma_sum_ext(lhs, sum_second(f, N as int), N as int);
    let rhs = |k: int| sum_to(|j: int| c[k] * (a[j] * ext(s, i - k - j)), N as int);
    assert forall|k: int| 0 <= k < N implies #[trigger] rhs(k) == sum_first(f, N as int)(k) by {
        assert forall|j: int| 0 <= j < N implies #[trigger] f(j, k) == c[k] * (a[j] * ext(s, i - k - j)) by {
            let x = a[j];
            let y = c[k];
            let e = ext(s, i - j - k);
            assert(i - k - j == i - j - k);
            assert(x * (y * e) == y * (x * e)) by (nonlinear_arith);
        }
        lemma_sum_ext(|j: int| c[k] * (a[j] * ext(s, i - k - j)), |j: int| f(j, k), N as int);
    }
    lemma_sum_ext(rhs, sum_first(f, N as int), N as int);
}

/// Row `k` of the table `f`, as `N` coefficients.
pub open spec fn table_row(f: spec_fn(int, int) -> int, k: int) -> Seq<int> {
    Seq::new(N as nat, |i: int| f(k, i))
}

/// The coefficients of `v` as a table.
pub open spec fn vecl_table(v: Polyvecl) -> spec_fn(int, int) -> int {
    |l: int, i: int| v.vec[l].coeffs[i] as int
}

/// Partial sums of the product in `Z[X]/(X^N + 1)` are additive in the
/// second factor.
proof fn lemma_partial_add(a: Seq<int>, x: Seq<int>, y: Seq<int>, z: Seq<int>, i: int, n: int)
    requires
        0 <= i < N,
        0 <= n <= N,
        forall|t: int| 0 <= t < N ==> #[trigger] z[t] == x[t] + y[t],
    ensures
        mul_partial(a, z, i, n) == mul_partial(a, x, i, n) + mul_partial(a, y, i, n),
    decreases n,
{
    if n > 0 {
        lemma_partial_add(a, x, y, z, i, n - 1);
        let j = n - 1;
        let t = if j <= i { i - j } else { N + i - j };
        let p = a[j];
        let u = x[t];
        let v = y[t];
        assert(p * (u + v) == p * u + p * v) by (nonlinear_arith);
        assert(z[t] == u + v);
    }
}

/// The product in `Z[X]/(X^N + 1)` is additive in the second factor.
pub proof fn lemma_ring_add(a: Seq<int>, x: Seq<int>, y: Seq<int>, z: Seq<int>, i: int)
    requires
        0 <= i < N,
        forall|t: int| 0 <= t < N ==> #[trigger] z[t] == x[t] + y[t],
    ensures
        ring_coeff(a, z, i) == ring_coeff(a, x, i) + ring_coeff(a, y, i),
{
    lemma_partial_add(a, x, y, z, i, N as int);
}

/// The product in `Z[X]/(X^N + 1)` of a factor congruent to zero modulo Q
/// is congruent to zero.
proof fn lemma_partial_zero_mod(a: Seq<int>, d: Seq<int>, i: int, n: int)
    requires
        0 <= i < N,
        0 <= n <= N,
        forall|t: int| 0 <= t < N ==> #[trigger] d[t] % (Q_I32 as int) == 0,
    ensures
        mul_partial(a, d, i, n) % (Q_I32 as int) == 0,
    decreases n,
{
    if n > 0 {
        let q = Q_I32 as int;
        lemma_partial_zero_mod(a, d, i, n - 1);
        let j = n - 1;
        let t = if j <= i { i - j } else { N + i - j };
        assert(d[t] % q == 0);
        vstd::arithmetic::div_mod::lemma_mul_mod_noop_right(a[j], d[t], q);
        assert((a[j] * d[t]) % q == 0);
        let term = mul_term(a, d, i, j);
        assert(term % q == 0) by {
            if j > i {
                vstd::arithmetic::div_mod::lemma_fundamental_div_mod(a[j] * d[t], q);
                assert(term == q * (-((a[j] * d[t]) / q)));
                vstd::arithmetic::div_mod::lemma_mod_multiples_basic(-((a[j] * d[t]) / q), q);
                assert(q * (-((a[j] * d[t]) / q)) == (-((a[j] * d[t]) / q)) * q) by (nonlinear_arith);
            }
        }
        vstd::arithmetic::div_mod::lemma_add_mod_noop(mul_partial(a, d, i, n - 1), term, q);
    }
}

/// The product in `Z[X]/(X^N + 1)` respects congruence modulo Q of the
/// second factor.
pub proof fn lemma_ring_congruent(a: Seq<int>, x: Seq<int>, y: Seq<int>, i: int)
    requires
        0 <= i < N,
        forall|t: int| 0 <= t < N ==> #[trigger] ((x[t] - y[t]) % (Q_I32 as int)) == 0,
    ensures
        (ring_coeff(a, x, i) - ring_coeff(a, y, i)) % (Q_I32 as int) == 0,
{
    let d = Seq::new(N as nat, |t: int| x[t] - y[t]);
    assert forall|t: int| 0 <= t < N implies #[trigger] x[t] == d[t] + y[t] by {}
    lemma_ring_add(a, d, y, x, i);
    assert forall|t: int| 0 <= t < N implies #[trigger] d[t] % (Q_I32 as int) == 0 by {
        assert(d[t] == x[t] - y[t]);
    }
    lemma_partial_zero_mod(a, d, i, N as int);
}

/// The product in `Z[X]/(X^N + 1)` with zero is zero.
pub proof fn lemma_ring_zero(a: Seq<int>, z: Seq<int>, i: int)
    requires
        0 <= i < N,
        forall|t: int| 0 <= t < N ==> #[trigger] z[t] == 0,
    ensures
        ring_coeff(a, z, i) == 0,
{
    lemma_ring_add(a, z, z, z, i);
}

/// Coefficient `i` of row `k` of `mat * g` over the first `n` columns,
/// where the rows of the table `g` are the polynomials of the vector.
pub open spec fn matvec_rows(mat: [Polyvecl; K], g: spec_fn(int, int) -> int, k: int, i: int, n: int) -> int
    decreases n,
{
    if n <= 0 {
        0
    } else {
        matvec_rows(mat, g, k, i, n - 1) + ring_coeff(poly_ints(mat[k].vec[n - 1]), table_row(g, n - 1), i)
    }
}

/// The matrix-vector product of a vector is that of the table of its
/// coefficients.
pub proof fn lemma_matvec_rows_of(mat: [Polyvecl; K], v: Polyvecl, k: int, i: int, n: int)
    requires
        0 <= n <= L,
    ensures
        matvec_partial(mat, v, k, i, n) == matvec_rows(mat, vecl_table(v), k, i, n),
    decreases n,
{
    if n > 0 {
        lemma_matvec_rows_of(mat, v, k, i, n - 1);
        assert(poly_ints(v.vec[n - 1]) =~= table_row(vecl_table(v), n - 1));
    }
}

/// The matrix-vector product is additive in the vector.
pub proof fn lemma_matvec_rows_add(
    mat: [Polyvecl; K],
    g1: spec_fn(int, int) -> int,
    g2: spec_fn(int, int) -> int,
    g3: spec_fn(int, int) -> int,
    k: int,
    i: int,
    n: int,
)
    requires
        0 <= i < N,
        0 <= n <= L,
        forall|l: int, t: int| 0 <= l < L && 0 <= t < N ==> #[trigger] g3(l, t) == g1(l, t) + g2(l, t),
    ensures
        matvec_rows(mat, g3, k, i, n) == matvec_rows(mat, g1, k, i, n) + matvec_rows(mat, g2, k, i, n),
    decreases n,
{
    if n > 0 {
        lemma_matvec_rows_add(mat, g1, g2, g3, k, i, n - 1);
        let l = n - 1;
        assert forall|t: int| 0 <= t < N implies #[trigger] table_row(g3, l)[t] == table_row(g1, l)[t] + table_row(g2, l)[t] by {
            assert(g3(l, t) == g1(l, t) + g2(l, t));
        }
        lemma_ring_add(poly_ints(mat[k].vec[l]), table_row(g1, l), table_row(g2, l), table_row(g3, l), i);
    }
}

/// The matrix-vector product respects congruence modulo Q of the vector.
pub proof fn lemma_matvec_rows_congruent(
    mat: [Polyvecl; K],
    g1: spec_fn(int, int) -> int,
    g2: spec_fn(int, int) -> int,
    k: int,
    i: int,
    n: int,
)
    requires
        0 <= i < N,
        0 <= n <= L,
        forall|l: int, t: int| 0 <= l < L && 0 <= t < N ==> #[trigger] ((g1(l, t) - g2(l, t)) % (Q_I32 as int)) == 0,
    ensures
        (matvec_rows(mat, g1, k, i, n) - matvec_rows(mat, g2, k, i, n)) % (Q_I32 as int) == 0,
    decreases n,
{
    if n > 0 {
        let q = Q_I32 as int;
        lemma_matvec_rows_congruent(mat, g1, g2, k, i, n - 1);
        let l = n - 1;
        assert forall|t: int| 0 <= t < N implies #[trigger] ((table_row(g1, l)[t] - table_row(g2, l)[t]) % q) == 0 by {
            assert((g1(l, t) - g2(l, t)) % q == 0);
        }
        let a = poly_ints(mat[k].vec[l]);
        lemma_ring_congruent(a, table_row(g1, l), table_row(g2, l), i);
        let d1 = matvec_rows(mat, g1, k, i, n - 1) - matvec_rows(mat, g2, k, i, n - 1);
        let d2 = ring_coeff(a, table_row(g1, l), i) - ring_coeff(a, table_row(g2, l), i);
        vstd::arithmetic::div_mod::lemma_add_mod_noop(d1, d2, q);
        assert(matvec_rows(mat, g1, k, i, n) - matvec_rows(mat, g2, k, i, n) == d1 + d2);
    }
}

/// `mat * (c * s) = c * (mat * s)` in `Z[X]/(X^N + 1)`, row by row.
pub proof fn lemma_matvec_rows_commute(
    mat: [Polyvecl; K],
    c: Seq<int>,
    s: spec_fn(int, int) -> int,
    cs: spec_fn(int, int) -> int,
    k: int,
    i: int,
    n: int,
)
    requires
        0 <= i < N,
        0 <= n <= L,
        forall|l: int, t: int| 0 <= l < L && 0 <= t < N ==> #[trigger] cs(l, t) == ring_coeff(c, table_row(s, l), t),
    ensures
        matvec_rows(mat, cs, k, i, n) == ring_coeff(c, Seq::new(N as nat, |t: int| matvec_rows(mat, s, k, t, n)), i),
    decreases n,
{
    if n == 0 {
        lemma_ring_zero(c, Seq::new(N as nat, |t: int| matvec_rows(mat, s, k, t, n)), i);
    } else {
        lemma_matvec_rows_commute(mat, c, s, cs, k, i, n - 1);
        let l = n - 1;
        let a = poly_ints(mat[k].vec[l]);
        let sl = table_row(s, l);
        assert(table_row(cs, l) =~= ring_seq(c, sl));
        lemma_ring_left_commute(a, c, sl, i);
        let prev = Seq::new(N as nat, |t: int| matvec_rows(mat, s, k, t, n - 1));
        let full = Seq::new(N as nat, |t: int| matvec_rows(mat, s, k, t, n));
        assert forall|t: int| 0 <= t < N implies #[trigger] full[t] == prev[t] + ring_seq(a, sl)[t] by {}
        lemma_ring_add(c, prev, ring_seq(a, sl), full, i);
    }
}

} // verus!
