use vstd::prelude::*;
use crate::params::{K, L, N, Q_I32};
use crate::poly::{
    coeff_sum, exceeds_norm, hint_weight, poly_add, poly_caddq, poly_chknorm, poly_decompose,
    poly_decompose_scaled, poly_in_range, poly_make_hint_scaled, poly_make_hint_simple,
    poly_power2round, poly_reduce, poly_shiftl, poly_sub, poly_use_hint_scaled,
    poly_use_hint_simple, scaled_hint_args, simple_hint_args, Poly,
};
use crate::reduce::{caddq_spec, reduce32_spec};
use crate::rounding::{
    cmod, high_bits, lemma_use_hint_recovers_high_bits, low_bits, make_hint_spec, mod_q,
    power2round_high, use_hint_spec, ALPHA, ALPHA_SCALED,
};

verus! {

/// A vector of `L` polynomials.
#[derive(Copy, Clone)]
pub struct Polyvecl {
    pub vec: [Poly; L],
}

/// A vector of `K` polynomials.
#[derive(Copy, Clone)]
pub struct Polyveck {
    pub vec: [Poly; K],
}

impl Default for Polyvecl {
    /// The zero vector.
    fn default() -> (v: Polyvecl)
        ensures
            forall|k: int, i: int| 0 <= k < L && 0 <= i < N ==> #[trigger] v.vec[k].coeffs[i] == 0,
    {
        let z = Poly::default();
        Polyvecl { vec: [z; L] }
    }
}

impl Default for Polyveck {
    /// The zero vector.
    fn default() -> (v: Polyveck)
        ensures
            forall|k: int, i: int| 0 <= k < K && 0 <= i < N ==> #[trigger] v.vec[k].coeffs[i] == 0,
    {
        let z = Poly::default();
        Polyveck { vec: [z; K] }
    }
}

/// Every coefficient of every polynomial of `v` lies in `[lo, hi]`.
pub open spec fn vecl_in_range(v: Polyvecl, lo: int, hi: int) -> bool {
    forall|k: int, i: int| 0 <= k < L && 0 <= i < N ==> lo <= #[trigger] v.vec[k].coeffs[i] <= hi
}

/// Every coefficient of every polynomial of `v` lies in `[lo, hi]`.
pub open spec fn veck_in_range(v: Polyveck, lo: int, hi: int) -> bool {
    forall|k: int, i: int| 0 <= k < K && 0 <= i < N ==> lo <= #[trigger] v.vec[k].coeffs[i] <= hi
}

/// Some coefficient of `v` has absolute value at least `b`.
pub open spec fn vecl_exceeds_norm(v: Polyvecl, b: int) -> bool {
    exists|k: int| 0 <= k < L && #[trigger] exceeds_norm(v.vec[k], b)
}

/// Some coefficient of `v` has absolute value at least `b`.
pub open spec fn veck_exceeds_norm(v: Polyveck, b: int) -> bool {
    exists|k: int| 0 <= k < K && #[trigger] exceeds_norm(v.vec[k], b)
}

/// Number of set hints in the first `n` polynomials of `h`.
pub open spec fn veck_hint_weight(h: Polyveck, n: int) -> int
    decreases n,
{
    if n <= 0 {
        0
    } else {
        veck_hint_weight(h, n - 1) + hint_weight(h.vec[n - 1], N as int)
    }
}

/// Reduces every coefficient with `reduce32`.
pub fn polyvecl_reduce(v: &mut Polyvecl)
    requires
        forall|k: int, i: int| 0 <= k < L && 0 <= i < N ==> #[trigger] old(v).vec[k].coeffs[i] <= 2147483647 - 4194304,
    ensures
        forall|k: int, i: int| 0 <= k < L && 0 <= i < N ==> #[trigger] final(v).vec[k].coeffs[i] == reduce32_spec(old(v).vec[k].coeffs[i] as int),
{
    for k in 0..L
        invariant
            forall|kk: int, i: int| 0 <= kk < L && 0 <= i < N ==> #[trigger] old(v).vec[kk].coeffs[i] <= 2147483647 - 4194304,
            forall|kk: int, i: int| 0 <= kk < k && 0 <= i < N ==> #[trigger] v.vec[kk].coeffs[i] == reduce32_spec(old(v).vec[kk].coeffs[i] as int),
            forall|kk: int| k <= kk < L ==> #[trigger] v.vec[kk] == old(v).vec[kk],
    {
        let mut p = v.vec[k];
        poly_reduce(&mut p);
        v.vec[k] = p;
    }
}

/// Reduces every coefficient with `reduce32`.
pub fn polyveck_reduce(v: &mut Polyveck)
    requires
        forall|k: int, i: int| 0 <= k < K && 0 <= i < N ==> #[trigger] old(v).vec[k].coeffs[i] <= 2147483647 - 4194304,
    ensures
        forall|k: int, i: int| 0 <= k < K && 0 <= i < N ==> #[trigger] final(v).vec[k].coeffs[i] == reduce32_spec(old(v).vec[k].coeffs[i] as int),
{
    for k in 0..K
        invariant
            forall|kk: int, i: int| 0 <= kk < K && 0 <= i < N ==> #[trigger] old(v).vec[kk].coeffs[i] <= 2147483647 - 4194304,
            forall|kk: int, i: int| 0 <= kk < k && 0 <= i < N ==> #[trigger] v.vec[kk].coeffs[i] == reduce32_spec(old(v).vec[kk].coeffs[i] as int),
            forall|kk: int| k <= kk < K ==> #[trigger] v.vec[kk] == old(v).vec[kk],
    {
        let mut p = v.vec[k];
        poly_reduce(&mut p);
        v.vec[k] = p;
    }
}

/// Adds Q to every negative coefficient.
pub fn polyveck_caddq(v: &mut Polyveck)
    ensures
        forall|k: int, i: int| 0 <= k < K && 0 <= i < N ==> #[trigger] final(v).vec[k].coeffs[i] == caddq_spec(old(v).vec[k].coeffs[i] as int),
{
    for k in 0..K
        invariant
            forall|kk: int, i: int| 0 <= kk < k && 0 <= i < N ==> #[trigger] v.vec[kk].coeffs[i] == caddq_spec(old(v).vec[kk].coeffs[i] as int),
            forall|kk: int| k <= kk < K ==> #[trigger] v.vec[kk] == old(v).vec[kk],
    {
        let mut p = v.vec[k];
        poly_caddq(&mut p);
        v.vec[k] = p;
    }
}

/// Shifts every coefficient left by `D` bits (a multiplication by `2^D`
/// where it does not overflow), with no reduction.
pub fn polyveck_shiftl(v: &mut Polyveck)
    ensures
        forall|k: int, i: int| 0 <= k < K && 0 <= i < N ==> #[trigger] final(v).vec[k].coeffs[i] == old(v).vec[k].coeffs[i] << 13i32,
        forall|k: int, i: int| 0 <= k < K && 0 <= i < N && -262144 <= old(v).vec[k].coeffs[i] <= 262143 ==>
            #[trigger] final(v).vec[k].coeffs[i] == old(v).vec[k].coeffs[i] * 8192,
{
    for k in 0..K
        invariant
            forall|kk: int, i: int| 0 <= kk < k && 0 <= i < N ==> #[trigger] v.vec[kk].coeffs[i] == old(v).vec[kk].coeffs[i] << 13i32,
            forall|kk: int, i: int| 0 <= kk < k && 0 <= i < N && -262144 <= old(v).vec[kk].coeffs[i] <= 262143 ==>
                #[trigger] v.vec[kk].coeffs[i] == old(v).vec[kk].coeffs[i] * 8192,
            forall|kk: int| k <= kk < K ==> #[trigger] v.vec[kk] == old(v).vec[kk],
    {
        let mut p = v.vec[k];
        poly_shiftl(&mut p);
        v.vec[k] = p;
    }
}

/// Adds `b` to `c`, with no reduction.
pub fn polyvecl_add(c: &mut Polyvecl, b: &Polyvecl)
    requires
        forall|k: int, i: int| 0 <= k < L && 0 <= i < N ==> i32::MIN <= #[trigger] old(c).vec[k].coeffs[i] + b.vec[k].coeffs[i] <= i32::MAX,
    ensures
        forall|k: int, i: int| 0 <= k < L && 0 <= i < N ==> #[trigger] final(c).vec[k].coeffs[i] == old(c).vec[k].coeffs[i] + b.vec[k].coeffs[i],
{
    for k in 0..L
        invariant
            forall|kk: int, i: int| 0 <= kk < L && 0 <= i < N ==> i32::MIN <= #[trigger] old(c).vec[kk].coeffs[i] + b.vec[kk].coeffs[i] <= i32::MAX,
            forall|kk: int, i: int| 0 <= kk < k && 0 <= i < N ==> #[trigger] c.vec[kk].coeffs[i] == old(c).vec[kk].coeffs[i] + b.vec[kk].coeffs[i],
            forall|kk: int| k <= kk < L ==> #[trigger] c.vec[kk] == old(c).vec[kk],
    {
        let mut p = c.vec[k];
        poly_add(&mut p, &b.vec[k]);
        c.vec[k] = p;
    }
}

/// Adds `b` to `c`, with no reduction.
pub fn polyveck_add(c: &mut Polyveck, b: &Polyveck)
    requires
        forall|k: int, i: int| 0 <= k < K && 0 <= i < N ==> i32::MIN <= #[trigger] old(c).vec[k].coeffs[i] + b.vec[k].coeffs[i] <= i32::MAX,
    ensures
        forall|k: int, i: int| 0 <= k < K && 0 <= i < N ==> #[trigger] final(c).vec[k].coeffs[i] == old(c).vec[k].coeffs[i] + b.vec[k].coeffs[i],
{
    for k in 0..K
        invariant
            forall|kk: int, i: int| 0 <= kk < K && 0 <= i < N ==> i32::MIN <= #[trigger] old(c).vec[kk].coeffs[i] + b.vec[kk].coeffs[i] <= i32::MAX,
            forall|kk: int, i: int| 0 <= kk < k && 0 <= i < N ==> #[trigger] c.vec[kk].coeffs[i] == old(c).vec[kk].coeffs[i] + b.vec[kk].coeffs[i],
            forall|kk: int| k <= kk < K ==> #[trigger] c.vec[kk] == old(c).vec[kk],
    {
        let mut p = c.vec[k];
        poly_add(&mut p, &b.vec[k]);
        c.vec[k] = p;
    }
}

/// Subtracts `b` from `c`, with no reduction.
pub fn polyveck_sub(c: &mut Polyveck, b: &Polyveck)
    requires
        forall|k: int, i: int| 0 <= k < K && 0 <= i < N ==> i32::MIN <= #[trigger] old(c).vec[k].coeffs[i] - b.vec[k].coeffs[i] <= i32::MAX,
    ensures
        forall|k: int, i: int| 0 <= k < K && 0 <= i < N ==> #[trigger] final(c).vec[k].coeffs[i] == old(c).vec[k].coeffs[i] - b.vec[k].coeffs[i],
{
    for k in 0..K
        invariant
            forall|kk: int, i: int| 0 <= kk < K && 0 <= i < N ==> i32::MIN <= #[trigger] old(c).vec[kk].coeffs[i] - b.vec[kk].coeffs[i] <= i32::MAX,
            forall|kk: int, i: int| 0 <= kk < k && 0 <= i < N ==> #[trigger] c.vec[kk].coeffs[i] == old(c).vec[kk].coeffs[i] - b.vec[kk].coeffs[i],
            forall|kk: int| k <= kk < K ==> #[trigger] c.vec[kk] == old(c).vec[kk],
    {
        let mut p = c.vec[k];
        poly_sub(&mut p, &b.vec[k]);
        c.vec[k] = p;
    }
}

/// Splits every coefficient (a standard representative) of `v1` into
/// `c1 * 2^D + c0`; `v1` receives the `c1`, `v0` the `c0`.
pub fn polyveck_power2round(v1: &mut Polyveck, v0: &mut Polyveck)
    requires
        veck_in_range(*old(v1), 0, Q_I32 - 1),
    ensures
        forall|k: int, i: int| 0 <= k < K && 0 <= i < N ==> #[trigger] final(v1).vec[k].coeffs[i]
            == power2round_high(old(v1).vec[k].coeffs[i] as int),
        forall|k: int, i: int| 0 <= k < K && 0 <= i < N ==> #[trigger] final(v0).vec[k].coeffs[i]
            == old(v1).vec[k].coeffs[i] - final(v1).vec[k].coeffs[i] * 8192,
        veck_in_range(*final(v1), 0, 1023),
        veck_in_range(*final(v0), -4095, 4096),
{
    for k in 0..K
        invariant
            veck_in_range(*old(v1), 0, Q_I32 - 1),
            forall|kk: int, i: int| 0 <= kk < k && 0 <= i < N ==> #[trigger] v1.vec[kk].coeffs[i]
                == power2round_high(old(v1).vec[kk].coeffs[i] as int),
            forall|kk: int, i: int| 0 <= kk < k && 0 <= i < N ==> #[trigger] v0.vec[kk].coeffs[i]
                == old(v1).vec[kk].coeffs[i] - v1.vec[kk].coeffs[i] * 8192,
            forall|kk: int, i: int| 0 <= kk < k && 0 <= i < N ==> 0 <= #[trigger] v1.vec[kk].coeffs[i] <= 1023,
            forall|kk: int, i: int| 0 <= kk < k && 0 <= i < N ==> -4095 <= #[trigger] v0.vec[kk].coeffs[i] <= 4096,
            forall|kk: int| k <= kk < K ==> #[trigger] v1.vec[kk] == old(v1).vec[kk],
    {
        let mut p1 = v1.vec[k];
        let mut p0 = v0.vec[k];
        assert(poly_in_range(p1, 0, Q_I32 - 1));
        poly_power2round(&mut p1, &mut p0);
        v1.vec[k] = p1;
        v0.vec[k] = p0;
    }
}

/// Splits every coefficient (a standard representative) of `v1` into its
/// high part (left in `v1`) and low part (written to `v0`) for the range
/// `2 * GAMMA2`.
pub fn polyveck_decompose(v1: &mut Polyveck, v0: &mut Polyveck)
    requires
        veck_in_range(*old(v1), 0, Q_I32 - 1),
    ensures
        forall|k: int, i: int| 0 <= k < K && 0 <= i < N ==> #[trigger] final(v1).vec[k].coeffs[i]
            == high_bits(old(v1).vec[k].coeffs[i] as int, ALPHA as int),
        forall|k: int, i: int| 0 <= k < K && 0 <= i < N ==> #[trigger] final(v0).vec[k].coeffs[i]
            == low_bits(old(v1).vec[k].coeffs[i] as int, ALPHA as int),
        veck_in_range(*final(v1), 0, 15),
{
    for k in 0..K
        invariant
            veck_in_range(*old(v1), 0, Q_I32 - 1),
            forall|kk: int, i: int| 0 <= kk < k && 0 <= i < N ==> #[trigger] v1.vec[kk].coeffs[i]
                == high_bits(old(v1).vec[kk].coeffs[i] as int, ALPHA as int),
            forall|kk: int, i: int| 0 <= kk < k && 0 <= i < N ==> #[trigger] v0.vec[kk].coeffs[i]
                == low_bits(old(v1).vec[kk].coeffs[i] as int, ALPHA as int),
            forall|kk: int, i: int| 0 <= kk < k && 0 <= i < N ==> 0 <= #[trigger] v1.vec[kk].coeffs[i] <= 15,
            forall|kk: int| k <= kk < K ==> #[trigger] v1.vec[kk] == old(v1).vec[kk],
    {
        let mut p1 = v1.vec[k];
        let mut p0 = v0.vec[k];
        assert(poly_in_range(p1, 0, Q_I32 - 1));
        poly_decompose(&mut p1, &mut p0);
        v1.vec[k] = p1;
        v0.vec[k] = p0;
    }
}

/// Returns 1 when `b` exceeds `(Q - 1) / 8` or some coefficient of `v` has
/// absolute value at least `b`, and 0 otherwise.
pub fn polyvecl_chknorm(v: &Polyvecl, b: i32) -> (r: u8)
    requires
        vecl_in_range(*v, -1073741823, 1073741823),
    ensures
        r == (if b > (Q_I32 - 1) / 8 || vecl_exceeds_norm(*v, b as int) { 1u8 } else { 0u8 }),
{
    for k in 0..L
        invariant
            vecl_in_range(*v, -1073741823, 1073741823),
            b <= (Q_I32 - 1) / 8 ==> forall|kk: int| 0 <= kk < k ==> !#[trigger] exceeds_norm(v.vec[kk], b as int),
    {
        assert(poly_in_range(v.vec[k as int], -1073741823, 1073741823));
        if poly_chknorm(&v.vec[k], b) != 0 {
            return 1;
        }
    }
    if b > (Q_I32 - 1) / 8 {
        return 1;
    }
    0
}

/// Returns 1 when `b` exceeds `(Q - 1) / 8` or some coefficient of `v` has
/// absolute value at least `b`, and 0 otherwise.
pub fn polyveck_chknorm(v: &Polyveck, b: i32) -> (r: u8)
    requires
        veck_in_range(*v, -1073741823, 1073741823),
    ensures
        r == (if b > (Q_I32 - 1) / 8 || veck_exceeds_norm(*v, b as int) { 1u8 } else { 0u8 }),
{
    for k in 0..K
        invariant
            veck_in_range(*v, -1073741823, 1073741823),
            b <= (Q_I32 - 1) / 8 ==> forall|kk: int| 0 <= kk < k ==> !#[trigger] exceeds_norm(v.vec[kk], b as int),
    {
        assert(poly_in_range(v.vec[k as int], -1073741823, 1073741823));
        if poly_chknorm(&v.vec[k], b) != 0 {
            return 1;
        }
    }
    if b > (Q_I32 - 1) / 8 {
        return 1;
    }
    0
}

/// Computes the hints of the pairs `(z, y)` for the range `2 * GAMMA2` and
/// returns their number.
pub fn polyveck_make_hint_simple(hint: &mut Polyveck, z: &Polyveck, y: &Polyveck) -> (s: i32)
    requires
        forall|k: int, i: int| 0 <= k < K && 0 <= i < N ==> simple_hint_args(#[trigger] z.vec[k].coeffs[i] as int, y.vec[k].coeffs[i] as int),
    ensures
        forall|k: int, i: int| 0 <= k < K && 0 <= i < N ==> #[trigger] final(hint).vec[k].coeffs[i]
            == (if make_hint_spec(z.vec[k].coeffs[i] as int, y.vec[k].coeffs[i] as int, ALPHA as int) { 1int } else { 0int }),
        s == veck_hint_weight(*final(hint), K as int),
        0 <= s <= K * N,
{
    let mut s: i32 = 0;
    for k in 0..K
        invariant
            forall|kk: int, i: int| 0 <= kk < K && 0 <= i < N ==> simple_hint_args(#[trigger] z.vec[kk].coeffs[i] as int, y.vec[kk].coeffs[i] as int),
            forall|kk: int, i: int| 0 <= kk < k && 0 <= i < N ==> #[trigger] hint.vec[kk].coeffs[i]
                == (if make_hint_spec(z.vec[kk].coeffs[i] as int, y.vec[kk].coeffs[i] as int, ALPHA as int) { 1int } else { 0int }),
            s == veck_hint_weight(*hint, k as int),
            0 <= s <= k * N,
    {
        let mut p = hint.vec[k];
        let ghost before = *hint;
        let n = poly_make_hint_simple(&mut p, &z.vec[k], &y.vec[k]);
        hint.vec[k] = p;
        assert(veck_hint_weight(*hint, k as int) == veck_hint_weight(before, k as int)) by {
            lemma_veck_hint_weight_prefix(*hint, before, k as int);
        }
        s += n;
    }
    s
}

/// Computes the hints of the pairs `(z, y)` for the range `4 * GAMMA2` and
/// returns their number.
pub fn polyveck_make_hint_scaled(hint: &mut Polyveck, z: &Polyveck, y: &Polyveck) -> (s: i32)
    requires
        forall|k: int, i: int| 0 <= k < K && 0 <= i < N ==> scaled_hint_args(#[trigger] z.vec[k].coeffs[i] as int, y.vec[k].coeffs[i] as int),
    ensures
        forall|k: int, i: int| 0 <= k < K && 0 <= i < N ==> #[trigger] final(hint).vec[k].coeffs[i]
            == (if make_hint_spec(z.vec[k].coeffs[i] as int, y.vec[k].coeffs[i] as int, ALPHA_SCALED as int) { 1int } else { 0int }),
        s == veck_hint_weight(*final(hint), K as int),
        0 <= s <= K * N,
{
    let mut s: i32 = 0;
    for k in 0..K
        invariant
            forall|kk: int, i: int| 0 <= kk < K && 0 <= i < N ==> scaled_hint_args(#[trigger] z.vec[kk].coeffs[i] as int, y.vec[kk].coeffs[i] as int),
            forall|kk: int, i: int| 0 <= kk < k && 0 <= i < N ==> #[trigger] hint.vec[kk].coeffs[i]
                == (if make_hint_spec(z.vec[kk].coeffs[i] as int, y.vec[kk].coeffs[i] as int, ALPHA_SCALED as int) { 1int } else { 0int }),
            s == veck_hint_weight(*hint, k as int),
            0 <= s <= k * N,
    {
        let mut p = hint.vec[k];
        let ghost before = *hint;
        let n = poly_make_hint_scaled(&mut p, &z.vec[k], &y.vec[k]);
        hint.vec[k] = p;
        assert(veck_hint_weight(*hint, k as int) == veck_hint_weight(before, k as int)) by {
            lemma_veck_hint_weight_prefix(*hint, before, k as int);
        }
        s += n;
    }
    s
}

/// Weights of equal prefixes are equal.
proof fn lemma_veck_hint_weight_prefix(p: Polyveck, q: Polyveck, n: int)
    requires
        0 <= n <= K,
        forall|kk: int| 0 <= kk < n ==> #[trigger] p.vec[kk] == q.vec[kk],
    ensures
        veck_hint_weight(p, n) == veck_hint_weight(q, n),
    decreases n,
{
    if n > 0 {
        lemma_veck_hint_weight_prefix(p, q, n - 1);
    }
}

/// Corrects the high parts (range `2 * GAMMA2`) of the coefficients of `y`
/// with the hints in `hint`, into `high`.
pub fn polyveck_use_hint_simple(high: &mut Polyveck, hint: &Polyveck, y: &Polyveck)
    requires
        veck_in_range(*hint, 0, 1),
        veck_in_range(*y, 0, Q_I32 - 1),
    ensures
        forall|k: int, i: int| 0 <= k < K && 0 <= i < N ==> #[trigger] final(high).vec[k].coeffs[i]
            == use_hint_spec(y.vec[k].coeffs[i] as int, hint.vec[k].coeffs[i] as int, ALPHA as int),
{
    for k in 0..K
        invariant
            veck_in_range(*hint, 0, 1),
            veck_in_range(*y, 0, Q_I32 - 1),
            forall|kk: int, i: int| 0 <= kk < k && 0 <= i < N ==> #[trigger] high.vec[kk].coeffs[i]
                == use_hint_spec(y.vec[kk].coeffs[i] as int, hint.vec[kk].coeffs[i] as int, ALPHA as int),
    {
        let mut p = high.vec[k];
        assert(poly_in_range(hint.vec[k as int], 0, 1));
        assert(poly_in_range(y.vec[k as int], 0, Q_I32 - 1));
        poly_use_hint_simple(&mut p, &hint.vec[k], &y.vec[k]);
        high.vec[k] = p;
    }
}

/// Corrects the high parts (range `4 * GAMMA2`) of the coefficients of `y`
/// with the hints in `hint` (each taken as a byte), into `high`.
pub fn polyveck_use_hint_scaled(high: &mut Polyveck, hint: &Polyveck, y: &Polyveck)
    requires
        forall|k: int, i: int| 0 <= k < K && 0 <= i < N ==> i32::MIN <= #[trigger] y.vec[k].coeffs[i] - cmod(y.vec[k].coeffs[i] as int, ALPHA_SCALED as int) <= i32::MAX,
    ensures
        forall|k: int, i: int| 0 <= k < K && 0 <= i < N ==> #[trigger] final(high).vec[k].coeffs[i]
            == use_hint_spec(y.vec[k].coeffs[i] as int, (hint.vec[k].coeffs[i] as u8) as int, ALPHA_SCALED as int),
{
    for k in 0..K
        invariant
            forall|kk: int, i: int| 0 <= kk < K && 0 <= i < N ==> i32::MIN <= #[trigger] y.vec[kk].coeffs[i] - cmod(y.vec[kk].coeffs[i] as int, ALPHA_SCALED as int) <= i32::MAX,
            forall|kk: int, i: int| 0 <= kk < k && 0 <= i < N ==> #[trigger] high.vec[kk].coeffs[i]
                == use_hint_spec(y.vec[kk].coeffs[i] as int, (hint.vec[kk].coeffs[i] as u8) as int, ALPHA_SCALED as int),
    {
        let mut p = high.vec[k];
        poly_use_hint_scaled(&mut p, &hint.vec[k], &y.vec[k]);
        high.vec[k] = p;
    }
}

/// Splits every coefficient of `y` into its high part (into `high`) and low
/// part (into `low`) for the range `4 * GAMMA2`.
pub fn polyveck_decompose_scaled(high: &mut Polyveck, low: &mut Polyveck, y: &Polyveck)
    requires
        forall|k: int, i: int| 0 <= k < K && 0 <= i < N ==> i32::MIN <= #[trigger] y.vec[k].coeffs[i] - cmod(y.vec[k].coeffs[i] as int, ALPHA_SCALED as int) <= i32::MAX,
    ensures
        forall|k: int, i: int| 0 <= k < K && 0 <= i < N ==> #[trigger] final(high).vec[k].coeffs[i]
            == high_bits(y.vec[k].coeffs[i] as int, ALPHA_SCALED as int),
        forall|k: int, i: int| 0 <= k < K && 0 <= i < N ==> #[trigger] final(low).vec[k].coeffs[i]
            == low_bits(y.vec[k].coeffs[i] as int, ALPHA_SCALED as int),
{
    for k in 0..K
        invariant
            forall|kk: int, i: int| 0 <= kk < K && 0 <= i < N ==> i32::MIN <= #[trigger] y.vec[kk].coeffs[i] - cmod(y.vec[kk].coeffs[i] as int, ALPHA_SCALED as int) <= i32::MAX,
            forall|kk: int, i: int| 0 <= kk < k && 0 <= i < N ==> #[trigger] high.vec[kk].coeffs[i]
                == high_bits(y.vec[kk].coeffs[i] as int, ALPHA_SCALED as int),
            forall|kk: int, i: int| 0 <= kk < k && 0 <= i < N ==> #[trigger] low.vec[kk].coeffs[i]
                == low_bits(y.vec[kk].coeffs[i] as int, ALPHA_SCALED as int),
    {
        let mut ph = high.vec[k];
        let mut pl = low.vec[k];
        poly_decompose_scaled(&mut ph, &mut pl, &y.vec[k]);
        high.vec[k] = ph;
        low.vec[k] = pl;
    }
}

/// The number of set hints of a hint vector (coefficients 0 or 1).
pub fn polyveck_hint_weight(h: &Polyveck) -> (w: usize)
    requires
        veck_in_range(*h, 0, 1),
    ensures
        w == veck_hint_weight(*h, K as int),
{
    let mut w: usize = 0;
    for k in 0..K
        invariant
            veck_in_range(*h, 0, 1),
            w == veck_hint_weight(*h, k as int),
            w <= k * N,
    {
        let ghost base = w as int;
        for i in 0..N
            invariant
                0 <= k < K,
                veck_in_range(*h, 0, 1),
                w == base + coeff_sum(h.vec[k as int], i as int),
                0 <= coeff_sum(h.vec[k as int], i as int) <= i,
                base <= k * N,
        {
            assert(0 <= h.vec[k as int].coeffs[i as int] <= 1);
            w += h.vec[k].coeffs[i] as usize;
        }
    }
    w
}

/// Whether every coefficient of `v` lies in `[lo, hi]`.
pub fn polyvecl_within(v: &Polyvecl, lo: i32, hi: i32) -> (ok: bool)
    ensures
        ok == vecl_in_range(*v, lo as int, hi as int),
{
    for k in 0..L
        invariant
            forall|kk: int, i: int| 0 <= kk < k && 0 <= i < N ==> lo <= #[trigger] v.vec[kk].coeffs[i] <= hi,
    {
        for i in 0..N
            invariant
                0 <= k < L,
                forall|kk: int, ii: int| 0 <= kk < k && 0 <= ii < N ==> lo <= #[trigger] v.vec[kk].coeffs[ii] <= hi,
                forall|ii: int| 0 <= ii < i ==> lo <= #[trigger] v.vec[k as int].coeffs[ii] <= hi,
        {
            let c = v.vec[k].coeffs[i];
            if c < lo || c > hi {
                return false;
            }
        }
    }
    true
}

/// Whether every coefficient of `v` lies in `[lo, hi]`.
pub fn polyveck_within(v: &Polyveck, lo: i32, hi: i32) -> (ok: bool)
    ensures
        ok == veck_in_range(*v, lo as int, hi as int),
{
    for k in 0..K
        invariant
            forall|kk: int, i: int| 0 <= kk < k && 0 <= i < N ==> lo <= #[trigger] v.vec[kk].coeffs[i] <= hi,
    {
        for i in 0..N
            invariant
                0 <= k < K,
                forall|kk: int, ii: int| 0 <= kk < k && 0 <= ii < N ==> lo <= #[trigger] v.vec[kk].coeffs[ii] <= hi,
                forall|ii: int| 0 <= ii < i ==> lo <= #[trigger] v.vec[k as int].coeffs[ii] <= hi,
        {
            let c = v.vec[k].coeffs[i];
            if c < lo || c > hi {
                return false;
            }
        }
    }
    true
}

/// Hint correctness for vectors: for `y` with standard representatives and
/// `z` with coefficients in `[-alpha/2, alpha/2]`, the hints made from `z`
/// and `y` correct the high parts of `y` into those of `y + z` (modulo Q),
/// coefficient by coefficient; these are also the high parts of
/// `caddq(y + z)`.
pub proof fn lemma_veck_use_hint_recovers_high_bits(z: Polyveck, y: Polyveck, alpha: int)
    requires
        alpha == ALPHA || alpha == ALPHA_SCALED,
        veck_in_range(y, 0, Q_I32 - 1),
        veck_in_range(z, -(alpha / 2), alpha / 2),
    ensures
        forall|k: int, i: int| 0 <= k < K && 0 <= i < N ==>
            use_hint_spec(y.vec[k].coeffs[i] as int,
                if make_hint_spec(#[trigger] z.vec[k].coeffs[i] as int, y.vec[k].coeffs[i] as int, alpha) { 1 } else { 0 },
                alpha)
            == high_bits(mod_q(y.vec[k].coeffs[i] + z.vec[k].coeffs[i]), alpha),
        forall|k: int, i: int| 0 <= k < K && 0 <= i < N ==>
            high_bits(caddq_spec(y.vec[k].coeffs[i] + #[trigger] z.vec[k].coeffs[i]), alpha)
            == high_bits(mod_q(y.vec[k].coeffs[i] + z.vec[k].coeffs[i]), alpha),
{
    assert forall|k: int, i: int| 0 <= k < K && 0 <= i < N implies
        use_hint_spec(y.vec[k].coeffs[i] as int,
            if make_hint_spec(#[trigger] z.vec[k].coeffs[i] as int, y.vec[k].coeffs[i] as int, alpha) { 1 } else { 0 },
            alpha)
        == high_bits(mod_q(y.vec[k].coeffs[i] + z.vec[k].coeffs[i]), alpha) by {
        lemma_use_hint_recovers_high_bits(z.vec[k].coeffs[i] as int, y.vec[k].coeffs[i] as int, alpha);
    }
    assert forall|k: int, i: int| 0 <= k < K && 0 <= i < N implies
        high_bits(caddq_spec(y.vec[k].coeffs[i] + #[trigger] z.vec[k].coeffs[i]), alpha)
        == high_bits(mod_q(y.vec[k].coeffs[i] + z.vec[k].coeffs[i]), alpha) by {
        crate::rounding::lemma_high_bits_caddq(y.vec[k].coeffs[i] as int, z.vec[k].coeffs[i] as int, alpha);
    }
}

} // verus!
