use vstd::prelude::*;
use crate::params::{D, N, Q_I32};
use crate::reduce::{caddq, caddq_spec, reduce32, reduce32_spec};
use crate::rounding::{
    decompose, high_bits, low_bits, make_hint_scaled, make_hint_simple, make_hint_spec,
    power2round, power2round_high, use_hint_scaled, use_hint_simple, use_hint_spec,
    decompose_scaled, cmod, ALPHA, ALPHA_SCALED,
};

verus! {

/// A polynomial of the ring, by its `N` coefficients.
#[derive(Copy, Clone)]
pub struct Poly {
    pub coeffs: [i32; N],
}

impl Default for Poly {
    /// The zero polynomial.
    fn default() -> (p: Poly)
        ensures
            forall|i: int| 0 <= i < N ==> #[trigger] p.coeffs[i] == 0,
    {
        Poly { coeffs: [0i32; N] }
    }
}

/// Every coefficient of `p` lies in `[lo, hi]`.
pub open spec fn poly_in_range(p: Poly, lo: int, hi: int) -> bool {
    forall|i: int| 0 <= i < N ==> lo <= #[trigger] p.coeffs[i] <= hi
}

/// Sum of the first `n` coefficients of `p`.
pub open spec fn coeff_sum(p: Poly, n: int) -> int
    decreases n,
{
    if n <= 0 {
        0
    } else {
        coeff_sum(p, n - 1) + p.coeffs[n - 1]
    }
}

/// Some coefficient of `p` has absolute value at least `b`.
pub open spec fn exceeds_norm(p: Poly, b: int) -> bool {
    exists|i: int| 0 <= i < N && (#[trigger] p.coeffs[i] >= b || p.coeffs[i] <= -b)
}

/// Reduces every coefficient with `reduce32`.
pub fn poly_reduce(a: &mut Poly)
    requires
        poly_in_range(*old(a), i32::MIN as int, 2147483647 - 4194304),
    ensures
        forall|i: int| 0 <= i < N ==> #[trigger] final(a).coeffs[i] == reduce32_spec(old(a).coeffs[i] as int),
        poly_in_range(*final(a), -6283009, 6283008),
{
    for i in 0..N
        invariant
            poly_in_range(*old(a), i32::MIN as int, 2147483647 - 4194304),
            forall|j: int| 0 <= j < i ==> #[trigger] a.coeffs[j] == reduce32_spec(old(a).coeffs[j] as int),
            forall|j: int| 0 <= j < i ==> -6283009 <= #[trigger] a.coeffs[j] <= 6283008,
            forall|j: int| i <= j < N ==> #[trigger] a.coeffs[j] == old(a).coeffs[j],
    {
        a.coeffs[i] = reduce32(a.coeffs[i]);
    }
}

/// Adds Q to every negative coefficient.
pub fn poly_caddq(a: &mut Poly)
    ensures
        forall|i: int| 0 <= i < N ==> #[trigger] final(a).coeffs[i] == caddq_spec(old(a).coeffs[i] as int),
{
    for i in 0..N
        invariant
            forall|j: int| 0 <= j < i ==> #[trigger] a.coeffs[j] == caddq_spec(old(a).coeffs[j] as int),
            forall|j: int| i <= j < N ==> #[trigger] a.coeffs[j] == old(a).coeffs[j],
    {
        a.coeffs[i] = caddq(a.coeffs[i]);
    }
}

/// Adds `b` to `c` coefficient by coefficient, with no reduction.
pub fn poly_add(c: &mut Poly, b: &Poly)
    requires
        forall|i: int| 0 <= i < N ==> i32::MIN <= #[trigger] old(c).coeffs[i] + b.coeffs[i] <= i32::MAX,
    ensures
        forall|i: int| 0 <= i < N ==> #[trigger] final(c).coeffs[i] == old(c).coeffs[i] + b.coeffs[i],
{
    for i in 0..N
        invariant
            forall|j: int| 0 <= j < N ==> i32::MIN <= #[trigger] old(c).coeffs[j] + b.coeffs[j] <= i32::MAX,
            forall|j: int| 0 <= j < i ==> #[trigger] c.coeffs[j] == old(c).coeffs[j] + b.coeffs[j],
            forall|j: int| i <= j < N ==> #[trigger] c.coeffs[j] == old(c).coeffs[j],
    {
        c.coeffs[i] = c.coeffs[i] + b.coeffs[i];
    }
}

/// Subtracts `b` from `c` coefficient by coefficient, with no reduction.
pub fn poly_sub(c: &mut Poly, b: &Poly)
    requires
        forall|i: int| 0 <= i < N ==> i32::MIN <= #[trigger] old(c).coeffs[i] - b.coeffs[i] <= i32::MAX,
    ensures
        forall|i: int| 0 <= i < N ==> #[trigger] final(c).coeffs[i] == old(c).coeffs[i] - b.coeffs[i],
{
    for i in 0..N
        invariant
            forall|j: int| 0 <= j < N ==> i32::MIN <= #[trigger] old(c).coeffs[j] - b.coeffs[j] <= i32::MAX,
            forall|j: int| 0 <= j < i ==> #[trigger] c.coeffs[j] == old(c).coeffs[j] - b.coeffs[j],
            forall|j: int| i <= j < N ==> #[trigger] c.coeffs[j] == old(c).coeffs[j],
    {
        c.coeffs[i] = c.coeffs[i] - b.coeffs[i];
    }
}

/// Shifts every coefficient left by `D` bits (a multiplication by `2^D`
/// where it does not overflow), with no reduction.
pub fn poly_shiftl(a: &mut Poly)
    ensures
        forall|i: int| 0 <= i < N ==> #[trigger] final(a).coeffs[i] == old(a).coeffs[i] << 13i32,
        forall|i: int| 0 <= i < N && -262144 <= old(a).coeffs[i] <= 262143 ==> #[trigger] final(a).coeffs[i] == old(a).coeffs[i] * 8192,
{
    for i in 0..N
        invariant
            forall|j: int| 0 <= j < i ==> #[trigger] a.coeffs[j] == old(a).coeffs[j] << 13i32,
            forall|j: int| 0 <= j < i && -262144 <= old(a).coeffs[j] <= 262143 ==> #[trigger] a.coeffs[j] == old(a).coeffs[j] * 8192,
            forall|j: int| i <= j < N ==> #[trigger] a.coeffs[j] == old(a).coeffs[j],
    {
        let x = a.coeffs[i];
        assert(-262144 <= x <= 262143 ==> (x << 13i32) == x * 8192) by (bit_vector);
        a.coeffs[i] = x << D;
    }
}

/// Splits every coefficient `c` (a standard representative) of `a1` into
/// `c = c1 * 2^D + c0`; `a1` receives the `c1`, `a0` the `c0`.
pub fn poly_power2round(a1: &mut Poly, a0: &mut Poly)
    requires
        poly_in_range(*old(a1), 0, Q_I32 - 1),
    ensures
        forall|i: int| 0 <= i < N ==> #[trigger] final(a1).coeffs[i] == power2round_high(old(a1).coeffs[i] as int),
        forall|i: int| 0 <= i < N ==> #[trigger] final(a0).coeffs[i] == old(a1).coeffs[i] - final(a1).coeffs[i] * 8192,
        poly_in_range(*final(a1), 0, 1023),
        poly_in_range(*final(a0), -4095, 4096),
{
    for i in 0..N
        invariant
            poly_in_range(*old(a1), 0, Q_I32 - 1),
            forall|j: int| 0 <= j < i ==> #[trigger] a1.coeffs[j] == power2round_high(old(a1).coeffs[j] as int),
            forall|j: int| 0 <= j < i ==> #[trigger] a0.coeffs[j] == old(a1).coeffs[j] - a1.coeffs[j] * 8192,
            forall|j: int| 0 <= j < i ==> 0 <= #[trigger] a1.coeffs[j] <= 1023,
            forall|j: int| 0 <= j < i ==> -4095 <= #[trigger] a0.coeffs[j] <= 4096,
            forall|j: int| i <= j < N ==> #[trigger] a1.coeffs[j] == old(a1).coeffs[j],
    {
        let mut low: i32 = 0;
        let high = power2round(a1.coeffs[i], &mut low);
        a1.coeffs[i] = high;
        a0.coeffs[i] = low;
    }
}

/// Splits every coefficient (a standard representative) of `a1` into its
/// high part (left in `a1`) and low part (written to `a0`) for the range
/// `2 * GAMMA2`.
pub fn poly_decompose(a1: &mut Poly, a0: &mut Poly)
    requires
        poly_in_range(*old(a1), 0, Q_I32 - 1),
    ensures
        forall|i: int| 0 <= i < N ==> #[trigger] final(a1).coeffs[i] == high_bits(old(a1).coeffs[i] as int, ALPHA as int),
        forall|i: int| 0 <= i < N ==> #[trigger] final(a0).coeffs[i] == low_bits(old(a1).coeffs[i] as int, ALPHA as int),
        poly_in_range(*final(a1), 0, 15),
{
    for i in 0..N
        invariant
            poly_in_range(*old(a1), 0, Q_I32 - 1),
            forall|j: int| 0 <= j < i ==> #[trigger] a1.coeffs[j] == high_bits(old(a1).coeffs[j] as int, ALPHA as int),
            forall|j: int| 0 <= j < i ==> #[trigger] a0.coeffs[j] == low_bits(old(a1).coeffs[j] as int, ALPHA as int),
            forall|j: int| 0 <= j < i ==> 0 <= #[trigger] a1.coeffs[j] <= 15,
            forall|j: int| i <= j < N ==> #[trigger] a1.coeffs[j] == old(a1).coeffs[j],
    {
        let mut low: i32 = 0;
        let high = decompose(&mut low, a1.coeffs[i]);
        a1.coeffs[i] = high;
        a0.coeffs[i] = low;
    }
}

/// Returns 1 when `b` exceeds `(Q - 1) / 8` or some coefficient of `a` has
/// absolute value at least `b`, and 0 otherwise.
pub fn poly_chknorm(a: &Poly, b: i32) -> (r: u8)
    requires
        poly_in_range(*a, -1073741823, 1073741823),
    ensures
        r == (if b > (Q_I32 - 1) / 8 || exceeds_norm(*a, b as int) { 1u8 } else { 0u8 }),
{
    if b > (Q_I32 - 1) / 8 {
        return 1;
    }
    for i in 0..N
        invariant
            poly_in_range(*a, -1073741823, 1073741823),
            b <= (Q_I32 - 1) / 8,
            forall|j: int| 0 <= j < i ==> -b < #[trigger] a.coeffs[j] < b,
    {
        let c = a.coeffs[i];
        let mut t = c >> 31;
        assert(-1073741823 <= c <= 1073741823 ==> (c - ((c >> 31i32) & (2 * c) as i32)) as int
            == (if c < 0 { -c } else { c as int })) by (bit_vector);
        t = c - (t & 2 * c);
        if t >= b {
            return 1;
        }
    }
    0
}

/// Sum of the hint bits of `hint` over its first `n` coefficients: the
/// value `poly_make_hint_*` returns.
pub open spec fn hint_weight(hint: Poly, n: int) -> int {
    coeff_sum(hint, n)
}

/// Preconditions of the hint and decomposition functions for the range
/// `2 * GAMMA2` on a coefficient pair.
pub open spec fn simple_hint_args(z: int, y: int) -> bool {
    &&& y >= 0
    &&& y + z <= i32::MAX
    &&& y - cmod(y, ALPHA as int) <= i32::MAX
}

/// Computes the hints of the pairs `(z[i], y[i])` for the range `2 * GAMMA2`
/// and returns their number.
pub fn poly_make_hint_simple(hint: &mut Poly, z: &Poly, y: &Poly) -> (s: i32)
    requires
        forall|i: int| 0 <= i < N ==> simple_hint_args(#[trigger] z.coeffs[i] as int, y.coeffs[i] as int),
    ensures
        forall|i: int| 0 <= i < N ==> #[trigger] final(hint).coeffs[i]
            == (if make_hint_spec(z.coeffs[i] as int, y.coeffs[i] as int, ALPHA as int) { 1int } else { 0int }),
        s == hint_weight(*final(hint), N as int),
        0 <= s <= N,
{
    let mut s: i32 = 0;
    for i in 0..N
        invariant
            forall|j: int| 0 <= j < N ==> simple_hint_args(#[trigger] z.coeffs[j] as int, y.coeffs[j] as int),
            forall|j: int| 0 <= j < i ==> #[trigger] hint.coeffs[j]
                == (if make_hint_spec(z.coeffs[j] as int, y.coeffs[j] as int, ALPHA as int) { 1int } else { 0int }),
            s == coeff_sum(*hint, i as int),
            0 <= s <= i,
    {
        let h = make_hint_simple(z.coeffs[i], y.coeffs[i]) as i32;
        let ghost before = *hint;
        hint.coeffs[i] = h;
        assert(coeff_sum(*hint, i as int) == coeff_sum(before, i as int)) by {
            lemma_coeff_sum_prefix(*hint, before, i as int);
        }
        s += h;
    }
    s
}

/// Sums of equal prefixes are equal.
proof fn lemma_coeff_sum_prefix(p: Poly, q: Poly, n: int)
    requires
        0 <= n <= N,
        forall|j: int| 0 <= j < n ==> #[trigger] p.coeffs[j] == q.coeffs[j],
    ensures
        coeff_sum(p, n) == coeff_sum(q, n),
    decreases n,
{
    if n > 0 {
        lemma_coeff_sum_prefix(p, q, n - 1);
    }
}

/// Corrects the high parts (range `2 * GAMMA2`) of the coefficients of `y`
/// with the hints in `hint`, into `high`.
pub fn poly_use_hint_simple(high: &mut Poly, hint: &Poly, y: &Poly)
    requires
        poly_in_range(*hint, 0, 1),
        poly_in_range(*y, 0, Q_I32 - 1),
    ensures
        forall|i: int| 0 <= i < N ==> #[trigger] final(high).coeffs[i]
            == use_hint_spec(y.coeffs[i] as int, hint.coeffs[i] as int, ALPHA as int),
{
    for i in 0..N
        invariant
            poly_in_range(*hint, 0, 1),
            poly_in_range(*y, 0, Q_I32 - 1),
            forall|j: int| 0 <= j < i ==> #[trigger] high.coeffs[j]
                == use_hint_spec(y.coeffs[j] as int, hint.coeffs[j] as int, ALPHA as int),
    {
        high.coeffs[i] = use_hint_simple(y.coeffs[i], hint.coeffs[i] as u8);
    }
}

/// Preconditions of the scaled hint and decomposition functions (range
/// `4 * GAMMA2`) on a coefficient pair.
pub open spec fn scaled_hint_args(z: int, y: int) -> bool {
    &&& i32::MIN <= y + z <= i32::MAX
    &&& i32::MIN <= y - cmod(y, ALPHA_SCALED as int) <= i32::MAX
}

/// Computes the hints of the pairs `(z[i], y[i])` for the range `4 * GAMMA2`
/// and returns their number.
pub fn poly_make_hint_scaled(hint: &mut Poly, z: &Poly, y: &Poly) -> (s: i32)
    requires
        forall|i: int| 0 <= i < N ==> scaled_hint_args(#[trigger] z.coeffs[i] as int, y.coeffs[i] as int),
    ensures
        forall|i: int| 0 <= i < N ==> #[trigger] final(hint).coeffs[i]
            == (if make_hint_spec(z.coeffs[i] as int, y.coeffs[i] as int, ALPHA_SCALED as int) { 1int } else { 0int }),
        s == hint_weight(*final(hint), N as int),
        0 <= s <= N,
{
    let mut s: i32 = 0;
    for i in 0..N
        invariant
            forall|j: int| 0 <= j < N ==> scaled_hint_args(#[trigger] z.coeffs[j] as int, y.coeffs[j] as int),
            forall|j: int| 0 <= j < i ==> #[trigger] hint.coeffs[j]
                == (if make_hint_spec(z.coeffs[j] as int, y.coeffs[j] as int, ALPHA_SCALED as int) { 1int } else { 0int }),
            s == coeff_sum(*hint, i as int),
            0 <= s <= i,
    {
        let h = make_hint_scaled(z.coeffs[i], y.coeffs[i]) as i32;
        let ghost before = *hint;
        hint.coeffs[i] = h;
        assert(coeff_sum(*hint, i as int) == coeff_sum(before, i as int)) by {
            lemma_coeff_sum_prefix(*hint, before, i as int);
        }
        s += h;
    }
    s
}

/// Corrects the high parts (range `4 * GAMMA2`) of the coefficients of `y`
/// with the hints in `hint` (each taken as a byte), into `high`.
pub fn poly_use_hint_scaled(high: &mut Poly, hint: &Poly, y: &Poly)
    requires
        forall|i: int| 0 <= i < N ==> i32::MIN <= #[trigger] y.coeffs[i] - cmod(y.coeffs[i] as int, ALPHA_SCALED as int) <= i32::MAX,
    ensures
        forall|i: int| 0 <= i < N ==> #[trigger] final(high).coeffs[i]
            == use_hint_spec(y.coeffs[i] as int, (hint.coeffs[i] as u8) as int, ALPHA_SCALED as int),
{
    for i in 0..N
        invariant
            forall|j: int| 0 <= j < N ==> i32::MIN <= #[trigger] y.coeffs[j] - cmod(y.coeffs[j] as int, ALPHA_SCALED as int) <= i32::MAX,
            forall|j: int| 0 <= j < i ==> #[trigger] high.coeffs[j]
                == use_hint_spec(y.coeffs[j] as int, (hint.coeffs[j] as u8) as int, ALPHA_SCALED as int),
    {
        high.coeffs[i] = use_hint_scaled(y.coeffs[i], hint.coeffs[i] as u8);
    }
}

/// Splits every coefficient of `y` into its high part (into `high`) and low
/// part (into `low`) for the range `4 * GAMMA2`.
pub fn poly_decompose_scaled(high: &mut Poly, low: &mut Poly, y: &Poly)
    requires
        forall|i: int| 0 <= i < N ==> i32::MIN <= #[trigger] y.coeffs[i] - cmod(y.coeffs[i] as int, ALPHA_SCALED as int) <= i32::MAX,
    ensures
        forall|i: int| 0 <= i < N ==> #[trigger] final(high).coeffs[i] == high_bits(y.coeffs[i] as int, ALPHA_SCALED as int),
        forall|i: int| 0 <= i < N ==> #[trigger] final(low).coeffs[i] == low_bits(y.coeffs[i] as int, ALPHA_SCALED as int),
{
    for i in 0..N
        invariant
            forall|j: int| 0 <= j < N ==> i32::MIN <= #[trigger] y.coeffs[j] - cmod(y.coeffs[j] as int, ALPHA_SCALED as int) <= i32::MAX,
            forall|j: int| 0 <= j < i ==> #[trigger] high.coeffs[j] == high_bits(y.coeffs[j] as int, ALPHA_SCALED as int),
            forall|j: int| 0 <= j < i ==> #[trigger] low.coeffs[j] == low_bits(y.coeffs[j] as int, ALPHA_SCALED as int),
    {
        let mut coeff_low: i32 = 0;
        let coeff_high = decompose_scaled(&mut coeff_low, y.coeffs[i]);
        high.coeffs[i] = coeff_high;
        low.coeffs[i] = coeff_low;
    }
}

} // verus!
