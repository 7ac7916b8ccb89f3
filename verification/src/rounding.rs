use vstd::prelude::*;
use crate::params::{D, GAMMA2_I32, Q_I32};

verus! {

/// Rounding range of the standard decomposition: 2 * GAMMA2.
pub const ALPHA: i32 = 523776;
/// Rounding range of the scaled decomposition: 4 * GAMMA2.
pub const ALPHA_SCALED: i32 = 1047552;

/// The representative of `a` modulo `alpha` in `(-alpha/2, alpha/2]`.
pub open spec fn cmod(a: int, alpha: int) -> int {
    if a % alpha > alpha / 2 {
        a % alpha - alpha
    } else {
        a % alpha
    }
}

/// High part of `a` for the range `alpha`: `a = high * alpha + low`, except
/// that the top value `(Q - 1) / alpha` wraps to 0 and the low part then is
/// `a - Q`.
pub open spec fn high_bits(a: int, alpha: int) -> int {
    let r0 = cmod(a, alpha);
    if a - r0 == Q_I32 - 1 {
        0
    } else {
        (a - r0) / alpha
    }
}

/// Low part of `a` for the range `alpha` (see `high_bits`).
pub open spec fn low_bits(a: int, alpha: int) -> int {
    let r0 = cmod(a, alpha);
    if a - r0 == Q_I32 - 1 {
        r0 - 1
    } else {
        r0
    }
}

/// `a` taken modulo Q into `[0, Q)`.
pub open spec fn mod_q(a: int) -> int {
    a % (Q_I32 as int)
}

/// The high part of `r`, moved one step in the direction of the low part
/// when the hint is set, cyclically among the `(Q - 1) / alpha` values.
pub open spec fn use_hint_spec(r: int, hint: int, alpha: int) -> int {
    let m = (Q_I32 - 1) / alpha;
    if hint == 0 {
        high_bits(r, alpha)
    } else if low_bits(r, alpha) > 0 {
        (high_bits(r, alpha) + 1) % m
    } else {
        (high_bits(r, alpha) - 1) % m
    }
}

/// Whether adding `z` to `r` (modulo Q) changes the high part of `r`.
pub open spec fn make_hint_spec(z: int, r: int, alpha: int) -> bool {
    high_bits(r, alpha) != high_bits(mod_q(r + z), alpha)
}

/// Whether the low part `a0` (with high part `a1`) of a value lies outside
/// the range that keeps the high part stable.
pub open spec fn low_overflows(a0: int, a1: int) -> bool {
    a0 > GAMMA2_I32 || a0 < -GAMMA2_I32 || (a0 == -GAMMA2_I32 && a1 != 0)
}

/// The high part of `a` for `power2round`: `a = a1 * 2^D + a0` with
/// `-2^(D-1) < a0 <= 2^(D-1)`.
pub open spec fn power2round_high(a: int) -> int {
    (a + 4095) / 8192
}

proof fn lemma_sign_mask(x: i32)
    ensures
        ((x >> 31i32) & Q_I32) == (if x < 0 { Q_I32 } else { 0i32 }),
{
    assert(((x >> 31i32) & 8380417i32) == (if x < 0 { 8380417i32 } else { 0i32 })) by (bit_vector);
}

proof fn lemma_decompose_bits(a: i32)
    requires
        0 <= a < Q_I32,
    ensures
        ((((((a + 127) as i32) >> 7i32) * 1025 + 2097152) as i32 >> 22i32) & 15i32) as int
            == ((a + 261887) / 523776) % 16,
        0 <= (((a + 127) as i32) >> 7i32) <= 65472,
{
    assert(0 <= a < 8380417 ==> ((((((a + 127) as i32) >> 7i32) * 1025 + 2097152) as i32
        >> 22i32) & 15i32) as int == ((a + 261887) / 523776) % 16) by (bit_vector);
    assert(0 <= a < 8380417 ==> 0 <= (((a + 127) as i32) >> 7i32) <= 65472) by (bit_vector);
}

/// For a standard representative `a` (in `[0, Q)`), computes `a1`, `a0` with
/// `a = a1 * 2^D + a0` and `-2^(D-1) < a0 <= 2^(D-1)`; returns `a1`.
pub fn power2round(a: i32, a0: &mut i32) -> (a1: i32)
    requires
        0 <= a < Q_I32,
    ensures
        a1 == power2round_high(a as int),
        *final(a0) == a - a1 * 8192,
        a == a1 * 8192 + *final(a0),
        -4096 < *final(a0) <= 4096,
        0 <= a1 < 1024,
{
    assert(0 <= a < 8380417 ==> (((a + 4095) as i32) >> 13i32) == (a + 4095) / 8192) by (bit_vector);
    assert((1i32 << 12usize) == 4096) by (bit_vector);
    let a1 = (a + (1 << (D - 1)) - 1) >> D;
    assert(0 <= a1 < 1024 ==> (a1 << 13i32) == a1 * 8192) by (bit_vector);
    *a0 = a - (a1 << D);
    a1
}

/// For a value of `[0, Q)`, the parts are those of the rounding of `a / alpha`.
proof fn lemma_parts_in_range(a: int, alpha: int)
    requires
        0 <= a < Q_I32,
        alpha == ALPHA || alpha == ALPHA_SCALED,
    ensures
        ({
            let k = (a + alpha / 2 - 1) / alpha;
            &&& cmod(a, alpha) == a - k * alpha
            &&& 0 <= k <= (Q_I32 - 1) / alpha
            &&& (k == (Q_I32 - 1) / alpha ==> high_bits(a, alpha) == 0 && low_bits(a, alpha) == a - Q_I32)
            &&& (k < (Q_I32 - 1) / alpha ==> high_bits(a, alpha) == k && low_bits(a, alpha) == a - k * alpha)
        }),
{
    if alpha == ALPHA {
        let k = (a + 261887) / 523776;
        assert(a % 523776 == a - (a / 523776) * 523776);
        assert(cmod(a, alpha) == a - k * alpha);
    } else {
        let k = (a + 523775) / 1047552;
        assert(a % 1047552 == a - (a / 1047552) * 1047552);
        assert(cmod(a, alpha) == a - k * alpha);
    }
}

/// For a standard representative `a`, computes the high part `a1` and the
/// low part `a0` for the range `2 * GAMMA2` (see `high_bits`); returns `a1`.
pub fn decompose(a0: &mut i32, a: i32) -> (a1: i32)
    requires
        0 <= a < Q_I32,
    ensures
        a1 == high_bits(a as int, ALPHA as int),
        *final(a0) == low_bits(a as int, ALPHA as int),
        0 <= a1 < 16,
        mod_q(a1 * ALPHA + *final(a0)) == a,
        -(ALPHA / 2) <= *final(a0) <= ALPHA / 2,
        *final(a0) == -(ALPHA / 2) ==> a1 == 0,
{
    proof {
        lemma_decomposition_recomposes(a as int, ALPHA as int);
        lemma_decompose_bits(a);
        lemma_parts_in_range(a as int, ALPHA as int);
    }
    let mut a1 = (a + 127) >> 7;
    assert((1i32 << 21usize) == 2097152) by (bit_vector);
    a1 = (a1 * 1025 + (1 << 21)) >> 22;
    a1 &= 15;
    *a0 = a - a1 * 2 * GAMMA2_I32;
    proof {
        lemma_sign_mask(((Q_I32 - 1) / 2 - *a0) as i32);
    }
    *a0 -= (((Q_I32 - 1) / 2 - *a0) >> 31) & Q_I32;
    a1
}

proof fn lemma_and_15(x: i32)
    requires
        -1 <= x <= 16,
    ensures
        (x & 15i32) as int == (x as int) % 16,
{
    assert(-1 <= x <= 16 ==> (x & 15i32) as int == (x as int) % 16) by (bit_vector);
}

/// Returns 1 exactly when the low part `a0` (of a value with high part `a1`)
/// makes the high part change.
pub fn make_hint(a0: i32, a1: i32) -> (h: u8)
    ensures
        h == (if low_overflows(a0 as int, a1 as int) { 1u8 } else { 0u8 }),
{
    if a0 > GAMMA2_I32 || a0 < -GAMMA2_I32 || (a0 == -GAMMA2_I32 && a1 != 0) {
        return 1;
    }
    return 0;
}

/// Corrects the high part of a standard representative `a` according to
/// `hint` (any nonzero hint counts as set).
pub fn use_hint(a: i32, hint: u8) -> (r: i32)
    requires
        0 <= a < Q_I32,
    ensures
        r == use_hint_spec(a as int, hint as int, ALPHA as int),
        0 <= r < 16,
{
    let mut a0 = 0i32;
    let a1 = decompose(&mut a0, a);
    proof {
        lemma_parts_in_range(a as int, ALPHA as int);
    }
    if hint == 0 {
        return a1;
    }
    if a0 > 0 {
        proof {
            lemma_and_15((a1 + 1) as i32);
        }
        return (a1 + 1) & 15;
    } else {
        proof {
            lemma_and_15((a1 - 1) as i32);
        }
        return (a1 - 1) & 15;
    }
}

/// The remainder `r` of `a` by `m > 0` rounded toward zero is the Euclidean
/// remainder, or that minus `m`.
proof fn lemma_trunc_rem(a: int, m: int, r: int)
    requires
        m > 0,
        a >= 0 ==> r == a % m,
        a < 0 ==> r == -((-a) % m),
    ensures
        r == a % m || r == a % m - m,
{
    if a < 0 {
        let x = -a;
        let t = x % m;
        vstd::arithmetic::div_mod::lemma_fundamental_div_mod(x, m);
        vstd::arithmetic::div_mod::lemma_mod_pos_bound(x, m);
        assert(a == m * (-(x / m)) + (-t)) by (nonlinear_arith)
            requires
                x == m * (x / m) + t,
                a == -x,
        ;
        vstd::arithmetic::div_mod::lemma_mod_multiples_vanish(-(x / m), -t, m);
        assert(a % m == (-t) % m);
        if t == 0 {
            vstd::arithmetic::div_mod::lemma_small_mod(0, m as nat);
            assert(a % m == 0);
        } else {
            vstd::arithmetic::div_mod::lemma_mod_multiples_vanish(-1, m - t, m);
            vstd::arithmetic::div_mod::lemma_small_mod((m - t) as nat, m as nat);
            assert(m * (-1) + (m - t) == -t);
            assert(a % m == m - t);
        }
    }
}

/// The quotient `d` of a multiple `x` of `m > 0` by `m`, rounded toward
/// zero, is the Euclidean quotient.
proof fn lemma_trunc_div_exact(x: int, m: int, d: int)
    requires
        m > 0,
        x % m == 0,
        x >= 0 ==> d == x / m,
        x < 0 ==> d == -((-x) / m),
    ensures
        d == x / m,
{
    if x < 0 {
        vstd::arithmetic::div_mod::lemma_fundamental_div_mod(x, m);
        let k = x / m;
        assert(-x == m * (-k)) by (nonlinear_arith)
            requires
                x == m * k + 0,
        ;
        vstd::arithmetic::div_mod::lemma_div_multiples_vanish(-k, m);
        assert((-x) / m == -k);
    }
}

/// Decomposition for the range `4 * GAMMA2`: returns the high part and
/// writes the low part (see `high_bits`).
#[verifier::spinoff_prover]
#[verifier::rlimit(40)]
pub fn decompose_scaled(a0: &mut i32, a: i32) -> (a1: i32)
    requires
        i32::MIN <= a - cmod(a as int, ALPHA_SCALED as int) <= i32::MAX,
    ensures
        a1 == high_bits(a as int, ALPHA_SCALED as int),
        *final(a0) == low_bits(a as int, ALPHA_SCALED as int),
{
    let mut r0 = a % ALPHA_SCALED;
    proof {
        lemma_trunc_rem(a as int, ALPHA_SCALED as int, r0 as int);
    }
    if r0 > ALPHA_SCALED / 2 {
        r0 -= ALPHA_SCALED;
    } else if r0 <= -ALPHA_SCALED / 2 {
        r0 += ALPHA_SCALED;
    }
    assert(r0 == cmod(a as int, ALPHA_SCALED as int));
    let r1: i32;
    if a - r0 == Q_I32 - 1 {
        r1 = 0;
        r0 -= 1;
    } else {
        proof {
            vstd::arithmetic::div_mod::lemma_fundamental_div_mod(a as int, ALPHA_SCALED as int);
            let k = (a as int) / (ALPHA_SCALED as int);
            if (a as int) % (ALPHA_SCALED as int) > ALPHA_SCALED / 2 {
                assert(a - r0 == ALPHA_SCALED * (k + 1));
                vstd::arithmetic::div_mod::lemma_mod_multiples_basic(k + 1, ALPHA_SCALED as int);
            } else {
                assert(a - r0 == ALPHA_SCALED * k);
                vstd::arithmetic::div_mod::lemma_mod_multiples_basic(k, ALPHA_SCALED as int);
            }
        }
        r1 = (a - r0) / ALPHA_SCALED;
        proof {
            lemma_trunc_div_exact((a - r0) as int, ALPHA_SCALED as int, r1 as int);
        }
    }
    *a0 = r0;
    r1
}

/// Bound on the high part of any `i32` value that `decompose_scaled` or
/// `decompose_simple` accepts.
proof fn lemma_high_bits_small(a: int, alpha: int)
    requires
        alpha == ALPHA || alpha == ALPHA_SCALED,
        i32::MIN <= a - cmod(a, alpha) <= i32::MAX,
    ensures
        -4200 <= high_bits(a, alpha) <= 4200,
{
}

/// The high part, for the range `4 * GAMMA2`, corrected according to
/// `hint` (any nonzero hint counts as set), among the 8 possible values.
pub fn use_hint_scaled(a: i32, hint: u8) -> (r: i32)
    requires
        i32::MIN <= a - cmod(a as int, ALPHA_SCALED as int) <= i32::MAX,
    ensures
        r == use_hint_spec(a as int, hint as int, ALPHA_SCALED as int),
        0 <= a < Q_I32 ==> 0 <= r < 8,
{
    let mut a0 = 0i32;
    let a1 = decompose_scaled(&mut a0, a);
    proof {
        lemma_high_bits_small(a as int, ALPHA_SCALED as int);
    }
    if hint == 0 {
        proof {
            if 0 <= a < Q_I32 {
                lemma_parts_in_range(a as int, ALPHA_SCALED as int);
            }
        }
        return a1;
    }
    let m: i32 = 8;
    if a0 > 0 {
        return (((a1 + 1) % m) + m) % m;
    } else {
        return (((a1 - 1) % m) + m) % m;
    }
}

/// Returns 1 exactly when adding `a0` to `a1` (modulo Q) changes the high
/// part of `a1` for the range `4 * GAMMA2`.
pub fn make_hint_scaled(a0: i32, a1: i32) -> (h: u8)
    requires
        i32::MIN <= a1 + a0 <= i32::MAX,
        i32::MIN <= a1 - cmod(a1 as int, ALPHA_SCALED as int) <= i32::MAX,
    ensures
        h == (if make_hint_spec(a0 as int, a1 as int, ALPHA_SCALED as int) { 1u8 } else { 0u8 }),
{
    let z = a0;
    let r = a1;
    let r_z: i32 = (((r + z) % Q_I32) + Q_I32) % Q_I32;
    assert(r_z == mod_q(r + z));
    let mut r_z_l: i32 = 0;
    let r_z_h = decompose_scaled(&mut r_z_l, r_z);
    let mut r_l: i32 = 0;
    let r_h = decompose_scaled(&mut r_l, r);
    if r_h != r_z_h { 1 } else { 0 }
}

/// Decomposition for the range `2 * GAMMA2` of a nonnegative `a`: returns
/// the high part and writes the low part (see `high_bits`).
#[verifier::spinoff_prover]
#[verifier::rlimit(40)]
pub fn decompose_simple(a0: &mut i32, a: i32) -> (a1: i32)
    requires
        a >= 0,
        a - cmod(a as int, ALPHA as int) <= i32::MAX,
    ensures
        a1 == high_bits(a as int, ALPHA as int),
        *final(a0) == low_bits(a as int, ALPHA as int),
{
    let mut r0 = a % ALPHA;
    assert(r0 == (a as int) % (ALPHA as int));
    if r0 > ALPHA / 2 {
        r0 -= ALPHA;
    } else if r0 <= -ALPHA / 2 {
        r0 += ALPHA;
    }
    assert(r0 == cmod(a as int, ALPHA as int));
    let r1: i32;
    if a - r0 == Q_I32 - 1 {
        r1 = 0;
        r0 -= 1;
    } else {
        proof {
            vstd::arithmetic::div_mod::lemma_fundamental_div_mod(a as int, ALPHA as int);
            vstd::arithmetic::div_mod::lemma_div_pos_is_pos(a as int, ALPHA as int);
            vstd::arithmetic::mul::lemma_mul_nonnegative(ALPHA as int, (a as int) / (ALPHA as int));
        }
        r1 = (a - r0) / ALPHA;
    }
    *a0 = r0;
    r1
}

/// The high part, for the range `2 * GAMMA2`, corrected according to the
/// hint bit, among the 16 possible values.
pub fn use_hint_simple(a: i32, hint: u8) -> (r: i32)
    requires
        hint == 0 || hint == 1,
        a >= 0,
        a - cmod(a as int, ALPHA as int) <= i32::MAX,
    ensures
        r == use_hint_spec(a as int, hint as int, ALPHA as int),
        a < Q_I32 ==> 0 <= r < 16,
{
    let mut a0 = 0i32;
    let a1 = decompose_simple(&mut a0, a);
    proof {
        lemma_high_bits_small(a as int, ALPHA as int);
    }
    if hint == 0 {
        proof {
            if a < Q_I32 {
                lemma_parts_in_range(a as int, ALPHA as int);
            }
        }
        return a1;
    }
    let m: i32 = 16;
    if a0 > 0 {
        return (((a1 + 1) % m) + m) % m;
    } else {
        return (((a1 - 1) % m) + m) % m;
    }
}

/// Returns 1 exactly when adding `a0` to the nonnegative `a1` (modulo Q)
/// changes the high part of `a1` for the range `2 * GAMMA2`.
pub fn make_hint_simple(a0: i32, a1: i32) -> (h: u8)
    requires
        a1 >= 0,
        a1 + a0 <= i32::MAX,
        a1 - cmod(a1 as int, ALPHA as int) <= i32::MAX,
    ensures
        h == (if make_hint_spec(a0 as int, a1 as int, ALPHA as int) { 1u8 } else { 0u8 }),
{
    let z = a0;
    let r = a1;
    let r_z: i32 = (((r + z) % Q_I32) + Q_I32) % Q_I32;
    assert(r_z == mod_q(r + z));
    let mut r_z_l: i32 = 0;
    let r_z_h = decompose_simple(&mut r_z_l, r_z);
    let mut r_l: i32 = 0;
    let r_h = decompose_simple(&mut r_l, r);
    if r_h != r_z_h { 1 } else { 0 }
}

proof fn lemma_hint_cases_standard(z: int, r: int)
    requires
        0 <= r < Q_I32,
        -261888 <= z <= 261888,
    ensures
        use_hint_spec(r, if make_hint_spec(z, r, 523776) { 1 } else { 0 }, 523776)
            == high_bits(mod_q(r + z), 523776),
{
    let y = mod_q(r + z);
    lemma_parts_in_range(r, 523776);
    lemma_parts_in_range(y, 523776);
    let kr = (r + 261888 - 1) / 523776;
    let ky = (y + 261888 - 1) / 523776;
    let cr = r - kr * 523776;
    let cy = y - ky * 523776;
    assert(-261888 < cr <= 261888);
    assert(-261888 < cy <= 261888);
    if r + z < 0 {
        assert(y == r + z + Q_I32);
        assert(kr == 0);
        assert(ky == 16);
    } else if r + z >= Q_I32 {
        assert(y == r + z - Q_I32);
        assert(kr == 16);
        assert(ky == 0);
    } else {
        assert(y == r + z);
        assert((ky - kr) * 523776 == cr + z - cy);
        assert(-1 <= ky - kr <= 1);
        if ky == kr + 1 {
            assert(cr > 0);
            assert(kr < 16);
            assert(high_bits(r, 523776) == kr && low_bits(r, 523776) == cr);
            if ky == 16 {
                assert(high_bits(y, 523776) == 0);
                assert((kr + 1) % 16 == 0);
            } else {
                assert(high_bits(y, 523776) == ky);
                assert((kr + 1) % 16 == kr + 1);
            }
        } else if ky == kr - 1 {
            assert(cr <= 0);
            assert(ky < 16);
            assert(high_bits(y, 523776) == ky);
            if kr == 16 {
                assert(high_bits(r, 523776) == 0);
                assert(low_bits(r, 523776) < 0);
                assert((0 - 1) % 16 == 16 - 1);
            } else {
                assert(high_bits(r, 523776) == kr && low_bits(r, 523776) == cr);
                assert((kr - 1) % 16 == kr - 1);
            }
        } else {
            assert(high_bits(y, 523776) == high_bits(r, 523776));
        }
    }
}

proof fn lemma_hint_cases_scaled(z: int, r: int)
    requires
        0 <= r < Q_I32,
        -523776 <= z <= 523776,
    ensures
        use_hint_spec(r, if make_hint_spec(z, r, 1047552) { 1 } else { 0 }, 1047552)
            == high_bits(mod_q(r + z), 1047552),
{
    let y = mod_q(r + z);
    lemma_parts_in_range(r, 1047552);
    lemma_parts_in_range(y, 1047552);
    let kr = (r + 523776 - 1) / 1047552;
    let ky = (y + 523776 - 1) / 1047552;
    let cr = r - kr * 1047552;
    let cy = y - ky * 1047552;
    assert(-523776 < cr <= 523776);
    assert(-523776 < cy <= 523776);
    if r + z < 0 {
        assert(y == r + z + Q_I32);
        assert(kr == 0);
        assert(ky == 8);
    } else if r + z >= Q_I32 {
        assert(y == r + z - Q_I32);
        assert(kr == 8);
        assert(ky == 0);
    } else {
        assert(y == r + z);
        assert((ky - kr) * 1047552 == cr + z - cy);
        assert(-1 <= ky - kr <= 1);
        if ky == kr + 1 {
            assert(cr > 0);
            assert(kr < 8);
            assert(high_bits(r, 1047552) == kr && low_bits(r, 1047552) == cr);
            if ky == 8 {
                assert(high_bits(y, 1047552) == 0);
                assert((kr + 1) % 8 == 0);
            } else {
                assert(high_bits(y, 1047552) == ky);
                assert((kr + 1) % 8 == kr + 1);
            }
        } else if ky == kr - 1 {
            assert(cr <= 0);
            assert(ky < 8);
            assert(high_bits(y, 1047552) == ky);
            if kr == 8 {
                assert(high_bits(r, 1047552) == 0);
                assert(low_bits(r, 1047552) < 0);
                assert((0 - 1) % 8 == 8 - 1);
            } else {
                assert(high_bits(r, 1047552) == kr && low_bits(r, 1047552) == cr);
                assert((kr - 1) % 8 == kr - 1);
            }
        } else {
            assert(high_bits(y, 1047552) == high_bits(r, 1047552));
        }
    }
}

/// Hint correctness: for a standard representative `r` and an offset `z`
/// with `|z| <= alpha / 2`, correcting the high part of `r` with the hint
/// made from `z` and `r` gives the high part of `r + z` (modulo Q).
pub proof fn lemma_use_hint_recovers_high_bits(z: int, r: int, alpha: int)
    requires
        alpha == ALPHA || alpha == ALPHA_SCALED,
        0 <= r < Q_I32,
        -(alpha / 2) <= z <= alpha / 2,
    ensures
        use_hint_spec(r, if make_hint_spec(z, r, alpha) { 1 } else { 0 }, alpha)
            == high_bits(mod_q(r + z), alpha),
{
    if alpha == ALPHA {
        lemma_hint_cases_standard(z, r);
    } else {
        lemma_hint_cases_scaled(z, r);
    }
}

/// Decomposition of a standard representative: the high part is one of the
/// `(Q - 1) / alpha` values, the parts recompose `a` modulo Q, and the low part
/// is centred, reaching `-alpha / 2` only where the high part wrapped to 0.
pub proof fn lemma_decomposition_recomposes(a: int, alpha: int)
    requires
        alpha == ALPHA || alpha == ALPHA_SCALED,
        0 <= a < Q_I32,
    ensures
        0 <= high_bits(a, alpha) < (Q_I32 - 1) / alpha,
        mod_q(high_bits(a, alpha) * alpha + low_bits(a, alpha)) == a,
        -(alpha / 2) <= low_bits(a, alpha) <= alpha / 2,
        low_bits(a, alpha) == -(alpha / 2) ==> high_bits(a, alpha) == 0,
{
    lemma_parts_in_range(a, alpha);
    if alpha == ALPHA {
        let k = (a + 261887) / 523776;
        if k == 16 {
            assert(mod_q(a - Q_I32) == a);
        } else {
            assert(high_bits(a, alpha) * alpha == k * 523776);
        }
    } else {
        let k = (a + 523775) / 1047552;
        if k == 8 {
            assert(mod_q(a - Q_I32) == a);
        } else {
            assert(high_bits(a, alpha) * alpha == k * 1047552);
        }
    }
}

/// The corrected high part of a standard representative, for the range
/// `2 * GAMMA2`, is one of the 16 values.
pub proof fn lemma_use_hint_range(a: int, hint: int)
    requires
        0 <= a < Q_I32,
    ensures
        0 <= use_hint_spec(a, hint, ALPHA as int) < 16,
{
    lemma_decomposition_recomposes(a, ALPHA as int);
}

/// For a standard representative `y` and `|z| <= alpha / 2`, `caddq(y + z)`
/// (which may exceed Q) has the high part of the standard representative of
/// `y + z`.
pub proof fn lemma_high_bits_caddq(y: int, z: int, alpha: int)
    requires
        alpha == ALPHA || alpha == ALPHA_SCALED,
        0 <= y < Q_I32,
        -(alpha / 2) <= z <= alpha / 2,
    ensures
        high_bits(crate::reduce::caddq_spec(y + z), alpha) == high_bits(mod_q(y + z), alpha),
{
    let q = Q_I32 as int;
    let a = y + z;
    if a < 0 {
        vstd::arithmetic::div_mod::lemma_mod_multiples_vanish(1, a, q);
        vstd::arithmetic::div_mod::lemma_small_mod((a + q) as nat, q as nat);
    } else if a < q {
        vstd::arithmetic::div_mod::lemma_small_mod(a as nat, q as nat);
    } else {
        let x = a - q;
        let m = (q - 1) / alpha;
        assert(q == m * alpha + 1);
        vstd::arithmetic::div_mod::lemma_mod_multiples_vanish(1, x, q);
        vstd::arithmetic::div_mod::lemma_small_mod(x as nat, q as nat);
        assert(mod_q(a) == x);
        vstd::arithmetic::div_mod::lemma_mod_multiples_vanish(m, 1 + x, alpha);
        vstd::arithmetic::div_mod::lemma_small_mod((1 + x) as nat, alpha as nat);
        assert(a % alpha == 1 + x);
        assert(cmod(a, alpha) == 1 + x);
        vstd::arithmetic::div_mod::lemma_small_mod(x as nat, alpha as nat);
        assert(cmod(x, alpha) == x);
    }
}


/// The hint marks exactly the low parts that move a high part: for a high
/// part `a1` (one of the 16 values) and a low part `a0` with
/// `|a0| <= 2 * GAMMA2`, `make_hint(a0, a1)` is set if and only if the high
/// part of `a1 * 2 * GAMMA2 + a0` (modulo Q) differs from `a1`. In
/// particular no hint is set for `-GAMMA2 < a0 <= GAMMA2`, whatever `a1`.
pub proof fn lemma_make_hint_marks_high_change(a0: int, a1: int)
    requires
        0 <= a1 < 16,
        -(ALPHA as int) <= a0 <= ALPHA,
    ensures
        low_overflows(a0, a1) == (high_bits(mod_q(a1 * ALPHA + a0), ALPHA as int) != a1),
        -(GAMMA2_I32 as int) < a0 <= GAMMA2_I32 ==> !low_overflows(a0, a1),
{
    let al = ALPHA as int;
    let q = Q_I32 as int;
    let a = a1 * al + a0;
    if a >= 0 {
        vstd::arithmetic::div_mod::lemma_fundamental_div_mod_converse(a, q, 0, a);
        assert(mod_q(a) == a);
        if 0 <= a0 < al {
            vstd::arithmetic::div_mod::lemma_fundamental_div_mod_converse(a, al, a1, a0);
        } else if a0 == al {
            vstd::arithmetic::div_mod::lemma_fundamental_div_mod_converse(a, al, a1 + 1, 0);
        } else {
            vstd::arithmetic::div_mod::lemma_fundamental_div_mod_converse(a, al, a1 - 1, a0 + al);
        }
    } else {
        assert(a1 == 0);
        vstd::arithmetic::div_mod::lemma_fundamental_div_mod_converse(a, q, -1, a + q);
        assert(mod_q(a) == a + q);
        if a0 == -1 {
            vstd::arithmetic::div_mod::lemma_fundamental_div_mod_converse(a + q, al, 16, 0);
        } else {
            vstd::arithmetic::div_mod::lemma_fundamental_div_mod_converse(a + q, al, 15, al + 1 + a0);
        }
    }
}

} // verus!
