use vstd::prelude::*;
use crate::params::Q_I32;
use crate::rounding::mod_q;

verus! {

/// The value `reduce32` computes.
pub open spec fn reduce32_spec(a: int) -> int {
    a - ((a + 4194304) / 8388608) * Q_I32
}

/// The value `caddq` computes.
pub open spec fn caddq_spec(a: int) -> int {
    if a < 0 { a + Q_I32 } else { a }
}

/// For `a <= 2^31 - 2^22 - 1`, computes `r` congruent to `a` modulo Q with
/// `-6283009 <= r <= 6283008`.
pub fn reduce32(a: i32) -> (r: i32)
    requires
        a <= 2147483647 - 4194304,
    ensures
        r == reduce32_spec(a as int),
        mod_q(r as int) == mod_q(a as int),
        -6283009 <= r <= 6283008,
        -4194304 <= a <= 4194303 ==> r == a,
{
    assert((1i32 << 22usize) == 4194304) by (bit_vector);
    assert(a <= 2143289343 ==> (((a + 4194304) as i32) >> 23i32) == (a + 4194304) / 8388608)
        by (bit_vector);
    let mut t = (a + (1 << 22)) >> 23;
    t = a - t * Q_I32;
    proof {
        let k = (a + 4194304) / 8388608;
        let m = (a + 4194304) % 8388608;
        assert(a + 4194304 == k * 8388608 + m);
        assert(t == k * 8191 + m - 4194304);
        assert(mod_q(a - k * Q_I32) == mod_q(a as int)) by {
            vstd::arithmetic::div_mod::lemma_mod_multiples_vanish(-k, a as int, Q_I32 as int);
        }
    }
    t
}

/// Adds Q to a negative `a`.
pub fn caddq(a: i32) -> (r: i32)
    ensures
        r == caddq_spec(a as int),
{
    assert(((a >> 31i32) & 8380417i32) == (if a < 0 { 8380417i32 } else { 0i32 })) by (bit_vector);
    a + ((a >> 31) & Q_I32)
}

/// `reduce32` leaves the values of `[-2^22, 2^22)` unchanged.
pub proof fn lemma_reduce32_small(a: int)
    requires
        -4194304 <= a <= 4194303,
    ensures
        reduce32_spec(a) == a,
{
}

/// `caddq` maps `(-Q, Q)` to the standard representatives `[0, Q)`.
pub proof fn lemma_caddq_standard(a: int)
    requires
        -Q_I32 < a < Q_I32,
    ensures
        0 <= caddq_spec(a) < Q_I32,
        mod_q(caddq_spec(a)) == mod_q(a),
{
}

/// Range of `reduce32`.
pub proof fn lemma_reduce32_range(a: int)
    requires
        i32::MIN <= a <= 2147483647 - 4194304,
    ensures
        -6283009 <= reduce32_spec(a) <= 6283008,
{
    let k = (a + 4194304) / 8388608;
    let m = (a + 4194304) % 8388608;
    assert(a + 4194304 == k * 8388608 + m);
    assert(reduce32_spec(a) == k * 8191 + m - 4194304);
}

/// `reduce32` followed by `caddq` gives the standard representative.
pub proof fn lemma_standard_representative(a: int)
    requires
        i32::MIN <= a <= 2147483647 - 4194304,
    ensures
        caddq_spec(reduce32_spec(a)) == mod_q(a),
{
    lemma_reduce32_range(a);
    let k = (a + 4194304) / 8388608;
    assert(mod_q(a - k * Q_I32) == mod_q(a)) by {
        vstd::arithmetic::div_mod::lemma_mod_multiples_vanish(-k, a, Q_I32 as int);
    }
    lemma_caddq_standard(reduce32_spec(a));
    vstd::arithmetic::div_mod::lemma_small_mod(caddq_spec(reduce32_spec(a)) as nat, Q_I32 as nat);
}

} // verus!
