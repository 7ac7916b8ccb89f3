use vstd::prelude::*;
use crate::algebra::{
    lemma_matvec_rows_add, lemma_matvec_rows_commute, lemma_matvec_rows_congruent,
    lemma_matvec_rows_of, lemma_ring_add, lemma_ring_congruent, matvec_rows, table_row,
    vecl_table,
};
use crate::fips202::lemma_shake_prefix;
use crate::nopki::kgc::{kgc_seeds, splits_public_vector, Params, PartialPrivateKey};
use crate::reduce::caddq_spec;
use crate::sample::{lemma_matrix_unique, matrix_spec};
use crate::polyvec::veck_in_range;
use crate::nopki::model::{
    challenge_ints, commitment_coeff, error_table, high_table, hint_base,
    hint_table, is_masked_response, keygen_attempt_gives, keygen_attempt_passes,
    keygen_challenge, keygen_commitment, keygen_correction, keygen_residual,
    attempt_checks, key_commitment, lemma_pack_agree, lemma_vecl_exceeds_table, masked_table,
    public12, public12_high, public12_low, recovered_high, shifted_ints, sign_attempt_gives,
    sign_attempt_passes, sign_challenge, sign_commitment, sign_correction, sign_high_sum,
    sign_mask, sign_residual, table_exceeds, user_error12, user_matrix11, user_matrix12,
    user_secret12, user_seeds, veck_table, verify_digest, verify_high_sum,
};
use crate::nopki::user_keygen::{
    hints_light, responses_short, PublicKey, SecretKey, Signature, KEYGEN_RETRY_THRESHOLD,
    SIG_RETRY_THRESHOLD,
};
use crate::nopki::model::lemma_weight_table;
use crate::polyvec::{veck_hint_weight, vecl_in_range};
use crate::params::OMEGA;
use crate::params::{BETA, GAMMA1, GAMMA2, K, L, N, Q_I32};
use crate::polyvec::{Polyveck, Polyvecl};
use crate::reduce::reduce32_spec;
use crate::ring::{center_mod_q, lemma_center_mod, matvec_coeff, poly_ints, ring_coeff};
use crate::rounding::{lemma_use_hint_recovers_high_bits, mod_q, ALPHA};

verus! {

/// `x` and `y` are congruent modulo Q.
pub open spec fn cong(x: int, y: int) -> bool {
    x % (Q_I32 as int) == y % (Q_I32 as int)
}

/// Sums and differences of congruent values are congruent.
pub proof fn lemma_cong_add(x: int, y: int, x2: int, y2: int)
    requires
        cong(x, x2),
        cong(y, y2),
    ensures
        cong(x + y, x2 + y2),
        cong(x - y, x2 - y2),
{
    let q = Q_I32 as int;
    vstd::arithmetic::div_mod::lemma_add_mod_noop(x, y, q);
    vstd::arithmetic::div_mod::lemma_add_mod_noop(x2, y2, q);
    vstd::arithmetic::div_mod::lemma_sub_mod_noop(x, y, q);
    vstd::arithmetic::div_mod::lemma_sub_mod_noop(x2, y2, q);
}

/// A centred representative is congruent to its value.
pub proof fn lemma_cong_center(x: int)
    ensures
        cong(center_mod_q(x), x),
{
    lemma_center_mod(x);
    vstd::arithmetic::div_mod::lemma_mod_equivalence(center_mod_q(x), x, Q_I32 as int);
}

/// `reduce32` keeps the value modulo Q.
pub proof fn lemma_cong_reduce32(x: int)
    ensures
        cong(reduce32_spec(x), x),
{
    let k = (x + 4194304) / 8388608;
    vstd::arithmetic::div_mod::lemma_mod_multiples_vanish(-k, x, Q_I32 as int);
}

/// A standard representative is congruent to its value.
pub proof fn lemma_cong_mod_q(x: int)
    ensures
        cong(mod_q(x), x),
{
    vstd::arithmetic::div_mod::lemma_mod_twice(x, Q_I32 as int);
}

/// `mat * z` for a response `z = c * s + y` is congruent to `mat * y +
/// c * (mat * s)`.
pub proof fn lemma_response_product(mat: [Polyvecl; K], c: Seq<int>, s: Polyvecl, y: Polyvecl, z: Polyvecl, k: int, i: int)
    requires
        0 <= i < N,
        forall|l: int, t: int| 0 <= l < L && 0 <= t < N ==> #[trigger] z.vec[l].coeffs[t] == masked_table(c, s, y)(l, t),
    ensures
        cong(
            matvec_coeff(mat, z, k, i),
            matvec_coeff(mat, y, k, i) + ring_coeff(c, Seq::new(N as nat, |t: int| matvec_coeff(mat, s, k, t)), i),
        ),
{
    let q = Q_I32 as int;
    let gz = vecl_table(z);
    let gy = vecl_table(y);
    let gs = vecl_table(s);
    let gc = |l: int, t: int| center_mod_q(ring_coeff(c, table_row(gs, l), t));
    let ge = |l: int, t: int| ring_coeff(c, table_row(gs, l), t);
    assert forall|l: int| 0 <= l < L implies #[trigger] poly_ints(s.vec[l]) == table_row(gs, l) by {
        assert(poly_ints(s.vec[l]) =~= table_row(gs, l));
    }
    assert forall|l: int, t: int| 0 <= l < L && 0 <= t < N implies #[trigger] gz(l, t) == gc(l, t) + gy(l, t) by {
        assert(z.vec[l].coeffs[t] == masked_table(c, s, y)(l, t));
        assert(poly_ints(s.vec[l]) == table_row(gs, l));
    }
    lemma_matvec_rows_of(mat, z, k, i, L as int);
    lemma_matvec_rows_of(mat, y, k, i, L as int);
    lemma_matvec_rows_add(mat, gc, gy, gz, k, i, L as int);
    assert forall|l: int, t: int| 0 <= l < L && 0 <= t < N implies #[trigger] ((gc(l, t) - ge(l, t)) % q) == 0 by {
        lemma_center_mod(ring_coeff(c, table_row(gs, l), t));
    }
    lemma_matvec_rows_congruent(mat, gc, ge, k, i, L as int);
    lemma_matvec_rows_commute(mat, c, gs, ge, k, i, L as int);
    assert(Seq::new(N as nat, |t: int| matvec_rows(mat, gs, k, t, L as int))
        =~= Seq::new(N as nat, |t: int| matvec_coeff(mat, s, k, t))) by {
        assert forall|t: int| 0 <= t < N implies #[trigger] matvec_rows(mat, gs, k, t, L as int) == matvec_coeff(mat, s, k, t) by {
            lemma_matvec_rows_of(mat, s, k, t, L as int);
        }
    }
    let a = matvec_rows(mat, gc, k, i, L as int);
    let b = matvec_rows(mat, ge, k, i, L as int);
    vstd::arithmetic::div_mod::lemma_mod_equivalence(a, b, q);
    lemma_cong_add(a, matvec_rows(mat, gy, k, i, L as int), b, matvec_rows(mat, gy, k, i, L as int));
}

/// `c * (b_h << D)` is congruent to `c * e - c * b_l + c * (mat * s)`,
/// where `e = (b_h << D) + b_l - mat * s` (centred product).
pub proof fn lemma_shift_product(mat: [Polyvecl; K], c: Seq<int>, b_h: Polyveck, b_l: Polyveck, s: Polyvecl, k: int, i: int)
    requires
        0 <= i < N,
    ensures
        cong(
            ring_coeff(c, shifted_ints(b_h.vec[k]), i),
            ring_coeff(c, table_row(error_table(b_h, b_l, mat, s), k), i) - ring_coeff(c, poly_ints(b_l.vec[k]), i)
                + ring_coeff(c, Seq::new(N as nat, |t: int| matvec_coeff(mat, s, k, t)), i),
        ),
{
    let q = Q_I32 as int;
    let e = table_row(error_table(b_h, b_l, mat, s), k);
    let lk = poly_ints(b_l.vec[k]);
    let cen = Seq::new(N as nat, |t: int| center_mod_q(matvec_coeff(mat, s, k, t)));
    let ex = Seq::new(N as nat, |t: int| matvec_coeff(mat, s, k, t));
    let d = Seq::new(N as nat, |t: int| e[t] - lk[t]);
    let sh = shifted_ints(b_h.vec[k]);
    assert forall|t: int| 0 <= t < N implies #[trigger] sh[t] == d[t] + cen[t] by {}
    lemma_ring_add(c, d, cen, sh, i);
    assert forall|t: int| 0 <= t < N implies #[trigger] e[t] == d[t] + lk[t] by {}
    lemma_ring_add(c, d, lk, e, i);
    assert forall|t: int| 0 <= t < N implies #[trigger] ((cen[t] - ex[t]) % q) == 0 by {
        lemma_center_mod(matvec_coeff(mat, s, k, t));
    }
    lemma_ring_congruent(c, cen, ex, i);
    vstd::arithmetic::div_mod::lemma_mod_equivalence(ring_coeff(c, cen, i), ring_coeff(c, ex, i), q);
    lemma_cong_add(ring_coeff(c, d, i), ring_coeff(c, cen, i), ring_coeff(c, d, i), ring_coeff(c, ex, i));
}

/// The value that the verifier recomputes from the responses `z1 = c1 * s1
/// + y1`, `z2 = c2 * s2 + y2` is congruent to `mat11 * y1 + mat12 * y2 - c1
/// * e1 - c2 * e2 + c1 * b11_l + c2 * b12_l`.
pub proof fn lemma_recomputed_commitment(
    mat11: [Polyvecl; K],
    mat12: [Polyvecl; K],
    c1: Seq<int>,
    c2: Seq<int>,
    s1: Polyvecl,
    s2: Polyvecl,
    y1: Polyvecl,
    y2: Polyvecl,
    z1: Polyvecl,
    z2: Polyvecl,
    b11_h: Polyveck,
    b11_l: Polyveck,
    b12_h: Polyveck,
    b12_l: Polyveck,
    k: int,
    i: int,
)
    requires
        0 <= i < N,
        forall|l: int, t: int| 0 <= l < L && 0 <= t < N ==> #[trigger] z1.vec[l].coeffs[t] == masked_table(c1, s1, y1)(l, t),
        forall|l: int, t: int| 0 <= l < L && 0 <= t < N ==> #[trigger] z2.vec[l].coeffs[t] == masked_table(c2, s2, y2)(l, t),
    ensures
        cong(
            matvec_coeff(mat11, z1, k, i) + matvec_coeff(mat12, z2, k, i)
                - ring_coeff(c1, shifted_ints(b11_h.vec[k]), i) - ring_coeff(c2, shifted_ints(b12_h.vec[k]), i),
            matvec_coeff(mat11, y1, k, i) + matvec_coeff(mat12, y2, k, i)
                - ring_coeff(c1, table_row(error_table(b11_h, b11_l, mat11, s1), k), i)
                - ring_coeff(c2, table_row(error_table(b12_h, b12_l, mat12, s2), k), i)
                + ring_coeff(c1, poly_ints(b11_l.vec[k]), i) + ring_coeff(c2, poly_ints(b12_l.vec[k]), i),
        ),
{
    lemma_response_product(mat11, c1, s1, y1, z1, k, i);
    lemma_response_product(mat12, c2, s2, y2, z2, k, i);
    lemma_shift_product(mat11, c1, b11_h, b11_l, s1, k, i);
    lemma_shift_product(mat12, c2, b12_h, b12_l, s2, k, i);
    let m1z = matvec_coeff(mat11, z1, k, i);
    let m2z = matvec_coeff(mat12, z2, k, i);
    let r1 = ring_coeff(c1, shifted_ints(b11_h.vec[k]), i);
    let r2 = ring_coeff(c2, shifted_ints(b12_h.vec[k]), i);
    let a1 = ring_coeff(c1, Seq::new(N as nat, |t: int| matvec_coeff(mat11, s1, k, t)), i);
    let a2 = ring_coeff(c2, Seq::new(N as nat, |t: int| matvec_coeff(mat12, s2, k, t)), i);
    let m1y = matvec_coeff(mat11, y1, k, i);
    let m2y = matvec_coeff(mat12, y2, k, i);
    let e1 = ring_coeff(c1, table_row(error_table(b11_h, b11_l, mat11, s1), k), i);
    let e2 = ring_coeff(c2, table_row(error_table(b12_h, b12_l, mat12, s2), k), i);
    let l1 = ring_coeff(c1, poly_ints(b11_l.vec[k]), i);
    let l2 = ring_coeff(c2, poly_ints(b12_l.vec[k]), i);
    lemma_cong_add(m1z, m2z, m1y + a1, m2y + a2);
    lemma_cong_add(m1z + m2z, r1, m1y + a1 + m2y + a2, e1 - l1 + a1);
    lemma_cong_add(m1z + m2z - r1, r2, m1y + a1 + m2y + a2 - (e1 - l1 + a1), e2 - l2 + a2);
    assert(m1y + a1 + m2y + a2 - (e1 - l1 + a1) - (e2 - l2 + a2) == m1y + m2y - e1 - e2 + l1 + l2);
}

/// One coefficient of one side of the verification: when the residual `r`
/// and the correction `corr` of the attempt that gave the responses are
/// congruent to their expansions and `|corr| <= GAMMA2`, the high part
/// that the verifier recovers with the hint is that of the residual.
pub proof fn lemma_side_recovers(
    mat11: [Polyvecl; K],
    mat12: [Polyvecl; K],
    c: Seq<u8>,
    s1: Polyvecl,
    s2: Polyvecl,
    y1: Polyvecl,
    y2: Polyvecl,
    z1: Polyvecl,
    z2: Polyvecl,
    b11_h: Polyveck,
    b11_l: Polyveck,
    b12_h: Polyveck,
    b12_l: Polyveck,
    r: spec_fn(int, int) -> int,
    corr: spec_fn(int, int) -> int,
    h: Polyveck,
    k: int,
    i: int,
)
    requires
        0 <= k < K,
        0 <= i < N,
        is_masked_response(z1, challenge_ints(c, 0), s1, y1),
        is_masked_response(z2, challenge_ints(c, 1), s2, y2),
        cong(r(k, i), matvec_coeff(mat11, y1, k, i) + matvec_coeff(mat12, y2, k, i)
            - ring_coeff(challenge_ints(c, 0), table_row(error_table(b11_h, b11_l, mat11, s1), k), i)
            - ring_coeff(challenge_ints(c, 1), table_row(error_table(b12_h, b12_l, mat12, s2), k), i)),
        cong(corr(k, i), -(ring_coeff(challenge_ints(c, 0), poly_ints(b11_l.vec[k]), i)
            + ring_coeff(challenge_ints(c, 1), poly_ints(b12_l.vec[k]), i))),
        -GAMMA2 <= corr(k, i) <= GAMMA2,
        h.vec[k].coeffs[i] == hint_table(r, corr)(k, i),
    ensures
        recovered_high(mat11, mat12, z1, z2, c, b11_h, b12_h, h, k, i) == high_table(r)(k, i),
{
    let c1 = challenge_ints(c, 0);
    let c2 = challenge_ints(c, 1);
    lemma_recomputed_commitment(mat11, mat12, c1, c2, s1, s2, y1, y2, z1, z2, b11_h, b11_l, b12_h, b12_l, k, i);
    let x = commitment_coeff(mat11, mat12, z1, z2, c, b11_h, b12_h, k, i);
    let m = matvec_coeff(mat11, y1, k, i) + matvec_coeff(mat12, y2, k, i)
        - ring_coeff(c1, table_row(error_table(b11_h, b11_l, mat11, s1), k), i)
        - ring_coeff(c2, table_row(error_table(b12_h, b12_l, mat12, s2), k), i);
    let lsum = ring_coeff(c1, poly_ints(b11_l.vec[k]), i) + ring_coeff(c2, poly_ints(b12_l.vec[k]), i);
    assert(cong(x, m + lsum));
    lemma_cong_add(r(k, i), corr(k, i), m, -lsum);
    assert(cong(x, r(k, i) - corr(k, i)));
    let hb = hint_base(r, corr)(k, i);
    lemma_cong_mod_q(r(k, i));
    lemma_cong_add(mod_q(r(k, i)), corr(k, i), r(k, i), corr(k, i));
    lemma_cong_mod_q(mod_q(r(k, i)) - corr(k, i));
    assert(cong(hb, r(k, i) - corr(k, i)));
    assert(mod_q(x) == hb);
    assert(0 <= hb < Q_I32);
    lemma_use_hint_recovers_high_bits(corr(k, i), hb, ALPHA as int);
    lemma_cong_add(hb, corr(k, i), r(k, i) - corr(k, i), corr(k, i));
    assert(mod_q(hb + corr(k, i)) == mod_q(r(k, i)));
}

/// The error of the key recovered from its public vector is congruent to
/// the sampled error `e12`.
proof fn lemma_key_error_congruent(identity: Seq<u8>, params: Params, pk: PublicKey, sk: SecretKey, k: int, t: int)
    requires
        0 <= k < K,
        0 <= t < N,
        sk.s12_prime == user_secret12(params.rho@, identity),
        pk.b12_h.vec[k].coeffs[t] == public12_high(params.rho@, identity)(k, t),
        sk.b12_l.vec[k].coeffs[t] == public12_low(params.rho@, identity)(k, t),
    ensures
        cong(
            error_table(pk.b12_h, sk.b12_l, user_matrix12(params.rho@, identity), sk.s12_prime)(k, t),
            user_error12(params.rho@, identity).vec[k].coeffs[t] as int,
        ),
{
    let mat12 = user_matrix12(params.rho@, identity);
    let m = center_mod_q(matvec_coeff(mat12, sk.s12_prime, k, t));
    let e = user_error12(params.rho@, identity).vec[k].coeffs[t] as int;
    let p = public12(params.rho@, identity)(k, t);
    assert(p == mod_q(m + e));
    assert(0 <= p < Q_I32);
    let hi = pk.b12_h.vec[k].coeffs[t];
    assert(0 <= hi <= 1023);
    assert(0 <= hi <= 1023 ==> (hi << 13i32) == hi * 8192) by (bit_vector);
    assert(error_table(pk.b12_h, sk.b12_l, mat12, sk.s12_prime)(k, t) == p - m);
    lemma_cong_mod_q(m + e);
    lemma_cong_add(p, m, m + e, m);
}

/// The residual of an attempt is congruent to its expansion, and its
/// correction to minus the products with the low parts.
proof fn lemma_attempt_expansion(
    mat11: [Polyvecl; K],
    mat12: [Polyvecl; K],
    c1: Seq<int>,
    c2: Seq<int>,
    y1: Polyvecl,
    y2: Polyvecl,
    e1: spec_fn(int, int) -> int,
    e2: spec_fn(int, int) -> int,
    ee1: spec_fn(int, int) -> int,
    ee2: spec_fn(int, int) -> int,
    l1: Seq<int>,
    l2: Seq<int>,
    k: int,
    i: int,
)
    requires
        0 <= k < K,
        0 <= i < N,
        forall|t: int| 0 <= t < N ==> #[trigger] cong(e1(k, t), ee1(k, t)),
        forall|t: int| 0 <= t < N ==> #[trigger] cong(e2(k, t), ee2(k, t)),
    ensures
        cong(
            center_mod_q(matvec_coeff(mat11, y1, k, i)) + center_mod_q(matvec_coeff(mat12, y2, k, i))
                - center_mod_q(ring_coeff(c1, table_row(e1, k), i)) - center_mod_q(ring_coeff(c2, table_row(e2, k), i)),
            matvec_coeff(mat11, y1, k, i) + matvec_coeff(mat12, y2, k, i)
                - ring_coeff(c1, table_row(ee1, k), i) - ring_coeff(c2, table_row(ee2, k), i),
        ),
        cong(
            reduce32_spec(0 - center_mod_q(ring_coeff(c1, l1, i)) - center_mod_q(ring_coeff(c2, l2, i))),
            -(ring_coeff(c1, l1, i) + ring_coeff(c2, l2, i)),
        ),
{
    let q = Q_I32 as int;
    assert forall|t: int| 0 <= t < N implies #[trigger] ((table_row(e1, k)[t] - table_row(ee1, k)[t]) % q) == 0 by {
        assert(cong(e1(k, t), ee1(k, t)));
        vstd::arithmetic::div_mod::lemma_mod_equivalence(e1(k, t), ee1(k, t), q);
    }
    assert forall|t: int| 0 <= t < N implies #[trigger] ((table_row(e2, k)[t] - table_row(ee2, k)[t]) % q) == 0 by {
        assert(cong(e2(k, t), ee2(k, t)));
        vstd::arithmetic::div_mod::lemma_mod_equivalence(e2(k, t), ee2(k, t), q);
    }
    let r1 = ring_coeff(c1, table_row(e1, k), i);
    let r2 = ring_coeff(c2, table_row(e2, k), i);
    let rr1 = ring_coeff(c1, table_row(ee1, k), i);
    let rr2 = ring_coeff(c2, table_row(ee2, k), i);
    lemma_ring_congruent(c1, table_row(e1, k), table_row(ee1, k), i);
    lemma_ring_congruent(c2, table_row(e2, k), table_row(ee2, k), i);
    vstd::arithmetic::div_mod::lemma_mod_equivalence(r1, rr1, q);
    vstd::arithmetic::div_mod::lemma_mod_equivalence(r2, rr2, q);
    let a1 = matvec_coeff(mat11, y1, k, i);
    let a2 = matvec_coeff(mat12, y2, k, i);
    lemma_cong_center(a1);
    lemma_cong_center(a2);
    lemma_cong_center(r1);
    lemma_cong_center(r2);
    lemma_cong_add(center_mod_q(a1), center_mod_q(a2), a1, a2);
    lemma_cong_add(center_mod_q(a1) + center_mod_q(a2), center_mod_q(r1), a1 + a2, rr1);
    lemma_cong_add(center_mod_q(a1) + center_mod_q(a2) - center_mod_q(r1), center_mod_q(r2), a1 + a2 - rr1, rr2);
    let p1 = ring_coeff(c1, l1, i);
    let p2 = ring_coeff(c2, l2, i);
    lemma_cong_center(p1);
    lemma_cong_center(p2);
    lemma_cong_add(0, center_mod_q(p1), 0, p1);
    lemma_cong_add(0 - center_mod_q(p1), center_mod_q(p2), 0 - p1, p2);
    lemma_cong_reduce32(0 - center_mod_q(p1) - center_mod_q(p2));
}

/// The hint of the public key works: for the key pair that attempt `nk` of
/// the key generation gives, the high part that the verifier recovers for the
/// key (from `z1`, `z2`, `c` and `h`) is that of the key's commitment
/// `mat11 * y11 + mat12 * y12`.
pub proof fn lemma_key_side(identity: Seq<u8>, params: Params, ppk: PartialPrivateKey, pk: PublicKey, sk: SecretKey, nk: int, k: int, i: int)
    requires
        0 <= k < K,
        0 <= i < N,
        keygen_attempt_passes(identity, params, ppk.s11, ppk.y11, ppk.b11_l, nk),
        keygen_attempt_gives(identity, params, ppk.s11, ppk.y11, ppk.b11_l, nk, pk, sk),
    ensures
        recovered_high(user_matrix11(params.rho@, identity), user_matrix12(params.rho@, identity),
            pk.z1, pk.z2, pk.c@, params.b11_h, pk.b12_h, pk.h, k, i)
            == high_table(key_commitment(identity, params, sk))(k, i),
{
    reveal(attempt_checks);
    let rho = params.rho@;
    let mat11 = user_matrix11(rho, identity);
    let mat12 = user_matrix12(rho, identity);
    let c = pk.c@;
    let c1 = challenge_ints(c, 0);
    let c2 = challenge_ints(c, 1);
    let kres = keygen_residual(identity, params, ppk.s11, ppk.y11, ppk.b11_l, nk);
    let kcorr = keygen_correction(identity, params, ppk.y11, ppk.b11_l, nk);
    let e1 = error_table(params.b11_h, sk.b11_l, mat11, sk.s11);
    let e2 = veck_table(user_error12(rho, identity));
    let ee2 = error_table(pk.b12_h, sk.b12_l, mat12, sk.s12_prime);
    assert forall|t: int| 0 <= t < N implies #[trigger] cong(e1(k, t), e1(k, t)) by {}
    assert forall|t: int| 0 <= t < N implies #[trigger] cong(e2(k, t), ee2(k, t)) by {
        lemma_key_error_congruent(identity, params, pk, sk, k, t);
    }
    let l1 = poly_ints(sk.b11_l.vec[k]);
    let l2 = poly_ints(sk.b12_l.vec[k]);
    assert(table_row(veck_table(sk.b11_l), k) =~= l1);
    assert(table_row(public12_low(rho, identity), k) =~= l2) by {
        assert forall|t: int| 0 <= t < N implies #[trigger] table_row(public12_low(rho, identity), k)[t] == l2[t] by {
            assert(sk.b12_l.vec[k].coeffs[t] == public12_low(rho, identity)(k, t));
        }
    }
    lemma_attempt_expansion(mat11, mat12, c1, c2, sk.y11, sk.y12, e1, e2, e1, ee2, l1, l2, k, i);
    assert(kres(k, i) == center_mod_q(matvec_coeff(mat11, sk.y11, k, i)) + center_mod_q(matvec_coeff(mat12, sk.y12, k, i))
        - center_mod_q(ring_coeff(c1, table_row(e1, k), i)) - center_mod_q(ring_coeff(c2, table_row(e2, k), i)));
    assert(kcorr(k, i) == reduce32_spec(0 - center_mod_q(ring_coeff(c1, l1, i)) - center_mod_q(ring_coeff(c2, l2, i))));
    assert(-GAMMA2 <= kcorr(k, i) <= GAMMA2) by {
        if kcorr(k, i) >= GAMMA2 || kcorr(k, i) <= -GAMMA2 {
            assert(table_exceeds(kcorr, K as int, GAMMA2 as int));
        }
    }
    assert(pk.h.vec[k].coeffs[i] == hint_table(kres, kcorr)(k, i));
    lemma_side_recovers(mat11, mat12, c, sk.s11, sk.s12_prime, sk.y11, sk.y12, pk.z1, pk.z2,
        params.b11_h, sk.b11_l, pk.b12_h, sk.b12_l, kres, kcorr, pk.h, k, i);
    assert(high_table(kres)(k, i) == high_table(keygen_commitment(identity, params, ppk.y11, nk))(k, i));
}

/// The hint of a signature works: the high part that the verifier recovers for
/// the signature is that of the commitment `mat11 * y_i1 + mat12 * y_i2` of
/// the attempt.
pub proof fn lemma_signature_side(
    msg: Seq<u8>,
    identity: Seq<u8>,
    params: Params,
    pk: PublicKey,
    sk: SecretKey,
    sig: Signature,
    ns: int,
    k: int,
    i: int,
)
    requires
        0 <= k < K,
        0 <= i < N,
        sign_attempt_passes(msg, identity, params, pk, sk, ns),
        sign_attempt_gives(msg, identity, params, pk, sk, ns, sig),
    ensures
        recovered_high(user_matrix11(params.rho@, identity), user_matrix12(params.rho@, identity),
            sig.z_i1, sig.z_i2, sig.c_i@, params.b11_h, pk.b12_h, sig.h_i, k, i)
            == high_table(sign_commitment(identity, params, ns))(k, i),
{
    reveal(attempt_checks);
    let rho = params.rho@;
    let mat11 = user_matrix11(rho, identity);
    let mat12 = user_matrix12(rho, identity);
    let c = sig.c_i@;
    let c1 = challenge_ints(c, 0);
    let c2 = challenge_ints(c, 1);
    let y1 = sign_mask(rho, identity, ns, 0);
    let y2 = sign_mask(rho, identity, ns, 1);
    let sres = sign_residual(msg, identity, params, pk, sk, ns);
    let scorr = sign_correction(msg, identity, params, sk, ns);
    let e1 = error_table(params.b11_h, sk.b11_l, mat11, sk.s11);
    let e2 = error_table(pk.b12_h, sk.b12_l, mat12, sk.s12_prime);
    assert forall|t: int| 0 <= t < N implies #[trigger] cong(e1(k, t), e1(k, t)) by {}
    assert forall|t: int| 0 <= t < N implies #[trigger] cong(e2(k, t), e2(k, t)) by {}
    let l1 = poly_ints(sk.b11_l.vec[k]);
    let l2 = poly_ints(sk.b12_l.vec[k]);
    assert(table_row(veck_table(sk.b11_l), k) =~= l1);
    assert(table_row(veck_table(sk.b12_l), k) =~= l2);
    lemma_attempt_expansion(mat11, mat12, c1, c2, y1, y2, e1, e2, e1, e2, l1, l2, k, i);
    assert(sres(k, i) == center_mod_q(matvec_coeff(mat11, y1, k, i)) + center_mod_q(matvec_coeff(mat12, y2, k, i))
        - center_mod_q(ring_coeff(c1, table_row(e1, k), i)) - center_mod_q(ring_coeff(c2, table_row(e2, k), i)));
    assert(scorr(k, i) == reduce32_spec(0 - center_mod_q(ring_coeff(c1, l1, i)) - center_mod_q(ring_coeff(c2, l2, i))));
    assert(-GAMMA2 <= scorr(k, i) <= GAMMA2) by {
        if scorr(k, i) >= GAMMA2 || scorr(k, i) <= -GAMMA2 {
            assert(table_exceeds(scorr, K as int, GAMMA2 as int));
        }
    }
    assert(sig.h_i.vec[k].coeffs[i] == hint_table(sres, scorr)(k, i));
    lemma_side_recovers(mat11, mat12, c, sk.s11, sk.s12_prime, y1, y2, sig.z_i1, sig.z_i2,
        params.b11_h, sk.b11_l, pk.b12_h, sk.b12_l, sres, scorr, sig.h_i, k, i);
    assert(high_table(sres)(k, i) == high_table(sign_commitment(identity, params, ns))(k, i));
}

/// Correctness of the scheme: for the key pair that attempt `nk` of
/// `user_generate_key` gives from the public parameters and a partial
/// private key, and the signature of `msg` that attempt `ns` of
/// `generate_signature` gives from that key pair, the four responses are
/// short and the challenge seed that `verify_sign` recomputes is `c_i`.
pub proof fn lemma_signature_verifies(
    msg: Seq<u8>,
    identity: Seq<u8>,
    params: Params,
    ppk: PartialPrivateKey,
    pk: PublicKey,
    sk: SecretKey,
    sig: Signature,
    nk: int,
    ns: int,
)
    requires
        keygen_attempt_passes(identity, params, ppk.s11, ppk.y11, ppk.b11_l, nk),
        keygen_attempt_gives(identity, params, ppk.s11, ppk.y11, ppk.b11_l, nk, pk, sk),
        sign_attempt_passes(msg, identity, params, pk, sk, ns),
        sign_attempt_gives(msg, identity, params, pk, sk, ns, sig),
    ensures
        responses_short(pk, sig),
        sig.c_i@ == verify_digest(msg, identity, sig, params, pk),
{
    reveal(attempt_checks);
    let rho = params.rho@;
    let kc = keygen_challenge(identity, params, ppk.y11, nk);
    let sc = sign_challenge(msg, identity, params, sk, ns);
    lemma_vecl_exceeds_table(pk.z1, masked_table(challenge_ints(kc, 0), ppk.s11, ppk.y11), (GAMMA1 - BETA) as int);
    lemma_vecl_exceeds_table(pk.z2, masked_table(challenge_ints(kc, 1), sk.s12_prime, sk.y12), (GAMMA1 - BETA) as int);
    lemma_vecl_exceeds_table(sig.z_i1, masked_table(challenge_ints(sc, 0), sk.s11, sign_mask(rho, identity, ns, 0)),
        (GAMMA1 - BETA) as int);
    lemma_vecl_exceeds_table(sig.z_i2, masked_table(challenge_ints(sc, 1), sk.s12_prime, sign_mask(rho, identity, ns, 1)),
        (GAMMA1 - BETA) as int);
    let f = verify_high_sum(identity, sig, params, pk);
    let g = sign_high_sum(identity, params, sk, ns);
    assert forall|k: int, i: int| 0 <= k < K && 0 <= i < N implies #[trigger] f(k, i) == g(k, i) by {
        lemma_key_side(identity, params, ppk, pk, sk, nk, k, i);
        lemma_signature_side(msg, identity, params, pk, sk, sig, ns, k, i);
    }
    lemma_pack_agree(f, g);
}

/// The key generation centre and the user expand the same first matrix
/// from `rho` and `identity` (a prefix of the same SHAKE256 output), and the
/// error that the user recovers from the public parameters and the partial
/// private key is congruent, modulo Q, to the short error that the centre
/// sampled.
pub proof fn lemma_user_recovers_kgc_error(
    rho: Seq<u8>,
    identity: Seq<u8>,
    params: Params,
    ppk: PartialPrivateKey,
    mat: [Polyvecl; K],
    e: Polyveck,
)
    requires
        params.rho@ == rho,
        matrix_spec(mat, kgc_seeds(rho, identity).subrange(0, 32)),
        splits_public_vector(params.b11_h, ppk.b11_l, mat, ppk.s11, e),
        veck_in_range(params.b11_h, 0, 1023),
    ensures
        mat == user_matrix11(rho, identity),
        forall|k: int, i: int| 0 <= k < K && 0 <= i < N ==> #[trigger] cong(
            crate::nopki::model::kgc_error(identity, params, ppk.s11, ppk.b11_l)(k, i),
            e.vec[k].coeffs[i] as int,
        ),
{
    lemma_shake_prefix(crate::fips202::SHAKE256_RATE as int, rho + identity, 96, 128);
    assert(kgc_seeds(rho, identity).subrange(0, 32) =~= user_seeds(rho, identity).subrange(0, 32));
    lemma_matrix_unique(mat, user_seeds(rho, identity).subrange(0, 32));
    assert forall|k: int, i: int| 0 <= k < K && 0 <= i < N implies #[trigger] cong(
        crate::nopki::model::kgc_error(identity, params, ppk.s11, ppk.b11_l)(k, i),
        e.vec[k].coeffs[i] as int,
    ) by {
        let m = center_mod_q(matvec_coeff(mat, ppk.s11, k, i));
        let ek = e.vec[k].coeffs[i] as int;
        let hi = params.b11_h.vec[k].coeffs[i];
        assert(0 <= hi <= 1023 ==> (hi << 13i32) == hi * 8192) by (bit_vector);
        assert(hi * 8192 + ppk.b11_l.vec[k].coeffs[i] == caddq_spec(m + ek));
        let p = caddq_spec(m + ek);
        assert(cong(p, m + ek)) by {
            vstd::arithmetic::div_mod::lemma_mod_multiples_vanish(1, m + ek, Q_I32 as int);
        }
        lemma_cong_add(p, m, m + ek, m);
    }
}

/// The checks of an attempt bound its responses and its hints.
proof fn lemma_attempt_outputs(
    z1: Polyvecl,
    z2: Polyvecl,
    h: Polyveck,
    f1: spec_fn(int, int) -> int,
    f2: spec_fn(int, int) -> int,
    r: spec_fn(int, int) -> int,
    hv: spec_fn(int, int) -> int,
    corr: spec_fn(int, int) -> int,
)
    requires
        attempt_checks(f1, f2, r, hv, corr, GAMMA2 as int),
        forall|l: int, i: int| 0 <= l < L && 0 <= i < N ==> #[trigger] z1.vec[l].coeffs[i] == f1(l, i),
        forall|l: int, i: int| 0 <= l < L && 0 <= i < N ==> #[trigger] z2.vec[l].coeffs[i] == f2(l, i),
        forall|k: int, i: int| 0 <= k < K && 0 <= i < N ==> #[trigger] h.vec[k].coeffs[i] == hint_table(r, corr)(k, i),
    ensures
        vecl_in_range(z1, -1073741823, 1073741823),
        vecl_in_range(z2, -1073741823, 1073741823),
        !crate::polyvec::vecl_exceeds_norm(z1, (GAMMA1 - BETA) as int),
        !crate::polyvec::vecl_exceeds_norm(z2, (GAMMA1 - BETA) as int),
        veck_in_range(h, 0, 1),
        veck_hint_weight(h, K as int) <= OMEGA,
{
    reveal(attempt_checks);
    lemma_vecl_exceeds_table(z1, f1, (GAMMA1 - BETA) as int);
    lemma_vecl_exceeds_table(z2, f2, (GAMMA1 - BETA) as int);
    assert forall|l: int, i: int| 0 <= l < L && 0 <= i < N implies
        -1073741823 <= #[trigger] z1.vec[l].coeffs[i] <= 1073741823 by {
        if z1.vec[l].coeffs[i] >= GAMMA1 - BETA || z1.vec[l].coeffs[i] <= -(GAMMA1 - BETA) {
            assert(table_exceeds(f1, L as int, (GAMMA1 - BETA) as int));
        }
    }
    assert forall|l: int, i: int| 0 <= l < L && 0 <= i < N implies
        -1073741823 <= #[trigger] z2.vec[l].coeffs[i] <= 1073741823 by {
        if z2.vec[l].coeffs[i] >= GAMMA1 - BETA || z2.vec[l].coeffs[i] <= -(GAMMA1 - BETA) {
            assert(table_exceeds(f2, L as int, (GAMMA1 - BETA) as int));
        }
    }
    lemma_weight_table(h, hint_table(r, corr), K as int);
}

/// Every honest signature verifies: when `user_generate_key` has given the
/// key pair `(pk, sk)` from the public parameters and a partial private key
/// (some attempt of it passes and gives them) and `generate_signature` has
/// given `sig` for `msg` from that key pair, the requirements of
/// `verify_sign` hold and it returns true: the four responses are short, the
/// key and the signature set at most `OMEGA` hints each, and the recomputed
/// challenge seed is `c_i`. The contracts of
/// `partial_private_key_generation`, `user_generate_key` and
/// `generate_signature` meet one another's requirements, so this covers
/// every `Ok` that the three give in turn.
pub proof fn lemma_honest_signature_verifies(
    msg: Seq<u8>,
    identity: Seq<u8>,
    params: Params,
    ppk: PartialPrivateKey,
    pk: PublicKey,
    sk: SecretKey,
    sig: Signature,
)
    requires
        exists|n: int| 0 <= n < KEYGEN_RETRY_THRESHOLD
            && #[trigger] keygen_attempt_passes(identity, params, ppk.s11, ppk.y11, ppk.b11_l, n)
            && keygen_attempt_gives(identity, params, ppk.s11, ppk.y11, ppk.b11_l, n, pk, sk),
        exists|n: int| 0 <= n < SIG_RETRY_THRESHOLD
            && #[trigger] sign_attempt_passes(msg, identity, params, pk, sk, n)
            && sign_attempt_gives(msg, identity, params, pk, sk, n, sig),
    ensures
        vecl_in_range(pk.z1, -1073741823, 1073741823),
        vecl_in_range(pk.z2, -1073741823, 1073741823),
        vecl_in_range(sig.z_i1, -1073741823, 1073741823),
        vecl_in_range(sig.z_i2, -1073741823, 1073741823),
        veck_in_range(pk.h, 0, 1),
        veck_in_range(sig.h_i, 0, 1),
        responses_short(pk, sig),
        hints_light(pk, sig),
        sig.c_i@ == verify_digest(msg, identity, sig, params, pk),
{
    let nk = choose|n: int| 0 <= n < KEYGEN_RETRY_THRESHOLD
        && #[trigger] keygen_attempt_passes(identity, params, ppk.s11, ppk.y11, ppk.b11_l, n)
        && keygen_attempt_gives(identity, params, ppk.s11, ppk.y11, ppk.b11_l, n, pk, sk);
    let ns = choose|n: int| 0 <= n < SIG_RETRY_THRESHOLD
        && #[trigger] sign_attempt_passes(msg, identity, params, pk, sk, n)
        && sign_attempt_gives(msg, identity, params, pk, sk, n, sig);
    lemma_signature_verifies(msg, identity, params, ppk, pk, sk, sig, nk, ns);
    let rho = params.rho@;
    let kc = keygen_challenge(identity, params, ppk.y11, nk);
    let sc = sign_challenge(msg, identity, params, sk, ns);
    lemma_attempt_outputs(pk.z1, pk.z2, pk.h,
        masked_table(challenge_ints(kc, 0), ppk.s11, ppk.y11),
        masked_table(challenge_ints(kc, 1), sk.s12_prime, sk.y12),
        keygen_residual(identity, params, ppk.s11, ppk.y11, ppk.b11_l, nk),
        high_table(keygen_commitment(identity, params, ppk.y11, nk)),
        keygen_correction(identity, params, ppk.y11, ppk.b11_l, nk));
    lemma_attempt_outputs(sig.z_i1, sig.z_i2, sig.h_i,
        masked_table(challenge_ints(sc, 0), sk.s11, sign_mask(rho, identity, ns, 0)),
        masked_table(challenge_ints(sc, 1), sk.s12_prime, sign_mask(rho, identity, ns, 1)),
        sign_residual(msg, identity, params, pk, sk, ns),
        high_table(sign_commitment(identity, params, ns)),
        sign_correction(msg, identity, params, sk, ns));
}

} // verus!
