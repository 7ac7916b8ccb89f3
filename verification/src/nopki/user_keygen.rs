use vstd::prelude::*;
use crate::fips202::{
    lemma_absorb_concat, shake256, shake256_absorb, shake256_spec, shake256_finalize, shake256_squeeze, zero_state, KeccakState, SHAKE256_RATE,
};
use crate::nopki::kgc::{Params, PartialPrivateKey, ID_SIZE};
use crate::packing::{polyveck_pack_w1, w1_byte};
use crate::params::{
    BETA, ETA_I32, GAMMA1, GAMMA1_I32, GAMMA2, GAMMA2_I32, K, L, L_U16, N, OMEGA,
    POLYW1_PACKEDBYTES, Q_I32, SEEDBYTES,
};
use crate::poly::{exceeds_norm, Poly};
use crate::polyvec::{
    polyvecl_add, polyvecl_chknorm, polyvecl_within, polyveck_within, polyveck_add, polyveck_caddq, polyveck_chknorm,
    polyveck_decompose, polyveck_hint_weight, polyveck_make_hint_simple, polyveck_power2round, polyveck_reduce,
    polyveck_shiftl, polyveck_sub, polyveck_use_hint_simple, vecl_exceeds_norm, vecl_in_range,
    veck_hint_weight, veck_in_range, Polyveck, Polyvecl,
};
use crate::reduce::{
    lemma_caddq_standard, lemma_reduce32_range, lemma_reduce32_small,
    lemma_standard_representative, reduce32_spec,
};
use crate::ring::{
    center_mod_q, lemma_center_combination, matvec_coeff, poly_ints,
    polyvec_matrix_mul, polyvecl_pointwise_poly, polyveck_pointwise_poly, ring_mul_coeff,
};
use crate::rounding::{high_bits, lemma_use_hint_range, low_bits, mod_q, ALPHA};
use crate::sample::{
    lemma_eta_vecl_unique, lemma_eta_veck_unique,
    lemma_gamma1_vecl_unique, lemma_matrix_unique, poly_challenge_nonced,
    challenge_spec, eta_vecl_spec, eta_veck_spec, nonce_bytes, gamma1_vecl_spec, matrix_spec, polyvec_matrix_expand, polyvecl_uniform_eta, polyvecl_uniform_gamma1, polyveck_uniform_eta,
};
use crate::nopki::model::{
    attempt_checks, challenge_digest, challenge_ints, commitment_coeff, error_table, high_table, hint_table, is_masked_response, keygen_attempt_gives,
    keygen_attempt_passes, keygen_challenge, keygen_commitment, commitment_table, keygen_correction, keygen_mask,
    keygen_residual, kgc_error, lemma_checks_agree, lemma_correction_agree, lemma_pack_agree,
    lemma_residual_agree, lemma_veck_exceeds_table, lemma_vecl_exceeds_table, lemma_weight_table,
    low_correction, low_table, masked_table, public12, public12_high, public12_low,
    recovered_high, residual_table, secret_seed, shifted_ints, sign_attempt_gives,
    sign_attempt_passes, sign_challenge, sign_commitment, sign_correction, sign_high_sum,
    sign_mask, sign_residual, key_commitment, tables_agree, user_error12,
    user_matrix11, user_matrix12, user_secret12, user_seeds, veck_table, verify_digest,
    verify_high_sum, w1_pack_fn,
};

verus! {

/// Length of the packed high parts that are hashed.
pub const POLY_V_H_PACKEDBYTES: usize = POLYW1_PACKEDBYTES;
/// Number of attempts of `generate_signature` before it gives up.
pub const SIG_RETRY_THRESHOLD: usize = 100;
/// Number of attempts of `user_generate_key` before it gives up.
pub const KEYGEN_RETRY_THRESHOLD: usize = 20;

/// Length of the seed `r` of the two matrices.
pub const R_SIZE: usize = 64;
/// Length of the seed `r'` of the secrets.
pub const R_PRIME_SIZE: usize = 64;

/// Public key of a user.
#[derive(Copy, Clone)]
pub struct PublicKey {
    pub b12_h: Polyveck,
    pub z1: Polyvecl,
    pub z2: Polyvecl,
    pub h: Polyveck,
    pub c: [u8; SEEDBYTES],
}

/// Secret key of a user.
#[derive(Copy, Clone)]
pub struct SecretKey {
    pub b11_l: Polyveck,
    pub b12_l: Polyveck,
    pub y11: Polyvecl,
    pub y12: Polyvecl,
    pub s11: Polyvecl,
    pub s12_prime: Polyvecl,
}

/// Failure of the user key generation.
#[derive(Debug)]
pub enum KeygenError {
    /// Every attempt up to the retry threshold was rejected.
    ThresholdError,
}

/// Failure of the signature generation.
#[derive(Debug)]
pub enum SigError {
    /// Every attempt up to the retry threshold was rejected.
    ThresholdError,
}

/// A signature.
#[derive(Copy, Clone)]
pub struct Signature {
    pub z_i1: Polyvecl,
    pub z_i2: Polyvecl,
    pub h_i: Polyveck,
    pub c_i: [u8; SEEDBYTES],
}

/// Bound on a masking coefficient for which `c * s + y` stays within
/// `(-2^30, 2^30)`, the range that the norm check accepts.
pub const MASK_BOUND: i32 = 1069551615;

/// Every coefficient of `y` lies in `[-MASK_BOUND, MASK_BOUND]`.
pub open spec fn mask_in_range(y: Polyvecl) -> bool {
    vecl_in_range(y, -MASK_BOUND as int, MASK_BOUND as int)
}

/// `b_h * 2^D + b_l` (the shift taken on 32 bits) and its difference with
/// any centred value fit in 32 bits, coefficient by coefficient.
pub open spec fn split_fits(b_h: Polyveck, b_l: Polyveck) -> bool {
    forall|k: int, i: int| 0 <= k < K && 0 <= i < N ==>
        i32::MIN + (Q_I32 - 1) / 2 <= #[trigger] (b_h.vec[k].coeffs[i] << 13i32) + b_l.vec[k].coeffs[i]
            <= i32::MAX - (Q_I32 - 1) / 2
}

/// High parts in `[0, 1023]` and low parts in `(-2^12, 2^12]`, as
/// power-of-two rounding gives them, fit the split.
pub proof fn lemma_split_fits(b_h: Polyveck, b_l: Polyveck)
    requires
        veck_in_range(b_h, 0, 1023),
        veck_in_range(b_l, -4095, 4096),
    ensures
        split_fits(b_h, b_l),
{
    assert forall|k: int, i: int| 0 <= k < K && 0 <= i < N implies
        i32::MIN + (Q_I32 - 1) / 2 <= #[trigger] (b_h.vec[k].coeffs[i] << 13i32) + b_l.vec[k].coeffs[i]
            <= i32::MAX - (Q_I32 - 1) / 2 by {
        let h = b_h.vec[k].coeffs[i];
        assert(0 <= h <= 1023 ==> 0 <= (h << 13i32) <= 8380416) by (bit_vector);
    }
}

/// The low parts that a key pair holds fit the split with its high parts.
proof fn lemma_keys_fit(b11_h: Polyveck, b11_l: Polyveck, pk: PublicKey, sk: SecretKey)
    requires
        split_fits(b11_h, b11_l),
        sk.b11_l == b11_l,
        veck_in_range(pk.b12_h, 0, 1023),
        veck_in_range(sk.b12_l, -4095, 4096),
    ensures
        split_fits(b11_h, sk.b11_l),
        split_fits(pk.b12_h, sk.b12_l),
{
    lemma_split_fits(pk.b12_h, sk.b12_l);
}

/// The key pair of attempt `n` holds the mask `y12` gamma1-sampled from
/// bytes 64..128 of SHAKE256(`rho` || `identity`) with the nonce `n`; the
/// public vector `mat12 * s12' + e12`, with `s12'`, `e12` eta-sampled from
/// bytes 64..128 with the nonces `0..L` and `L..L + K`; and the challenge
/// seed SHAKE256 of bytes 0..64 and the packed high parts of
/// `mat11 * y11 + mat12 * y12`, with `mat11` and `mat12` expanded from bytes
/// 0..32 and 32..64.
proof fn lemma_user_key_from_seeds(
    identity: Seq<u8>,
    params: Params,
    ppk: PartialPrivateKey,
    pk: PublicKey,
    sk: SecretKey,
    n: int,
)
    requires
        keygen_attempt_gives(identity, params, ppk.s11, ppk.y11, ppk.b11_l, n, pk, sk),
        matrix_spec(user_matrix11(params.rho@, identity), shake256_spec(params.rho@ + identity, 128).subrange(0, 32)),
        matrix_spec(user_matrix12(params.rho@, identity), shake256_spec(params.rho@ + identity, 128).subrange(32, 64)),
        eta_veck_spec(user_error12(params.rho@, identity), shake256_spec(params.rho@ + identity, 128).subrange(64, 128), 5),
        eta_vecl_spec(user_secret12(params.rho@, identity), shake256_spec(params.rho@ + identity, 128).subrange(64, 128), 0),
        gamma1_vecl_spec(keygen_mask(params.rho@, identity, n), shake256_spec(params.rho@ + identity, 128).subrange(64, 128), n),
        0 <= n < KEYGEN_RETRY_THRESHOLD,
    ensures
        gamma1_vecl_spec(sk.y12, shake256_spec(params.rho@ + identity, 128).subrange(64, 128), n),
        ({
            let seeds = shake256_spec(params.rho@ + identity, 128);
            exists|mat11: [Polyvecl; K], mat12: [Polyvecl; K], e12: Polyveck|
                #![trigger matrix_spec(mat11, seeds.subrange(0, 32)), matrix_spec(mat12, seeds.subrange(32, 64)), eta_veck_spec(e12, seeds.subrange(64, 128), 5)]
                matrix_spec(mat11, seeds.subrange(0, 32))
                && matrix_spec(mat12, seeds.subrange(32, 64))
                && eta_veck_spec(e12, seeds.subrange(64, 128), 5)
                && eta_vecl_spec(sk.s12_prime, seeds.subrange(64, 128), 0)
                && is_masked_response(pk.z1, Seq::new(N as nat, |t: int| challenge_spec(pk.c@ + nonce_bytes(0))[t] as int), ppk.s11, ppk.y11)
                && is_masked_response(pk.z2, Seq::new(N as nat, |t: int| challenge_spec(pk.c@ + nonce_bytes(1))[t] as int), sk.s12_prime, sk.y12)
                && (forall|k: int, i: int| 0 <= k < K && 0 <= i < N ==>
                    #[trigger] pk.b12_h.vec[k].coeffs[i] * 8192 + sk.b12_l.vec[k].coeffs[i]
                        == mod_q(center_mod_q(matvec_coeff(mat12, sk.s12_prime, k, i)) + e12.vec[k].coeffs[i]))
                && pk.c@ == shake256_spec(
                    seeds.subrange(0, 64) + w1_pack_fn(high_table(commitment_table(mat11, mat12, ppk.y11, sk.y12))),
                    32,
                )
        }),
{
    let seeds = shake256_spec(params.rho@ + identity, 128);
    let mat11 = user_matrix11(params.rho@, identity);
    let mat12 = user_matrix12(params.rho@, identity);
    let e12 = user_error12(params.rho@, identity);
    assert(challenge_ints(pk.c@, 0) =~= Seq::new(N as nat, |t: int| challenge_spec(pk.c@ + nonce_bytes(0))[t] as int));
    assert(challenge_ints(pk.c@, 1) =~= Seq::new(N as nat, |t: int| challenge_spec(pk.c@ + nonce_bytes(1))[t] as int));
    assert forall|k: int, i: int| 0 <= k < K && 0 <= i < N implies
        #[trigger] pk.b12_h.vec[k].coeffs[i] * 8192 + sk.b12_l.vec[k].coeffs[i]
            == mod_q(center_mod_q(matvec_coeff(mat12, sk.s12_prime, k, i)) + e12.vec[k].coeffs[i]) by {
        assert(pk.b12_h.vec[k].coeffs[i] == public12_high(params.rho@, identity)(k, i));
        assert(sk.b12_l.vec[k].coeffs[i] == public12_low(params.rho@, identity)(k, i));
    }
    assert(matrix_spec(mat11, seeds.subrange(0, 32)) && matrix_spec(mat12, seeds.subrange(32, 64))
        && eta_veck_spec(e12, seeds.subrange(64, 128), 5));
}

/// The signature of attempt `n` answers its challenge with the masks
/// gamma1-sampled from bytes 64..128 of SHAKE256(`rho` || `identity`) with
/// the nonces `2 * n` and `2 * n + 1`, and its challenge seed is SHAKE256 of
/// bytes 0..64, the packed sum of the high parts of the key's and of the
/// attempt's commitments `mat11 * y1 + mat12 * y2` (the matrices expanded
/// from bytes 0..32 and 32..64) and the whole message.
proof fn lemma_signature_from_seeds(
    msg: Seq<u8>,
    identity: Seq<u8>,
    params: Params,
    pk: PublicKey,
    sk: SecretKey,
    sig: Signature,
    n: int,
)
    requires
        sign_attempt_gives(msg, identity, params, pk, sk, n, sig),
        0 <= n < SIG_RETRY_THRESHOLD,
        gamma1_vecl_spec(sign_mask(params.rho@, identity, n, 0), shake256_spec(params.rho@ + identity, 128).subrange(64, 128), 2 * n),
        gamma1_vecl_spec(sign_mask(params.rho@, identity, n, 1), shake256_spec(params.rho@ + identity, 128).subrange(64, 128), 2 * n + 1),
        matrix_spec(user_matrix11(params.rho@, identity), shake256_spec(params.rho@ + identity, 128).subrange(0, 32)),
        matrix_spec(user_matrix12(params.rho@, identity), shake256_spec(params.rho@ + identity, 128).subrange(32, 64)),
    ensures
        ({
            let seeds = shake256_spec(params.rho@ + identity, 128);
            exists|n: int, mat11: [Polyvecl; K], mat12: [Polyvecl; K], y1: Polyvecl, y2: Polyvecl|
                #![trigger matrix_spec(mat11, seeds.subrange(0, 32)), matrix_spec(mat12, seeds.subrange(32, 64)), gamma1_vecl_spec(y1, seeds.subrange(64, 128), 2 * n), gamma1_vecl_spec(y2, seeds.subrange(64, 128), 2 * n + 1)]
                0 <= n < SIG_RETRY_THRESHOLD
                && matrix_spec(mat11, seeds.subrange(0, 32))
                && matrix_spec(mat12, seeds.subrange(32, 64))
                && gamma1_vecl_spec(y1, seeds.subrange(64, 128), 2 * n)
                && gamma1_vecl_spec(y2, seeds.subrange(64, 128), 2 * n + 1)
                && is_masked_response(sig.z_i1, Seq::new(N as nat, |t: int| challenge_spec(sig.c_i@ + nonce_bytes(0))[t] as int), sk.s11, y1)
                && is_masked_response(sig.z_i2, Seq::new(N as nat, |t: int| challenge_spec(sig.c_i@ + nonce_bytes(1))[t] as int), sk.s12_prime, y2)
                && sig.c_i@ == shake256_spec(
                    seeds.subrange(0, 64)
                        + w1_pack_fn(|k: int, i: int|
                            high_table(commitment_table(mat11, mat12, sk.y11, sk.y12))(k, i)
                            + high_table(commitment_table(mat11, mat12, y1, y2))(k, i))
                        + msg,
                    32,
                )
        }),
{
    let seeds = shake256_spec(params.rho@ + identity, 128);
    let y1 = sign_mask(params.rho@, identity, n, 0);
    let y2 = sign_mask(params.rho@, identity, n, 1);
    assert(challenge_ints(sig.c_i@, 0) =~= Seq::new(N as nat, |t: int| challenge_spec(sig.c_i@ + nonce_bytes(0))[t] as int));
    assert(challenge_ints(sig.c_i@, 1) =~= Seq::new(N as nat, |t: int| challenge_spec(sig.c_i@ + nonce_bytes(1))[t] as int));
    let mat11 = user_matrix11(params.rho@, identity);
    let mat12 = user_matrix12(params.rho@, identity);
    assert(sign_high_sum(identity, params, sk, n) =~= (|k: int, i: int|
        high_table(commitment_table(mat11, mat12, sk.y11, sk.y12))(k, i)
        + high_table(commitment_table(mat11, mat12, y1, y2))(k, i)));
    assert(matrix_spec(mat11, seeds.subrange(0, 32)) && matrix_spec(mat12, seeds.subrange(32, 64))
        && gamma1_vecl_spec(y1, seeds.subrange(64, 128), 2 * n) && gamma1_vecl_spec(y2, seeds.subrange(64, 128), 2 * n + 1));
}

/// No coefficient of `z` reaches `GAMMA1 - BETA` in absolute value.
pub open spec fn response_short(z: Polyvecl) -> bool {
    !vecl_exceeds_norm(z, (GAMMA1 - BETA) as int)
}

/// `h` is a hint vector (0/1 coefficients) with at most `OMEGA` ones.
pub open spec fn hint_valid(h: Polyveck) -> bool {
    veck_in_range(h, 0, 1) && veck_hint_weight(h, K as int) <= OMEGA
}

/// Seeds `r || r'` from SHAKE256(`rho` || `identity`).
fn expand_seeds(rho: &[u8; SEEDBYTES], identity: &[u8]) -> (seedbuf: [u8; 128])
    requires
        identity@.len() == ID_SIZE,
    ensures
        seedbuf@ == user_seeds(rho@, identity@),
{
    let mut seedbuf = [0u8; 128];
    let mut hash_input = [0u8; 64];
    for i in 0..SEEDBYTES
        invariant
            forall|j: int| 0 <= j < i ==> #[trigger] hash_input@[j] == rho@[j],
    {
        hash_input[i] = rho[i];
    }
    for i in 0..ID_SIZE
        invariant
            identity@.len() == ID_SIZE,
            forall|j: int| 0 <= j < SEEDBYTES ==> #[trigger] hash_input@[j] == rho@[j],
            forall|j: int| 0 <= j < i ==> #[trigger] hash_input@[SEEDBYTES + j] == identity@[j],
    {
        hash_input[SEEDBYTES + i] = identity[i];
    }
    assert(hash_input@.subrange(0, 64) =~= rho@ + identity@) by {
        assert forall|j: int| SEEDBYTES <= j < 64 implies #[trigger] hash_input@[j] == (rho@ + identity@)[j] by {
            assert(hash_input@[SEEDBYTES + (j - SEEDBYTES)] == identity@[j - SEEDBYTES]);
        }
    }
    shake256(&mut seedbuf, R_SIZE + R_PRIME_SIZE, &hash_input, SEEDBYTES + ID_SIZE);
    assert(seedbuf@ =~= seedbuf@.subrange(0, 128));
    seedbuf
}

/// `c * s + y`, the product taken as centred representatives.
fn masked_response(c: &Poly, s: &Polyvecl, y: &Polyvecl) -> (z: Polyvecl)
    requires
        mask_in_range(*y),
    ensures
        is_masked_response(z, poly_ints(*c), *s, *y),
        vecl_in_range(z, -1073741823, 1073741823),
{
    let mut z = Polyvecl::default();
    polyvecl_pointwise_poly(&mut z, c, s);
    polyvecl_add(&mut z, y);
    z
}

/// `b_h * 2^D + b_l - mat * s`, the product taken as centred
/// representatives.
fn error_vector(b_h: &Polyveck, b_l: &Polyveck, mat: &[Polyvecl; K], s: &Polyvecl) -> (e: Polyveck)
    requires
        split_fits(*b_h, *b_l),
    ensures
        tables_agree(veck_table(e), error_table(*b_h, *b_l, *mat, *s), K as int),
{
    let mut e = *b_h;
    polyveck_shiftl(&mut e);
    polyveck_add(&mut e, b_l);
    let mut prod = Polyveck::default();
    polyvec_matrix_mul(&mut prod, mat, s);
    polyveck_sub(&mut e, &prod);
    e
}

/// Splits `v` into the high and low parts (range `2 * GAMMA2`) of its
/// standard representatives, which it also returns.
fn decompose_centered(v: &Polyveck) -> (res: (Polyveck, Polyveck, Polyveck))
    requires
        veck_in_range(*v, i32::MIN as int, 2147483647 - 4194304),
    ensures
        veck_in_range(res.0, 0, Q_I32 - 1),
        forall|k: int, i: int| 0 <= k < K && 0 <= i < N ==> #[trigger] res.0.vec[k].coeffs[i]
            == mod_q(v.vec[k].coeffs[i] as int),
        forall|k: int, i: int| 0 <= k < K && 0 <= i < N ==> #[trigger] res.1.vec[k].coeffs[i]
            == high_bits(res.0.vec[k].coeffs[i] as int, ALPHA as int),
        forall|k: int, i: int| 0 <= k < K && 0 <= i < N ==> #[trigger] res.2.vec[k].coeffs[i]
            == low_bits(res.0.vec[k].coeffs[i] as int, ALPHA as int),
        tables_agree(veck_table(res.1), high_table(veck_table(*v)), K as int),
        tables_agree(veck_table(res.2), low_table(veck_table(*v)), K as int),
        veck_in_range(res.1, 0, 15),
{
    let mut std = *v;
    polyveck_reduce(&mut std);
    polyveck_caddq(&mut std);
    assert forall|k: int, i: int| 0 <= k < K && 0 <= i < N implies
        0 <= #[trigger] std.vec[k].coeffs[i] <= Q_I32 - 1 && std.vec[k].coeffs[i] == mod_q(v.vec[k].coeffs[i] as int) by {
        lemma_reduce32_range(v.vec[k].coeffs[i] as int);
        lemma_caddq_standard(reduce32_spec(v.vec[k].coeffs[i] as int));
        lemma_standard_representative(v.vec[k].coeffs[i] as int);
    }
    let mut high = std;
    let mut low = Polyveck::default();
    polyveck_decompose(&mut high, &mut low);
    (std, high, low)
}

/// SHAKE256 of `r` (the first `R_SIZE` bytes of `seedbuf`), the 4-bit
/// packing of `high` and `msg[..msglen]`; the first `SEEDBYTES` bytes.
fn challenge_seed(seedbuf: &[u8; 128], high: &Polyveck, msg: &[u8], msglen: usize) -> (c: [u8; SEEDBYTES])
    requires
        msglen <= msg@.len(),
    ensures
        c@ == challenge_digest(seedbuf@.subrange(0, R_SIZE as int), veck_table(*high), msg@.subrange(0, msglen as int)),
{
    let mut packed = [0u8; 768];
    polyveck_pack_w1(&mut packed, high);
    assert(packed@ =~= w1_pack_fn(veck_table(*high))) by {
        assert forall|x: int| 0 <= x < 768 implies #[trigger] packed@[x] == w1_pack_fn(veck_table(*high))[x] by {
            let k = x / 128;
            let g = x % 128;
            assert(packed@[POLYW1_PACKEDBYTES * k + g] == w1_byte(high.vec[k], g));
        }
    }
    let mut c = [0u8; SEEDBYTES];
    let mut state = KeccakState::default();
    state.init();
    shake256_absorb(&mut state, seedbuf, R_SIZE);
    shake256_absorb(&mut state, &packed, K * POLYW1_PACKEDBYTES);
    shake256_absorb(&mut state, msg, msglen);
    proof {
        let r = seedbuf@.subrange(0, R_SIZE as int);
        let p = packed@.subrange(0, 768);
        let m = msg@.subrange(0, msglen as int);
        assert(p == packed@);
        lemma_absorb_concat(zero_state(), 0, SHAKE256_RATE as int, r, p);
        lemma_absorb_concat(zero_state(), 0, SHAKE256_RATE as int, r + p, m);
    }
    shake256_finalize(&mut state);
    shake256_squeeze(&mut c, 0, SEEDBYTES, &mut state);
    assert(c@ =~= c@.subrange(0, SEEDBYTES as int));
    c
}

/// The high parts that the hint `h` recovers from `mat11 * z1 + mat12 * z2
/// - c1 * (b11_h << D) - c2 * (b12_h << D)`, where `c1` and `c2` are the
/// challenges of the seed `c`.
fn hint_corrected_high(
    mat11: &[Polyvecl; K],
    mat12: &[Polyvecl; K],
    z1: &Polyvecl,
    z2: &Polyvecl,
    c: &[u8; SEEDBYTES],
    b11_h: &Polyveck,
    b12_h: &Polyveck,
    h: &Polyveck,
) -> (w: Polyveck)
    requires
        veck_in_range(*h, 0, 1),
    ensures
        forall|k: int, i: int| 0 <= k < K && 0 <= i < N ==> #[trigger] w.vec[k].coeffs[i]
            == recovered_high(*mat11, *mat12, *z1, *z2, c@, *b11_h, *b12_h, *h, k, i),
        veck_in_range(w, 0, 15),
{
    let mut b11_h_shifted = *b11_h;
    polyveck_shiftl(&mut b11_h_shifted);
    let mut b12_h_shifted = *b12_h;
    polyveck_shiftl(&mut b12_h_shifted);
    let mut c1 = Poly::default();
    poly_challenge_nonced(&mut c1, c, 0, 0);
    let mut c2 = Poly::default();
    poly_challenge_nonced(&mut c2, c, 0, 1);
    proof {
        assert(c@.subrange(0, SEEDBYTES as int) == c@);
        assert(poly_ints(c1) =~= challenge_ints(c@, 0));
        assert(poly_ints(c2) =~= challenge_ints(c@, 1));
        assert forall|k: int| 0 <= k < K implies #[trigger] poly_ints(b11_h_shifted.vec[k]) == shifted_ints(b11_h.vec[k])
            && poly_ints(b12_h_shifted.vec[k]) == shifted_ints(b12_h.vec[k]) by {
            assert(poly_ints(b11_h_shifted.vec[k]) =~= shifted_ints(b11_h.vec[k]));
            assert(poly_ints(b12_h_shifted.vec[k]) =~= shifted_ints(b12_h.vec[k]));
        }
    }

    // cb = c1 * (b11_h << D) + c2 * (b12_h << D).
    let mut cb = Polyveck::default();
    polyveck_pointwise_poly(&mut cb, &c1, &b11_h_shifted);
    let mut c2_b12_h = Polyveck::default();
    polyveck_pointwise_poly(&mut c2_b12_h, &c2, &b12_h_shifted);
    polyveck_add(&mut cb, &c2_b12_h);

    // mat11 * z1 + mat12 * z2 - cb, its standard representatives, and the
    // hint-corrected high parts.
    let mut prehint = Polyveck::default();
    polyvec_matrix_mul(&mut prehint, mat11, z1);
    let mut a12_z2 = Polyveck::default();
    polyvec_matrix_mul(&mut a12_z2, mat12, z2);
    polyveck_add(&mut prehint, &a12_z2);
    polyveck_sub(&mut prehint, &cb);
    let (prehint_std, _high, _low) = decompose_centered(&prehint);
    let mut w = Polyveck::default();
    polyveck_use_hint_simple(&mut w, h, &prehint_std);
    proof {
        assert forall|k: int, i: int| 0 <= k < K && 0 <= i < N implies #[trigger] w.vec[k].coeffs[i]
            == recovered_high(*mat11, *mat12, *z1, *z2, c@, *b11_h, *b12_h, *h, k, i)
            && 0 <= w.vec[k].coeffs[i] <= 15 by {
            let x = prehint.vec[k].coeffs[i] as int;
            lemma_standard_representative(x);
            lemma_center_combination(
                matvec_coeff(*mat11, *z1, k, i),
                matvec_coeff(*mat12, *z2, k, i),
                ring_mul_coeff(c1, b11_h_shifted.vec[k], i),
                ring_mul_coeff(c2, b12_h_shifted.vec[k], i),
            );
            assert(mod_q(x) == mod_q(commitment_coeff(*mat11, *mat12, *z1, *z2, c@, *b11_h, *b12_h, k, i)));
            lemma_use_hint_range(mod_q(x), h.vec[k].coeffs[i] as int);
        }
    }
    w
}

/// One attempt of the rejection-sampled proof: from the commitment `v`
/// (with high parts `v_h`) and the challenge seed `c`, the responses `z1 =
/// c1 * s1 + y1`, `z2 = c2 * s2 + y2`, the residual `v - c1 * e1 - c2 *
/// e2`, the correction `-(c1 * l1 + c2 * l2)` and the hints; `None` when a
/// check rejects them.
fn attempt_response(
    v: &Polyveck,
    v_h: &Polyveck,
    c: &[u8; SEEDBYTES],
    s1: &Polyvecl,
    y1: &Polyvecl,
    s2: &Polyvecl,
    y2: &Polyvecl,
    e1: &Polyveck,
    e2: &Polyveck,
    l1: &Polyveck,
    l2: &Polyveck,
    corr_bound: i32,
) -> (res: Option<(Polyvecl, Polyvecl, Polyveck)>)
    requires
        veck_in_range(*v, -(Q_I32 - 1), Q_I32 - 1),
        veck_in_range(*v_h, 0, 15),
        mask_in_range(*y1),
        mask_in_range(*y2),
        corr_bound == GAMMA2_I32,
    ensures
        ({
            let c1 = challenge_ints(c@, 0);
            let c2 = challenge_ints(c@, 1);
            let r = residual_table(veck_table(*v), c1, c2, veck_table(*e1), veck_table(*e2));
            let corr = low_correction(c1, c2, veck_table(*l1), veck_table(*l2));
            &&& (res is Some) == attempt_checks(
                masked_table(c1, *s1, *y1),
                masked_table(c2, *s2, *y2),
                r,
                veck_table(*v_h),
                corr,
                corr_bound as int,
            )
            &&& res matches Some((z1, z2, h)) ==> {
                &&& is_masked_response(z1, c1, *s1, *y1)
                &&& is_masked_response(z2, c2, *s2, *y2)
                &&& tables_agree(veck_table(h), hint_table(r, corr), K as int)
                &&& response_short(z1)
                &&& response_short(z2)
                &&& hint_valid(h)
            }
        }),
{
    reveal(attempt_checks);
    let ghost c1s = challenge_ints(c@, 0);
    let ghost c2s = challenge_ints(c@, 1);
    let mut c1 = Poly::default();
    poly_challenge_nonced(&mut c1, c, 0, 0);
    let mut c2 = Poly::default();
    poly_challenge_nonced(&mut c2, c, 0, 1);
    proof {
        assert(c@.subrange(0, SEEDBYTES as int) == c@);
        assert(poly_ints(c1) =~= c1s);
        assert(poly_ints(c2) =~= c2s);
    }

    // Responses z1 = c1 * s1 + y1 and z2 = c2 * s2 + y2.
    let z1 = masked_response(&c1, s1, y1);
    let z2 = masked_response(&c2, s2, y2);
    proof {
        lemma_vecl_exceeds_table(z1, masked_table(c1s, *s1, *y1), (GAMMA1 - BETA) as int);
        lemma_vecl_exceeds_table(z2, masked_table(c2s, *s2, *y2), (GAMMA1 - BETA) as int);
    }
    if polyvecl_chknorm(&z1, (GAMMA1 - BETA) as i32) > 0 {
        return None;
    }
    if polyvecl_chknorm(&z2, (GAMMA1 - BETA) as i32) > 0 {
        return None;
    }

    // Residual r = v - c1 * e1 - c2 * e2 and its parts.
    let mut r = *v;
    let mut c1_e1 = Polyveck::default();
    polyveck_pointwise_poly(&mut c1_e1, &c1, e1);
    polyveck_sub(&mut r, &c1_e1);
    let mut c2_e2 = Polyveck::default();
    polyveck_pointwise_poly(&mut c2_e2, &c2, e2);
    polyveck_sub(&mut r, &c2_e2);
    let ghost rt = residual_table(veck_table(*v), c1s, c2s, veck_table(*e1), veck_table(*e2));
    proof {
        assert forall|k: int| 0 <= k < K implies #[trigger] poly_ints(e1.vec[k]) == crate::nopki::model::table_row(veck_table(*e1), k)
            && poly_ints(e2.vec[k]) == crate::nopki::model::table_row(veck_table(*e2), k) by {
            assert(poly_ints(e1.vec[k]) =~= crate::nopki::model::table_row(veck_table(*e1), k));
            assert(poly_ints(e2.vec[k]) =~= crate::nopki::model::table_row(veck_table(*e2), k));
        }
        assert(tables_agree(veck_table(r), rt, K as int));
    }
    let (r_std, r_high, r_low) = decompose_centered(&r);
    proof {
        lemma_veck_exceeds_table(r_low, low_table(rt), (GAMMA2 - BETA) as int);
    }
    if polyveck_chknorm(&r_low, (GAMMA2 - BETA) as i32) > 0 {
        return None;
    }

    // The high parts of r and v must agree.
    let mut diff = r_high;
    polyveck_sub(&mut diff, v_h);
    polyveck_reduce(&mut diff);
    proof {
        assert forall|k: int, i: int| 0 <= k < K && 0 <= i < N implies #[trigger] diff.vec[k].coeffs[i]
            == r_high.vec[k].coeffs[i] - v_h.vec[k].coeffs[i] by {
            lemma_reduce32_small(r_high.vec[k].coeffs[i] - v_h.vec[k].coeffs[i]);
        }
        if crate::polyvec::veck_exceeds_norm(diff, 1) {
            let k = choose|k: int| 0 <= k < K && #[trigger] crate::poly::exceeds_norm(diff.vec[k], 1);
            let i = choose|i: int| 0 <= i < N && (#[trigger] diff.vec[k].coeffs[i] >= 1 || diff.vec[k].coeffs[i] <= -1);
            assert(high_table(rt)(k, i) != veck_table(*v_h)(k, i));
        } else {
            assert forall|k: int, i: int| 0 <= k < K && 0 <= i < N implies #[trigger] high_table(rt)(k, i)
                == veck_table(*v_h)(k, i) by {
                if diff.vec[k].coeffs[i] != 0 {
                    assert(crate::poly::exceeds_norm(diff.vec[k], 1));
                }
            }
        }
    }
    if polyveck_chknorm(&diff, 1i32) > 0 {
        return None;
    }

    // Correction -(c1 * l1 + c2 * l2).
    let mut c1_l1 = Polyveck::default();
    polyveck_pointwise_poly(&mut c1_l1, &c1, l1);
    let mut c2_l2 = Polyveck::default();
    polyveck_pointwise_poly(&mut c2_l2, &c2, l2);
    let mut corr = Polyveck::default();
    polyveck_sub(&mut corr, &c1_l1);
    polyveck_sub(&mut corr, &c2_l2);
    polyveck_reduce(&mut corr);
    let ghost ct = low_correction(c1s, c2s, veck_table(*l1), veck_table(*l2));
    proof {
        assert forall|k: int| 0 <= k < K implies #[trigger] poly_ints(l1.vec[k]) == crate::nopki::model::table_row(veck_table(*l1), k)
            && poly_ints(l2.vec[k]) == crate::nopki::model::table_row(veck_table(*l2), k) by {
            assert(poly_ints(l1.vec[k]) =~= crate::nopki::model::table_row(veck_table(*l1), k));
            assert(poly_ints(l2.vec[k]) =~= crate::nopki::model::table_row(veck_table(*l2), k));
        }
        assert(tables_agree(veck_table(corr), ct, K as int));
        lemma_veck_exceeds_table(corr, ct, corr_bound as int);
    }
    if polyveck_chknorm(&corr, corr_bound) > 0 {
        return None;
    }

    // Hints from (corr, r - corr).
    let mut hint_from = r_std;
    polyveck_sub(&mut hint_from, &corr);
    let ghost hf = hint_from;
    polyveck_reduce(&mut hint_from);
    polyveck_caddq(&mut hint_from);
    proof {
        assert forall|k: int, i: int| 0 <= k < K && 0 <= i < N implies #[trigger] hint_from.vec[k].coeffs[i]
            == crate::nopki::model::hint_base(rt, ct)(k, i) by {
            lemma_standard_representative(hf.vec[k].coeffs[i] as int);
        }
    }
    let mut h = Polyveck::default();
    let n = polyveck_make_hint_simple(&mut h, &corr, &hint_from);
    proof {
        assert(tables_agree(veck_table(h), hint_table(rt, ct), K as int));
        lemma_weight_table(h, hint_table(rt, ct), K as int);
    }
    if n > OMEGA as i32 {
        return None;
    }
    proof {
        assert(veck_in_range(h, 0, 1));
    }
    Some((z1, z2, h))
}

/// The checks and hints that `attempt_response` computes from the values of
/// attempt `n` of the key generation are those of the attempt.
proof fn lemma_keygen_attempt_link(
    id: Seq<u8>,
    params: Params,
    s11: Polyvecl,
    y11: Polyvecl,
    b11_l: Polyveck,
    n: int,
    v1: spec_fn(int, int) -> int,
    v1_h: spec_fn(int, int) -> int,
    e11: spec_fn(int, int) -> int,
    e12: spec_fn(int, int) -> int,
    b12_l: spec_fn(int, int) -> int,
    y12: Polyvecl,
    s12: Polyvecl,
    c: Seq<u8>,
)
    requires
        tables_agree(v1, keygen_commitment(id, params, y11, n), K as int),
        tables_agree(v1_h, high_table(keygen_commitment(id, params, y11, n)), K as int),
        tables_agree(e11, kgc_error(id, params, s11, b11_l), K as int),
        tables_agree(e12, veck_table(user_error12(params.rho@, id)), K as int),
        tables_agree(b12_l, public12_low(params.rho@, id), K as int),
        y12 == keygen_mask(params.rho@, id, n),
        s12 == user_secret12(params.rho@, id),
        c == keygen_challenge(id, params, y11, n),
    ensures
        ({
            let c1 = challenge_ints(c, 0);
            let c2 = challenge_ints(c, 1);
            let r = residual_table(v1, c1, c2, e11, e12);
            let corr = low_correction(c1, c2, veck_table(b11_l), b12_l);
            &&& attempt_checks(masked_table(c1, s11, y11), masked_table(c2, s12, y12), r, v1_h, corr, GAMMA2 as int)
                == keygen_attempt_passes(id, params, s11, y11, b11_l, n)
            &&& tables_agree(hint_table(r, corr), hint_table(
                keygen_residual(id, params, s11, y11, b11_l, n), keygen_correction(id, params, y11, b11_l, n)), K as int)
        }),
{
    let c1 = challenge_ints(c, 0);
    let c2 = challenge_ints(c, 1);
    let commit = keygen_commitment(id, params, y11, n);
    lemma_residual_agree(v1, commit, c1, c2, e11, kgc_error(id, params, s11, b11_l), e12,
        veck_table(user_error12(params.rho@, id)));
    lemma_correction_agree(c1, c2, veck_table(b11_l), veck_table(b11_l), b12_l, public12_low(params.rho@, id));
    lemma_checks_agree(
        masked_table(c1, s11, y11), masked_table(c1, s11, y11),
        masked_table(c2, s12, y12), masked_table(c2, s12, y12),
        residual_table(v1, c1, c2, e11, e12), keygen_residual(id, params, s11, y11, b11_l, n),
        v1_h, high_table(commit),
        low_correction(c1, c2, veck_table(b11_l), b12_l), keygen_correction(id, params, y11, b11_l, n),
        GAMMA2 as int,
    );
}

/// The checks and hints that `attempt_response` computes from the values of
/// attempt `n` of the signing are those of the attempt.
proof fn lemma_sign_attempt_link(
    msg: Seq<u8>,
    id: Seq<u8>,
    params: Params,
    pk: PublicKey,
    sk: SecretKey,
    n: int,
    v_i: spec_fn(int, int) -> int,
    v_i_h: spec_fn(int, int) -> int,
    e11: spec_fn(int, int) -> int,
    e12: spec_fn(int, int) -> int,
    c: Seq<u8>,
)
    requires
        tables_agree(v_i, sign_commitment(id, params, n), K as int),
        tables_agree(v_i_h, high_table(sign_commitment(id, params, n)), K as int),
        tables_agree(e11, error_table(params.b11_h, sk.b11_l, user_matrix11(params.rho@, id), sk.s11), K as int),
        tables_agree(e12, error_table(pk.b12_h, sk.b12_l, user_matrix12(params.rho@, id), sk.s12_prime), K as int),
        c == sign_challenge(msg, id, params, sk, n),
    ensures
        ({
            let c1 = challenge_ints(c, 0);
            let c2 = challenge_ints(c, 1);
            let r = residual_table(v_i, c1, c2, e11, e12);
            let corr = low_correction(c1, c2, veck_table(sk.b11_l), veck_table(sk.b12_l));
            &&& attempt_checks(
                masked_table(c1, sk.s11, sign_mask(params.rho@, id, n, 0)),
                masked_table(c2, sk.s12_prime, sign_mask(params.rho@, id, n, 1)),
                r, v_i_h, corr, GAMMA2 as int,
            ) == sign_attempt_passes(msg, id, params, pk, sk, n)
            &&& tables_agree(hint_table(r, corr), hint_table(
                sign_residual(msg, id, params, pk, sk, n), sign_correction(msg, id, params, sk, n)), K as int)
        }),
{
    let c1 = challenge_ints(c, 0);
    let c2 = challenge_ints(c, 1);
    let commit = sign_commitment(id, params, n);
    let y1 = sign_mask(params.rho@, id, n, 0);
    let y2 = sign_mask(params.rho@, id, n, 1);
    lemma_residual_agree(v_i, commit, c1, c2, e11,
        error_table(params.b11_h, sk.b11_l, user_matrix11(params.rho@, id), sk.s11), e12,
        error_table(pk.b12_h, sk.b12_l, user_matrix12(params.rho@, id), sk.s12_prime));
    lemma_correction_agree(c1, c2, veck_table(sk.b11_l), veck_table(sk.b11_l), veck_table(sk.b12_l), veck_table(sk.b12_l));
    lemma_checks_agree(
        masked_table(c1, sk.s11, y1), masked_table(c1, sk.s11, y1),
        masked_table(c2, sk.s12_prime, y2), masked_table(c2, sk.s12_prime, y2),
        residual_table(v_i, c1, c2, e11, e12), sign_residual(msg, id, params, pk, sk, n),
        v_i_h, high_table(commit),
        low_correction(c1, c2, veck_table(sk.b11_l), veck_table(sk.b12_l)), sign_correction(msg, id, params, sk, n),
        GAMMA2 as int,
    );
}

/// Attempt `nonce` of the key generation: the mask `y12`, the commitment
/// `v1 = mat11 * y11 + mat12 * y12`, its challenge seed `c`, then the
/// response; `None` when a check rejects it.
#[verifier::spinoff_prover]
#[verifier::rlimit(80)]
fn keygen_attempt(
    identity: &[u8],
    params: &Params,
    ppk: &PartialPrivateKey,
    seedbuf: &[u8; 128],
    mat_a11: &[Polyvecl; K],
    mat_a12: &[Polyvecl; K],
    v11: &Polyveck,
    e11: &Polyveck,
    e12: &Polyveck,
    s12_prime: &Polyvecl,
    b12_h: &Polyveck,
    b12_l: &Polyveck,
    nonce: u16,
) -> (res: Option<(PublicKey, SecretKey)>)
    requires
        nonce < KEYGEN_RETRY_THRESHOLD,
        mask_in_range(ppk.y11),
        seedbuf@ == user_seeds(params.rho@, identity@),
        *mat_a11 == user_matrix11(params.rho@, identity@),
        *mat_a12 == user_matrix12(params.rho@, identity@),
        *s12_prime == user_secret12(params.rho@, identity@),
        *e12 == user_error12(params.rho@, identity@),
        forall|k: int, i: int| 0 <= k < K && 0 <= i < N ==> #[trigger] v11.vec[k].coeffs[i]
            == center_mod_q(matvec_coeff(*mat_a11, ppk.y11, k, i)),
        veck_in_range(*v11, -(Q_I32 - 1) / 2, (Q_I32 - 1) / 2),
        tables_agree(veck_table(*e11), kgc_error(identity@, *params, ppk.s11, ppk.b11_l), K as int),
        tables_agree(veck_table(*b12_h), public12_high(params.rho@, identity@), K as int),
        tables_agree(veck_table(*b12_l), public12_low(params.rho@, identity@), K as int),
        veck_in_range(*b12_h, 0, 1023),
        veck_in_range(*b12_l, -4095, 4096),
        vecl_in_range(*s12_prime, -ETA_I32 as int, ETA_I32 as int),
    ensures
        (res is Some) == keygen_attempt_passes(identity@, *params, ppk.s11, ppk.y11, ppk.b11_l, nonce as int),
        res matches Some((pk, sk)) ==> {
            &&& keygen_attempt_gives(identity@, *params, ppk.s11, ppk.y11, ppk.b11_l, nonce as int, pk, sk)
            &&& response_short(pk.z1)
            &&& response_short(pk.z2)
            &&& hint_valid(pk.h)
            &&& veck_in_range(pk.b12_h, 0, 1023)
            &&& veck_in_range(sk.b12_l, -4095, 4096)
            &&& vecl_in_range(sk.s12_prime, -ETA_I32 as int, ETA_I32 as int)
            &&& vecl_in_range(sk.y12, GAMMA1_I32 - 1048575, GAMMA1_I32 as int)
        },
        gamma1_vecl_spec(keygen_mask(params.rho@, identity@, nonce as int),
            shake256_spec(params.rho@ + identity@, 128).subrange(64, 128), nonce as int),
{
    let ghost id = identity@;
    let ghost n = nonce as int;
    // Mask y12 and commitment v1 = v11 + mat12 * y12.
    let mut y12 = Polyvecl::default();
    polyvecl_uniform_gamma1(&mut y12, seedbuf, R_SIZE, nonce);
    proof {
        lemma_gamma1_vecl_unique(y12, seedbuf@.subrange(R_SIZE as int, (R_SIZE + R_PRIME_SIZE) as int), nonce as int);
    }
    let mut v12 = Polyveck::default();
    polyvec_matrix_mul(&mut v12, mat_a12, &y12);
    let mut v1 = *v11;
    polyveck_add(&mut v1, &v12);
    let ghost commit = keygen_commitment(id, *params, ppk.y11, n);
    assert(tables_agree(veck_table(v1), commit, K as int));
    let (_v1_std, v1_h, _v1_l) = decompose_centered(&v1);

    // Challenge seed c from r and the high parts of v1.
    let c = challenge_seed(seedbuf, &v1_h, seedbuf, 0);
    proof {
        assert(tables_agree(veck_table(v1_h), high_table(commit), K as int)) by {
            assert forall|k: int, i: int| 0 <= k < K && 0 <= i < N implies #[trigger] veck_table(v1_h)(k, i)
                == high_table(commit)(k, i) by {
                assert(veck_table(v1)(k, i) == commit(k, i));
            }
        }
        lemma_pack_agree(veck_table(v1_h), high_table(commit));
        assert(seedbuf@.subrange(0, 0) =~= Seq::<u8>::empty());
        assert(c@ == keygen_challenge(id, *params, ppk.y11, n));
    }

    let res = attempt_response(&v1, &v1_h, &c, &ppk.s11, &ppk.y11, s12_prime, &y12, e11, e12, &ppk.b11_l, b12_l, GAMMA2_I32);
    proof {
        lemma_keygen_attempt_link(id, *params, ppk.s11, ppk.y11, ppk.b11_l, n, veck_table(v1), veck_table(v1_h),
            veck_table(*e11), veck_table(*e12), veck_table(*b12_l), y12, *s12_prime, c@);
    }
    match res {
        None => None,
        Some((z1, z2, h)) => {
            proof {
                let c1 = challenge_ints(c@, 0);
                let c2 = challenge_ints(c@, 1);
                let r = residual_table(veck_table(v1), c1, c2, veck_table(*e11), veck_table(*e12));
                let corr = low_correction(c1, c2, veck_table(ppk.b11_l), veck_table(*b12_l));
                let kres = keygen_residual(id, *params, ppk.s11, ppk.y11, ppk.b11_l, n);
                let kcorr = keygen_correction(id, *params, ppk.y11, ppk.b11_l, n);
                assert forall|k: int, i: int| 0 <= k < K && 0 <= i < N implies #[trigger] h.vec[k].coeffs[i]
                    == hint_table(kres, kcorr)(k, i) by {
                    assert(veck_table(h)(k, i) == hint_table(r, corr)(k, i));
                }
                assert forall|k: int, i: int| 0 <= k < K && 0 <= i < N implies #[trigger] b12_h.vec[k].coeffs[i]
                    == public12_high(params.rho@, id)(k, i) by {
                    assert(veck_table(*b12_h)(k, i) == public12_high(params.rho@, id)(k, i));
                }
                assert forall|k: int, i: int| 0 <= k < K && 0 <= i < N implies #[trigger] b12_l.vec[k].coeffs[i]
                    == public12_low(params.rho@, id)(k, i) by {
                    assert(veck_table(*b12_l)(k, i) == public12_low(params.rho@, id)(k, i));
                }
            }
            let pk = PublicKey { b12_h: *b12_h, z1, z2, h, c };
            let sk = SecretKey {
                b11_l: ppk.b11_l,
                b12_l: *b12_l,
                y11: ppk.y11,
                y12,
                s11: ppk.s11,
                s12_prime: *s12_prime,
            };
            proof {
                assert(keygen_attempt_gives(id, *params, ppk.s11, ppk.y11, ppk.b11_l, n, pk, sk));
            }
            Some((pk, sk))
        },
    }
}

/// Generates the key pair of the user `identity` from the public parameters
/// and its partial private key: it samples its own secret `s12'` and public
/// vector `b12 = mat12 * s12' + e12`, then repeats, at most
/// `KEYGEN_RETRY_THRESHOLD` times, a rejection-sampled proof of knowledge
/// `(z1, z2, h, c)` of the two secrets; it fails when every attempt is
/// rejected.
pub fn user_generate_key(
    identity: &[u8],
    params: Params,
    ppk: PartialPrivateKey,
    seed: Option<&[u8]>,
) -> (res: Result<(PublicKey, SecretKey), KeygenError>)
    requires
        seed.is_none(),
        identity@.len() == ID_SIZE,
        mask_in_range(ppk.y11),
        split_fits(params.b11_h, ppk.b11_l),
    ensures
        res matches Ok((pk, sk)) ==> exists|n: int| 0 <= n < KEYGEN_RETRY_THRESHOLD
            && #[trigger] keygen_attempt_passes(identity@, params, ppk.s11, ppk.y11, ppk.b11_l, n)
            && keygen_attempt_gives(identity@, params, ppk.s11, ppk.y11, ppk.b11_l, n, pk, sk)
            && forall|m: int| 0 <= m < n ==> !#[trigger] keygen_attempt_passes(identity@, params, ppk.s11, ppk.y11, ppk.b11_l, m)
            && gamma1_vecl_spec(sk.y12, shake256_spec(params.rho@ + identity@, 128).subrange(64, 128), n),
        res matches Err(_) ==> forall|n: int| 0 <= n < KEYGEN_RETRY_THRESHOLD
            ==> !#[trigger] keygen_attempt_passes(identity@, params, ppk.s11, ppk.y11, ppk.b11_l, n),
        res matches Ok((pk, sk)) ==> {
            &&& response_short(pk.z1)
            &&& response_short(pk.z2)
            &&& hint_valid(pk.h)
            &&& split_fits(params.b11_h, sk.b11_l)
            &&& split_fits(pk.b12_h, sk.b12_l)
            &&& veck_in_range(pk.b12_h, 0, 1023)
            &&& veck_in_range(sk.b12_l, -4095, 4096)
            &&& vecl_in_range(sk.s12_prime, -ETA_I32 as int, ETA_I32 as int)
            &&& vecl_in_range(sk.y12, GAMMA1_I32 - 1048575, GAMMA1_I32 as int)
        },
        res matches Ok((pk, sk)) ==> ({
            let seeds = shake256_spec(params.rho@ + identity@, 128);
            exists|mat11: [Polyvecl; K], mat12: [Polyvecl; K], e12: Polyveck|
                #![trigger matrix_spec(mat11, seeds.subrange(0, 32)), matrix_spec(mat12, seeds.subrange(32, 64)), eta_veck_spec(e12, seeds.subrange(64, 128), 5)]
                matrix_spec(mat11, seeds.subrange(0, 32))
                && matrix_spec(mat12, seeds.subrange(32, 64))
                && eta_veck_spec(e12, seeds.subrange(64, 128), 5)
                && eta_vecl_spec(sk.s12_prime, seeds.subrange(64, 128), 0)
                && is_masked_response(pk.z1, Seq::new(N as nat, |t: int| challenge_spec(pk.c@ + nonce_bytes(0))[t] as int), ppk.s11, ppk.y11)
                && is_masked_response(pk.z2, Seq::new(N as nat, |t: int| challenge_spec(pk.c@ + nonce_bytes(1))[t] as int), sk.s12_prime, sk.y12)
                && (forall|k: int, i: int| 0 <= k < K && 0 <= i < N ==>
                    #[trigger] pk.b12_h.vec[k].coeffs[i] * 8192 + sk.b12_l.vec[k].coeffs[i]
                        == mod_q(center_mod_q(matvec_coeff(mat12, sk.s12_prime, k, i)) + e12.vec[k].coeffs[i]))
                && pk.c@ == shake256_spec(
                    seeds.subrange(0, 64) + w1_pack_fn(high_table(commitment_table(mat11, mat12, ppk.y11, sk.y12))),
                    32,
                )
        }),
{
    let ghost id = identity@;
    let rho = params.rho;

    // Seeds r (two matrix seeds) and r' (secrets).
    let seedbuf = expand_seeds(&rho, identity);
    let z = Polyvecl::default();
    let mut mat_a11 = [z; K];
    polyvec_matrix_expand(&mut mat_a11, &seedbuf, 0);
    let mut mat_a12 = [z; K];
    polyvec_matrix_expand(&mut mat_a12, &seedbuf, SEEDBYTES);
    proof {
        lemma_matrix_unique(mat_a11, user_seeds(rho@, id).subrange(0, SEEDBYTES as int));
        lemma_matrix_unique(mat_a12, user_seeds(rho@, id).subrange(SEEDBYTES as int, R_SIZE as int));
    }

    // Secret s12' and public vector b12 = mat_a12 * s12' + e12.
    let mut s12_prime = Polyvecl::default();
    polyvecl_uniform_eta(&mut s12_prime, &seedbuf, R_SIZE, 0);
    let mut e12 = Polyveck::default();
    polyveck_uniform_eta(&mut e12, &seedbuf, R_SIZE, L_U16);
    proof {
        lemma_eta_vecl_unique(s12_prime, secret_seed(rho@, id), 0);
        lemma_eta_veck_unique(e12, secret_seed(rho@, id), L as int);
    }
    let mut b12_h = Polyveck::default();
    polyvec_matrix_mul(&mut b12_h, &mat_a12, &s12_prime);
    polyveck_add(&mut b12_h, &e12);
    let ghost sum12 = b12_h;
    polyveck_reduce(&mut b12_h);
    polyveck_caddq(&mut b12_h);
    proof {
        assert forall|k: int, i: int| 0 <= k < K && 0 <= i < N implies
            #[trigger] b12_h.vec[k].coeffs[i] == public12(rho@, id)(k, i)
            && 0 <= b12_h.vec[k].coeffs[i] <= Q_I32 - 1 by {
            lemma_reduce32_small(sum12.vec[k].coeffs[i] as int);
            lemma_caddq_standard(sum12.vec[k].coeffs[i] as int);
            lemma_standard_representative(sum12.vec[k].coeffs[i] as int);
        }
    }
    let ghost std12 = b12_h;
    let mut b12_l = Polyveck::default();
    polyveck_power2round(&mut b12_h, &mut b12_l);
    proof {
        assert(tables_agree(veck_table(b12_h), public12_high(rho@, id), K as int)) by {
            assert forall|k: int, i: int| 0 <= k < K && 0 <= i < N implies #[trigger] veck_table(b12_h)(k, i)
                == public12_high(rho@, id)(k, i) by {
                assert(std12.vec[k].coeffs[i] == public12(rho@, id)(k, i));
            }
        }
        assert(tables_agree(veck_table(b12_l), public12_low(rho@, id), K as int)) by {
            assert forall|k: int, i: int| 0 <= k < K && 0 <= i < N implies #[trigger] veck_table(b12_l)(k, i)
                == public12_low(rho@, id)(k, i) by {
                assert(std12.vec[k].coeffs[i] == public12(rho@, id)(k, i));
                assert(veck_table(b12_h)(k, i) == public12_high(rho@, id)(k, i));
            }
        }
    }

    // v11 = mat_a11 * y11 and e11 = b11_h * 2^D + b11_l - mat_a11 * s11.
    let mut v11 = Polyveck::default();
    polyvec_matrix_mul(&mut v11, &mat_a11, &ppk.y11);
    let e11 = error_vector(&params.b11_h, &ppk.b11_l, &mat_a11, &ppk.s11);

    let mut nonce: u16 = 0;
    while (nonce as usize) < KEYGEN_RETRY_THRESHOLD
        invariant
            nonce <= KEYGEN_RETRY_THRESHOLD,
            mask_in_range(ppk.y11),
            split_fits(params.b11_h, ppk.b11_l),
            matrix_spec(mat_a11, shake256_spec(params.rho@ + identity@, 128).subrange(0, 32)),
            matrix_spec(mat_a12, shake256_spec(params.rho@ + identity@, 128).subrange(32, 64)),
            eta_veck_spec(e12, shake256_spec(params.rho@ + identity@, 128).subrange(64, 128), 5),
            eta_vecl_spec(s12_prime, shake256_spec(params.rho@ + identity@, 128).subrange(64, 128), 0),
            seedbuf@ == user_seeds(params.rho@, identity@),
            mat_a11 == user_matrix11(params.rho@, identity@),
            mat_a12 == user_matrix12(params.rho@, identity@),
            s12_prime == user_secret12(params.rho@, identity@),
            e12 == user_error12(params.rho@, identity@),
            forall|k: int, i: int| 0 <= k < K && 0 <= i < N ==> #[trigger] v11.vec[k].coeffs[i]
                == center_mod_q(matvec_coeff(mat_a11, ppk.y11, k, i)),
            veck_in_range(v11, -(Q_I32 - 1) / 2, (Q_I32 - 1) / 2),
            tables_agree(veck_table(e11), kgc_error(identity@, params, ppk.s11, ppk.b11_l), K as int),
            tables_agree(veck_table(b12_h), public12_high(params.rho@, identity@), K as int),
            tables_agree(veck_table(b12_l), public12_low(params.rho@, identity@), K as int),
            veck_in_range(b12_h, 0, 1023),
            veck_in_range(b12_l, -4095, 4096),
            vecl_in_range(s12_prime, -ETA_I32 as int, ETA_I32 as int),
            forall|m: int| 0 <= m < nonce ==> !#[trigger] keygen_attempt_passes(identity@, params, ppk.s11, ppk.y11, ppk.b11_l, m),
        decreases KEYGEN_RETRY_THRESHOLD - nonce,
    {
        let attempt = keygen_attempt(identity, &params, &ppk, &seedbuf, &mat_a11, &mat_a12, &v11, &e11,
            &e12, &s12_prime, &b12_h, &b12_l, nonce);
        match attempt {
            Some((pk, sk)) => {
                assert(keygen_attempt_passes(identity@, params, ppk.s11, ppk.y11, ppk.b11_l, nonce as int));
                proof {
                    lemma_keys_fit(params.b11_h, ppk.b11_l, pk, sk);
                    lemma_user_key_from_seeds(identity@, params, ppk, pk, sk, nonce as int);
                }
                return Ok((pk, sk));
            },
            None => {
                nonce += 1;
            },
        }
    }
    Err(KeygenError::ThresholdError)
}

/// Attempt `n` of the signing of `msg`: the masks `y_i1`, `y_i2` (nonces
/// `2 * n` and `2 * n + 1`), the commitment `v_i`, the challenge seed `c_i`
/// over the high parts of `v1 + v_i`, then the response; `None` when a check
/// rejects it.
#[verifier::spinoff_prover]
#[verifier::rlimit(80)]
fn sign_attempt(
    msg: &[u8],
    identity: &[u8],
    params: &Params,
    pk: &PublicKey,
    sk: &SecretKey,
    seedbuf: &[u8; 128],
    mat_a11: &[Polyvecl; K],
    mat_a12: &[Polyvecl; K],
    v1_h: &Polyveck,
    e11: &Polyveck,
    e12: &Polyveck,
    n: u16,
) -> (res: Option<Signature>)
    requires
        n < SIG_RETRY_THRESHOLD,
        seedbuf@ == user_seeds(params.rho@, identity@),
        *mat_a11 == user_matrix11(params.rho@, identity@),
        *mat_a12 == user_matrix12(params.rho@, identity@),
        tables_agree(veck_table(*v1_h), high_table(key_commitment(identity@, *params, *sk)), K as int),
        veck_in_range(*v1_h, 0, 15),
        tables_agree(veck_table(*e11), error_table(params.b11_h, sk.b11_l, *mat_a11, sk.s11), K as int),
        tables_agree(veck_table(*e12), error_table(pk.b12_h, sk.b12_l, *mat_a12, sk.s12_prime), K as int),
    ensures
        (res is Some) == sign_attempt_passes(msg@, identity@, *params, *pk, *sk, n as int),
        res matches Some(sig) ==> {
            &&& sign_attempt_gives(msg@, identity@, *params, *pk, *sk, n as int, sig)
            &&& response_short(sig.z_i1)
            &&& response_short(sig.z_i2)
            &&& hint_valid(sig.h_i)
        },
        gamma1_vecl_spec(sign_mask(params.rho@, identity@, n as int, 0),
            shake256_spec(params.rho@ + identity@, 128).subrange(64, 128), 2 * n),
        gamma1_vecl_spec(sign_mask(params.rho@, identity@, n as int, 1),
            shake256_spec(params.rho@ + identity@, 128).subrange(64, 128), 2 * n + 1),
{
    let ghost id = identity@;
    let ghost ni = n as int;
    // Masks and commitment v_i = mat_a11 * y_i1 + mat_a12 * y_i2.
    let mut y_i1 = Polyvecl::default();
    polyvecl_uniform_gamma1(&mut y_i1, seedbuf, R_SIZE, 2 * n);
    let mut y_i2 = Polyvecl::default();
    polyvecl_uniform_gamma1(&mut y_i2, seedbuf, R_SIZE, 2 * n + 1);
    proof {
        lemma_gamma1_vecl_unique(y_i1, secret_seed(params.rho@, id), 2 * ni);
        lemma_gamma1_vecl_unique(y_i2, secret_seed(params.rho@, id), 2 * ni + 1);
        assert(y_i1 == sign_mask(params.rho@, id, ni, 0));
        assert(y_i2 == sign_mask(params.rho@, id, ni, 1));
    }
    let mut v_i = Polyveck::default();
    polyvec_matrix_mul(&mut v_i, mat_a11, &y_i1);
    let mut v_i2 = Polyveck::default();
    polyvec_matrix_mul(&mut v_i2, mat_a12, &y_i2);
    polyveck_add(&mut v_i, &v_i2);
    let ghost commit = sign_commitment(id, *params, ni);
    assert(tables_agree(veck_table(v_i), commit, K as int));
    let (_v_i_std, v_i_h, _v_i_l) = decompose_centered(&v_i);

    // Challenge seed c_i from r, the high parts of v1 + v_i, and msg.
    let mut v_h_sum = *v1_h;
    polyveck_add(&mut v_h_sum, &v_i_h);
    let ghost hsum = v_h_sum;
    polyveck_reduce(&mut v_h_sum);
    polyveck_caddq(&mut v_h_sum);
    let c_i = challenge_seed(seedbuf, &v_h_sum, msg, msg.len());
    proof {
        let target = sign_high_sum(id, *params, *sk, ni);
        assert forall|k: int, i: int| 0 <= k < K && 0 <= i < N implies #[trigger] veck_table(v_h_sum)(k, i)
            == target(k, i) by {
            lemma_reduce32_small(hsum.vec[k].coeffs[i] as int);
            assert(veck_table(*v1_h)(k, i) == high_table(key_commitment(id, *params, *sk))(k, i));
            assert(veck_table(v_i)(k, i) == commit(k, i));
        }
        lemma_pack_agree(veck_table(v_h_sum), target);
        assert(msg@.subrange(0, msg@.len() as int) =~= msg@);
        assert(c_i@ == sign_challenge(msg@, id, *params, *sk, ni));
        assert(tables_agree(veck_table(v_i_h), high_table(commit), K as int)) by {
            assert forall|k: int, i: int| 0 <= k < K && 0 <= i < N implies #[trigger] veck_table(v_i_h)(k, i)
                == high_table(commit)(k, i) by {
                assert(veck_table(v_i)(k, i) == commit(k, i));
            }
        }
    }

    let res = attempt_response(&v_i, &v_i_h, &c_i, &sk.s11, &y_i1, &sk.s12_prime, &y_i2, e11, e12,
        &sk.b11_l, &sk.b12_l, GAMMA2_I32);
    proof {
        lemma_sign_attempt_link(msg@, id, *params, *pk, *sk, ni, veck_table(v_i), veck_table(v_i_h),
            veck_table(*e11), veck_table(*e12), c_i@);
    }
    match res {
        None => None,
        Some((z_i1, z_i2, h_i)) => {
            proof {
                let c1 = challenge_ints(c_i@, 0);
                let c2 = challenge_ints(c_i@, 1);
                let r = residual_table(veck_table(v_i), c1, c2, veck_table(*e11), veck_table(*e12));
                let corr = low_correction(c1, c2, veck_table(sk.b11_l), veck_table(sk.b12_l));
                let sres = sign_residual(msg@, id, *params, *pk, *sk, ni);
                let scorr = sign_correction(msg@, id, *params, *sk, ni);
                assert forall|k: int, i: int| 0 <= k < K && 0 <= i < N implies #[trigger] h_i.vec[k].coeffs[i]
                    == hint_table(sres, scorr)(k, i) by {
                    assert(veck_table(h_i)(k, i) == hint_table(r, corr)(k, i));
                }
            }
            Some(Signature { z_i1, z_i2, h_i, c_i })
        },
    }
}

/// Signs `msg` for the user `identity`: from the keys it rebuilds the
/// matrices, the commitment `v1` of the key and the error vectors, then
/// repeats, at most `SIG_RETRY_THRESHOLD` times, a rejection-sampled proof
/// `(z_i1, z_i2, h_i, c_i)` bound to `msg`; it fails when every attempt is
/// rejected.
pub fn generate_signature(
    msg: &[u8],
    identity: &[u8],
    params: Params,
    public_key: PublicKey,
    secret_key: SecretKey,
) -> (res: Result<Signature, SigError>)
    requires
        identity@.len() == ID_SIZE,
        split_fits(params.b11_h, secret_key.b11_l),
        split_fits(public_key.b12_h, secret_key.b12_l),
    ensures
        res matches Ok(sig) ==> exists|n: int| 0 <= n < SIG_RETRY_THRESHOLD
            && #[trigger] sign_attempt_passes(msg@, identity@, params, public_key, secret_key, n)
            && sign_attempt_gives(msg@, identity@, params, public_key, secret_key, n, sig)
            && forall|m: int| 0 <= m < n ==> !#[trigger] sign_attempt_passes(msg@, identity@, params, public_key, secret_key, m),
        res matches Err(_) ==> forall|n: int| 0 <= n < SIG_RETRY_THRESHOLD
            ==> !#[trigger] sign_attempt_passes(msg@, identity@, params, public_key, secret_key, n),
        res matches Ok(sig) ==> {
            &&& response_short(sig.z_i1)
            &&& response_short(sig.z_i2)
            &&& hint_valid(sig.h_i)
        },
        res matches Ok(sig) ==> ({
            let seeds = shake256_spec(params.rho@ + identity@, 128);
            exists|n: int, mat11: [Polyvecl; K], mat12: [Polyvecl; K], y1: Polyvecl, y2: Polyvecl|
                #![trigger matrix_spec(mat11, seeds.subrange(0, 32)), matrix_spec(mat12, seeds.subrange(32, 64)), gamma1_vecl_spec(y1, seeds.subrange(64, 128), 2 * n), gamma1_vecl_spec(y2, seeds.subrange(64, 128), 2 * n + 1)]
                0 <= n < SIG_RETRY_THRESHOLD
                && matrix_spec(mat11, seeds.subrange(0, 32))
                && matrix_spec(mat12, seeds.subrange(32, 64))
                && gamma1_vecl_spec(y1, seeds.subrange(64, 128), 2 * n)
                && gamma1_vecl_spec(y2, seeds.subrange(64, 128), 2 * n + 1)
                && is_masked_response(sig.z_i1, Seq::new(N as nat, |t: int| challenge_spec(sig.c_i@ + nonce_bytes(0))[t] as int), secret_key.s11, y1)
                && is_masked_response(sig.z_i2, Seq::new(N as nat, |t: int| challenge_spec(sig.c_i@ + nonce_bytes(1))[t] as int), secret_key.s12_prime, y2)
                && sig.c_i@ == shake256_spec(
                    seeds.subrange(0, 64)
                        + w1_pack_fn(|k: int, i: int|
                            high_table(commitment_table(mat11, mat12, secret_key.y11, secret_key.y12))(k, i)
                            + high_table(commitment_table(mat11, mat12, y1, y2))(k, i))
                        + msg@,
                    32,
                )
        }),
{
    let ghost id = identity@;
    let rho = params.rho;

    // Seeds r (two matrix seeds) and r'.
    let seedbuf = expand_seeds(&rho, identity);
    let z = Polyvecl::default();
    let mut mat_a11 = [z; K];
    polyvec_matrix_expand(&mut mat_a11, &seedbuf, 0);
    let mut mat_a12 = [z; K];
    polyvec_matrix_expand(&mut mat_a12, &seedbuf, SEEDBYTES);
    proof {
        lemma_matrix_unique(mat_a11, user_seeds(rho@, id).subrange(0, SEEDBYTES as int));
        lemma_matrix_unique(mat_a12, user_seeds(rho@, id).subrange(SEEDBYTES as int, R_SIZE as int));
    }

    // v1 = mat_a11 * y11 + mat_a12 * y12 and its high parts.
    let mut v1 = Polyveck::default();
    polyvec_matrix_mul(&mut v1, &mat_a11, &secret_key.y11);
    let mut v12 = Polyveck::default();
    polyvec_matrix_mul(&mut v12, &mat_a12, &secret_key.y12);
    polyveck_add(&mut v1, &v12);
    assert(tables_agree(veck_table(v1), key_commitment(id, params, secret_key), K as int));
    let (_v1_std, v1_h, _v1_l) = decompose_centered(&v1);
    proof {
        assert forall|k: int, i: int| 0 <= k < K && 0 <= i < N implies #[trigger] veck_table(v1_h)(k, i)
            == high_table(key_commitment(id, params, secret_key))(k, i) by {
            assert(veck_table(v1)(k, i) == key_commitment(id, params, secret_key)(k, i));
        }
    }

    // e11 = b11_h * 2^D + b11_l - mat_a11 * s11, and e12 likewise.
    let e11 = error_vector(&params.b11_h, &secret_key.b11_l, &mat_a11, &secret_key.s11);
    let e12 = error_vector(&public_key.b12_h, &secret_key.b12_l, &mat_a12, &secret_key.s12_prime);

    let mut n: u16 = 0;
    while (n as usize) < SIG_RETRY_THRESHOLD
        invariant
            n <= SIG_RETRY_THRESHOLD,
            matrix_spec(mat_a11, shake256_spec(params.rho@ + identity@, 128).subrange(0, 32)),
            matrix_spec(mat_a12, shake256_spec(params.rho@ + identity@, 128).subrange(32, 64)),
            seedbuf@ == user_seeds(params.rho@, identity@),
            mat_a11 == user_matrix11(params.rho@, identity@),
            mat_a12 == user_matrix12(params.rho@, identity@),
            tables_agree(veck_table(v1_h), high_table(key_commitment(identity@, params, secret_key)), K as int),
            veck_in_range(v1_h, 0, 15),
            tables_agree(veck_table(e11), error_table(params.b11_h, secret_key.b11_l, mat_a11, secret_key.s11), K as int),
            tables_agree(veck_table(e12), error_table(public_key.b12_h, secret_key.b12_l, mat_a12, secret_key.s12_prime), K as int),
            forall|m: int| 0 <= m < n ==> !#[trigger] sign_attempt_passes(msg@, identity@, params, public_key, secret_key, m),
        decreases SIG_RETRY_THRESHOLD - n,
    {
        let attempt = sign_attempt(msg, identity, &params, &public_key, &secret_key, &seedbuf, &mat_a11,
            &mat_a12, &v1_h, &e11, &e12, n);
        match attempt {
            Some(sig) => {
                assert(sign_attempt_passes(msg@, identity@, params, public_key, secret_key, n as int));
                proof {
                    lemma_signature_from_seeds(msg@, identity@, params, public_key, secret_key, sig, n as int);
                }
                return Ok(sig);
            },
            None => {
                n += 1;
            },
        }
    }
    Err(SigError::ThresholdError)
}

/// Neither the key nor the signature has more than `OMEGA` set hints.
pub open spec fn hints_light(pk: PublicKey, sig: Signature) -> bool {
    &&& veck_hint_weight(pk.h, K as int) <= OMEGA
    &&& veck_hint_weight(sig.h_i, K as int) <= OMEGA
}

/// All four responses of a key and a signature are short.
pub open spec fn responses_short(pk: PublicKey, sig: Signature) -> bool {
    &&& response_short(pk.z1)
    &&& response_short(pk.z2)
    &&& response_short(sig.z_i1)
    &&& response_short(sig.z_i2)
}

/// Checks the signature of `msg` by the user `identity`: the four responses
/// must be short, the key and the signature may set at most `OMEGA` hints
/// each, and the challenge seed recomputed from the hint-corrected
/// high parts of `mat11 * z - c * b11_h * 2^D` (for the key and for the
/// signature) and `msg` must equal `c_i`.
pub fn verify_sign(
    msg: &[u8],
    identity: &[u8],
    signature: Signature,
    params: Params,
    pk: PublicKey,
) -> (ok: bool)
    requires
        identity@.len() == ID_SIZE,
        vecl_in_range(pk.z1, -1073741823, 1073741823),
        vecl_in_range(pk.z2, -1073741823, 1073741823),
        vecl_in_range(signature.z_i1, -1073741823, 1073741823),
        vecl_in_range(signature.z_i2, -1073741823, 1073741823),
        responses_short(pk, signature) ==> veck_in_range(pk.h, 0, 1) && veck_in_range(signature.h_i, 0, 1),
    ensures
        ok == (responses_short(pk, signature) && hints_light(pk, signature)
            && signature.c_i@ == verify_digest(msg@, identity@, signature, params, pk)),
        ok == (responses_short(pk, signature) && hints_light(pk, signature)
            && signature.c_i@ == shake256_spec(
                shake256_spec(params.rho@ + identity@, 128).subrange(0, 64)
                    + w1_pack_fn(verify_high_sum(identity@, signature, params, pk)) + msg@,
                32,
            )),
        ok ==> matrix_spec(user_matrix11(params.rho@, identity@), shake256_spec(params.rho@ + identity@, 128).subrange(0, 32)),
        ok ==> matrix_spec(user_matrix12(params.rho@, identity@), shake256_spec(params.rho@ + identity@, 128).subrange(32, 64)),
{
    let rho = params.rho;
    let b11_h = params.b11_h;
    let b12_h = pk.b12_h;
    let c = pk.c;
    let c_i = signature.c_i;

    // The responses must be short.
    if polyvecl_chknorm(&pk.z1, (GAMMA1 - BETA) as i32) > 0 {
        return false;
    }
    if polyvecl_chknorm(&pk.z2, (GAMMA1 - BETA) as i32) > 0 {
        return false;
    }
    if polyvecl_chknorm(&signature.z_i1, (GAMMA1 - BETA) as i32) > 0 {
        return false;
    }
    if polyvecl_chknorm(&signature.z_i2, (GAMMA1 - BETA) as i32) > 0 {
        return false;
    }

    // At most OMEGA hints may be set, in the key and in the signature.
    if polyveck_hint_weight(&pk.h) > OMEGA || polyveck_hint_weight(&signature.h_i) > OMEGA {
        return false;
    }

    // Seeds and the two matrices.
    let seedbuf = expand_seeds(&rho, identity);
    let zero = Polyvecl::default();
    let mut mat_a11 = [zero; K];
    polyvec_matrix_expand(&mut mat_a11, &seedbuf, 0);
    let mut mat_a12 = [zero; K];
    polyvec_matrix_expand(&mut mat_a12, &seedbuf, SEEDBYTES);
    proof {
        lemma_matrix_unique(mat_a11, user_seeds(rho@, identity@).subrange(0, SEEDBYTES as int));
        lemma_matrix_unique(mat_a12, user_seeds(rho@, identity@).subrange(SEEDBYTES as int, R_SIZE as int));
    }

    // Hint-corrected high parts for the key and for the signature, and
    // their sum.
    let v1_prime = hint_corrected_high(&mat_a11, &mat_a12, &pk.z1, &pk.z2, &c, &b11_h, &b12_h, &pk.h);
    let v_i_prime = hint_corrected_high(
        &mat_a11,
        &mat_a12,
        &signature.z_i1,
        &signature.z_i2,
        &c_i,
        &b11_h,
        &b12_h,
        &signature.h_i,
    );
    let mut v_sum = v1_prime;
    polyveck_add(&mut v_sum, &v_i_prime);
    let ghost sum = v_sum;
    polyveck_reduce(&mut v_sum);
    polyveck_caddq(&mut v_sum);

    // Recomputed challenge seed.
    let final_hash = challenge_seed(&seedbuf, &v_sum, msg, msg.len());
    proof {
        let f = verify_high_sum(identity@, signature, params, pk);
        assert forall|k: int, i: int| 0 <= k < K && 0 <= i < N implies #[trigger] v_sum.vec[k].coeffs[i] == f(k, i) by {
            lemma_reduce32_small(sum.vec[k].coeffs[i] as int);
        }
        lemma_pack_agree(veck_table(v_sum), f);
        assert(msg@.subrange(0, msg@.len() as int) =~= msg@);
        assert(final_hash@ == verify_digest(msg@, identity@, signature, params, pk));
    }
    let mut same = true;
    for i in 0..SEEDBYTES
        invariant
            same == forall|j: int| 0 <= j < i ==> #[trigger] c_i@[j] == final_hash@[j],
    {
        if c_i[i] != final_hash[i] {
            same = false;
        }
    }
    assert(same == (c_i@ =~= final_hash@));
    same
}


/// A coefficient outside `[-(2^30 - 1), 2^30 - 1]` makes a response long.
proof fn lemma_out_of_range_is_long(z: Polyvecl)
    requires
        !vecl_in_range(z, -1073741823, 1073741823),
    ensures
        !response_short(z),
{
    let (k, i) = choose|k: int, i: int| 0 <= k < L && 0 <= i < N
        && !(-1073741823 <= #[trigger] z.vec[k].coeffs[i] <= 1073741823);
    assert(exceeds_norm(z.vec[k], (GAMMA1 - BETA) as int));
}

/// Checks the signature of `msg` by the user `identity` on any input: it
/// returns false where the identity has the wrong length, a response
/// coefficient lies outside `[-(2^30 - 1), 2^30 - 1]` or a hint is neither
/// 0 nor 1, and otherwise what `verify_sign` returns.
pub fn verify_sign_checked(
    msg: &[u8],
    identity: &[u8],
    signature: Signature,
    params: Params,
    pk: PublicKey,
) -> (ok: bool)
    ensures
        ok == (identity@.len() == ID_SIZE && veck_in_range(pk.h, 0, 1) && veck_in_range(signature.h_i, 0, 1)
            && responses_short(pk, signature) && hints_light(pk, signature)
            && signature.c_i@ == verify_digest(msg@, identity@, signature, params, pk)),
{
    if identity.len() != ID_SIZE {
        return false;
    }
    let bound: i32 = 1073741823;
    if !polyvecl_within(&pk.z1, -bound, bound) {
        proof { lemma_out_of_range_is_long(pk.z1); }
        return false;
    }
    if !polyvecl_within(&pk.z2, -bound, bound) {
        proof { lemma_out_of_range_is_long(pk.z2); }
        return false;
    }
    if !polyvecl_within(&signature.z_i1, -bound, bound) {
        proof { lemma_out_of_range_is_long(signature.z_i1); }
        return false;
    }
    if !polyvecl_within(&signature.z_i2, -bound, bound) {
        proof { lemma_out_of_range_is_long(signature.z_i2); }
        return false;
    }
    if !polyveck_within(&pk.h, 0, 1) || !polyveck_within(&signature.h_i, 0, 1) {
        return false;
    }
    verify_sign(msg, identity, signature, params, pk)
}

} // verus!
