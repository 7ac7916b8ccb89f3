use vstd::prelude::*;
use crate::fips202::shake256_spec;
use crate::nopki::kgc::Params;
use crate::nopki::user_keygen::{PublicKey, SecretKey, Signature, R_PRIME_SIZE, R_SIZE};
use crate::params::{BETA, GAMMA1, GAMMA2, K, L, N, OMEGA, POLYW1_PACKEDBYTES, SEEDBYTES};
use crate::poly::{coeff_sum, exceeds_norm, Poly};
use crate::polyvec::{veck_exceeds_norm, veck_hint_weight, vecl_exceeds_norm, Polyveck, Polyvecl};
use crate::reduce::reduce32_spec;
use crate::ring::{center_mod_q, matvec_coeff, poly_ints, ring_coeff};
use crate::rounding::{high_bits, low_bits, make_hint_spec, mod_q, power2round_high, use_hint_spec, ALPHA};
use crate::sample::{
    challenge_spec, eta_vecl_value, eta_veck_value, expanded_matrix, gamma1_vecl_value, nonce_bytes,
};

verus! {

/// The seeds of the user `identity`: the 128 bytes of SHAKE256(`rho` ||
/// `identity`), the two matrix seeds of 32 bytes each, then the seed `r'`.
pub open spec fn user_seeds(rho: Seq<u8>, identity: Seq<u8>) -> Seq<u8> {
    shake256_spec(rho + identity, (R_SIZE + R_PRIME_SIZE) as nat)
}

/// The first matrix of the user `identity`, expanded from the first 32
/// bytes of its seeds.
pub open spec fn user_matrix11(rho: Seq<u8>, identity: Seq<u8>) -> [Polyvecl; K] {
    expanded_matrix(user_seeds(rho, identity).subrange(0, SEEDBYTES as int))
}

/// The second matrix of the user `identity`, expanded from the next 32
/// bytes of its seeds.
pub open spec fn user_matrix12(rho: Seq<u8>, identity: Seq<u8>) -> [Polyvecl; K] {
    expanded_matrix(user_seeds(rho, identity).subrange(SEEDBYTES as int, R_SIZE as int))
}

/// Challenge polynomial `j` (0 or 1) of the challenge seed `c`, by its
/// coefficients.
pub open spec fn challenge_ints(c: Seq<u8>, j: int) -> Seq<int> {
    Seq::new(N as nat, |i: int| challenge_spec(c + nonce_bytes(j as u16))[i] as int)
}

/// The coefficients of `p` shifted left by `D` bits on 32 bits.
pub open spec fn shifted_ints(p: Poly) -> Seq<int> {
    Seq::new(N as nat, |i: int| (p.coeffs[i] << 13i32) as int)
}

/// Coefficient `i` of row `k` of `mat11 * z1 + mat12 * z2 - c1 * (b11_h <<
/// D) - c2 * (b12_h << D)` in `Z[X]/(X^N + 1)`, where `c1` and `c2` are the
/// challenges of the seed `c`.
pub open spec fn commitment_coeff(
    mat11: [Polyvecl; K],
    mat12: [Polyvecl; K],
    z1: Polyvecl,
    z2: Polyvecl,
    c: Seq<u8>,
    b11_h: Polyveck,
    b12_h: Polyveck,
    k: int,
    i: int,
) -> int {
    matvec_coeff(mat11, z1, k, i) + matvec_coeff(mat12, z2, k, i)
        - ring_coeff(challenge_ints(c, 0), shifted_ints(b11_h.vec[k]), i)
        - ring_coeff(challenge_ints(c, 1), shifted_ints(b12_h.vec[k]), i)
}

/// The high part that the hint `h` recovers from the standard
/// representative of `commitment_coeff`.
pub open spec fn recovered_high(
    mat11: [Polyvecl; K],
    mat12: [Polyvecl; K],
    z1: Polyvecl,
    z2: Polyvecl,
    c: Seq<u8>,
    b11_h: Polyveck,
    b12_h: Polyveck,
    h: Polyveck,
    k: int,
    i: int,
) -> int {
    use_hint_spec(
        mod_q(commitment_coeff(mat11, mat12, z1, z2, c, b11_h, b12_h, k, i)),
        h.vec[k].coeffs[i] as int,
        ALPHA as int,
    )
}

/// The 4-bit packing of a table of `K` rows of `N` values (two values per
/// byte, taken on 32 bits).
pub open spec fn w1_pack_fn(f: spec_fn(int, int) -> int) -> Seq<u8> {
    Seq::new(
        (K * POLYW1_PACKEDBYTES) as nat,
        |x: int| ((f(x / 128, 2 * (x % 128)) as i32) | ((f(x / 128, 2 * (x % 128) + 1) as i32) << 4i32)) as u8,
    )
}

/// The coefficients of `v` as a table.
pub open spec fn veck_table(v: Polyveck) -> spec_fn(int, int) -> int {
    |k: int, i: int| v.vec[k].coeffs[i] as int
}

/// The challenge seed: the first `SEEDBYTES` bytes of SHAKE256 of `r`, the
/// packing of the table `high` and `msg`.
pub open spec fn challenge_digest(r: Seq<u8>, high: spec_fn(int, int) -> int, msg: Seq<u8>) -> Seq<u8> {
    shake256_spec(r + w1_pack_fn(high) + msg, SEEDBYTES as nat)
}

/// The sum of the high parts that `verify_sign` recovers for the key and
/// for the signature.
pub open spec fn verify_high_sum(identity: Seq<u8>, sig: Signature, params: Params, pk: PublicKey) -> spec_fn(int, int) -> int {
    |k: int, i: int|
        recovered_high(user_matrix11(params.rho@, identity), user_matrix12(params.rho@, identity),
            pk.z1, pk.z2, pk.c@, params.b11_h, pk.b12_h, pk.h, k, i)
        + recovered_high(user_matrix11(params.rho@, identity), user_matrix12(params.rho@, identity),
            sig.z_i1, sig.z_i2, sig.c_i@, params.b11_h, pk.b12_h, sig.h_i, k, i)
}

/// The challenge seed that `verify_sign` recomputes for `msg`: over the sum
/// of the high parts recovered for the key and for the signature.
pub open spec fn verify_digest(
    msg: Seq<u8>,
    identity: Seq<u8>,
    sig: Signature,
    params: Params,
    pk: PublicKey,
) -> Seq<u8> {
    challenge_digest(
        user_seeds(params.rho@, identity).subrange(0, R_SIZE as int),
        verify_high_sum(identity, sig, params, pk),
        msg,
    )
}

/// `z` is `c * s + y` in the ring, the products taken as centred
/// representatives, `c` given by its coefficients.
pub open spec fn is_masked_response(z: Polyvecl, c: Seq<int>, s: Polyvecl, y: Polyvecl) -> bool {
    forall|l: int, i: int| 0 <= l < L && 0 <= i < N ==> #[trigger] z.vec[l].coeffs[i]
        == masked_table(c, s, y)(l, i)
}

/// Row `k` of the table `f`, as `N` coefficients.
pub open spec fn table_row(f: spec_fn(int, int) -> int, k: int) -> Seq<int> {
    Seq::new(N as nat, |i: int| f(k, i))
}

/// Some entry of the first `rows` rows of `f` has absolute value at least
/// `b`.
pub open spec fn table_exceeds(f: spec_fn(int, int) -> int, rows: int, b: int) -> bool {
    exists|k: int, i: int| 0 <= k < rows && 0 <= i < N && (#[trigger] f(k, i) >= b || f(k, i) <= -b)
}

/// Sum of the first `n` entries of row `k` of `f`.
pub open spec fn row_sum(f: spec_fn(int, int) -> int, k: int, n: int) -> int
    decreases n,
{
    if n <= 0 {
        0
    } else {
        row_sum(f, k, n - 1) + f(k, n - 1)
    }
}

/// Sum of the entries of the first `rows` rows of `f`.
pub open spec fn table_sum(f: spec_fn(int, int) -> int, rows: int) -> int
    decreases rows,
{
    if rows <= 0 {
        0
    } else {
        table_sum(f, rows - 1) + row_sum(f, rows - 1, N as int)
    }
}

/// `c * s + y`, the products taken as centred representatives.
pub open spec fn masked_table(c: Seq<int>, s: Polyvecl, y: Polyvecl) -> spec_fn(int, int) -> int {
    |l: int, i: int| center_mod_q(ring_coeff(c, poly_ints(s.vec[l]), i)) + y.vec[l].coeffs[i]
}

/// `mat11 * y1 + mat12 * y2`, the products taken as centred representatives.
pub open spec fn commitment_table(
    mat11: [Polyvecl; K],
    mat12: [Polyvecl; K],
    y1: Polyvecl,
    y2: Polyvecl,
) -> spec_fn(int, int) -> int {
    |k: int, i: int| center_mod_q(matvec_coeff(mat11, y1, k, i)) + center_mod_q(matvec_coeff(mat12, y2, k, i))
}

/// The high parts (range `2 * GAMMA2`) of the standard representatives of
/// the entries of `v`.
pub open spec fn high_table(v: spec_fn(int, int) -> int) -> spec_fn(int, int) -> int {
    |k: int, i: int| high_bits(mod_q(v(k, i)), ALPHA as int)
}

/// The low parts (range `2 * GAMMA2`) of the standard representatives of
/// the entries of `v`.
pub open spec fn low_table(v: spec_fn(int, int) -> int) -> spec_fn(int, int) -> int {
    |k: int, i: int| low_bits(mod_q(v(k, i)), ALPHA as int)
}

/// `b_h * 2^D + b_l - mat * s` (the shift taken on 32 bits, the product as
/// centred representatives).
pub open spec fn error_table(b_h: Polyveck, b_l: Polyveck, mat: [Polyvecl; K], s: Polyvecl) -> spec_fn(int, int) -> int {
    |k: int, i: int| (b_h.vec[k].coeffs[i] << 13i32) + b_l.vec[k].coeffs[i] - center_mod_q(matvec_coeff(mat, s, k, i))
}

/// `v - c1 * e1 - c2 * e2`, the products taken as centred representatives.
pub open spec fn residual_table(
    v: spec_fn(int, int) -> int,
    c1: Seq<int>,
    c2: Seq<int>,
    e1: spec_fn(int, int) -> int,
    e2: spec_fn(int, int) -> int,
) -> spec_fn(int, int) -> int {
    |k: int, i: int| v(k, i) - center_mod_q(ring_coeff(c1, table_row(e1, k), i))
        - center_mod_q(ring_coeff(c2, table_row(e2, k), i))
}

/// `-(c1 * l1) - c2 * l2` (products as centred representatives), reduced
/// with `reduce32`.
pub open spec fn low_correction(
    c1: Seq<int>,
    c2: Seq<int>,
    l1: spec_fn(int, int) -> int,
    l2: spec_fn(int, int) -> int,
) -> spec_fn(int, int) -> int {
    |k: int, i: int| reduce32_spec(0 - center_mod_q(ring_coeff(c1, table_row(l1, k), i))
        - center_mod_q(ring_coeff(c2, table_row(l2, k), i)))
}

/// The standard representative of `r - corr`, from which the hints are made.
pub open spec fn hint_base(r: spec_fn(int, int) -> int, corr: spec_fn(int, int) -> int) -> spec_fn(int, int) -> int {
    |k: int, i: int| mod_q(mod_q(r(k, i)) - corr(k, i))
}

/// The hints of the pairs `(corr, hint_base)`: 1 where adding `corr` changes
/// the high part.
pub open spec fn hint_table(r: spec_fn(int, int) -> int, corr: spec_fn(int, int) -> int) -> spec_fn(int, int) -> int {
    |k: int, i: int| if make_hint_spec(corr(k, i), hint_base(r, corr)(k, i), ALPHA as int) { 1int } else { 0int }
}

/// The checks of an attempt of key generation or signing: both responses
/// short, the residual `r` with short low parts and the high parts
/// `high_v`, the correction `corr` below `corr_bound`, at most `OMEGA` hints.
#[verifier::opaque]
pub open spec fn attempt_checks(
    z1: spec_fn(int, int) -> int,
    z2: spec_fn(int, int) -> int,
    r: spec_fn(int, int) -> int,
    high_v: spec_fn(int, int) -> int,
    corr: spec_fn(int, int) -> int,
    corr_bound: int,
) -> bool {
    &&& !table_exceeds(z1, L as int, (GAMMA1 - BETA) as int)
    &&& !table_exceeds(z2, L as int, (GAMMA1 - BETA) as int)
    &&& !table_exceeds(low_table(r), K as int, (GAMMA2 - BETA) as int)
    &&& forall|k: int, i: int| 0 <= k < K && 0 <= i < N ==> #[trigger] high_table(r)(k, i) == high_v(k, i)
    &&& !table_exceeds(corr, K as int, corr_bound)
    &&& table_sum(hint_table(r, corr), K as int) <= OMEGA
}

/// The secret seed `r'` of the user `identity`.
pub open spec fn secret_seed(rho: Seq<u8>, identity: Seq<u8>) -> Seq<u8> {
    user_seeds(rho, identity).subrange(R_SIZE as int, (R_SIZE + R_PRIME_SIZE) as int)
}

/// The secret `s12'` of the user `identity`.
pub open spec fn user_secret12(rho: Seq<u8>, identity: Seq<u8>) -> Polyvecl {
    eta_vecl_value(secret_seed(rho, identity), 0)
}

/// The error `e12` of the user `identity`.
pub open spec fn user_error12(rho: Seq<u8>, identity: Seq<u8>) -> Polyveck {
    eta_veck_value(secret_seed(rho, identity), L as int)
}

/// The standard representatives of `mat12 * s12' + e12`, the public vector
/// of the user `identity`.
pub open spec fn public12(rho: Seq<u8>, identity: Seq<u8>) -> spec_fn(int, int) -> int {
    |k: int, i: int| mod_q(center_mod_q(matvec_coeff(user_matrix12(rho, identity), user_secret12(rho, identity), k, i))
        + user_error12(rho, identity).vec[k].coeffs[i])
}

/// The high parts (`power2round`) of the public vector of the user.
pub open spec fn public12_high(rho: Seq<u8>, identity: Seq<u8>) -> spec_fn(int, int) -> int {
    |k: int, i: int| power2round_high(public12(rho, identity)(k, i))
}

/// The low parts (`power2round`) of the public vector of the user.
pub open spec fn public12_low(rho: Seq<u8>, identity: Seq<u8>) -> spec_fn(int, int) -> int {
    |k: int, i: int| public12(rho, identity)(k, i) - public12_high(rho, identity)(k, i) * 8192
}

/// The mask `y12` of attempt `n` of the key generation.
pub open spec fn keygen_mask(rho: Seq<u8>, identity: Seq<u8>, n: int) -> Polyvecl {
    gamma1_vecl_value(secret_seed(rho, identity), n)
}

/// The commitment `mat11 * y11 + mat12 * y12` of attempt `n` of the key
/// generation.
pub open spec fn keygen_commitment(identity: Seq<u8>, params: Params, y11: Polyvecl, n: int) -> spec_fn(int, int) -> int {
    commitment_table(
        user_matrix11(params.rho@, identity),
        user_matrix12(params.rho@, identity),
        y11,
        keygen_mask(params.rho@, identity, n),
    )
}

/// The challenge seed of attempt `n` of the key generation.
pub open spec fn keygen_challenge(identity: Seq<u8>, params: Params, y11: Polyvecl, n: int) -> Seq<u8> {
    challenge_digest(
        user_seeds(params.rho@, identity).subrange(0, R_SIZE as int),
        high_table(keygen_commitment(identity, params, y11, n)),
        Seq::empty(),
    )
}

/// `mat11 * s11 + e11 = b11_h * 2^D + b11_l`: the error `e11` recovered from
/// the public parameters and the partial private key.
pub open spec fn kgc_error(identity: Seq<u8>, params: Params, s11: Polyvecl, b11_l: Polyveck) -> spec_fn(int, int) -> int {
    error_table(params.b11_h, b11_l, user_matrix11(params.rho@, identity), s11)
}

/// The residual `v1 - c1 * e11 - c2 * e12` of attempt `n` of the key
/// generation.
pub open spec fn keygen_residual(identity: Seq<u8>, params: Params, s11: Polyvecl, y11: Polyvecl, b11_l: Polyveck, n: int) -> spec_fn(int, int) -> int {
    let c = keygen_challenge(identity, params, y11, n);
    residual_table(
        keygen_commitment(identity, params, y11, n),
        challenge_ints(c, 0),
        challenge_ints(c, 1),
        kgc_error(identity, params, s11, b11_l),
        veck_table(user_error12(params.rho@, identity)),
    )
}

/// The correction `-(c1 * b11_l + c2 * b12_l)` of attempt `n` of the key
/// generation.
pub open spec fn keygen_correction(identity: Seq<u8>, params: Params, y11: Polyvecl, b11_l: Polyveck, n: int) -> spec_fn(int, int) -> int {
    let c = keygen_challenge(identity, params, y11, n);
    low_correction(
        challenge_ints(c, 0),
        challenge_ints(c, 1),
        veck_table(b11_l),
        public12_low(params.rho@, identity),
    )
}

/// Attempt `n` of the key generation passes all its checks.
pub open spec fn keygen_attempt_passes(identity: Seq<u8>, params: Params, s11: Polyvecl, y11: Polyvecl, b11_l: Polyveck, n: int) -> bool {
    let c = keygen_challenge(identity, params, y11, n);
    attempt_checks(
        masked_table(challenge_ints(c, 0), s11, y11),
        masked_table(challenge_ints(c, 1), user_secret12(params.rho@, identity), keygen_mask(params.rho@, identity, n)),
        keygen_residual(identity, params, s11, y11, b11_l, n),
        high_table(keygen_commitment(identity, params, y11, n)),
        keygen_correction(identity, params, y11, b11_l, n),
        GAMMA2 as int,
    )
}

/// `(pk, sk)` is the key pair that attempt `n` of the key generation gives.
pub open spec fn keygen_attempt_gives(
    identity: Seq<u8>,
    params: Params,
    s11: Polyvecl,
    y11: Polyvecl,
    b11_l: Polyveck,
    n: int,
    pk: PublicKey,
    sk: SecretKey,
) -> bool {
    let c = keygen_challenge(identity, params, y11, n);
    &&& sk.s11 == s11
    &&& sk.y11 == y11
    &&& sk.b11_l == b11_l
    &&& sk.s12_prime == user_secret12(params.rho@, identity)
    &&& sk.y12 == keygen_mask(params.rho@, identity, n)
    &&& forall|k: int, i: int| 0 <= k < K && 0 <= i < N ==> #[trigger] pk.b12_h.vec[k].coeffs[i]
        == public12_high(params.rho@, identity)(k, i)
    &&& forall|k: int, i: int| 0 <= k < K && 0 <= i < N ==> #[trigger] sk.b12_l.vec[k].coeffs[i]
        == public12_low(params.rho@, identity)(k, i)
    &&& pk.c@ == c
    &&& is_masked_response(pk.z1, challenge_ints(c, 0), s11, y11)
    &&& is_masked_response(pk.z2, challenge_ints(c, 1), sk.s12_prime, sk.y12)
    &&& forall|k: int, i: int| 0 <= k < K && 0 <= i < N ==> #[trigger] pk.h.vec[k].coeffs[i]
        == hint_table(keygen_residual(identity, params, s11, y11, b11_l, n), keygen_correction(identity, params, y11, b11_l, n))(k, i)
}

/// Tables that agree on their `K` rows of `N` entries have the same
/// packing.
pub proof fn lemma_pack_agree(f: spec_fn(int, int) -> int, g: spec_fn(int, int) -> int)
    requires
        forall|k: int, i: int| 0 <= k < K && 0 <= i < N ==> #[trigger] f(k, i) == g(k, i),
    ensures
        w1_pack_fn(f) == w1_pack_fn(g),
{
    assert forall|x: int| 0 <= x < K * POLYW1_PACKEDBYTES implies #[trigger] w1_pack_fn(f)[x] == w1_pack_fn(g)[x] by {
        assert(f(x / 128, 2 * (x % 128)) == g(x / 128, 2 * (x % 128)));
        assert(f(x / 128, 2 * (x % 128) + 1) == g(x / 128, 2 * (x % 128) + 1));
    }
    assert(w1_pack_fn(f) =~= w1_pack_fn(g));
}

/// The norm check of a vector of `L` polynomials is the norm check of the
/// table of its coefficients.
pub proof fn lemma_vecl_exceeds_table(z: Polyvecl, f: spec_fn(int, int) -> int, b: int)
    requires
        forall|l: int, i: int| 0 <= l < L && 0 <= i < N ==> #[trigger] z.vec[l].coeffs[i] == f(l, i),
    ensures
        vecl_exceeds_norm(z, b) == table_exceeds(f, L as int, b),
{
    if vecl_exceeds_norm(z, b) {
        let l = choose|l: int| 0 <= l < L && #[trigger] exceeds_norm(z.vec[l], b);
        let i = choose|i: int| 0 <= i < N && (#[trigger] z.vec[l].coeffs[i] >= b || z.vec[l].coeffs[i] <= -b);
        assert(f(l, i) >= b || f(l, i) <= -b);
    }
    if table_exceeds(f, L as int, b) {
        let (l, i) = choose|l: int, i: int| 0 <= l < L && 0 <= i < N && (#[trigger] f(l, i) >= b || f(l, i) <= -b);
        assert(z.vec[l].coeffs[i] == f(l, i));
        assert(exceeds_norm(z.vec[l], b));
    }
}

/// The norm check of a vector of `K` polynomials is the norm check of the
/// table of its coefficients.
pub proof fn lemma_veck_exceeds_table(v: Polyveck, f: spec_fn(int, int) -> int, b: int)
    requires
        forall|k: int, i: int| 0 <= k < K && 0 <= i < N ==> #[trigger] v.vec[k].coeffs[i] == f(k, i),
    ensures
        veck_exceeds_norm(v, b) == table_exceeds(f, K as int, b),
{
    if veck_exceeds_norm(v, b) {
        let k = choose|k: int| 0 <= k < K && #[trigger] exceeds_norm(v.vec[k], b);
        let i = choose|i: int| 0 <= i < N && (#[trigger] v.vec[k].coeffs[i] >= b || v.vec[k].coeffs[i] <= -b);
        assert(f(k, i) >= b || f(k, i) <= -b);
    }
    if table_exceeds(f, K as int, b) {
        let (k, i) = choose|k: int, i: int| 0 <= k < K && 0 <= i < N && (#[trigger] f(k, i) >= b || f(k, i) <= -b);
        assert(v.vec[k].coeffs[i] == f(k, i));
        assert(exceeds_norm(v.vec[k], b));
    }
}

/// Sum of a row of coefficients.
proof fn lemma_row_sum(p: Poly, f: spec_fn(int, int) -> int, k: int, n: int)
    requires
        0 <= n <= N,
        forall|i: int| 0 <= i < N ==> #[trigger] p.coeffs[i] == f(k, i),
    ensures
        coeff_sum(p, n) == row_sum(f, k, n),
    decreases n,
{
    if n > 0 {
        lemma_row_sum(p, f, k, n - 1);
    }
}

/// The number of hints of a vector is the sum of the table of its
/// coefficients.
pub proof fn lemma_weight_table(h: Polyveck, f: spec_fn(int, int) -> int, rows: int)
    requires
        0 <= rows <= K,
        forall|k: int, i: int| 0 <= k < K && 0 <= i < N ==> #[trigger] h.vec[k].coeffs[i] == f(k, i),
    ensures
        veck_hint_weight(h, rows) == table_sum(f, rows),
    decreases rows,
{
    if rows > 0 {
        lemma_weight_table(h, f, rows - 1);
        assert forall|i: int| 0 <= i < N implies #[trigger] h.vec[rows - 1].coeffs[i] == f(rows - 1, i) by {}
        lemma_row_sum(h.vec[rows - 1], f, rows - 1, N as int);
    }
}

/// Mask `j` (0 or 1) of attempt `n` of the signing: the nonce `2 * n + j`.
pub open spec fn sign_mask(rho: Seq<u8>, identity: Seq<u8>, n: int, j: int) -> Polyvecl {
    gamma1_vecl_value(secret_seed(rho, identity), 2 * n + j)
}

/// The commitment `mat11 * y11 + mat12 * y12` of the key.
pub open spec fn key_commitment(identity: Seq<u8>, params: Params, sk: SecretKey) -> spec_fn(int, int) -> int {
    commitment_table(user_matrix11(params.rho@, identity), user_matrix12(params.rho@, identity), sk.y11, sk.y12)
}

/// The commitment `mat11 * y_i1 + mat12 * y_i2` of attempt `n` of the
/// signing.
pub open spec fn sign_commitment(identity: Seq<u8>, params: Params, n: int) -> spec_fn(int, int) -> int {
    commitment_table(
        user_matrix11(params.rho@, identity),
        user_matrix12(params.rho@, identity),
        sign_mask(params.rho@, identity, n, 0),
        sign_mask(params.rho@, identity, n, 1),
    )
}

/// The sum of the high parts of the two commitments that attempt `n` of the
/// signing hashes.
pub open spec fn sign_high_sum(identity: Seq<u8>, params: Params, sk: SecretKey, n: int) -> spec_fn(int, int) -> int {
    |k: int, i: int| high_table(key_commitment(identity, params, sk))(k, i)
        + high_table(sign_commitment(identity, params, n))(k, i)
}

/// The challenge seed of attempt `n` of the signing of `msg`.
pub open spec fn sign_challenge(msg: Seq<u8>, identity: Seq<u8>, params: Params, sk: SecretKey, n: int) -> Seq<u8> {
    challenge_digest(
        user_seeds(params.rho@, identity).subrange(0, R_SIZE as int),
        sign_high_sum(identity, params, sk, n),
        msg,
    )
}

/// The residual `v_i - c_i1 * e11 - c_i2 * e12` of attempt `n` of the
/// signing, the errors recovered from the keys.
pub open spec fn sign_residual(msg: Seq<u8>, identity: Seq<u8>, params: Params, pk: PublicKey, sk: SecretKey, n: int) -> spec_fn(int, int) -> int {
    let c = sign_challenge(msg, identity, params, sk, n);
    residual_table(
        sign_commitment(identity, params, n),
        challenge_ints(c, 0),
        challenge_ints(c, 1),
        error_table(params.b11_h, sk.b11_l, user_matrix11(params.rho@, identity), sk.s11),
        error_table(pk.b12_h, sk.b12_l, user_matrix12(params.rho@, identity), sk.s12_prime),
    )
}

/// The correction `-(c_i1 * b11_l + c_i2 * b12_l)` of attempt `n` of the
/// signing.
pub open spec fn sign_correction(msg: Seq<u8>, identity: Seq<u8>, params: Params, sk: SecretKey, n: int) -> spec_fn(int, int) -> int {
    let c = sign_challenge(msg, identity, params, sk, n);
    low_correction(challenge_ints(c, 0), challenge_ints(c, 1), veck_table(sk.b11_l), veck_table(sk.b12_l))
}

/// Attempt `n` of the signing of `msg` passes all its checks.
pub open spec fn sign_attempt_passes(msg: Seq<u8>, identity: Seq<u8>, params: Params, pk: PublicKey, sk: SecretKey, n: int) -> bool {
    let c = sign_challenge(msg, identity, params, sk, n);
    attempt_checks(
        masked_table(challenge_ints(c, 0), sk.s11, sign_mask(params.rho@, identity, n, 0)),
        masked_table(challenge_ints(c, 1), sk.s12_prime, sign_mask(params.rho@, identity, n, 1)),
        sign_residual(msg, identity, params, pk, sk, n),
        high_table(sign_commitment(identity, params, n)),
        sign_correction(msg, identity, params, sk, n),
        GAMMA2 as int,
    )
}

/// `sig` is the signature that attempt `n` of the signing of `msg` gives.
pub open spec fn sign_attempt_gives(
    msg: Seq<u8>,
    identity: Seq<u8>,
    params: Params,
    pk: PublicKey,
    sk: SecretKey,
    n: int,
    sig: Signature,
) -> bool {
    let c = sign_challenge(msg, identity, params, sk, n);
    &&& sig.c_i@ == c
    &&& is_masked_response(sig.z_i1, challenge_ints(c, 0), sk.s11, sign_mask(params.rho@, identity, n, 0))
    &&& is_masked_response(sig.z_i2, challenge_ints(c, 1), sk.s12_prime, sign_mask(params.rho@, identity, n, 1))
    &&& forall|k: int, i: int| 0 <= k < K && 0 <= i < N ==> #[trigger] sig.h_i.vec[k].coeffs[i]
        == hint_table(sign_residual(msg, identity, params, pk, sk, n), sign_correction(msg, identity, params, sk, n))(k, i)
}

/// Two tables agree on their first `rows` rows of `N` entries.
pub open spec fn tables_agree(f: spec_fn(int, int) -> int, g: spec_fn(int, int) -> int, rows: int) -> bool {
    forall|k: int, i: int| 0 <= k < rows && 0 <= i < N ==> #[trigger] f(k, i) == g(k, i)
}

/// Agreeing tables have agreeing rows.
pub proof fn lemma_rows_agree(f: spec_fn(int, int) -> int, g: spec_fn(int, int) -> int, rows: int)
    requires
        tables_agree(f, g, rows),
    ensures
        forall|k: int| 0 <= k < rows ==> #[trigger] table_row(f, k) == table_row(g, k),
{
    assert forall|k: int| 0 <= k < rows implies #[trigger] table_row(f, k) == table_row(g, k) by {
        assert(table_row(f, k) =~= table_row(g, k));
    }
}

/// Sums of agreeing rows are equal.
proof fn lemma_row_sum_agree(f: spec_fn(int, int) -> int, g: spec_fn(int, int) -> int, k: int, n: int)
    requires
        0 <= n <= N,
        forall|i: int| 0 <= i < N ==> #[trigger] f(k, i) == g(k, i),
    ensures
        row_sum(f, k, n) == row_sum(g, k, n),
    decreases n,
{
    if n > 0 {
        lemma_row_sum_agree(f, g, k, n - 1);
    }
}

/// Sums of agreeing tables are equal.
pub proof fn lemma_table_sum_agree(f: spec_fn(int, int) -> int, g: spec_fn(int, int) -> int, rows: int)
    requires
        0 <= rows,
        tables_agree(f, g, rows),
    ensures
        table_sum(f, rows) == table_sum(g, rows),
    decreases rows,
{
    if rows > 0 {
        lemma_table_sum_agree(f, g, rows - 1);
        assert forall|i: int| 0 <= i < N implies #[trigger] f(rows - 1, i) == g(rows - 1, i) by {}
        lemma_row_sum_agree(f, g, rows - 1, N as int);
    }
}

/// The checks of an attempt depend on the tables only through their
/// entries.
pub proof fn lemma_checks_agree(
    z1: spec_fn(int, int) -> int,
    z1b: spec_fn(int, int) -> int,
    z2: spec_fn(int, int) -> int,
    z2b: spec_fn(int, int) -> int,
    r: spec_fn(int, int) -> int,
    rb: spec_fn(int, int) -> int,
    hv: spec_fn(int, int) -> int,
    hvb: spec_fn(int, int) -> int,
    corr: spec_fn(int, int) -> int,
    corrb: spec_fn(int, int) -> int,
    bound: int,
)
    requires
        tables_agree(z1, z1b, L as int),
        tables_agree(z2, z2b, L as int),
        tables_agree(r, rb, K as int),
        tables_agree(hv, hvb, K as int),
        tables_agree(corr, corrb, K as int),
    ensures
        attempt_checks(z1, z2, r, hv, corr, bound) == attempt_checks(z1b, z2b, rb, hvb, corrb, bound),
        tables_agree(hint_table(r, corr), hint_table(rb, corrb), K as int),
{
    reveal(attempt_checks);
    assert(table_exceeds(z1, L as int, (GAMMA1 - BETA) as int) == table_exceeds(z1b, L as int, (GAMMA1 - BETA) as int)) by {
        if table_exceeds(z1, L as int, (GAMMA1 - BETA) as int) {
            let (k, i) = choose|k: int, i: int| 0 <= k < L && 0 <= i < N && (#[trigger] z1(k, i) >= (GAMMA1 - BETA) || z1(k, i) <= -(GAMMA1 - BETA));
            assert(z1b(k, i) == z1(k, i));
        }
        if table_exceeds(z1b, L as int, (GAMMA1 - BETA) as int) {
            let (k, i) = choose|k: int, i: int| 0 <= k < L && 0 <= i < N && (#[trigger] z1b(k, i) >= (GAMMA1 - BETA) || z1b(k, i) <= -(GAMMA1 - BETA));
            assert(z1b(k, i) == z1(k, i));
        }
    }
    assert(table_exceeds(z2, L as int, (GAMMA1 - BETA) as int) == table_exceeds(z2b, L as int, (GAMMA1 - BETA) as int)) by {
        if table_exceeds(z2, L as int, (GAMMA1 - BETA) as int) {
            let (k, i) = choose|k: int, i: int| 0 <= k < L && 0 <= i < N && (#[trigger] z2(k, i) >= (GAMMA1 - BETA) || z2(k, i) <= -(GAMMA1 - BETA));
            assert(z2b(k, i) == z2(k, i));
        }
        if table_exceeds(z2b, L as int, (GAMMA1 - BETA) as int) {
            let (k, i) = choose|k: int, i: int| 0 <= k < L && 0 <= i < N && (#[trigger] z2b(k, i) >= (GAMMA1 - BETA) || z2b(k, i) <= -(GAMMA1 - BETA));
            assert(z2b(k, i) == z2(k, i));
        }
    }
    let lo = low_table(r);
    let lob = low_table(rb);
    assert(table_exceeds(lo, K as int, (GAMMA2 - BETA) as int) == table_exceeds(lob, K as int, (GAMMA2 - BETA) as int)) by {
        if table_exceeds(lo, K as int, (GAMMA2 - BETA) as int) {
            let (k, i) = choose|k: int, i: int| 0 <= k < K && 0 <= i < N && (#[trigger] lo(k, i) >= (GAMMA2 - BETA) || lo(k, i) <= -(GAMMA2 - BETA));
            assert(r(k, i) == rb(k, i));
            assert(lo(k, i) == lob(k, i));
        }
        if table_exceeds(lob, K as int, (GAMMA2 - BETA) as int) {
            let (k, i) = choose|k: int, i: int| 0 <= k < K && 0 <= i < N && (#[trigger] lob(k, i) >= (GAMMA2 - BETA) || lob(k, i) <= -(GAMMA2 - BETA));
            assert(r(k, i) == rb(k, i));
            assert(lo(k, i) == lob(k, i));
        }
    }
    assert(table_exceeds(corr, K as int, bound) == table_exceeds(corrb, K as int, bound)) by {
        if table_exceeds(corr, K as int, bound) {
            let (k, i) = choose|k: int, i: int| 0 <= k < K && 0 <= i < N && (#[trigger] corr(k, i) >= bound || corr(k, i) <= -bound);
            assert(corrb(k, i) == corr(k, i));
        }
        if table_exceeds(corrb, K as int, bound) {
            let (k, i) = choose|k: int, i: int| 0 <= k < K && 0 <= i < N && (#[trigger] corrb(k, i) >= bound || corrb(k, i) <= -bound);
            assert(corrb(k, i) == corr(k, i));
        }
    }
    assert forall|k: int, i: int| 0 <= k < K && 0 <= i < N implies #[trigger] hint_table(r, corr)(k, i) == hint_table(rb, corrb)(k, i) by {
        assert(r(k, i) == rb(k, i));
        assert(corr(k, i) == corrb(k, i));
    }
    lemma_table_sum_agree(hint_table(r, corr), hint_table(rb, corrb), K as int);
    let same_high = forall|k: int, i: int| 0 <= k < K && 0 <= i < N ==> #[trigger] high_table(r)(k, i) == hv(k, i);
    let same_high_b = forall|k: int, i: int| 0 <= k < K && 0 <= i < N ==> #[trigger] high_table(rb)(k, i) == hvb(k, i);
    if same_high {
        assert forall|k: int, i: int| 0 <= k < K && 0 <= i < N implies #[trigger] high_table(rb)(k, i) == hvb(k, i) by {
            assert(high_table(r)(k, i) == hv(k, i));
            assert(r(k, i) == rb(k, i));
            assert(hv(k, i) == hvb(k, i));
        }
    }
    if same_high_b {
        assert forall|k: int, i: int| 0 <= k < K && 0 <= i < N implies #[trigger] high_table(r)(k, i) == hv(k, i) by {
            assert(high_table(rb)(k, i) == hvb(k, i));
            assert(r(k, i) == rb(k, i));
            assert(hv(k, i) == hvb(k, i));
        }
    }
}

/// Residuals of agreeing commitments and errors agree.
pub proof fn lemma_residual_agree(
    v: spec_fn(int, int) -> int,
    vb: spec_fn(int, int) -> int,
    c1: Seq<int>,
    c2: Seq<int>,
    e1: spec_fn(int, int) -> int,
    e1b: spec_fn(int, int) -> int,
    e2: spec_fn(int, int) -> int,
    e2b: spec_fn(int, int) -> int,
)
    requires
        tables_agree(v, vb, K as int),
        tables_agree(e1, e1b, K as int),
        tables_agree(e2, e2b, K as int),
    ensures
        tables_agree(residual_table(v, c1, c2, e1, e2), residual_table(vb, c1, c2, e1b, e2b), K as int),
{
    lemma_rows_agree(e1, e1b, K as int);
    lemma_rows_agree(e2, e2b, K as int);
    assert forall|k: int, i: int| 0 <= k < K && 0 <= i < N implies #[trigger] residual_table(v, c1, c2, e1, e2)(k, i)
        == residual_table(vb, c1, c2, e1b, e2b)(k, i) by {
        assert(table_row(e1, k) == table_row(e1b, k));
        assert(table_row(e2, k) == table_row(e2b, k));
    }
}

/// Corrections of agreeing low parts agree.
pub proof fn lemma_correction_agree(
    c1: Seq<int>,
    c2: Seq<int>,
    l1: spec_fn(int, int) -> int,
    l1b: spec_fn(int, int) -> int,
    l2: spec_fn(int, int) -> int,
    l2b: spec_fn(int, int) -> int,
)
    requires
        tables_agree(l1, l1b, K as int),
        tables_agree(l2, l2b, K as int),
    ensures
        tables_agree(low_correction(c1, c2, l1, l2), low_correction(c1, c2, l1b, l2b), K as int),
{
    lemma_rows_agree(l1, l1b, K as int);
    lemma_rows_agree(l2, l2b, K as int);
    assert forall|k: int, i: int| 0 <= k < K && 0 <= i < N implies #[trigger] low_correction(c1, c2, l1, l2)(k, i)
        == low_correction(c1, c2, l1b, l2b)(k, i) by {
        assert(table_row(l1, k) == table_row(l1b, k));
        assert(table_row(l2, k) == table_row(l2b, k));
    }
}

} // verus!
