use vstd::prelude::*;
use crate::packing::{
    eta_byte, eta_coeff, lemma_eta_roundtrip, lemma_t0_roundtrip, lemma_t1_roundtrip, lemma_t1_unpack_pack,
    lemma_z_roundtrip, polyeta_pack, polyeta_unpack, polyt0_pack, polyt0_unpack, polyt1_pack,
    polyt1_unpack, polyz_pack, polyz_unpack, same_outside, t0_byte, t0_coeff, t1_byte, t1_coeff,
    z_byte, z_coeff,
};
use crate::params::{
    ETA_I32, GAMMA1_I32, K, L, N, POLYETA_PACKEDBYTES, POLYT0_PACKEDBYTES, POLYT1_PACKEDBYTES,
    POLYZ_PACKEDBYTES, SEEDBYTES,
};
use crate::fips202::{shake256, shake256_spec};
use crate::nopki::user_keygen::{lemma_split_fits, mask_in_range, split_fits};
use crate::params::{CRHBYTES, L_U16, Q_I32};
use crate::poly::poly_in_range;
use crate::polyvec::{
    polyveck_add, polyveck_caddq, polyveck_power2round, vecl_in_range, veck_in_range, Polyveck,
    Polyvecl,
};
use crate::reduce::caddq_spec;
use crate::ring::{center_mod_q, matrix_in_range, matvec_coeff, polyvec_matrix_mul};
use crate::sample::{
    eta_vecl_spec, eta_veck_spec, gamma1_vecl_spec, matrix_spec, polyvec_matrix_expand,
    polyvecl_uniform_eta, polyvecl_uniform_gamma1, polyveck_uniform_eta,
};

verus! {

/// Length in bytes of an identity.
pub const ID_SIZE: usize = 32;

/// Public parameters issued by the key generation centre: the seed `rho` and
/// the high parts `b11_h` of its public vector.
#[derive(Copy, Clone)]
pub struct Params {
    pub rho: [u8; SEEDBYTES],
    pub b11_h: Polyveck,
}

/// Partial private key of a user: the short secret `s11`, the masking
/// vector `y11` and the low parts `b11_l` of the public vector.
#[derive(Copy, Clone)]
pub struct PartialPrivateKey {
    pub s11: Polyvecl,
    pub y11: Polyvecl,
    pub b11_l: Polyveck,
}

/// Master key of the key generation centre: the short secret `s11`.
#[derive(Copy, Clone)]
pub struct MasterKey {
    pub s11: Polyvecl,
}

/// `b_h * 2^D + b_l` is, coefficient by coefficient, the standard
/// representative of `mat * s + e` modulo Q.
pub open spec fn splits_public_vector(
    b_h: Polyveck,
    b_l: Polyveck,
    mat: [Polyvecl; K],
    s: Polyvecl,
    e: Polyveck,
) -> bool {
    forall|k: int, i: int| 0 <= k < K && 0 <= i < N ==> #[trigger] b_h.vec[k].coeffs[i] * 8192 + b_l.vec[k].coeffs[i]
        == caddq_spec(center_mod_q(matvec_coeff(mat, s, k, i)) + e.vec[k].coeffs[i])
}

/// The seeds of the key generation centre for `rho` and `identity`: the
/// 96 bytes of SHAKE256(`rho` || `identity`), the matrix seed `r` (32
/// bytes) followed by the secret seed `r'` (64 bytes).
pub open spec fn kgc_seeds(rho: Seq<u8>, identity: Seq<u8>) -> Seq<u8> {
    shake256_spec(rho + identity, (SEEDBYTES + CRHBYTES) as nat)
}

/// Generates the public parameters, the master key and the partial private
/// key of the user `identity` from the seed `rho`: the matrix and the
/// secrets are expanded from SHAKE256(`rho` || `identity`); the public vector
/// `mat * s11 + e11` is split into high and low parts.
pub fn partial_private_key_generation(identity: &[u8], rho: &[u8]) -> (res: (Params, MasterKey, PartialPrivateKey))
    requires
        rho@.len() == SEEDBYTES,
        identity@.len() == ID_SIZE,
    ensures
        res.0.rho@ == rho@,
        res.1.s11 == res.2.s11,
        eta_vecl_spec(res.2.s11, kgc_seeds(rho@, identity@).subrange(SEEDBYTES as int, SEEDBYTES + CRHBYTES), 0),
        gamma1_vecl_spec(res.2.y11, kgc_seeds(rho@, identity@).subrange(SEEDBYTES as int, SEEDBYTES + CRHBYTES), L as int),
        exists|mat: [Polyvecl; K], e: Polyveck|
            #![trigger matrix_spec(mat, kgc_seeds(rho@, identity@).subrange(0, SEEDBYTES as int)), eta_veck_spec(e, kgc_seeds(rho@, identity@).subrange(SEEDBYTES as int, SEEDBYTES + CRHBYTES), L as int)]
            matrix_spec(mat, kgc_seeds(rho@, identity@).subrange(0, SEEDBYTES as int))
            && eta_veck_spec(e, kgc_seeds(rho@, identity@).subrange(SEEDBYTES as int, SEEDBYTES + CRHBYTES), L as int)
            && matrix_in_range(mat, 0, Q_I32 - 1) && veck_in_range(e, -ETA_I32 as int, ETA_I32 as int)
            && splits_public_vector(res.0.b11_h, res.2.b11_l, mat, res.2.s11, e),
        vecl_in_range(res.2.s11, -ETA_I32 as int, ETA_I32 as int),
        vecl_in_range(res.2.y11, GAMMA1_I32 - 1048575, GAMMA1_I32 as int),
        veck_in_range(res.0.b11_h, 0, 1023),
        veck_in_range(res.2.b11_l, -4095, 4096),
        mask_in_range(res.2.y11),
        split_fits(res.0.b11_h, res.2.b11_l),
{
    // Seeds r and r' from SHAKE256(rho || identity).
    let mut seedbuf = [0u8; 96];
    let mut hash_input = [0u8; 64];
    for i in 0..SEEDBYTES
        invariant
            rho@.len() == SEEDBYTES,
            forall|j: int| 0 <= j < i ==> #[trigger] hash_input@[j] == rho@[j],
    {
        hash_input[i] = rho[i];
    }
    for i in 0..ID_SIZE
        invariant
            identity@.len() == ID_SIZE,
            rho@.len() == SEEDBYTES,
            forall|j: int| 0 <= j < SEEDBYTES ==> #[trigger] hash_input@[j] == rho@[j],
            forall|j: int| 0 <= j < i ==> #[trigger] hash_input@[SEEDBYTES + j] == identity@[j],
    {
        hash_input[SEEDBYTES + i] = identity[i];
    }
    assert(hash_input@.subrange(0, 64) =~= rho@ + identity@) by {
        assert forall|j: int| SEEDBYTES <= j < 64 implies #[trigger] hash_input@[j] == (rho@ + identity@)[j] by {
            assert(hash_input@[SEEDBYTES + (j - SEEDBYTES)] == identity@[j - SEEDBYTES]);
        }
    }
    shake256(&mut seedbuf, SEEDBYTES + CRHBYTES, &hash_input, SEEDBYTES + ID_SIZE);
    assert(seedbuf@ =~= seedbuf@.subrange(0, 96));
    let ghost seeds = seedbuf@;
    assert(seeds == kgc_seeds(rho@, identity@));

    // Public matrix from r.
    let z = Polyvecl::default();
    let mut mat = [z; K];
    polyvec_matrix_expand(&mut mat, &seedbuf, 0);

    // Short secrets s11 and e11 from r'.
    let mut s11 = Polyvecl::default();
    let mut e11 = Polyveck::default();
    polyvecl_uniform_eta(&mut s11, &seedbuf, SEEDBYTES, 0);
    polyveck_uniform_eta(&mut e11, &seedbuf, SEEDBYTES, L_U16);

    // b = mat * s11 + e11, split into high and low parts.
    let mut b_h = Polyveck::default();
    let mut b_l = Polyveck::default();
    polyvec_matrix_mul(&mut b_h, &mat, &s11);
    let ghost prod = b_h;
    polyveck_add(&mut b_h, &e11);
    let ghost sum = b_h;
    polyveck_caddq(&mut b_h);
    let ghost std = b_h;
    polyveck_power2round(&mut b_h, &mut b_l);

    // Masking vector y11 from r'.
    let mut y = Polyvecl::default();
    polyvecl_uniform_gamma1(&mut y, &seedbuf, SEEDBYTES, L_U16);

    let mut rho_copy = [0u8; SEEDBYTES];
    for i in 0..SEEDBYTES
        invariant
            rho@.len() == SEEDBYTES,
            forall|j: int| 0 <= j < i ==> #[trigger] rho_copy@[j] == rho@[j],
    {
        rho_copy[i] = rho[i];
    }
    assert(rho_copy@ == rho@);
    let params = Params { rho: rho_copy, b11_h: b_h };
    let msk = MasterKey { s11: s11 };
    let ppk = PartialPrivateKey { s11: s11, y11: y, b11_l: b_l };
    assert(splits_public_vector(b_h, b_l, mat, s11, e11));
    assert(matrix_in_range(mat, 0, Q_I32 - 1));
    assert(veck_in_range(e11, -ETA_I32 as int, ETA_I32 as int));
    assert(splits_public_vector(params.b11_h, ppk.b11_l, mat, ppk.s11, e11));
    assert(matrix_spec(mat, kgc_seeds(rho@, identity@).subrange(0, SEEDBYTES as int)));
    assert(eta_veck_spec(e11, kgc_seeds(rho@, identity@).subrange(SEEDBYTES as int, SEEDBYTES + CRHBYTES), L as int));
    proof {
        lemma_split_fits(params.b11_h, ppk.b11_l);
    }
    (params, msk, ppk)
}

/// Length of the packed public parameters.
pub const PARAMS_BYTES: usize = 1952;
/// Length of a packed short vector of `L` polynomials.
pub const SHORT_VECL_BYTES: usize = 640;
/// Length of a packed partial private key.
pub const PPK_BYTES: usize = 6336;

/// `bytes` holds `rho` followed by the 10-bit packings of the polynomials
/// of `b_h`.
pub open spec fn packs_params(bytes: Seq<u8>, rho: Seq<u8>, b_h: Polyveck) -> bool {
    &&& forall|j: int| 0 <= j < SEEDBYTES ==> #[trigger] bytes[j] == rho[j]
    &&& forall|k: int, g: int, j: int| 0 <= k < K && 0 <= g < N / 4 && 0 <= j < 5 ==>
        #[trigger] bytes[SEEDBYTES + POLYT1_PACKEDBYTES * k + 5 * g + j] == t1_byte(b_h.vec[k], g, j)
}

/// `bytes`, from `off`, holds the `ETA - c` packings of the polynomials of `s`.
pub open spec fn packs_short_vecl(bytes: Seq<u8>, off: int, s: Polyvecl) -> bool {
    forall|k: int, g: int| 0 <= k < L && 0 <= g < N / 2 ==>
        #[trigger] bytes[off + POLYETA_PACKEDBYTES * k + g] == eta_byte(s.vec[k], g)
}

/// `bytes`, from `off`, holds the 13-bit `2^(D-1) - c` packings of the
/// polynomials of `v`.
pub open spec fn packs_low_veck(bytes: Seq<u8>, off: int, v: Polyveck) -> bool {
    forall|k: int, g: int, j: int| 0 <= k < K && 0 <= g < N / 8 && 0 <= j < 13 ==>
        #[trigger] bytes[off + POLYT0_PACKEDBYTES * k + 13 * g + j] == t0_byte(v.vec[k], g, j)
}

/// `bytes`, from `off`, holds the `GAMMA1 - c` packings of the polynomials of `y`.
pub open spec fn packs_masking_vecl(bytes: Seq<u8>, off: int, y: Polyvecl) -> bool {
    forall|k: int, g: int, j: int| 0 <= k < L && 0 <= g < N / 2 && 0 <= j < 5 ==>
        #[trigger] bytes[off + POLYZ_PACKEDBYTES * k + 5 * g + j] == z_byte(y.vec[k], g, j)
}

/// `bytes` holds the packings of `s`, `y` and `b_l` of a partial private key.
pub open spec fn packs_ppk(bytes: Seq<u8>, s: Polyvecl, y: Polyvecl, b_l: Polyveck) -> bool {
    &&& packs_short_vecl(bytes, 0, s)
    &&& packs_masking_vecl(bytes, L * POLYETA_PACKEDBYTES, y)
    &&& packs_low_veck(bytes, L * POLYETA_PACKEDBYTES + L * POLYZ_PACKEDBYTES, b_l)
}

/// Writes `rho[..SEEDBYTES]` and the 10-bit packings of the polynomials of
/// `b_h` to `params[..PARAMS_BYTES]`.
pub fn pack_params(params: &mut [u8], rho: &[u8], b_h: &Polyveck)
    requires
        old(params)@.len() >= PARAMS_BYTES,
        rho@.len() >= SEEDBYTES,
    ensures
        packs_params(final(params)@, rho@, *b_h),
        same_outside(old(params)@, final(params)@, 0, PARAMS_BYTES as int),
{
    let len = params.len();
    for j in 0..SEEDBYTES
        invariant
            params@.len() == len,
            len >= PARAMS_BYTES,
            rho@.len() >= SEEDBYTES,
            forall|x: int| 0 <= x < j ==> #[trigger] params@[x] == rho@[x],
            same_outside(old(params)@, params@, 0, PARAMS_BYTES as int),
    {
        params[j] = rho[j];
    }
    for i in 0..K
        invariant
            params@.len() == len,
            len >= PARAMS_BYTES,
            forall|x: int| 0 <= x < SEEDBYTES ==> #[trigger] params@[x] == rho@[x],
            forall|k: int, g: int, j: int| 0 <= k < i && 0 <= g < N / 4 && 0 <= j < 5 ==>
                #[trigger] params@[SEEDBYTES + POLYT1_PACKEDBYTES * k + 5 * g + j] == t1_byte(b_h.vec[k], g, j),
            same_outside(old(params)@, params@, 0, PARAMS_BYTES as int),
    {
        let ghost before = params@;
        polyt1_pack(params, SEEDBYTES + i * POLYT1_PACKEDBYTES, &b_h.vec[i]);
        assert forall|k: int, g: int, j: int| 0 <= k < i + 1 && 0 <= g < N / 4 && 0 <= j < 5 implies
            #[trigger] params@[SEEDBYTES + POLYT1_PACKEDBYTES * k + 5 * g + j] == t1_byte(b_h.vec[k], g, j) by {
            if k < i {
                assert(before[SEEDBYTES + POLYT1_PACKEDBYTES * k + 5 * g + j] == t1_byte(b_h.vec[k], g, j));
            }
        }
    }
}

/// Reads `rho[..SEEDBYTES]` and the polynomials of `b_h` back from the
/// packed parameters `params`.
pub fn unpack_params(rho: &mut [u8], b_h: &mut Polyveck, params: &[u8])
    requires
        old(rho)@.len() >= SEEDBYTES,
        params@.len() >= PARAMS_BYTES,
    ensures
        forall|j: int| 0 <= j < SEEDBYTES ==> #[trigger] final(rho)@[j] == params@[j],
        same_outside(old(rho)@, final(rho)@, 0, SEEDBYTES as int),
        forall|k: int, c: int| 0 <= k < K && 0 <= c < N ==>
            #[trigger] final(b_h).vec[k].coeffs[c] == t1_coeff(params@, SEEDBYTES + POLYT1_PACKEDBYTES * k, c),
{
    let rlen = rho.len();
    for j in 0..SEEDBYTES
        invariant
            rho@.len() == rlen,
            rlen >= SEEDBYTES,
            params@.len() >= PARAMS_BYTES,
            forall|x: int| 0 <= x < j ==> #[trigger] rho@[x] == params@[x],
            same_outside(old(rho)@, rho@, 0, SEEDBYTES as int),
    {
        rho[j] = params[j];
    }
    let buf = params;
    for i in 0..K
        invariant
            buf@.len() >= PARAMS_BYTES,
            forall|k: int, c: int| 0 <= k < i && 0 <= c < N ==>
                #[trigger] b_h.vec[k].coeffs[c] == t1_coeff(buf@, SEEDBYTES + POLYT1_PACKEDBYTES * k, c),
    {
        let mut p = b_h.vec[i];
        polyt1_unpack(&mut p, buf, SEEDBYTES + i * POLYT1_PACKEDBYTES);
        b_h.vec[i] = p;
    }
}

/// Writes the `ETA - c` packings of the polynomials of `s` to
/// `master_key[..SHORT_VECL_BYTES]`.
pub fn pack_short_vecl(master_key: &mut [u8], s: &Polyvecl)
    requires
        old(master_key)@.len() >= SHORT_VECL_BYTES,
        vecl_in_range(*s, ETA_I32 - i32::MAX, i32::MAX as int),
    ensures
        packs_short_vecl(final(master_key)@, 0, *s),
        same_outside(old(master_key)@, final(master_key)@, 0, SHORT_VECL_BYTES as int),
{
    let buf = master_key;
    let len = buf.len();
    for i in 0..L
        invariant
            buf@.len() == len,
            len >= SHORT_VECL_BYTES,
            vecl_in_range(*s, ETA_I32 - i32::MAX, i32::MAX as int),
            same_outside(old(master_key)@, buf@, 0, SHORT_VECL_BYTES as int),
            forall|k: int, g: int| 0 <= k < i && 0 <= g < N / 2 ==>
                #[trigger] buf@[0 + POLYETA_PACKEDBYTES * k + g] == eta_byte(s.vec[k], g),
    {
        let ghost before = buf@;
        polyeta_pack(buf, 0 + i * POLYETA_PACKEDBYTES, &s.vec[i]);
        assert forall|k: int, g: int| 0 <= k < i + 1 && 0 <= g < N / 2 implies
            #[trigger] buf@[0 + POLYETA_PACKEDBYTES * k + g] == eta_byte(s.vec[k], g) by {
            if k < i {
                assert(before[0 + POLYETA_PACKEDBYTES * k + g] == eta_byte(s.vec[k], g));
            }
        }
    }
}

/// Writes the packings of `s`, `y` and `b_l` (`ETA - c` in 4 bits,
/// `GAMMA1 - c` in 20 bits and `2^(D-1) - c` in 13 bits respectively) to
/// `ppk[..PPK_BYTES]`.
pub fn pack_ppk(ppk: &mut [u8], s: &Polyvecl, y: &Polyvecl, b_l: &Polyveck)
    requires
        old(ppk)@.len() >= PPK_BYTES,
        vecl_in_range(*s, ETA_I32 - i32::MAX, i32::MAX as int),
        vecl_in_range(*y, GAMMA1_I32 - i32::MAX, i32::MAX as int),
        veck_in_range(*b_l, 4096 - i32::MAX, i32::MAX as int),
    ensures
        packs_ppk(final(ppk)@, *s, *y, *b_l),
        same_outside(old(ppk)@, final(ppk)@, 0, PPK_BYTES as int),
{
    let buf = ppk;
    let len = buf.len();
    let mut idx: usize = 0;
    for i in 0..L
        invariant
            buf@.len() == len,
            len >= PPK_BYTES,
            same_outside(old(ppk)@, buf@, 0, PPK_BYTES as int),
            idx == 0,
            vecl_in_range(*s, ETA_I32 - i32::MAX, i32::MAX as int),
            forall|k: int, g: int| 0 <= k < i && 0 <= g < N / 2 ==>
                #[trigger] buf@[idx + POLYETA_PACKEDBYTES * k + g] == eta_byte(s.vec[k], g),
    {
        let ghost before = buf@;
        polyeta_pack(buf, idx + i * POLYETA_PACKEDBYTES, &s.vec[i]);
        assert forall|k: int, g: int| 0 <= k < i + 1 && 0 <= g < N / 2 implies
            #[trigger] buf@[idx + POLYETA_PACKEDBYTES * k + g] == eta_byte(s.vec[k], g) by {
            if k < i {
                assert(before[idx + POLYETA_PACKEDBYTES * k + g] == eta_byte(s.vec[k], g));
            }
        }
    }
    idx += L * POLYETA_PACKEDBYTES;
    for i in 0..L
        invariant
            buf@.len() == len,
            len >= PPK_BYTES,
            same_outside(old(ppk)@, buf@, 0, PPK_BYTES as int),
            idx == L * POLYETA_PACKEDBYTES,
            vecl_in_range(*y, GAMMA1_I32 - i32::MAX, i32::MAX as int),
            packs_short_vecl(buf@, 0, *s),
            forall|k: int, g: int, j: int| 0 <= k < i && 0 <= g < N / 2 && 0 <= j < 5 ==>
                #[trigger] buf@[idx + POLYZ_PACKEDBYTES * k + 5 * g + j] == z_byte(y.vec[k], g, j),
    {
        let ghost before = buf@;
        polyz_pack(buf, idx + i * POLYZ_PACKEDBYTES, &y.vec[i]);
        assert forall|k: int, g: int, j: int| 0 <= k < i + 1 && 0 <= g < N / 2 && 0 <= j < 5 implies
            #[trigger] buf@[idx + POLYZ_PACKEDBYTES * k + 5 * g + j] == z_byte(y.vec[k], g, j) by {
            if k < i {
                assert(before[idx + POLYZ_PACKEDBYTES * k + 5 * g + j] == z_byte(y.vec[k], g, j));
            }
        }
    }
    idx += L * POLYZ_PACKEDBYTES;
    for i in 0..K
        invariant
            buf@.len() == len,
            len >= PPK_BYTES,
            same_outside(old(ppk)@, buf@, 0, PPK_BYTES as int),
            idx == L * POLYETA_PACKEDBYTES + L * POLYZ_PACKEDBYTES,
            veck_in_range(*b_l, 4096 - i32::MAX, i32::MAX as int),
            packs_short_vecl(buf@, 0, *s),
            packs_masking_vecl(buf@, L * POLYETA_PACKEDBYTES, *y),
            forall|k: int, g: int, j: int| 0 <= k < i && 0 <= g < N / 8 && 0 <= j < 13 ==>
                #[trigger] buf@[idx + POLYT0_PACKEDBYTES * k + 13 * g + j] == t0_byte(b_l.vec[k], g, j),
    {
        let ghost before = buf@;
        polyt0_pack(buf, idx + i * POLYT0_PACKEDBYTES, &b_l.vec[i]);
        assert forall|k: int, g: int, j: int| 0 <= k < i + 1 && 0 <= g < N / 8 && 0 <= j < 13 implies
            #[trigger] buf@[idx + POLYT0_PACKEDBYTES * k + 13 * g + j] == t0_byte(b_l.vec[k], g, j) by {
            if k < i {
                assert(before[idx + POLYT0_PACKEDBYTES * k + 13 * g + j] == t0_byte(b_l.vec[k], g, j));
            }
        }
    }
}

/// `s`, `y` and `b_l` are the polynomials decoded from the packed partial
/// private key `bytes`.
pub open spec fn unpacks_ppk(bytes: Seq<u8>, s: Polyvecl, y: Polyvecl, b_l: Polyveck) -> bool {
    &&& forall|k: int, c: int| 0 <= k < L && 0 <= c < N ==>
        #[trigger] s.vec[k].coeffs[c] == eta_coeff(bytes, POLYETA_PACKEDBYTES * k, c)
    &&& forall|k: int, c: int| 0 <= k < L && 0 <= c < N ==>
        #[trigger] y.vec[k].coeffs[c] == z_coeff(bytes, L * POLYETA_PACKEDBYTES + POLYZ_PACKEDBYTES * k, c)
    &&& forall|k: int, c: int| 0 <= k < K && 0 <= c < N ==>
        #[trigger] b_l.vec[k].coeffs[c]
            == t0_coeff(bytes, L * POLYETA_PACKEDBYTES + L * POLYZ_PACKEDBYTES + POLYT0_PACKEDBYTES * k, c)
}

/// Reads `s`, `y` and `b_l` back from the packed partial private key `ppk`.
pub fn unpack_ppk(s: &mut Polyvecl, y: &mut Polyvecl, b_l: &mut Polyveck, ppk: &[u8])
    requires
        ppk@.len() >= PPK_BYTES,
    ensures
        unpacks_ppk(ppk@, *final(s), *final(y), *final(b_l)),
{
    let buf = ppk;
    let mut idx: usize = 0;
    for i in 0..L
        invariant
            buf@.len() >= PPK_BYTES,
            idx == 0,
            forall|k: int, c: int| 0 <= k < i && 0 <= c < N ==>
                #[trigger] s.vec[k].coeffs[c] == eta_coeff(buf@, idx + POLYETA_PACKEDBYTES * k, c),
    {
        let mut p = s.vec[i];
        polyeta_unpack(&mut p, buf, idx + i * POLYETA_PACKEDBYTES);
        s.vec[i] = p;
    }
    idx += L * POLYETA_PACKEDBYTES;
    for i in 0..L
        invariant
            buf@.len() >= PPK_BYTES,
            idx == L * POLYETA_PACKEDBYTES,
            forall|k: int, c: int| 0 <= k < L && 0 <= c < N ==> #[trigger] s.vec[k].coeffs[c] == eta_coeff(buf@, POLYETA_PACKEDBYTES * k, c),
            forall|k: int, c: int| 0 <= k < i && 0 <= c < N ==>
                #[trigger] y.vec[k].coeffs[c] == z_coeff(buf@, idx + POLYZ_PACKEDBYTES * k, c),
    {
        let mut p = y.vec[i];
        polyz_unpack(&mut p, buf, idx + i * POLYZ_PACKEDBYTES);
        y.vec[i] = p;
    }
    idx += L * POLYZ_PACKEDBYTES;
    for i in 0..K
        invariant
            buf@.len() >= PPK_BYTES,
            idx == L * POLYETA_PACKEDBYTES + L * POLYZ_PACKEDBYTES,
            forall|k: int, c: int| 0 <= k < L && 0 <= c < N ==> #[trigger] s.vec[k].coeffs[c] == eta_coeff(buf@, POLYETA_PACKEDBYTES * k, c),
            forall|k: int, c: int| 0 <= k < L && 0 <= c < N ==> #[trigger] y.vec[k].coeffs[c] == z_coeff(buf@, L * POLYETA_PACKEDBYTES + POLYZ_PACKEDBYTES * k, c),
            forall|k: int, c: int| 0 <= k < i && 0 <= c < N ==>
                #[trigger] b_l.vec[k].coeffs[c] == t0_coeff(buf@, idx + POLYT0_PACKEDBYTES * k, c),
    {
        let mut p = b_l.vec[i];
        polyt0_unpack(&mut p, buf, idx + i * POLYT0_PACKEDBYTES);
        b_l.vec[i] = p;
    }
}

/// Unpacking packed parameters gives back `rho` and `b_h` when the
/// coefficients of `b_h` are in `[0, 1023]` (10 bits).
pub proof fn lemma_params_roundtrip(bytes: Seq<u8>, rho: Seq<u8>, b_h: Polyveck)
    requires
        bytes.len() >= PARAMS_BYTES,
        packs_params(bytes, rho, b_h),
        veck_in_range(b_h, 0, 1023),
    ensures
        forall|j: int| 0 <= j < SEEDBYTES ==> #[trigger] bytes[j] == rho[j],
        forall|k: int, c: int| 0 <= k < K && 0 <= c < N ==>
            #[trigger] t1_coeff(bytes, SEEDBYTES + POLYT1_PACKEDBYTES * k, c) == b_h.vec[k].coeffs[c],
{
    assert forall|k: int, c: int| 0 <= k < K && 0 <= c < N implies
        #[trigger] t1_coeff(bytes, SEEDBYTES + POLYT1_PACKEDBYTES * k, c) == b_h.vec[k].coeffs[c] by {
        let off = SEEDBYTES + POLYT1_PACKEDBYTES * k;
        assert forall|g: int, j: int| 0 <= g < N / 4 && 0 <= j < 5 implies
            #[trigger] bytes[off + 5 * g + j] == t1_byte(b_h.vec[k], g, j) by {
            assert(bytes[SEEDBYTES + POLYT1_PACKEDBYTES * k + 5 * g + j] == t1_byte(b_h.vec[k], g, j));
        }
        assert(poly_in_range(b_h.vec[k], 0, 1023));
        lemma_t1_roundtrip(b_h.vec[k], bytes, off);
    }
}

/// Packing the parameters unpacked from any bytes gives those bytes back:
/// when `rho` and `b_h` are what `unpack_params` reads from `buf`, the
/// packing of `rho` and `b_h` is `buf` on its first `PARAMS_BYTES` bytes.
pub proof fn lemma_params_unpack_pack(buf: Seq<u8>, rho: Seq<u8>, b_h: Polyveck, out: Seq<u8>)
    requires
        buf.len() >= PARAMS_BYTES,
        out.len() >= PARAMS_BYTES,
        forall|j: int| 0 <= j < SEEDBYTES ==> #[trigger] rho[j] == buf[j],
        forall|k: int, c: int| 0 <= k < K && 0 <= c < N ==>
            #[trigger] b_h.vec[k].coeffs[c] == t1_coeff(buf, SEEDBYTES + POLYT1_PACKEDBYTES * k, c),
        packs_params(out, rho, b_h),
    ensures
        forall|x: int| 0 <= x < PARAMS_BYTES ==> #[trigger] out[x] == buf[x],
{
    assert forall|x: int| 0 <= x < PARAMS_BYTES implies #[trigger] out[x] == buf[x] by {
        if x >= SEEDBYTES {
            let k = (x - SEEDBYTES) / POLYT1_PACKEDBYTES as int;
            let r = (x - SEEDBYTES) % POLYT1_PACKEDBYTES as int;
            let g = r / 5;
            let j = r % 5;
            let off = SEEDBYTES + POLYT1_PACKEDBYTES * k;
            assert(x == SEEDBYTES + POLYT1_PACKEDBYTES * k + 5 * g + j);
            assert forall|i: int| 0 <= i < N implies #[trigger] b_h.vec[k].coeffs[i] == t1_coeff(buf, off, i) by {}
            lemma_t1_unpack_pack(b_h.vec[k], buf, off);
            assert(t1_byte(b_h.vec[k], g, j) == buf[off + 5 * g + j]);
            assert(out[SEEDBYTES + POLYT1_PACKEDBYTES * k + 5 * g + j] == t1_byte(b_h.vec[k], g, j));
        }
    }
}

/// Unpacking a packed short vector gives it back when its coefficients are
/// in `[ETA - 15, ETA]`.
pub proof fn lemma_short_vecl_roundtrip(bytes: Seq<u8>, off: int, s: Polyvecl)
    requires
        0 <= off,
        off + SHORT_VECL_BYTES <= bytes.len(),
        packs_short_vecl(bytes, off, s),
        vecl_in_range(s, ETA_I32 - 15, ETA_I32 as int),
    ensures
        forall|k: int, c: int| 0 <= k < L && 0 <= c < N ==>
            #[trigger] eta_coeff(bytes, off + POLYETA_PACKEDBYTES * k, c) == s.vec[k].coeffs[c],
{
    assert forall|k: int, c: int| 0 <= k < L && 0 <= c < N implies
        #[trigger] eta_coeff(bytes, off + POLYETA_PACKEDBYTES * k, c) == s.vec[k].coeffs[c] by {
        let o = off + POLYETA_PACKEDBYTES * k;
        assert forall|g: int| 0 <= g < N / 2 implies #[trigger] bytes[o + g] == eta_byte(s.vec[k], g) by {
            assert(bytes[off + POLYETA_PACKEDBYTES * k + g] == eta_byte(s.vec[k], g));
        }
        assert(poly_in_range(s.vec[k], ETA_I32 - 15, ETA_I32 as int));
        lemma_eta_roundtrip(s.vec[k], bytes, o);
    }
}

/// Unpacking a packed partial private key gives back `s`, `y` and `b_l` when
/// `s` has coefficients in `[ETA - 15, ETA]`, `y` in `[GAMMA1 - 2^20 + 1,
/// GAMMA1]` and `b_l` in `(-2^(D-1), 2^(D-1)]`: in particular for every
/// partial private key that `partial_private_key_generation` issues.
pub proof fn lemma_ppk_roundtrip(bytes: Seq<u8>, s: Polyvecl, y: Polyvecl, b_l: Polyveck)
    requires
        bytes.len() >= PPK_BYTES,
        packs_ppk(bytes, s, y, b_l),
        vecl_in_range(s, ETA_I32 - 15, ETA_I32 as int),
        vecl_in_range(y, GAMMA1_I32 - 1048575, GAMMA1_I32 as int),
        veck_in_range(b_l, -4095, 4096),
    ensures
        forall|k: int, c: int| 0 <= k < L && 0 <= c < N ==>
            #[trigger] eta_coeff(bytes, POLYETA_PACKEDBYTES * k, c) == s.vec[k].coeffs[c],
        forall|k: int, c: int| 0 <= k < L && 0 <= c < N ==>
            #[trigger] z_coeff(bytes, L * POLYETA_PACKEDBYTES + POLYZ_PACKEDBYTES * k, c) == y.vec[k].coeffs[c],
        forall|k: int, c: int| 0 <= k < K && 0 <= c < N ==>
            #[trigger] t0_coeff(bytes, L * POLYETA_PACKEDBYTES + L * POLYZ_PACKEDBYTES + POLYT0_PACKEDBYTES * k, c)
                == b_l.vec[k].coeffs[c],
{
    lemma_short_vecl_roundtrip(bytes, 0, s);
    assert forall|k: int, c: int| 0 <= k < L && 0 <= c < N implies
        #[trigger] eta_coeff(bytes, POLYETA_PACKEDBYTES * k, c) == s.vec[k].coeffs[c] by {
        assert(eta_coeff(bytes, 0 + POLYETA_PACKEDBYTES * k, c) == s.vec[k].coeffs[c]);
    }
    let zo = L * POLYETA_PACKEDBYTES;
    assert forall|k: int, c: int| 0 <= k < L && 0 <= c < N implies
        #[trigger] z_coeff(bytes, L * POLYETA_PACKEDBYTES + POLYZ_PACKEDBYTES * k, c) == y.vec[k].coeffs[c] by {
        let o = zo + POLYZ_PACKEDBYTES * k;
        assert forall|g: int, j: int| 0 <= g < N / 2 && 0 <= j < 5 implies
            #[trigger] bytes[o + 5 * g + j] == z_byte(y.vec[k], g, j) by {
            assert(bytes[zo + POLYZ_PACKEDBYTES * k + 5 * g + j] == z_byte(y.vec[k], g, j));
        }
        assert(poly_in_range(y.vec[k], GAMMA1_I32 - 1048575, GAMMA1_I32 as int));
        lemma_z_roundtrip(y.vec[k], bytes, o);
    }
    let bo = L * POLYETA_PACKEDBYTES + L * POLYZ_PACKEDBYTES;
    assert forall|k: int, c: int| 0 <= k < K && 0 <= c < N implies
        #[trigger] t0_coeff(bytes, L * POLYETA_PACKEDBYTES + L * POLYZ_PACKEDBYTES + POLYT0_PACKEDBYTES * k, c)
            == b_l.vec[k].coeffs[c] by {
        let o = bo + POLYT0_PACKEDBYTES * k;
        assert forall|g: int, j: int| 0 <= g < N / 8 && 0 <= j < 13 implies
            #[trigger] bytes[o + 13 * g + j] == t0_byte(b_l.vec[k], g, j) by {
            assert(bytes[bo + POLYT0_PACKEDBYTES * k + 13 * g + j] == t0_byte(b_l.vec[k], g, j));
        }
        assert(poly_in_range(b_l.vec[k], -4095, 4096));
        lemma_t0_roundtrip(b_l.vec[k], bytes, o);
    }
}


/// Packing a partial private key and unpacking the bytes gives back its
/// three vectors, whenever `s` has coefficients in `[ETA - 15, ETA]`, `y` in
/// `[GAMMA1 - 2^20 + 1, GAMMA1]` and `b_l` in `(-2^(D-1), 2^(D-1)]`, as in
/// every partial private key that `partial_private_key_generation` issues.
pub proof fn lemma_ppk_pack_unpack(
    bytes: Seq<u8>,
    s: Polyvecl,
    y: Polyvecl,
    b_l: Polyveck,
    s2: Polyvecl,
    y2: Polyvecl,
    b_l2: Polyveck,
)
    requires
        bytes.len() >= PPK_BYTES,
        vecl_in_range(s, ETA_I32 - 15, ETA_I32 as int),
        vecl_in_range(y, GAMMA1_I32 - 1048575, GAMMA1_I32 as int),
        veck_in_range(b_l, -4095, 4096),
        packs_ppk(bytes, s, y, b_l),
        unpacks_ppk(bytes, s2, y2, b_l2),
    ensures
        s2 == s,
        y2 == y,
        b_l2 == b_l,
{
    lemma_ppk_roundtrip(bytes, s, y, b_l);
    assert forall|k: int| 0 <= k < L implies #[trigger] s2.vec[k] == s.vec[k] by {
        assert(s2.vec[k].coeffs =~= s.vec[k].coeffs);
    }
    assert(s2.vec =~= s.vec);
    assert forall|k: int| 0 <= k < L implies #[trigger] y2.vec[k] == y.vec[k] by {
        assert(y2.vec[k].coeffs =~= y.vec[k].coeffs);
    }
    assert(y2.vec =~= y.vec);
    assert forall|k: int| 0 <= k < K implies #[trigger] b_l2.vec[k] == b_l.vec[k] by {
        assert(b_l2.vec[k].coeffs =~= b_l.vec[k].coeffs);
    }
    assert(b_l2.vec =~= b_l.vec);
}

} // verus!
