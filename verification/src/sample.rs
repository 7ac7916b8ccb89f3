use vstd::prelude::*;
use crate::fips202::{
    absorb, keccak_absorb, lemma_absorb_concat, lemma_squeeze_concat, lemma_squeeze_len,
    lemma_squeeze_prefix, pad, shake128_finalize, shake128_spec, shake128_squeeze,
    shake256_finalize, shake256_spec, shake256_squeeze, squeeze, zero_state, KeccakState,
    SHAKE128_RATE, SHAKE256_RATE,
};
use crate::packing::{polyz_unpack, z_coeff};
use crate::params::{CRHBYTES, ETA_I32, GAMMA1_I32, K, L, N, POLYZ_PACKEDBYTES, Q_I32, SEEDBYTES, TAU};
use crate::poly::{poly_in_range, Poly};
use crate::polyvec::{vecl_in_range, veck_in_range, Polyveck, Polyvecl};

verus! {

/// Upper bound on the number of candidates a rejection sampler draws from
/// its stream; beyond it the remaining coefficients keep their value 0.
pub const MAX_DRAWS: usize = 65536;

/// The two little-endian bytes of `nonce`.
pub open spec fn nonce_bytes(nonce: u16) -> Seq<u8> {
    seq![nonce as u8, (nonce >> 8u16) as u8]
}

/// The sponge of rate `r` after absorbing `input` and padding it: the
/// state from which its output is squeezed.
pub open spec fn stream_start(r: int, input: Seq<u8>) -> Seq<u64> {
    let absorbed = absorb(zero_state(), 0, r, input);
    pad(absorbed.0, absorbed.1, r, 0x1F)
}

/// The `N` coefficients that a rejection sampler keeps from the values it
/// accepted: the first `N`, then zeros.
pub open spec fn first_coeffs(accepted: Seq<i32>) -> Seq<i32> {
    Seq::new(N as nat, |j: int| if j < accepted.len() { accepted[j] } else { 0i32 })
}

/// Candidate `k` of the uniform sampler: 23 bits of three stream bytes.
pub open spec fn uniform_candidate(bytes: Seq<u8>, k: int) -> u32 {
    ((bytes[3 * k] as u32) | ((bytes[3 * k + 1] as u32) << 8u32) | ((bytes[3 * k + 2] as u32) << 16u32))
        & 0x7FFFFFu32
}

/// The values below Q among the first `d` candidates of the uniform sampler.
pub open spec fn uniform_accepted(bytes: Seq<u8>, d: nat) -> Seq<i32>
    decreases d,
{
    if d == 0 {
        Seq::empty()
    } else {
        let prev = uniform_accepted(bytes, (d - 1) as nat);
        let t = uniform_candidate(bytes, d - 1);
        if t < Q_I32 { prev.push(t as i32) } else { prev }
    }
}

/// The coefficients that `poly_uniform` samples from the SHAKE128 stream of
/// `input`.
pub open spec fn uniform_poly_spec(input: Seq<u8>) -> Seq<i32> {
    first_coeffs(uniform_accepted(shake128_spec(input, (3 * MAX_DRAWS) as nat), MAX_DRAWS as nat))
}

/// The coefficient `4 - t` for a 4-bit candidate `t < 9`, none otherwise.
pub open spec fn eta_part(t: int) -> Seq<i32> {
    if t < 9 { seq![(4 - t) as i32] } else { Seq::empty() }
}

/// The coefficients accepted from the first `d` stream bytes of the eta
/// sampler: the low then the high half of each byte.
pub open spec fn eta_accepted(bytes: Seq<u8>, d: nat) -> Seq<i32>
    decreases d,
{
    if d == 0 {
        Seq::empty()
    } else {
        let b = bytes[d - 1];
        eta_accepted(bytes, (d - 1) as nat) + eta_part((b & 15u8) as int) + eta_part((b >> 4u8) as int)
    }
}

/// The coefficients that `poly_uniform_eta` samples from the SHAKE256
/// stream of `input`.
pub open spec fn eta_poly_spec(input: Seq<u8>) -> Seq<i32> {
    first_coeffs(eta_accepted(shake256_spec(input, MAX_DRAWS as nat), MAX_DRAWS as nat))
}

/// The coefficients that `poly_uniform_gamma1` unpacks from the SHAKE256
/// stream of `input`.
pub open spec fn gamma1_poly_spec(input: Seq<u8>) -> Seq<i32> {
    Seq::new(N as nat, |i: int| z_coeff(shake256_spec(input, POLYZ_PACKEDBYTES as nat), 0, i) as i32)
}

/// An accepted value is prefixed by those accepted from fewer candidates.
proof fn lemma_uniform_accepted_prefix(bytes: Seq<u8>, d: nat, e: nat)
    requires
        d <= e,
    ensures
        uniform_accepted(bytes, d).len() <= uniform_accepted(bytes, e).len(),
        uniform_accepted(bytes, e).subrange(0, uniform_accepted(bytes, d).len() as int)
            == uniform_accepted(bytes, d),
    decreases e,
{
    if d < e {
        lemma_uniform_accepted_prefix(bytes, d, (e - 1) as nat);
        let a = uniform_accepted(bytes, d);
        let b = uniform_accepted(bytes, (e - 1) as nat);
        assert(b.push(uniform_candidate(bytes, e - 1) as i32).subrange(0, a.len() as int)
            =~= b.subrange(0, a.len() as int));
    } else {
        assert(uniform_accepted(bytes, e).subrange(0, uniform_accepted(bytes, e).len() as int)
            =~= uniform_accepted(bytes, e));
    }
}

/// The same for the eta sampler.
proof fn lemma_eta_accepted_prefix(bytes: Seq<u8>, d: nat, e: nat)
    requires
        d <= e,
    ensures
        eta_accepted(bytes, d).len() <= eta_accepted(bytes, e).len(),
        eta_accepted(bytes, e).subrange(0, eta_accepted(bytes, d).len() as int) == eta_accepted(bytes, d),
    decreases e,
{
    if d < e {
        lemma_eta_accepted_prefix(bytes, d, (e - 1) as nat);
        let a = eta_accepted(bytes, d);
        let b = eta_accepted(bytes, (e - 1) as nat);
        let x = bytes[e - 1];
        assert((b + eta_part((x & 15u8) as int) + eta_part((x >> 4u8) as int)).subrange(0, a.len() as int)
            =~= b.subrange(0, a.len() as int));
    } else {
        assert(eta_accepted(bytes, e).subrange(0, eta_accepted(bytes, e).len() as int)
            =~= eta_accepted(bytes, e));
    }
}

/// The bytes squeezed from a stream so far are the first bytes of its
/// longer output, and the next `k` squeezed bytes follow them.
proof fn lemma_stream_step(st: Seq<u64>, r: int, p: nat, k: nat, total: nat)
    requires
        p + k <= total,
    ensures
        ({
            let here = squeeze(st, r, r, p);
            let next = squeeze(here.1, here.2, r, k);
            let all = squeeze(st, r, r, total).0;
            &&& squeeze(st, r, r, p + k) == (here.0 + next.0, next.1, next.2)
            &&& next.0.len() == k
            &&& all.len() == total
            &&& forall|j: int| 0 <= j < k ==> #[trigger] next.0[j] == all[p + j]
        }),
{
    lemma_squeeze_concat(st, r, r, p, k);
    lemma_squeeze_len(st, r, r, p);
    lemma_squeeze_len(squeeze(st, r, r, p).1, squeeze(st, r, r, p).2, r, k);
    lemma_squeeze_len(st, r, r, total);
    lemma_squeeze_prefix(st, r, r, p + k, total);
    let here = squeeze(st, r, r, p);
    let next = squeeze(here.1, here.2, r, k);
    let all = squeeze(st, r, r, total).0;
    assert forall|j: int| 0 <= j < k implies #[trigger] next.0[j] == all[p + j] by {
        assert((here.0 + next.0)[p + j] == next.0[j]);
        assert(all.subrange(0, (p + k) as int)[p + j] == all[p + j]);
    }
}

/// Starts a SHAKE128 stream on `seed[off..off + SEEDBYTES]` followed by the
/// two little-endian bytes of `nonce`.
pub fn stream128_init(state: &mut KeccakState, seed: &[u8], off: usize, nonce: u16)
    requires
        off + SEEDBYTES <= seed@.len(),
    ensures
        final(state).pos == SHAKE128_RATE,
        final(state).s@ == stream_start(
            SHAKE128_RATE as int,
            seed@.subrange(off as int, off + SEEDBYTES) + nonce_bytes(nonce),
        ),
{
    let t: [u8; 2] = [nonce as u8, (nonce >> 8) as u8];
    assert(t@.subrange(0, 2) =~= nonce_bytes(nonce));
    state.init();
    keccak_absorb(state, SHAKE128_RATE, seed, off, SEEDBYTES);
    keccak_absorb(state, SHAKE128_RATE, &t, 0, 2);
    proof {
        lemma_absorb_concat(zero_state(), 0, SHAKE128_RATE as int,
            seed@.subrange(off as int, off + SEEDBYTES), nonce_bytes(nonce));
    }
    shake128_finalize(state);
}

/// Starts a SHAKE256 stream on `seed[off..off + len]` followed by the two
/// little-endian bytes of `nonce`.
pub fn stream256_init(state: &mut KeccakState, seed: &[u8], off: usize, len: usize, nonce: u16)
    requires
        off + len <= seed@.len(),
    ensures
        final(state).pos == SHAKE256_RATE,
        final(state).s@ == stream_start(
            SHAKE256_RATE as int,
            seed@.subrange(off as int, off + len) + nonce_bytes(nonce),
        ),
{
    let t: [u8; 2] = [nonce as u8, (nonce >> 8) as u8];
    assert(t@.subrange(0, 2) =~= nonce_bytes(nonce));
    state.init();
    keccak_absorb(state, SHAKE256_RATE, seed, off, len);
    keccak_absorb(state, SHAKE256_RATE, &t, 0, 2);
    proof {
        lemma_absorb_concat(zero_state(), 0, SHAKE256_RATE as int,
            seed@.subrange(off as int, off + len), nonce_bytes(nonce));
    }
    shake256_finalize(state);
}

/// Samples a polynomial with coefficients in `[0, Q)` by rejection on the
/// 23-bit values read from the SHAKE128 stream of `seed[off..]` and `nonce`.
pub fn poly_uniform(a: &mut Poly, seed: &[u8], off: usize, nonce: u16)
    requires
        off + SEEDBYTES <= seed@.len(),
    ensures
        final(a).coeffs@ == uniform_poly_spec(seed@.subrange(off as int, off + SEEDBYTES) + nonce_bytes(nonce)),
        poly_in_range(*final(a), 0, Q_I32 - 1),
{
    let ghost input = seed@.subrange(off as int, off + SEEDBYTES) + nonce_bytes(nonce);
    let ghost start = stream_start(SHAKE128_RATE as int, input);
    let ghost full = shake128_spec(input, (3 * MAX_DRAWS) as nat);
    let mut state = KeccakState::default();
    stream128_init(&mut state, seed, off, nonce);
    *a = Poly::default();
    let mut buf: [u8; 3] = [0u8; 3];
    let mut ctr: usize = 0;
    let mut draws: usize = 0;
    while ctr < N && draws < MAX_DRAWS
        invariant
            ctr <= N,
            draws <= MAX_DRAWS,
            full == squeeze(start, SHAKE128_RATE as int, SHAKE128_RATE as int, (3 * MAX_DRAWS) as nat).0,
            state.s@ == squeeze(start, SHAKE128_RATE as int, SHAKE128_RATE as int, (3 * draws) as nat).1,
            state.pos == squeeze(start, SHAKE128_RATE as int, SHAKE128_RATE as int, (3 * draws) as nat).2,
            state.pos <= SHAKE128_RATE,
            ctr == uniform_accepted(full, draws as nat).len(),
            forall|j: int| 0 <= j < ctr ==> #[trigger] a.coeffs[j] == uniform_accepted(full, draws as nat)[j],
            forall|j: int| ctr <= j < N ==> #[trigger] a.coeffs[j] == 0,
            poly_in_range(*a, 0, Q_I32 - 1),
        decreases MAX_DRAWS - draws,
    {
        proof {
            lemma_stream_step(start, SHAKE128_RATE as int, (3 * draws) as nat, 3, (3 * MAX_DRAWS) as nat);
        }
        shake128_squeeze(&mut buf, 0, 3, &mut state);
        assert(buf@.subrange(0, 3) =~= buf@);
        let t = ((buf[0] as u32) | ((buf[1] as u32) << 8) | ((buf[2] as u32) << 16)) & 0x7FFFFF;
        assert(t == uniform_candidate(full, draws as int));
        let ghost prev = uniform_accepted(full, draws as nat);
        if t < Q_I32 as u32 {
            a.coeffs[ctr] = t as i32;
            ctr += 1;
        }
        draws += 1;
        assert(3 * draws == 3 * (draws - 1) + 3);
        assert(uniform_accepted(full, draws as nat) == if t < Q_I32 { prev.push(t as i32) } else { prev });
    }
    proof {
        lemma_uniform_accepted_prefix(full, draws as nat, MAX_DRAWS as nat);
        let acc = uniform_accepted(full, MAX_DRAWS as nat);
        assert forall|j: int| 0 <= j < N implies #[trigger] a.coeffs@[j] == first_coeffs(acc)[j] by {
            if draws < MAX_DRAWS {
                assert(ctr == N);
                assert(acc.subrange(0, ctr as int)[j] == acc[j]);
            }
        }
        assert(a.coeffs@ =~= uniform_poly_spec(input));
    }
}

/// Samples a polynomial with coefficients in `[-ETA, ETA]` by rejection on
/// the 4-bit values read from the SHAKE256 stream of `seed[off..off +
/// CRHBYTES]` and `nonce`.
pub fn poly_uniform_eta(a: &mut Poly, seed: &[u8], off: usize, nonce: u16)
    requires
        off + CRHBYTES <= seed@.len(),
    ensures
        final(a).coeffs@ == eta_poly_spec(seed@.subrange(off as int, off + CRHBYTES) + nonce_bytes(nonce)),
        poly_in_range(*final(a), -ETA_I32 as int, ETA_I32 as int),
{
    let ghost input = seed@.subrange(off as int, off + CRHBYTES) + nonce_bytes(nonce);
    let ghost start = stream_start(SHAKE256_RATE as int, input);
    let ghost full = shake256_spec(input, MAX_DRAWS as nat);
    let mut state = KeccakState::default();
    stream256_init(&mut state, seed, off, CRHBYTES, nonce);
    *a = Poly::default();
    let mut buf: [u8; 1] = [0u8; 1];
    let mut ctr: usize = 0;
    let mut draws: usize = 0;
    while ctr < N && draws < MAX_DRAWS
        invariant
            ctr <= N,
            draws <= MAX_DRAWS,
            full == squeeze(start, SHAKE256_RATE as int, SHAKE256_RATE as int, MAX_DRAWS as nat).0,
            state.s@ == squeeze(start, SHAKE256_RATE as int, SHAKE256_RATE as int, draws as nat).1,
            state.pos == squeeze(start, SHAKE256_RATE as int, SHAKE256_RATE as int, draws as nat).2,
            state.pos <= SHAKE256_RATE,
            ctr as int == if eta_accepted(full, draws as nat).len() < N { eta_accepted(full, draws as nat).len() as int } else { N as int },
            forall|j: int| 0 <= j < ctr ==> #[trigger] a.coeffs[j] == eta_accepted(full, draws as nat)[j],
            forall|j: int| ctr <= j < N ==> #[trigger] a.coeffs[j] == 0,
            poly_in_range(*a, -ETA_I32 as int, ETA_I32 as int),
        decreases MAX_DRAWS - draws,
    {
        proof {
            lemma_stream_step(start, SHAKE256_RATE as int, draws as nat, 1, MAX_DRAWS as nat);
        }
        shake256_squeeze(&mut buf, 0, 1, &mut state);
        assert(buf@.subrange(0, 1) =~= buf@);
        let ghost x = buf[0];
        assert(x == full[draws as int]);
        let ghost prev = eta_accepted(full, draws as nat);
        let ghost p0 = eta_part((x & 15u8) as int);
        let ghost p1 = eta_part((x >> 4u8) as int);
        let t0 = (buf[0] & 0x0F) as u32;
        let t1 = (buf[0] >> 4) as u32;
        if t0 < 9 {
            a.coeffs[ctr] = 4 - t0 as i32;
            ctr += 1;
        }
        if t1 < 9 && ctr < N {
            a.coeffs[ctr] = 4 - t1 as i32;
            ctr += 1;
        }
        draws += 1;
        assert(eta_accepted(full, draws as nat) == prev + p0 + p1);
        assert forall|j: int| 0 <= j < ctr implies #[trigger] a.coeffs[j] == (prev + p0 + p1)[j] by {
            if j >= prev.len() {
                if t0 < 9 && j == prev.len() {
                    assert((prev + p0 + p1)[j] == p0[0]);
                } else {
                    assert((prev + p0 + p1)[j] == p1[0]);
                }
            }
        }
    }
    proof {
        lemma_eta_accepted_prefix(full, draws as nat, MAX_DRAWS as nat);
        let acc = eta_accepted(full, MAX_DRAWS as nat);
        let accd = eta_accepted(full, draws as nat);
        assert forall|j: int| 0 <= j < N implies #[trigger] a.coeffs@[j] == first_coeffs(acc)[j] by {
            if draws < MAX_DRAWS {
                assert(ctr == N);
                assert(acc.subrange(0, accd.len() as int)[j] == acc[j]);
            }
        }
        assert(a.coeffs@ =~= eta_poly_spec(input));
    }
}

/// Samples a polynomial with coefficients in `[GAMMA1 - 2^20 + 1, GAMMA1]`
/// from the first `POLYZ_PACKEDBYTES` bytes of the SHAKE256 stream of
/// `seed[off..off + CRHBYTES]` and `nonce`.
pub fn poly_uniform_gamma1(a: &mut Poly, seed: &[u8], off: usize, nonce: u16)
    requires
        off + CRHBYTES <= seed@.len(),
    ensures
        final(a).coeffs@ == gamma1_poly_spec(seed@.subrange(off as int, off + CRHBYTES) + nonce_bytes(nonce)),
        poly_in_range(*final(a), GAMMA1_I32 - 1048575, GAMMA1_I32 as int),
{
    let ghost input = seed@.subrange(off as int, off + CRHBYTES) + nonce_bytes(nonce);
    let mut state = KeccakState::default();
    stream256_init(&mut state, seed, off, CRHBYTES, nonce);
    let mut buf: [u8; 640] = [0u8; 640];
    shake256_squeeze(&mut buf, 0, POLYZ_PACKEDBYTES, &mut state);
    assert(buf@.subrange(0, 640) =~= buf@);
    polyz_unpack(a, &buf, 0);
    proof {
        assert forall|i: int| 0 <= i < N implies #[trigger] a.coeffs@[i] == gamma1_poly_spec(input)[i] by {
            assert(a.coeffs[i] == z_coeff(buf@, 0, i));
        }
        assert(a.coeffs@ =~= gamma1_poly_spec(input));
    }
}

/// Number of nonzero coefficients among the first `n` of `c`.
pub open spec fn nonzero_count(c: Poly, n: int) -> int
    decreases n,
{
    if n <= 0 {
        0
    } else {
        nonzero_count(c, n - 1) + if c.coeffs[n - 1] != 0 { 1int } else { 0int }
    }
}

/// Setting coefficient `p` of `c` to `v` changes the count of nonzero
/// coefficients by the change at `p`.
proof fn lemma_nonzero_count_update(c: Poly, d: Poly, p: int, n: int)
    requires
        0 <= p < N,
        0 <= n <= N,
        forall|j: int| 0 <= j < N && j != p ==> #[trigger] d.coeffs[j] == c.coeffs[j],
    ensures
        nonzero_count(d, n) == nonzero_count(c, n)
            + (if p < n && d.coeffs[p] != 0 { 1int } else { 0int })
            - (if p < n && c.coeffs[p] != 0 { 1int } else { 0int }),
    decreases n,
{
    if n > 0 {
        lemma_nonzero_count_update(c, d, p, n - 1);
    }
}

/// The little-endian value of the first `n` bytes of `bytes`.
pub open spec fn le_bytes(bytes: Seq<u8>, n: nat) -> u64
    decreases n,
{
    if n == 0 {
        0
    } else {
        le_bytes(bytes, (n - 1) as nat) | ((bytes[n - 1] as u64) << ((8 * (n - 1)) as u64))
    }
}

/// Draws bytes of `bytes` from position `p`, at most `tries` of them, until
/// one is at most `i`: that byte (`N` when none is) and the position after
/// the draws.
pub open spec fn ball_draw(bytes: Seq<u8>, p: int, i: int, tries: nat) -> (int, int)
    decreases tries,
{
    if tries == 0 {
        (N as int, p)
    } else if bytes[p] <= i {
        (bytes[p] as int, p + 1)
    } else {
        ball_draw(bytes, p + 1, i, (tries - 1) as nat)
    }
}

/// The challenge sampler after its first `n` steps on the stream `bytes`:
/// the coefficients, the stream position and the unused sign bits. Step `n`
/// handles position `i = N - TAU + n`: it draws an index `b <= i`, moves
/// coefficient `b` to `i` and sets coefficient `b` to a sign.
pub open spec fn ball_state(bytes: Seq<u8>, n: nat) -> (Seq<i32>, int, u64)
    decreases n,
{
    if n == 0 {
        (Seq::new(N as nat, |j: int| 0i32), 8, le_bytes(bytes, 8))
    } else {
        let prev = ball_state(bytes, (n - 1) as nat);
        let i = N - TAU + n - 1;
        let drawn = ball_draw(bytes, prev.1, i, MAX_DRAWS as nat);
        let b = drawn.0;
        if b <= i {
            (
                prev.0.update(i, prev.0[b]).update(b, (1 - 2 * ((prev.2 & 1u64) as int)) as i32),
                drawn.1,
                prev.2 >> 1u64,
            )
        } else {
            (prev.0, drawn.1, prev.2)
        }
    }
}

/// Number of the first `n` steps of the challenge sampler on the stream
/// `bytes` whose draws found an index (all of them unless a draw limit was
/// reached).
pub open spec fn ball_found(bytes: Seq<u8>, n: nat) -> int
    decreases n,
{
    if n == 0 {
        0
    } else {
        let i = N - TAU + n - 1;
        ball_found(bytes, (n - 1) as nat)
            + if ball_draw(bytes, ball_state(bytes, (n - 1) as nat).1, i, MAX_DRAWS as nat).0 <= i { 1int } else { 0int }
    }
}

/// The coefficients of the challenge that `poly_challenge_nonced` samples
/// from the SHAKE256 stream of `input`.
pub open spec fn challenge_spec(input: Seq<u8>) -> Seq<i32> {
    ball_state(shake256_spec(input, (8 + TAU * MAX_DRAWS) as nat), TAU as nat).0
}

/// Samples a challenge polynomial with coefficients in `{-1, 0, 1}` from the
/// SHAKE256 stream of `seed[off..off + SEEDBYTES]` and `nonce`: one nonzero
/// coefficient for each of its TAU steps whose draws found an index, so
/// exactly TAU unless a draw limit is reached.
pub fn poly_challenge_nonced(c: &mut Poly, seed: &[u8], off: usize, nonce: u16)
    requires
        off + SEEDBYTES <= seed@.len(),
    ensures
        final(c).coeffs@ == challenge_spec(seed@.subrange(off as int, off + SEEDBYTES) + nonce_bytes(nonce)),
        poly_in_range(*final(c), -1, 1),
        nonzero_count(*final(c), N as int) <= TAU,
        nonzero_count(*final(c), N as int) == ball_found(
            shake256_spec(seed@.subrange(off as int, off + SEEDBYTES) + nonce_bytes(nonce), (8 + TAU * MAX_DRAWS) as nat),
            TAU as nat,
        ),
{
    let ghost input = seed@.subrange(off as int, off + SEEDBYTES) + nonce_bytes(nonce);
    let ghost start = stream_start(SHAKE256_RATE as int, input);
    let ghost total: nat = (8 + TAU * MAX_DRAWS) as nat;
    let ghost full = shake256_spec(input, total);
    let mut state = KeccakState::default();
    stream256_init(&mut state, seed, off, SEEDBYTES, nonce);
    let mut buf: [u8; 8] = [0u8; 8];
    proof {
        lemma_stream_step(start, SHAKE256_RATE as int, 0, 8, total);
        assert(squeeze(start, SHAKE256_RATE as int, SHAKE256_RATE as int, 0).0 =~= Seq::<u8>::empty());
        assert(Seq::<u8>::empty() + squeeze(start, SHAKE256_RATE as int, SHAKE256_RATE as int, 8).0
            =~= squeeze(start, SHAKE256_RATE as int, SHAKE256_RATE as int, 8).0);
    }
    shake256_squeeze(&mut buf, 0, 8, &mut state);
    assert(buf@.subrange(0, 8) =~= buf@);
    let mut signs: u64 = 0;
    for i in 0..8
        invariant
            forall|j: int| 0 <= j < 8 ==> #[trigger] buf@[j] == full[j],
            signs == le_bytes(full, i as nat),
    {
        signs = signs | ((buf[i] as u64) << (8 * i) as u64);
    }
    *c = Poly::default();
    let mut pos: usize = 8;
    proof {
        assert forall|n: int| 0 <= n <= N implies nonzero_count(*c, n) == 0 by {
            lemma_nonzero_count_zero(*c, n);
        }
        assert(c.coeffs@ =~= ball_state(full, 0).0);
    }
    let mut one: [u8; 1] = [0u8; 1];
    for i in N - TAU..N
        invariant
            full == squeeze(start, SHAKE256_RATE as int, SHAKE256_RATE as int, total).0,
            total == 8 + TAU * MAX_DRAWS,
            8 <= pos <= 8 + (i - (N - TAU)) * MAX_DRAWS,
            state.s@ == squeeze(start, SHAKE256_RATE as int, SHAKE256_RATE as int, pos as nat).1,
            state.pos == squeeze(start, SHAKE256_RATE as int, SHAKE256_RATE as int, pos as nat).2,
            state.pos <= SHAKE256_RATE,
            (c.coeffs@, pos as int, signs) == ball_state(full, (i - (N - TAU)) as nat),
            poly_in_range(*c, -1, 1),
            forall|j: int| i <= j < N ==> #[trigger] c.coeffs[j] == 0,
            nonzero_count(*c, N as int) <= i - (N - TAU),
            nonzero_count(*c, N as int) == ball_found(full, (i - (N - TAU)) as nat),
    {
        let ghost p0 = pos as int;
        let ghost target = ball_draw(full, p0, i as int, MAX_DRAWS as nat);
        let mut b: usize = N;
        let mut draws: usize = 0;
        while b > i && draws < MAX_DRAWS
            invariant
                N - TAU <= i < N,
                full == squeeze(start, SHAKE256_RATE as int, SHAKE256_RATE as int, total).0,
                total == 8 + TAU * MAX_DRAWS,
                p0 <= 8 + (i - (N - TAU)) * MAX_DRAWS,
                draws <= MAX_DRAWS,
                pos == p0 + draws,
                state.s@ == squeeze(start, SHAKE256_RATE as int, SHAKE256_RATE as int, pos as nat).1,
                state.pos == squeeze(start, SHAKE256_RATE as int, SHAKE256_RATE as int, pos as nat).2,
                state.pos <= SHAKE256_RATE,
                target == ball_draw(full, p0, i as int, MAX_DRAWS as nat),
                b <= N,
                b > i ==> ball_draw(full, pos as int, i as int, (MAX_DRAWS - draws) as nat) == target,
                b <= i ==> target == (b as int, pos as int),
            decreases MAX_DRAWS - draws,
        {
            proof {
                assert(p0 + MAX_DRAWS <= total) by (nonlinear_arith)
                    requires
                        p0 <= 8 + (i - (N - TAU)) * MAX_DRAWS,
                        i < N,
                        total == 8 + TAU * MAX_DRAWS,
                ;
                lemma_stream_step(start, SHAKE256_RATE as int, pos as nat, 1, total);
            }
            shake256_squeeze(&mut one, 0, 1, &mut state);
            assert(one@.subrange(0, 1) =~= one@);
            assert(one[0] == full[pos as int]);
            b = one[0] as usize;
            draws += 1;
            assert(draws <= MAX_DRAWS);
            pos += 1;
        }
        proof {
            if b > i {
                assert(draws == MAX_DRAWS);
            }
        }
        if b <= i {
            let ghost c0 = *c;
            c.coeffs[i] = c.coeffs[b];
            let ghost c1 = *c;
            assert((signs & 1u64) <= 1u64) by (bit_vector);
            c.coeffs[b] = 1i32 - 2 * (signs & 1) as i32;
            proof {
                assert(c0.coeffs[i as int] == 0);
                lemma_nonzero_count_update(c0, c1, i as int, N as int);
                lemma_nonzero_count_update(c1, *c, b as int, N as int);
            }
            signs = signs >> 1;
        }
        proof {
            assert(((i + 1) - (N - TAU)) as nat - 1 == (i - (N - TAU)) as nat);
            assert(c.coeffs@ =~= ball_state(full, ((i + 1) - (N - TAU)) as nat).0);
            assert(nonzero_count(*c, N as int) == ball_found(full, ((i + 1) - (N - TAU)) as nat));
        }
    }
}

/// A polynomial with zero coefficients has no nonzero coefficient.
proof fn lemma_nonzero_count_zero(c: Poly, n: int)
    requires
        0 <= n <= N,
        forall|j: int| 0 <= j < N ==> #[trigger] c.coeffs[j] == 0,
    ensures
        nonzero_count(c, n) == 0,
    decreases n,
{
    if n > 0 {
        lemma_nonzero_count_zero(c, n - 1);
    }
}

/// Polynomial `l` of `v` is eta-sampled from `seed` with the nonce `nonce + l`.
pub open spec fn eta_vecl_spec(v: Polyvecl, seed: Seq<u8>, nonce: int) -> bool {
    forall|l: int| 0 <= l < L ==> #[trigger] v.vec[l].coeffs@ == eta_poly_spec(seed + nonce_bytes((nonce + l) as u16))
}

/// Polynomial `k` of `v` is eta-sampled from `seed` with the nonce `nonce + k`.
pub open spec fn eta_veck_spec(v: Polyveck, seed: Seq<u8>, nonce: int) -> bool {
    forall|k: int| 0 <= k < K ==> #[trigger] v.vec[k].coeffs@ == eta_poly_spec(seed + nonce_bytes((nonce + k) as u16))
}

/// Polynomial `l` of `v` is gamma1-sampled from `seed` with the nonce
/// `L * nonce + l`.
pub open spec fn gamma1_vecl_spec(v: Polyvecl, seed: Seq<u8>, nonce: int) -> bool {
    forall|l: int| 0 <= l < L ==> #[trigger] v.vec[l].coeffs@ == gamma1_poly_spec(seed + nonce_bytes((L * nonce + l) as u16))
}

/// Samples every polynomial of `v` with `poly_uniform_eta`, the nonces
/// counting up from `nonce`.
pub fn polyvecl_uniform_eta(v: &mut Polyvecl, seed: &[u8], off: usize, nonce: u16)
    requires
        off + CRHBYTES <= seed@.len(),
        nonce + L <= u16::MAX,
    ensures
        eta_vecl_spec(*final(v), seed@.subrange(off as int, off + CRHBYTES), nonce as int),
        vecl_in_range(*final(v), -ETA_I32 as int, ETA_I32 as int),
{
    let ghost nonce0 = nonce;
    let mut nonce = nonce;
    for i in 0..L
        invariant
            off + CRHBYTES <= seed@.len(),
            nonce == nonce0 + i,
            nonce0 + L <= u16::MAX,
            forall|l: int| 0 <= l < i ==> #[trigger] v.vec[l].coeffs@
                == eta_poly_spec(seed@.subrange(off as int, off + CRHBYTES) + nonce_bytes((nonce0 + l) as u16)),
            forall|l: int| 0 <= l < i ==> #[trigger] poly_in_range(v.vec[l], -ETA_I32 as int, ETA_I32 as int),
    {
        let mut p = v.vec[i];
        poly_uniform_eta(&mut p, seed, off, nonce);
        v.vec[i] = p;
        nonce += 1;
    }
    assert forall|l: int, c: int| 0 <= l < L && 0 <= c < N implies
        -ETA_I32 <= #[trigger] v.vec[l].coeffs[c] <= ETA_I32 by {
        assert(poly_in_range(v.vec[l], -ETA_I32 as int, ETA_I32 as int));
    }
}

/// Samples every polynomial of `v` with `poly_uniform_eta`, the nonces
/// counting up from `nonce`.
pub fn polyveck_uniform_eta(v: &mut Polyveck, seed: &[u8], off: usize, nonce: u16)
    requires
        off + CRHBYTES <= seed@.len(),
        nonce + K <= u16::MAX,
    ensures
        eta_veck_spec(*final(v), seed@.subrange(off as int, off + CRHBYTES), nonce as int),
        veck_in_range(*final(v), -ETA_I32 as int, ETA_I32 as int),
{
    let ghost nonce0 = nonce;
    let mut nonce = nonce;
    for i in 0..K
        invariant
            off + CRHBYTES <= seed@.len(),
            nonce == nonce0 + i,
            nonce0 + K <= u16::MAX,
            forall|l: int| 0 <= l < i ==> #[trigger] v.vec[l].coeffs@
                == eta_poly_spec(seed@.subrange(off as int, off + CRHBYTES) + nonce_bytes((nonce0 + l) as u16)),
            forall|l: int| 0 <= l < i ==> #[trigger] poly_in_range(v.vec[l], -ETA_I32 as int, ETA_I32 as int),
    {
        let mut p = v.vec[i];
        poly_uniform_eta(&mut p, seed, off, nonce);
        v.vec[i] = p;
        nonce += 1;
    }
    assert forall|l: int, c: int| 0 <= l < K && 0 <= c < N implies
        -ETA_I32 <= #[trigger] v.vec[l].coeffs[c] <= ETA_I32 by {
        assert(poly_in_range(v.vec[l], -ETA_I32 as int, ETA_I32 as int));
    }
}

/// Samples polynomial `i` of `v` with `poly_uniform_gamma1` and the nonce
/// `L * nonce + i`.
pub fn polyvecl_uniform_gamma1(v: &mut Polyvecl, seed: &[u8], off: usize, nonce: u16)
    requires
        off + CRHBYTES <= seed@.len(),
        L * nonce + L <= u16::MAX,
    ensures
        gamma1_vecl_spec(*final(v), seed@.subrange(off as int, off + CRHBYTES), nonce as int),
        vecl_in_range(*final(v), GAMMA1_I32 - 1048575, GAMMA1_I32 as int),
{
    for i in 0..L
        invariant
            off + CRHBYTES <= seed@.len(),
            L * nonce + L <= u16::MAX,
            forall|l: int| 0 <= l < i ==> #[trigger] v.vec[l].coeffs@
                == gamma1_poly_spec(seed@.subrange(off as int, off + CRHBYTES) + nonce_bytes((L * nonce + l) as u16)),
            forall|l: int| 0 <= l < i ==> #[trigger] poly_in_range(v.vec[l], GAMMA1_I32 - 1048575, GAMMA1_I32 as int),
    {
        let mut p = v.vec[i];
        poly_uniform_gamma1(&mut p, seed, off, (L as u16) * nonce + i as u16);
        v.vec[i] = p;
    }
    assert forall|l: int, c: int| 0 <= l < L && 0 <= c < N implies
        GAMMA1_I32 - 1048575 <= #[trigger] v.vec[l].coeffs[c] <= GAMMA1_I32 by {
        assert(poly_in_range(v.vec[l], GAMMA1_I32 - 1048575, GAMMA1_I32 as int));
    }
}

/// The matrix expanded from `seed`: entry `(i, j)` is sampled by
/// `poly_uniform` with the nonce `256 * i + j`.
pub open spec fn matrix_spec(mat: [Polyvecl; K], seed: Seq<u8>) -> bool {
    forall|i: int, j: int| 0 <= i < K && 0 <= j < L ==> #[trigger] mat[i].vec[j].coeffs@
        == uniform_poly_spec(seed + nonce_bytes((256 * i + j) as u16))
}

/// Expands the matrix: entry `(i, j)` is `poly_uniform` of
/// `seed[off..off + SEEDBYTES]` with the nonce `256 * i + j`.
pub fn polyvec_matrix_expand(mat: &mut [Polyvecl; K], seed: &[u8], off: usize)
    requires
        off + SEEDBYTES <= seed@.len(),
    ensures
        matrix_spec(*final(mat), seed@.subrange(off as int, off + SEEDBYTES)),
        forall|k: int| 0 <= k < K ==> #[trigger] vecl_in_range(final(mat)[k], 0, Q_I32 - 1),
{
    let ghost sd = seed@.subrange(off as int, off + SEEDBYTES);
    for i in 0..K
        invariant
            off + SEEDBYTES <= seed@.len(),
            sd == seed@.subrange(off as int, off + SEEDBYTES),
            forall|ii: int, j: int| 0 <= ii < i && 0 <= j < L ==> #[trigger] mat[ii].vec[j].coeffs@
                == uniform_poly_spec(sd + nonce_bytes((256 * ii + j) as u16)),
            forall|k: int| 0 <= k < i ==> #[trigger] vecl_in_range(mat[k], 0, Q_I32 - 1),
    {
        let mut row = mat[i];
        for j in 0..L
            invariant
                0 <= i < K,
                off + SEEDBYTES <= seed@.len(),
                sd == seed@.subrange(off as int, off + SEEDBYTES),
                forall|jj: int| 0 <= jj < j ==> #[trigger] row.vec[jj].coeffs@
                    == uniform_poly_spec(sd + nonce_bytes((256 * i + jj) as u16)),
                forall|l: int| 0 <= l < j ==> #[trigger] poly_in_range(row.vec[l], 0, Q_I32 - 1),
        {
            let mut p = row.vec[j];
            assert(i < 6 ==> (i << 8usize) == i * 256) by (bit_vector);
            poly_uniform(&mut p, seed, off, ((i << 8) + j) as u16);
            row.vec[j] = p;
        }
        assert forall|l: int, c: int| 0 <= l < L && 0 <= c < N implies
            0 <= #[trigger] row.vec[l].coeffs[c] <= Q_I32 - 1 by {
            assert(poly_in_range(row.vec[l], 0, Q_I32 - 1));
        }
        mat[i] = row;
    }
}

/// The matrix expanded from `seed` (see `matrix_spec`).
pub open spec fn expanded_matrix(seed: Seq<u8>) -> [Polyvecl; K] {
    choose|mat: [Polyvecl; K]| matrix_spec(mat, seed)
}

/// A matrix expanded from `seed` is the one `expanded_matrix` names.
pub proof fn lemma_matrix_unique(mat: [Polyvecl; K], seed: Seq<u8>)
    requires
        matrix_spec(mat, seed),
    ensures
        expanded_matrix(seed) == mat,
{
    let other = expanded_matrix(seed);
    assert(matrix_spec(other, seed));
    assert forall|i: int| 0 <= i < K implies #[trigger] other[i] == mat[i] by {
        assert forall|j: int| 0 <= j < L implies #[trigger] other[i].vec[j] == mat[i].vec[j] by {
            assert(other[i].vec[j].coeffs@ == mat[i].vec[j].coeffs@);
            assert(other[i].vec[j].coeffs =~= mat[i].vec[j].coeffs);
        }
        assert(other[i].vec =~= mat[i].vec);
    }
    assert(other =~= mat);
}

/// The vector of `L` polynomials eta-sampled from `seed` with the nonces
/// counting up from `nonce`.
pub open spec fn eta_vecl_value(seed: Seq<u8>, nonce: int) -> Polyvecl {
    choose|v: Polyvecl| eta_vecl_spec(v, seed, nonce)
}

/// The vector of `K` polynomials eta-sampled from `seed` with the nonces
/// counting up from `nonce`.
pub open spec fn eta_veck_value(seed: Seq<u8>, nonce: int) -> Polyveck {
    choose|v: Polyveck| eta_veck_spec(v, seed, nonce)
}

/// The vector of `L` polynomials gamma1-sampled from `seed` with the nonces
/// `L * nonce + l`.
pub open spec fn gamma1_vecl_value(seed: Seq<u8>, nonce: int) -> Polyvecl {
    choose|v: Polyvecl| gamma1_vecl_spec(v, seed, nonce)
}

/// Two vectors of `L` polynomials with the same coefficients are equal.
pub proof fn lemma_vecl_ext(a: Polyvecl, b: Polyvecl)
    requires
        forall|l: int| 0 <= l < L ==> #[trigger] a.vec[l].coeffs@ == b.vec[l].coeffs@,
    ensures
        a == b,
{
    assert forall|l: int| 0 <= l < L implies #[trigger] a.vec[l] == b.vec[l] by {
        assert(a.vec[l].coeffs =~= b.vec[l].coeffs);
    }
    assert(a.vec =~= b.vec);
}

/// Two vectors of `K` polynomials with the same coefficients are equal.
pub proof fn lemma_veck_ext(a: Polyveck, b: Polyveck)
    requires
        forall|k: int| 0 <= k < K ==> #[trigger] a.vec[k].coeffs@ == b.vec[k].coeffs@,
    ensures
        a == b,
{
    assert forall|k: int| 0 <= k < K implies #[trigger] a.vec[k] == b.vec[k] by {
        assert(a.vec[k].coeffs =~= b.vec[k].coeffs);
    }
    assert(a.vec =~= b.vec);
}

/// An eta-sampled vector is the one `eta_vecl_value` names.
pub proof fn lemma_eta_vecl_unique(v: Polyvecl, seed: Seq<u8>, nonce: int)
    requires
        eta_vecl_spec(v, seed, nonce),
    ensures
        eta_vecl_value(seed, nonce) == v,
{
    let w = eta_vecl_value(seed, nonce);
    assert(eta_vecl_spec(w, seed, nonce));
    lemma_vecl_ext(w, v);
}

/// An eta-sampled vector is the one `eta_veck_value` names.
pub proof fn lemma_eta_veck_unique(v: Polyveck, seed: Seq<u8>, nonce: int)
    requires
        eta_veck_spec(v, seed, nonce),
    ensures
        eta_veck_value(seed, nonce) == v,
{
    let w = eta_veck_value(seed, nonce);
    assert(eta_veck_spec(w, seed, nonce));
    lemma_veck_ext(w, v);
}

/// A gamma1-sampled vector is the one `gamma1_vecl_value` names.
pub proof fn lemma_gamma1_vecl_unique(v: Polyvecl, seed: Seq<u8>, nonce: int)
    requires
        gamma1_vecl_spec(v, seed, nonce),
    ensures
        gamma1_vecl_value(seed, nonce) == v,
{
    let w = gamma1_vecl_value(seed, nonce);
    assert(gamma1_vecl_spec(w, seed, nonce));
    lemma_vecl_ext(w, v);
}

} // verus!
