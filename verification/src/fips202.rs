use vstd::prelude::*;

verus! {

/// Rate in bytes of SHAKE128.
pub const SHAKE128_RATE: usize = 168;
/// Rate in bytes of SHAKE256.
pub const SHAKE256_RATE: usize = 136;

/// State of an incremental Keccak sponge: the permutation state and the
/// position in the current block.
#[derive(Copy, Clone)]
pub struct KeccakState {
    pub s: [u64; 25],
    pub pos: usize,
}

impl Default for KeccakState {
    /// A fresh sponge: zero state, position 0.
    fn default() -> (st: KeccakState)
        ensures
            st.s@ == zero_state(),
            st.pos == 0,
    {
        let st = KeccakState { s: [0u64; 25], pos: 0 };
        assert(st.s@ =~= zero_state());
        st
    }
}

impl KeccakState {
    /// Resets the sponge: zero state, position 0.
    pub fn init(&mut self)
        ensures
            final(self).s@ == zero_state(),
            final(self).pos == 0,
    {
        self.s = [0u64; 25];
        self.pos = 0;
        assert(self.s@ =~= zero_state());
    }
}

/// The 25 zero lanes of a fresh sponge.
pub open spec fn zero_state() -> Seq<u64> {
    Seq::new(25, |i: int| 0u64)
}

/// `st` with the byte `b` added (xor) at byte position `pos`, the lanes
/// read little-endian.
pub open spec fn xor_byte(st: Seq<u64>, pos: int, b: u8) -> Seq<u64> {
    st.update(pos / 8, st[pos / 8] ^ ((b as u64) << ((8 * (pos % 8)) as u64)))
}

/// The byte at byte position `pos` of `st`, the lanes read little-endian.
pub open spec fn state_byte(st: Seq<u64>, pos: int) -> u8 {
    (st[pos / 8] >> ((8 * (pos % 8)) as u64)) as u8
}

/// Absorbs one byte into the sponge `(st, pos)` of rate `r`: the byte is
/// added at `pos`, and a full block is followed by the permutation.
pub open spec fn absorb_byte(st: Seq<u64>, pos: int, r: int, b: u8) -> (Seq<u64>, int) {
    let s1 = xor_byte(st, pos, b);
    if pos + 1 == r {
        (keccak_f(s1), 0)
    } else {
        (s1, pos + 1)
    }
}

/// Absorbs `bytes` into the sponge `(st, pos)` of rate `r`.
pub open spec fn absorb(st: Seq<u64>, pos: int, r: int, bytes: Seq<u8>) -> (Seq<u64>, int)
    decreases bytes.len(),
{
    if bytes.len() == 0 {
        (st, pos)
    } else {
        let prev = absorb(st, pos, r, bytes.drop_last());
        absorb_byte(prev.0, prev.1, r, bytes.last())
    }
}

/// Ends the absorbing phase of the sponge `(st, pos)` of rate `r`: the
/// domain byte `p` at `pos` and the final bit of the block.
pub open spec fn pad(st: Seq<u64>, pos: int, r: int, p: u8) -> Seq<u64> {
    let s1 = xor_byte(st, pos, p);
    s1.update(r / 8 - 1, s1[r / 8 - 1] ^ (1u64 << 63u64))
}

/// Squeezes `n` bytes from the sponge `(st, pos)` of rate `r`: the bytes
/// and the sponge after them.
pub open spec fn squeeze(st: Seq<u64>, pos: int, r: int, n: nat) -> (Seq<u8>, Seq<u64>, int)
    decreases n,
{
    if n == 0 {
        (Seq::empty(), st, pos)
    } else {
        let prev = squeeze(st, pos, r, (n - 1) as nat);
        let next: (Seq<u64>, int) = if prev.2 == r {
            (keccak_f(prev.1), 0)
        } else {
            (prev.1, prev.2)
        };
        (prev.0.push(state_byte(next.0, next.1)), next.0, next.1 + 1)
    }
}

/// The sponge of rate `r` with domain byte 0x1F: the first `outlen` bytes
/// of its output on `input`.
pub open spec fn shake_spec(r: int, input: Seq<u8>, outlen: nat) -> Seq<u8> {
    let absorbed = absorb(zero_state(), 0, r, input);
    squeeze(pad(absorbed.0, absorbed.1, r, 0x1F), r, r, outlen).0
}

/// SHAKE128: the first `outlen` bytes of its output on `input`.
pub open spec fn shake128_spec(input: Seq<u8>, outlen: nat) -> Seq<u8> {
    shake_spec(SHAKE128_RATE as int, input, outlen)
}

/// SHAKE256: the first `outlen` bytes of its output on `input`.
pub open spec fn shake256_spec(input: Seq<u8>, outlen: nat) -> Seq<u8> {
    shake_spec(SHAKE256_RATE as int, input, outlen)
}

/// `a` rotated left by `n` bits.
pub open spec fn rol_spec(a: u64, n: u32) -> u64 {
    if n == 0 {
        a
    } else {
        (a << n) | (a >> ((64 - n) as u32))
    }
}

/// The round constants of Keccak-f[1600].
pub open spec fn round_constants() -> Seq<u64> {
    seq![
        0x0000000000000001u64, 0x0000000000008082u64, 0x800000000000808au64,
        0x8000000080008000u64, 0x000000000000808bu64, 0x0000000080000001u64,
        0x8000000080008081u64, 0x8000000000008009u64, 0x000000000000008au64,
        0x0000000000000088u64, 0x0000000080008009u64, 0x000000008000000au64,
        0x000000008000808bu64, 0x800000000000008bu64, 0x8000000000008089u64,
        0x8000000000008003u64, 0x8000000000008002u64, 0x8000000000000080u64,
        0x000000000000800au64, 0x800000008000000au64, 0x8000000080008081u64,
        0x8000000000008080u64, 0x0000000080000001u64, 0x8000000080008008u64,
    ]
}

/// The rotation offset of each lane, lane `x + 5 * y` at index `x + 5 * y`.
pub open spec fn rotation_offsets() -> Seq<u32> {
    seq![
        0u32, 1, 62, 28, 27, 36, 44, 6, 55, 20, 3, 10, 43, 25, 39, 41, 45, 15, 21, 8, 18, 2, 61,
        56, 14,
    ]
}

/// Parity of column `x` of the state.
pub open spec fn theta_column(st: Seq<u64>, x: int) -> u64 {
    st[x] ^ st[x + 5] ^ st[x + 10] ^ st[x + 15] ^ st[x + 20]
}

/// The value that theta adds to every lane of column `x`.
pub open spec fn theta_effect(st: Seq<u64>, x: int) -> u64 {
    theta_column(st, (x + 4) % 5) ^ rol_spec(theta_column(st, (x + 1) % 5), 1)
}

/// The step theta.
#[verifier::opaque]
pub closed spec fn theta(st: Seq<u64>) -> Seq<u64> {
    Seq::new(25, |i: int| st[i] ^ theta_effect(st, i % 5))
}

/// The lane that rho and pi move to lane `j`: lane `(x, y)` goes to
/// `(y, 2 * x + 3 * y)`.
pub open spec fn pi_source(j: int) -> int {
    (3 * (j / 5) + j % 5) % 5 + 5 * (j % 5)
}

/// The steps rho and pi.
#[verifier::opaque]
pub closed spec fn rho_pi(st: Seq<u64>) -> Seq<u64> {
    Seq::new(25, |j: int| rol_spec(st[pi_source(j)], rotation_offsets()[pi_source(j)]))
}

/// The step chi.
#[verifier::opaque]
pub closed spec fn chi(b: Seq<u64>) -> Seq<u64> {
    Seq::new(
        25,
        |i: int| b[i] ^ (!b[(i % 5 + 1) % 5 + 5 * (i / 5)] & b[(i % 5 + 2) % 5 + 5 * (i / 5)]),
    )
}

/// The step iota of round `round`.
pub open spec fn iota(st: Seq<u64>, round: int) -> Seq<u64> {
    st.update(0, st[0] ^ round_constants()[round])
}

/// Round `round` of Keccak-f[1600].
pub open spec fn keccak_round(st: Seq<u64>, round: int) -> Seq<u64> {
    iota(chi(rho_pi(theta(st))), round)
}

/// The first `n` rounds of Keccak-f[1600].
pub open spec fn keccak_rounds(st: Seq<u64>, n: int) -> Seq<u64>
    decreases n,
{
    if n <= 0 {
        st
    } else {
        keccak_round(keccak_rounds(st, n - 1), n - 1)
    }
}

/// The permutation Keccak-f[1600] on 25 lanes.
pub open spec fn keccak_f(st: Seq<u64>) -> Seq<u64> {
    keccak_rounds(st, 24)
}

/// Absorbing `a` and then `b` is absorbing `a + b`.
pub proof fn lemma_absorb_concat(st: Seq<u64>, pos: int, r: int, a: Seq<u8>, b: Seq<u8>)
    ensures
        absorb(st, pos, r, a + b) == absorb(absorb(st, pos, r, a).0, absorb(st, pos, r, a).1, r, b),
    decreases b.len(),
{
    if b.len() == 0 {
        assert(a + b =~= a);
    } else {
        lemma_absorb_concat(st, pos, r, a, b.drop_last());
        assert((a + b).drop_last() =~= a + b.drop_last());
        assert((a + b).last() == b.last());
    }
}

/// Squeezing `n` bytes gives `n` bytes.
pub proof fn lemma_squeeze_len(st: Seq<u64>, pos: int, r: int, n: nat)
    ensures
        squeeze(st, pos, r, n).0.len() == n,
    decreases n,
{
    if n > 0 {
        lemma_squeeze_len(st, pos, r, (n - 1) as nat);
    }
}

/// Squeezing `n` bytes and then `m` more is squeezing `n + m` bytes.
pub proof fn lemma_squeeze_concat(st: Seq<u64>, pos: int, r: int, n: nat, m: nat)
    ensures
        ({
            let first = squeeze(st, pos, r, n);
            let second = squeeze(first.1, first.2, r, m);
            squeeze(st, pos, r, n + m) == (first.0 + second.0, second.1, second.2)
        }),
    decreases m,
{
    let first = squeeze(st, pos, r, n);
    if m == 0 {
        assert(first.0 + Seq::<u8>::empty() =~= first.0);
    } else {
        lemma_squeeze_concat(st, pos, r, n, (m - 1) as nat);
        let prev = squeeze(first.1, first.2, r, (m - 1) as nat);
        let next: (Seq<u64>, int) = if prev.2 == r {
            (keccak_f(prev.1), 0)
        } else {
            (prev.1, prev.2)
        };
        let x = state_byte(next.0, next.1);
        assert((first.0 + prev.0).push(x) =~= first.0 + prev.0.push(x));
        assert((n + m - 1) as nat == n + (m - 1) as nat);
    }
}

/// The first `n` of `m >= n` squeezed bytes are the `n` squeezed bytes.
pub proof fn lemma_squeeze_prefix(st: Seq<u64>, pos: int, r: int, n: nat, m: nat)
    requires
        n <= m,
    ensures
        squeeze(st, pos, r, m).0.subrange(0, n as int) == squeeze(st, pos, r, n).0,
{
    lemma_squeeze_concat(st, pos, r, n, (m - n) as nat);
    lemma_squeeze_len(st, pos, r, n);
    assert((n + (m - n) as nat) as nat == m);
    let first = squeeze(st, pos, r, n);
    let second = squeeze(first.1, first.2, r, (m - n) as nat);
    assert((first.0 + second.0).subrange(0, n as int) =~= first.0);
}

/// Extendable output: the first `n` bytes of a longer output of the sponge
/// are its `n`-byte output.
pub proof fn lemma_shake_prefix(r: int, input: Seq<u8>, n: nat, m: nat)
    requires
        n <= m,
    ensures
        shake_spec(r, input, m).subrange(0, n as int) == shake_spec(r, input, n),
        shake_spec(r, input, m).len() == m,
{
    let absorbed = absorb(zero_state(), 0, r, input);
    lemma_squeeze_prefix(pad(absorbed.0, absorbed.1, r, 0x1F), r, r, n, m);
    lemma_squeeze_len(pad(absorbed.0, absorbed.1, r, 0x1F), r, r, m);
}

/// Rotates `a` left by `n` bits.
fn rol(a: u64, n: u32) -> (r: u64)
    requires
        n < 64,
    ensures
        r == rol_spec(a, n),
{
    if n == 0 {
        a
    } else {
        (a << n) | (a >> (64 - n))
    }
}

/// Theta on `st`, in place.
fn theta_step(st: &mut [u64; 25])
    ensures
        final(st)@ == theta(old(st)@),
{
    let mut c = [0u64; 5];
    for x in 0..5
        invariant
            st@ == old(st)@,
            forall|k: int| 0 <= k < x ==> #[trigger] c[k] == theta_column(st@, k),
    {
        c[x] = st[x] ^ st[x + 5] ^ st[x + 10] ^ st[x + 15] ^ st[x + 20];
    }
    let mut d = [0u64; 5];
    for x in 0..5
        invariant
            st@ == old(st)@,
            forall|k: int| 0 <= k < 5 ==> #[trigger] c[k] == theta_column(st@, k),
            forall|k: int| 0 <= k < x ==> #[trigger] d[k] == theta_effect(st@, k),
    {
        d[x] = c[(x + 4) % 5] ^ rol(c[(x + 1) % 5], 1);
    }
    for i in 0..25
        invariant
            forall|k: int| 0 <= k < 5 ==> #[trigger] d[k] == theta_effect(old(st)@, k),
            forall|k: int| 0 <= k < i ==> #[trigger] st[k] == old(st)@[k] ^ theta_effect(old(st)@, k % 5),
            forall|k: int| i <= k < 25 ==> #[trigger] st[k] == old(st)@[k],
    {
        st[i] = st[i] ^ d[i % 5];
    }
    assert(st@ =~= theta(old(st)@)) by {
        reveal(theta);
    }
}

/// Rho and pi from `st` into a new state.
fn rho_pi_step(st: &[u64; 25], rot: &[u32; 25]) -> (b: [u64; 25])
    requires
        rot@ == rotation_offsets(),
    ensures
        b@ == rho_pi(st@),
{
    reveal(rho_pi);
    let mut b = [0u64; 25];
    for j in 0..25
        invariant
            rot@ == rotation_offsets(),
            forall|k: int| 0 <= k < j ==> #[trigger] b[k] == rho_pi(st@)[k],
    {
        proof {
            reveal(rho_pi);
        }
        let src = (3 * (j / 5) + j % 5) % 5 + 5 * (j % 5);
        assert(src == pi_source(j as int));
        assert(rot[src as int] < 64) by {
            assert(forall|k: int| 0 <= k < 25 ==> #[trigger] rotation_offsets()[k] < 64);
        }
        b[j] = rol(st[src], rot[src]);
    }
    assert(b@ =~= rho_pi(st@));
    b
}

/// Chi from `b` into `st`.
fn chi_step(st: &mut [u64; 25], b: &[u64; 25])
    ensures
        final(st)@ == chi(b@),
{
    reveal(chi);
    for i in 0..25
        invariant
            forall|k: int| 0 <= k < i ==> #[trigger] st[k] == chi(b@)[k],
    {
        proof {
            reveal(chi);
        }
        st[i] = b[i] ^ ((!b[(i % 5 + 1) % 5 + 5 * (i / 5)]) & b[(i % 5 + 2) % 5 + 5 * (i / 5)]);
    }
    assert(st@ =~= chi(b@));
}

/// The Keccak-f[1600] permutation.
pub fn keccakf1600_statepermute(st: &mut [u64; 25])
    ensures
        final(st)@ == keccak_f(old(st)@),
{
    let rc: [u64; 24] = [
        0x0000000000000001u64, 0x0000000000008082u64, 0x800000000000808au64,
        0x8000000080008000u64, 0x000000000000808bu64, 0x0000000080000001u64,
        0x8000000080008081u64, 0x8000000000008009u64, 0x000000000000008au64,
        0x0000000000000088u64, 0x0000000080008009u64, 0x000000008000000au64,
        0x000000008000808bu64, 0x800000000000008bu64, 0x8000000000008089u64,
        0x8000000000008003u64, 0x8000000000008002u64, 0x8000000000000080u64,
        0x000000000000800au64, 0x800000008000000au64, 0x8000000080008081u64,
        0x8000000000008080u64, 0x0000000080000001u64, 0x8000000080008008u64,
    ];
    let rot: [u32; 25] = [
        0, 1, 62, 28, 27, 36, 44, 6, 55, 20, 3, 10, 43, 25, 39, 41, 45, 15, 21, 8, 18, 2, 61, 56,
        14,
    ];
    assert(rc@ =~= round_constants());
    assert(rot@ =~= rotation_offsets());
    for round in 0..24
        invariant
            rc@ == round_constants(),
            rot@ == rotation_offsets(),
            st@ == keccak_rounds(old(st)@, round as int),
    {
        theta_step(st);
        let b = rho_pi_step(st, &rot);
        chi_step(st, &b);
        let ghost mixed = st@;
        st[0] = st[0] ^ rc[round];
        assert(st@ =~= iota(mixed, round as int));
    }
}

/// Absorbs `input[off..off + inlen]` into the sponge of rate `r`;
/// incremental.
pub fn keccak_absorb(state: &mut KeccakState, r: usize, input: &[u8], off: usize, inlen: usize)
    requires
        r == SHAKE128_RATE || r == SHAKE256_RATE,
        old(state).pos < r,
        off + inlen <= input@.len(),
    ensures
        final(state).pos < r,
        (final(state).s@, final(state).pos as int) == absorb(
            old(state).s@,
            old(state).pos as int,
            r as int,
            input@.subrange(off as int, off + inlen),
        ),
{
    let mut pos = state.pos;
    let mut idx: usize = 0;
    let len = input.len();
    assert(input@.subrange(off as int, off as int) =~= Seq::<u8>::empty());
    while idx < inlen
        invariant
            input@.len() == len,
            r == SHAKE128_RATE || r == SHAKE256_RATE,
            pos < r,
            idx <= inlen,
            off + inlen <= input@.len(),
            (state.s@, pos as int) == absorb(
                old(state).s@,
                old(state).pos as int,
                r as int,
                input@.subrange(off as int, off + idx),
            ),
        decreases inlen - idx,
    {
        let ghost before = input@.subrange(off as int, off + idx);
        let ghost after = input@.subrange(off as int, off + idx + 1);
        assert(after.drop_last() =~= before);
        assert(after.last() == input@[off + idx]);
        state.s[pos / 8] = state.s[pos / 8] ^ ((input[off + idx] as u64) << (8 * (pos % 8)) as u64);
        idx += 1;
        pos += 1;
        if pos == r {
            keccakf1600_statepermute(&mut state.s);
            pos = 0;
        }
    }
    state.pos = pos;
}

/// Ends the absorbing phase with the domain byte `p` and the final bit.
pub fn keccak_finalize(state: &mut KeccakState, r: usize, p: u8)
    requires
        r == SHAKE128_RATE || r == SHAKE256_RATE,
        old(state).pos < r,
    ensures
        final(state).pos == r,
        final(state).s@ == pad(old(state).s@, old(state).pos as int, r as int, p),
{
    let pos = state.pos;
    state.s[pos / 8] = state.s[pos / 8] ^ ((p as u64) << (8 * (pos % 8)) as u64);
    state.s[r / 8 - 1] = state.s[r / 8 - 1] ^ (1u64 << 63u64);
    state.pos = r;
}

/// Squeezes `outlen` bytes into `out[off..off + outlen]`; incremental.
pub fn keccak_squeeze(out: &mut [u8], off: usize, outlen: usize, state: &mut KeccakState, r: usize)
    requires
        r == SHAKE128_RATE || r == SHAKE256_RATE,
        old(state).pos <= r,
        off + outlen <= old(out)@.len(),
    ensures
        final(state).pos <= r,
        final(out)@.len() == old(out)@.len(),
        forall|x: int| 0 <= x < old(out)@.len() && !(off <= x < off + outlen) ==> #[trigger] final(out)@[x] == old(out)@[x],
        ({
            let sq = squeeze(old(state).s@, old(state).pos as int, r as int, outlen as nat);
            &&& final(out)@.subrange(off as int, off + outlen) == sq.0
            &&& final(state).s@ == sq.1
            &&& final(state).pos == sq.2
        }),
{
    let mut pos = state.pos;
    let mut idx: usize = 0;
    let len = out.len();
    assert(out@.subrange(off as int, off as int) =~= Seq::<u8>::empty());
    while idx < outlen
        invariant
            out@.len() == len,
            r == SHAKE128_RATE || r == SHAKE256_RATE,
            pos <= r,
            idx <= outlen,
            off + outlen <= out@.len(),
            out@.len() == old(out)@.len(),
            forall|x: int| 0 <= x < old(out)@.len() && !(off <= x < off + outlen) ==> #[trigger] out@[x] == old(out)@[x],
            ({
                let sq = squeeze(old(state).s@, old(state).pos as int, r as int, idx as nat);
                &&& out@.subrange(off as int, off + idx) == sq.0
                &&& state.s@ == sq.1
                &&& pos == sq.2
            }),
        decreases outlen - idx,
    {
        let ghost prev = out@.subrange(off as int, off + idx);
        if pos == r {
            keccakf1600_statepermute(&mut state.s);
            pos = 0;
        }
        out[off + idx] = (state.s[pos / 8] >> (8 * (pos % 8)) as u64) as u8;
        assert(out@.subrange(off as int, off + idx + 1) =~= prev.push(out@[off + idx]));
        idx += 1;
        pos += 1;
    }
    state.pos = pos;
}

/// Absorbs `input[..inlen]` into a SHAKE128 sponge; incremental.
pub fn shake128_absorb(state: &mut KeccakState, input: &[u8], inlen: usize)
    requires
        old(state).pos < SHAKE128_RATE,
        inlen <= input@.len(),
    ensures
        final(state).pos < SHAKE128_RATE,
        (final(state).s@, final(state).pos as int) == absorb(
            old(state).s@,
            old(state).pos as int,
            SHAKE128_RATE as int,
            input@.subrange(0, inlen as int),
        ),
{
    keccak_absorb(state, SHAKE128_RATE, input, 0, inlen);
}

/// Ends the absorbing phase of a SHAKE128 sponge.
pub fn shake128_finalize(state: &mut KeccakState)
    requires
        old(state).pos < SHAKE128_RATE,
    ensures
        final(state).pos == SHAKE128_RATE,
        final(state).s@ == pad(old(state).s@, old(state).pos as int, SHAKE128_RATE as int, 0x1F),
{
    keccak_finalize(state, SHAKE128_RATE, 0x1F);
}

/// Squeezes `outlen` bytes of a SHAKE128 sponge into `out[off..]`.
pub fn shake128_squeeze(out: &mut [u8], off: usize, outlen: usize, state: &mut KeccakState)
    requires
        old(state).pos <= SHAKE128_RATE,
        off + outlen <= old(out)@.len(),
    ensures
        final(state).pos <= SHAKE128_RATE,
        final(out)@.len() == old(out)@.len(),
        forall|x: int| 0 <= x < old(out)@.len() && !(off <= x < off + outlen) ==> #[trigger] final(out)@[x] == old(out)@[x],
        ({
            let sq = squeeze(old(state).s@, old(state).pos as int, SHAKE128_RATE as int, outlen as nat);
            &&& final(out)@.subrange(off as int, off + outlen) == sq.0
            &&& final(state).s@ == sq.1
            &&& final(state).pos == sq.2
        }),
{
    keccak_squeeze(out, off, outlen, state, SHAKE128_RATE);
}

/// Absorbs `input[..inlen]` into a SHAKE256 sponge; incremental.
pub fn shake256_absorb(state: &mut KeccakState, input: &[u8], inlen: usize)
    requires
        old(state).pos < SHAKE256_RATE,
        inlen <= input@.len(),
    ensures
        final(state).pos < SHAKE256_RATE,
        (final(state).s@, final(state).pos as int) == absorb(
            old(state).s@,
            old(state).pos as int,
            SHAKE256_RATE as int,
            input@.subrange(0, inlen as int),
        ),
{
    keccak_absorb(state, SHAKE256_RATE, input, 0, inlen);
}

/// Ends the absorbing phase of a SHAKE256 sponge.
pub fn shake256_finalize(state: &mut KeccakState)
    requires
        old(state).pos < SHAKE256_RATE,
    ensures
        final(state).pos == SHAKE256_RATE,
        final(state).s@ == pad(old(state).s@, old(state).pos as int, SHAKE256_RATE as int, 0x1F),
{
    keccak_finalize(state, SHAKE256_RATE, 0x1F);
}

/// Squeezes `outlen` bytes of a SHAKE256 sponge into `out[off..]`.
pub fn shake256_squeeze(out: &mut [u8], off: usize, outlen: usize, state: &mut KeccakState)
    requires
        old(state).pos <= SHAKE256_RATE,
        off + outlen <= old(out)@.len(),
    ensures
        final(state).pos <= SHAKE256_RATE,
        final(out)@.len() == old(out)@.len(),
        forall|x: int| 0 <= x < old(out)@.len() && !(off <= x < off + outlen) ==> #[trigger] final(out)@[x] == old(out)@[x],
        ({
            let sq = squeeze(old(state).s@, old(state).pos as int, SHAKE256_RATE as int, outlen as nat);
            &&& final(out)@.subrange(off as int, off + outlen) == sq.0
            &&& final(state).s@ == sq.1
            &&& final(state).pos == sq.2
        }),
{
    keccak_squeeze(out, off, outlen, state, SHAKE256_RATE);
}

/// SHAKE256 of `input[..inlen]`, written to `output[..outlen]`.
pub fn shake256(output: &mut [u8], outlen: usize, input: &[u8], inlen: usize)
    requires
        outlen <= old(output)@.len(),
        inlen <= input@.len(),
    ensures
        final(output)@.len() == old(output)@.len(),
        final(output)@.subrange(0, outlen as int) == shake256_spec(input@.subrange(0, inlen as int), outlen as nat),
        forall|x: int| outlen <= x < old(output)@.len() ==> #[trigger] final(output)@[x] == old(output)@[x],
{
    let mut state = KeccakState::default();
    shake256_absorb(&mut state, input, inlen);
    shake256_finalize(&mut state);
    shake256_squeeze(output, 0, outlen, &mut state);
}

} // verus!
