# nopki_dilithium

A certificateless ("no PKI") signature scheme on top of the Dilithium
lattice signature (parameter set of Dilithium-3), written in Verus.

A key generation centre derives, from a seed `rho` and a user identity,
public parameters and a partial private key; the user derives its own key
pair from them, signs and verifies.

Layout of `src/`:

- `params.rs`: the parameter set.
- `rounding.rs`: power-of-two rounding, decompositions into high and low
  parts (ranges `2 * GAMMA2` and `4 * GAMMA2`), hints; the hint law.
- `reduce.rs`: `reduce32`, `caddq`.
- `poly.rs`, `polyvec.rs`: polynomials and vectors of polynomials,
  coefficient-wise operations, norm checks, hints.
- `ring.rs`: products in `Z_Q[X]/(X^256 + 1)` (centred representatives),
  matrix-vector products.
- `algebra.rs`: laws of the ring `Z[X]/(X^256 + 1)` (commutativity and
  associativity, linearity, congruence modulo Q) and of matrix-vector
  products.
- `fips202.rs`: Keccak-f[1600] and the sponge, specified step by step;
  SHAKE128 and SHAKE256; extendable output (a shorter output is a prefix).
- `sample.rs`: rejection sampling of matrices, secrets, masks, challenges,
  each specified as a function of its SHAKE stream.
- `packing.rs`: byte layouts of packed polynomials; pack/unpack round trips.
- `nopki/kgc.rs`: key generation centre, packing of parameters and keys.
- `nopki/user_keygen.rs`: user key generation, signing, verification.
- `nopki/model.rs`: the mathematical model of the scheme: seeds, matrices,
  commitments, residuals, corrections and hints of each attempt of key
  generation and signing, and what the verifier recomputes.
- `nopki/correctness.rs`: every signature that signing gives for a key
  pair that key generation gives is accepted by verification (signing, like
  key generation, rejects an attempt whose correction exceeds `GAMMA2` in
  absolute value, so the hints always recover the high parts); the user
  recovers the error of the key generation centre.

Verification rejects short responses only, at most `OMEGA` set hints in the
key and in the signature each, and a challenge seed equal to the one it
recomputes; `verify_sign_checked` also takes malformed input (responses far
out of range, hints other than 0 and 1) and rejects it.

The partial private key is packed as `s` (4 bits per coefficient), `y` (20
bits) and the low parts `b_l` (13 bits, the range `(-2^12, 2^12]` of
power-of-two rounding); unpacking gives the three vectors back.

`app/main.rs` runs the benchmark against plain Dilithium (`pqc_dilithium`)
and a randomised check of the scaled hints.
