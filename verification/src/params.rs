use vstd::prelude::*;

verus! {

// Parameter set of the scheme (the Dilithium "mode 3" security level).

/// Length in bytes of a seed.
pub const SEEDBYTES: usize = 32;
/// Length in bytes of a collision-resistant hash output.
pub const CRHBYTES: usize = 64;
/// Degree of the ring polynomials.
pub const N: usize = 256;
/// The prime modulus.
pub const Q: usize = 8380417;
/// Number of dropped bits of the public key.
pub const D: usize = 13;
/// Rows of the public matrix.
pub const K: usize = 6;
/// Columns of the public matrix.
pub const L: usize = 5;
/// Bound of the short secret coefficients.
pub const ETA: usize = 4;
/// Number of nonzero coefficients of a challenge.
pub const TAU: usize = 49;
/// TAU * ETA.
pub const BETA: usize = 196;
/// Range of the masking coefficients.
pub const GAMMA1: usize = 524288;
/// Low-order rounding range: (Q - 1) / 32.
pub const GAMMA2: usize = 261888;
/// Maximal number of ones in a hint vector.
pub const OMEGA: usize = 55;

pub const POLYT1_PACKEDBYTES: usize = 320;
pub const POLYT0_PACKEDBYTES: usize = 416;
pub const POLYZ_PACKEDBYTES: usize = 640;
pub const POLYW1_PACKEDBYTES: usize = 128;
pub const POLYETA_PACKEDBYTES: usize = 128;

pub const Q_I32: i32 = 8380417;
pub const L_U16: u16 = 5;
pub const BETA_I32: i32 = 196;
pub const GAMMA1_I32: i32 = 524288;
pub const GAMMA2_I32: i32 = 261888;
pub const ETA_I32: i32 = 4;

} // verus!
