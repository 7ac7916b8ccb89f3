//! A certificateless signature scheme built on the Dilithium lattice
//! signature: a key generation centre issues public parameters and partial
//! private keys, from which users derive their own key pairs, sign and
//! verify.

use vstd::prelude::*;

pub mod params;
pub mod rounding;
pub mod reduce;
pub mod poly;
pub mod polyvec;
pub mod packing;
pub mod fips202;
pub mod ring;
pub mod algebra;
pub mod sample;
pub mod nopki;

use crate::params::Q_I32;
use crate::rounding::{decompose, high_bits, low_bits, ALPHA};

verus! {

/// The decomposition `decompose` of a standard representative `a`: returns
/// its high part and writes its low part (range `2 * GAMMA2`).
pub fn decompose_test(a0: &mut i32, a: i32) -> (a1: i32)
    requires
        0 <= a < Q_I32,
    ensures
        a1 == high_bits(a as int, ALPHA as int),
        *final(a0) == low_bits(a as int, ALPHA as int),
{
    decompose(a0, a)
}

} // verus!
