use vstd::prelude::*;
use crate::params::{
    ETA_I32, GAMMA1_I32, K, N, POLYETA_PACKEDBYTES, POLYT0_PACKEDBYTES, POLYT1_PACKEDBYTES,
    POLYW1_PACKEDBYTES, POLYZ_PACKEDBYTES,
};
use crate::poly::{poly_in_range, Poly};
use crate::polyvec::Polyveck;

verus! {

// ---------------------------------------------------------------------------
// Byte layouts of the packed polynomials.
// ---------------------------------------------------------------------------

/// Byte `j` (of 5) of group `g` (of 64) of the 10-bit packing of `a`.
pub open spec fn t1_byte(a: Poly, g: int, j: int) -> u8 {
    let c0 = a.coeffs[4 * g];
    let c1 = a.coeffs[4 * g + 1];
    let c2 = a.coeffs[4 * g + 2];
    let c3 = a.coeffs[4 * g + 3];
    if j == 0 {
        (c0 >> 0i32) as u8
    } else if j == 1 {
        ((c0 >> 8i32) | (c1 << 2i32)) as u8
    } else if j == 2 {
        ((c1 >> 6i32) | (c2 << 4i32)) as u8
    } else if j == 3 {
        ((c2 >> 4i32) | (c3 << 6i32)) as u8
    } else {
        (c3 >> 2i32) as u8
    }
}

/// Coefficient `i` decoded from the 10-bit packing starting at byte `off`.
pub open spec fn t1_coeff(bytes: Seq<u8>, off: int, i: int) -> int {
    let g = i / 4;
    let b0 = bytes[off + 5 * g] as int;
    let b1 = bytes[off + 5 * g + 1] as int;
    let b2 = bytes[off + 5 * g + 2] as int;
    let b3 = bytes[off + 5 * g + 3] as int;
    let b4 = bytes[off + 5 * g + 4] as int;
    if i % 4 == 0 {
        b0 + (b1 % 4) * 256
    } else if i % 4 == 1 {
        b1 / 4 + (b2 % 16) * 64
    } else if i % 4 == 2 {
        b2 / 16 + (b3 % 64) * 16
    } else {
        b3 / 64 + b4 * 4
    }
}

/// Byte `g` (of 128) of the 4-bit packing of `a` with coefficients stored
/// as `ETA - c`.
pub open spec fn eta_byte(a: Poly, g: int) -> u8 {
    let t0 = (ETA_I32 - a.coeffs[2 * g]) as u8;
    let t1 = (ETA_I32 - a.coeffs[2 * g + 1]) as u8;
    t0 | ((t1 << 4u8) as u8)
}

/// Coefficient `i` decoded from the 4-bit packing starting at byte `off`.
pub open spec fn eta_coeff(bytes: Seq<u8>, off: int, i: int) -> int {
    let b = bytes[off + i / 2] as int;
    if i % 2 == 0 {
        ETA_I32 - b % 16
    } else {
        ETA_I32 - b / 16
    }
}

/// Byte `j` (of 5) of group `g` (of 128) of the 20-bit packing of `a` with
/// coefficients stored as `GAMMA1 - c`.
pub open spec fn z_byte(a: Poly, g: int, j: int) -> u8 {
    let t0 = (GAMMA1_I32 - a.coeffs[2 * g]) as i32;
    let t1 = (GAMMA1_I32 - a.coeffs[2 * g + 1]) as i32;
    if j == 0 {
        t0 as u8
    } else if j == 1 {
        (t0 >> 8i32) as u8
    } else if j == 2 {
        ((t0 >> 16i32) as u8) | ((t1 << 4i32) as u8)
    } else if j == 3 {
        (t1 >> 4i32) as u8
    } else {
        (t1 >> 12i32) as u8
    }
}

/// Coefficient `i` decoded from the 20-bit packing starting at byte `off`.
pub open spec fn z_coeff(bytes: Seq<u8>, off: int, i: int) -> int {
    let g = i / 2;
    let b0 = bytes[off + 5 * g] as int;
    let b1 = bytes[off + 5 * g + 1] as int;
    let b2 = bytes[off + 5 * g + 2] as int;
    let b3 = bytes[off + 5 * g + 3] as int;
    let b4 = bytes[off + 5 * g + 4] as int;
    if i % 2 == 0 {
        GAMMA1_I32 - (b0 + b1 * 256 + (b2 % 16) * 65536)
    } else {
        GAMMA1_I32 - (b2 / 16 + b3 * 16 + b4 * 4096)
    }
}

/// Byte `j` (of 13) of group `g` (of 32) of the 13-bit packing of `a` with
/// coefficients stored as `2^(D-1) - c`.
pub open spec fn t0_byte(a: Poly, g: int, j: int) -> u8 {
    let t0 = (4096 - a.coeffs[8 * g]) as i32;
    let t1 = (4096 - a.coeffs[8 * g + 1]) as i32;
    let t2 = (4096 - a.coeffs[8 * g + 2]) as i32;
    let t3 = (4096 - a.coeffs[8 * g + 3]) as i32;
    let t4 = (4096 - a.coeffs[8 * g + 4]) as i32;
    let t5 = (4096 - a.coeffs[8 * g + 5]) as i32;
    let t6 = (4096 - a.coeffs[8 * g + 6]) as i32;
    let t7 = (4096 - a.coeffs[8 * g + 7]) as i32;
    if j == 0 {
        t0 as u8
    } else if j == 1 {
        ((t0 >> 8i32) | (t1 << 5i32)) as u8
    } else if j == 2 {
        (t1 >> 3i32) as u8
    } else if j == 3 {
        ((t1 >> 11i32) | (t2 << 2i32)) as u8
    } else if j == 4 {
        ((t2 >> 6i32) | (t3 << 7i32)) as u8
    } else if j == 5 {
        (t3 >> 1i32) as u8
    } else if j == 6 {
        ((t3 >> 9i32) | (t4 << 4i32)) as u8
    } else if j == 7 {
        (t4 >> 4i32) as u8
    } else if j == 8 {
        ((t4 >> 12i32) | (t5 << 1i32)) as u8
    } else if j == 9 {
        ((t5 >> 7i32) | (t6 << 6i32)) as u8
    } else if j == 10 {
        (t6 >> 2i32) as u8
    } else if j == 11 {
        ((t6 >> 10i32) | (t7 << 3i32)) as u8
    } else {
        (t7 >> 5i32) as u8
    }
}

/// The 13-bit value `m` (of 8) of the group of thirteen bytes
/// `b0, ..., b12`, bits taken from the lowest of `b0` upwards.
pub open spec fn t0_field(b: Seq<int>, m: int) -> int {
    if m == 0 {
        b[0] + (b[1] % 32) * 256
    } else if m == 1 {
        b[1] / 32 + b[2] * 8 + (b[3] % 4) * 2048
    } else if m == 2 {
        b[3] / 4 + (b[4] % 128) * 64
    } else if m == 3 {
        b[4] / 128 + b[5] * 2 + (b[6] % 16) * 512
    } else if m == 4 {
        b[6] / 16 + b[7] * 16 + (b[8] % 2) * 4096
    } else if m == 5 {
        b[8] / 2 + (b[9] % 64) * 128
    } else if m == 6 {
        b[9] / 64 + b[10] * 4 + (b[11] % 8) * 1024
    } else {
        b[11] / 8 + b[12] * 32
    }
}

/// The thirteen bytes of group `g` of the packing starting at byte `off`.
pub open spec fn t0_group(bytes: Seq<u8>, off: int, g: int) -> Seq<int> {
    Seq::new(13, |j: int| bytes[off + 13 * g + j] as int)
}

/// Coefficient `i` decoded from the 13-bit `2^(D-1) - c` packing starting
/// at byte `off`.
pub open spec fn t0_coeff(bytes: Seq<u8>, off: int, i: int) -> int {
    4096 - t0_field(t0_group(bytes, off, i / 8), i % 8)
}

/// Byte `g` (of 128) of the 4-bit packing of the high parts `a`.
pub open spec fn w1_byte(a: Poly, g: int) -> u8 {
    (a.coeffs[2 * g] | (a.coeffs[2 * g + 1] << 4i32)) as u8
}

/// The bytes `[off, off + len)` of `b` are unchanged from `a` outside.
pub open spec fn same_outside(a: Seq<u8>, b: Seq<u8>, off: int, len: int) -> bool {
    &&& a.len() == b.len()
    &&& forall|x: int| 0 <= x < a.len() && !(off <= x < off + len) ==> #[trigger] b[x] == a[x]
}

/// Packs the 10-bit coefficients of `a` into `r[off..off + POLYT1_PACKEDBYTES]`.
pub fn polyt1_pack(r: &mut [u8], off: usize, a: &Poly)
    requires
        off + POLYT1_PACKEDBYTES <= old(r)@.len(),
    ensures
        forall|g: int, j: int| 0 <= g < N / 4 && 0 <= j < 5 ==> #[trigger] final(r)@[off + 5 * g + j] == t1_byte(*a, g, j),
        same_outside(old(r)@, final(r)@, off as int, POLYT1_PACKEDBYTES as int),
{
    let len = r.len();
    for i in 0..N / 4
        invariant
            off + POLYT1_PACKEDBYTES <= r@.len(),
            r@.len() == len,
            forall|g: int, j: int| 0 <= g < i && 0 <= j < 5 ==> #[trigger] r@[off + 5 * g + j] == t1_byte(*a, g, j),
            same_outside(old(r)@, r@, off as int, POLYT1_PACKEDBYTES as int),
    {
        let c0 = a.coeffs[4 * i];
        let c1 = a.coeffs[4 * i + 1];
        let c2 = a.coeffs[4 * i + 2];
        let c3 = a.coeffs[4 * i + 3];
        r[off + 5 * i] = (c0 >> 0) as u8;
        r[off + 5 * i + 1] = ((c0 >> 8) | (c1 << 2)) as u8;
        r[off + 5 * i + 2] = ((c1 >> 6) | (c2 << 4)) as u8;
        r[off + 5 * i + 3] = ((c2 >> 4) | (c3 << 6)) as u8;
        r[off + 5 * i + 4] = (c3 >> 2) as u8;
        assert forall|j: int| 0 <= j < 5 implies #[trigger] r@[off + 5 * i + j] == t1_byte(*a, i as int, j) by {}
    }
}

/// Packs `ETA - c` for every coefficient `c` of `a`, 4 bits each, into
/// `r[off..off + POLYETA_PACKEDBYTES]`.
pub fn polyeta_pack(r: &mut [u8], off: usize, a: &Poly)
    requires
        off + POLYETA_PACKEDBYTES <= old(r)@.len(),
        poly_in_range(*a, ETA_I32 - i32::MAX, i32::MAX as int),
    ensures
        forall|g: int| 0 <= g < N / 2 ==> #[trigger] final(r)@[off + g] == eta_byte(*a, g),
        same_outside(old(r)@, final(r)@, off as int, POLYETA_PACKEDBYTES as int),
{
    let len = r.len();
    for i in 0..N / 2
        invariant
            off + POLYETA_PACKEDBYTES <= r@.len(),
            r@.len() == len,
            poly_in_range(*a, ETA_I32 - i32::MAX, i32::MAX as int),
            forall|g: int| 0 <= g < i ==> #[trigger] r@[off + g] == eta_byte(*a, g),
            same_outside(old(r)@, r@, off as int, POLYETA_PACKEDBYTES as int),
    {
        let t0 = (ETA_I32 - a.coeffs[2 * i]) as u8;
        let t1 = (ETA_I32 - a.coeffs[2 * i + 1]) as u8;
        r[off + i] = t0 | (t1 << 4);
    }
}

/// Packs `GAMMA1 - c` for every coefficient `c` of `a`, 20 bits each, into
/// `r[off..off + POLYZ_PACKEDBYTES]`.
pub fn polyz_pack(r: &mut [u8], off: usize, a: &Poly)
    requires
        off + POLYZ_PACKEDBYTES <= old(r)@.len(),
        poly_in_range(*a, GAMMA1_I32 - i32::MAX, i32::MAX as int),
    ensures
        forall|g: int, j: int| 0 <= g < N / 2 && 0 <= j < 5 ==> #[trigger] final(r)@[off + 5 * g + j] == z_byte(*a, g, j),
        same_outside(old(r)@, final(r)@, off as int, POLYZ_PACKEDBYTES as int),
{
    let len = r.len();
    for i in 0..N / 2
        invariant
            off + POLYZ_PACKEDBYTES <= r@.len(),
            r@.len() == len,
            poly_in_range(*a, GAMMA1_I32 - i32::MAX, i32::MAX as int),
            forall|g: int, j: int| 0 <= g < i && 0 <= j < 5 ==> #[trigger] r@[off + 5 * g + j] == z_byte(*a, g, j),
            same_outside(old(r)@, r@, off as int, POLYZ_PACKEDBYTES as int),
    {
        let t0 = GAMMA1_I32 - a.coeffs[2 * i];
        let t1 = GAMMA1_I32 - a.coeffs[2 * i + 1];
        r[off + 5 * i] = t0 as u8;
        r[off + 5 * i + 1] = (t0 >> 8) as u8;
        r[off + 5 * i + 2] = (t0 >> 16) as u8;
        r[off + 5 * i + 2] = r[off + 5 * i + 2] | (t1 << 4) as u8;
        r[off + 5 * i + 3] = (t1 >> 4) as u8;
        r[off + 5 * i + 4] = (t1 >> 12) as u8;
        assert forall|j: int| 0 <= j < 5 implies #[trigger] r@[off + 5 * i + j] == z_byte(*a, i as int, j) by {}
    }
}

/// Writes the thirteen bytes of group `i` of the 13-bit packing of `a` to
/// `r[o..o + 13]`.
fn polyt0_pack_group(r: &mut [u8], o: usize, a: &Poly, i: usize)
    requires
        o + 13 <= old(r)@.len(),
        i < N / 8,
        poly_in_range(*a, 4096 - i32::MAX, i32::MAX as int),
    ensures
        forall|j: int| 0 <= j < 13 ==> #[trigger] final(r)@[o + j] == t0_byte(*a, i as int, j),
        same_outside(old(r)@, final(r)@, o as int, 13),
{
    let t0 = 4096 - a.coeffs[8 * i];
    let t1 = 4096 - a.coeffs[8 * i + 1];
    let t2 = 4096 - a.coeffs[8 * i + 2];
    let t3 = 4096 - a.coeffs[8 * i + 3];
    let t4 = 4096 - a.coeffs[8 * i + 4];
    let t5 = 4096 - a.coeffs[8 * i + 5];
    let t6 = 4096 - a.coeffs[8 * i + 6];
    let t7 = 4096 - a.coeffs[8 * i + 7];
    let x0: u8 = t0 as u8;
    let x1: u8 = ((t0 >> 8) | (t1 << 5)) as u8;
    let x2: u8 = (t1 >> 3) as u8;
    let x3: u8 = ((t1 >> 11) | (t2 << 2)) as u8;
    let x4: u8 = ((t2 >> 6) | (t3 << 7)) as u8;
    let x5: u8 = (t3 >> 1) as u8;
    let x6: u8 = ((t3 >> 9) | (t4 << 4)) as u8;
    let x7: u8 = (t4 >> 4) as u8;
    let x8: u8 = ((t4 >> 12) | (t5 << 1)) as u8;
    let x9: u8 = ((t5 >> 7) | (t6 << 6)) as u8;
    let x10: u8 = (t6 >> 2) as u8;
    let x11: u8 = ((t6 >> 10) | (t7 << 3)) as u8;
    let x12: u8 = (t7 >> 5) as u8;
    r[o + 0] = x0;
    r[o + 1] = x1;
    r[o + 2] = x2;
    r[o + 3] = x3;
    r[o + 4] = x4;
    r[o + 5] = x5;
    r[o + 6] = x6;
    r[o + 7] = x7;
    r[o + 8] = x8;
    r[o + 9] = x9;
    r[o + 10] = x10;
    r[o + 11] = x11;
    r[o + 12] = x12;
    assert forall|j: int| 0 <= j < 13 implies #[trigger] final(r)@[o + j] == t0_byte(*a, i as int, j) by {
        if j == 0 { assert(r@[o + 0] == x0); }
        else if j == 1 { assert(r@[o + 1] == x1); }
        else if j == 2 { assert(r@[o + 2] == x2); }
        else if j == 3 { assert(r@[o + 3] == x3); }
        else if j == 4 { assert(r@[o + 4] == x4); }
        else if j == 5 { assert(r@[o + 5] == x5); }
        else if j == 6 { assert(r@[o + 6] == x6); }
        else if j == 7 { assert(r@[o + 7] == x7); }
        else if j == 8 { assert(r@[o + 8] == x8); }
        else if j == 9 { assert(r@[o + 9] == x9); }
        else if j == 10 { assert(r@[o + 10] == x10); }
        else if j == 11 { assert(r@[o + 11] == x11); }
        else if j == 12 { assert(r@[o + 12] == x12); }
    }
}

/// Packs `2^(D-1) - c` for every coefficient `c` of `a`, 13 bits each, into
/// `r[off..off + POLYT0_PACKEDBYTES]`.
pub fn polyt0_pack(r: &mut [u8], off: usize, a: &Poly)
    requires
        off + POLYT0_PACKEDBYTES <= old(r)@.len(),
        poly_in_range(*a, 4096 - i32::MAX, i32::MAX as int),
    ensures
        forall|g: int, j: int| 0 <= g < N / 8 && 0 <= j < 13 ==> #[trigger] final(r)@[off + 13 * g + j] == t0_byte(*a, g, j),
        same_outside(old(r)@, final(r)@, off as int, POLYT0_PACKEDBYTES as int),
{
    let len = r.len();
    for i in 0..N / 8
        invariant
            off + POLYT0_PACKEDBYTES <= r@.len(),
            r@.len() == len,
            poly_in_range(*a, 4096 - i32::MAX, i32::MAX as int),
            forall|g: int, j: int| 0 <= g < i && 0 <= j < 13 ==> #[trigger] r@[off + 13 * g + j] == t0_byte(*a, g, j),
            same_outside(old(r)@, r@, off as int, POLYT0_PACKEDBYTES as int),
    {
        let ghost before = r@;
        polyt0_pack_group(r, off + 13 * i, a, i);
        assert forall|g: int, j: int| 0 <= g < i + 1 && 0 <= j < 13 implies #[trigger] r@[off + 13 * g + j] == t0_byte(*a, g, j) by {
            if g < i {
                assert(before[off + 13 * g + j] == t0_byte(*a, g, j));
            } else {
                assert(r@[(off + 13 * i) + j] == t0_byte(*a, i as int, j));
            }
        }
    }
}

/// Packs the 4-bit high parts of `a` into `r[off..off + POLYW1_PACKEDBYTES]`.
pub fn polyw1_pack(r: &mut [u8], off: usize, a: &Poly)
    requires
        off + POLYW1_PACKEDBYTES <= old(r)@.len(),
    ensures
        forall|g: int| 0 <= g < N / 2 ==> #[trigger] final(r)@[off + g] == w1_byte(*a, g),
        same_outside(old(r)@, final(r)@, off as int, POLYW1_PACKEDBYTES as int),
{
    let len = r.len();
    for i in 0..N / 2
        invariant
            off + POLYW1_PACKEDBYTES <= r@.len(),
            r@.len() == len,
            forall|g: int| 0 <= g < i ==> #[trigger] r@[off + g] == w1_byte(*a, g),
            same_outside(old(r)@, r@, off as int, POLYW1_PACKEDBYTES as int),
    {
        r[off + i] = (a.coeffs[2 * i] | (a.coeffs[2 * i + 1] << 4)) as u8;
    }
}

/// Packs the 4-bit high parts of the polynomials of `v` into
/// `r[..K * POLYW1_PACKEDBYTES]`.
pub fn polyveck_pack_w1(r: &mut [u8], v: &Polyveck)
    requires
        K * POLYW1_PACKEDBYTES <= old(r)@.len(),
    ensures
        forall|k: int, g: int| 0 <= k < K && 0 <= g < N / 2 ==>
            #[trigger] final(r)@[POLYW1_PACKEDBYTES * k + g] == w1_byte(v.vec[k], g),
        same_outside(old(r)@, final(r)@, 0, K * POLYW1_PACKEDBYTES),
{
    let len = r.len();
    for i in 0..K
        invariant
            r@.len() == len,
            K * POLYW1_PACKEDBYTES <= len,
            forall|k: int, g: int| 0 <= k < i && 0 <= g < N / 2 ==>
                #[trigger] r@[POLYW1_PACKEDBYTES * k + g] == w1_byte(v.vec[k], g),
            same_outside(old(r)@, r@, 0, K * POLYW1_PACKEDBYTES),
    {
        let ghost before = r@;
        polyw1_pack(r, i * POLYW1_PACKEDBYTES, &v.vec[i]);
        assert forall|k: int, g: int| 0 <= k < i + 1 && 0 <= g < N / 2 implies
            #[trigger] r@[POLYW1_PACKEDBYTES * k + g] == w1_byte(v.vec[k], g) by {
            if k < i {
                assert(before[POLYW1_PACKEDBYTES * k + g] == w1_byte(v.vec[k], g));
            }
        }
    }
}

/// Unpacks the 10-bit coefficients stored in `a[off..off + POLYT1_PACKEDBYTES]`.
pub fn polyt1_unpack(r: &mut Poly, a: &[u8], off: usize)
    requires
        off + POLYT1_PACKEDBYTES <= a@.len(),
    ensures
        forall|i: int| 0 <= i < N ==> #[trigger] final(r).coeffs[i] == t1_coeff(a@, off as int, i),
{
    let len = a.len();
    for i in 0..N / 4
        invariant
            off + POLYT1_PACKEDBYTES <= a@.len(),
            a@.len() == len,
            forall|j: int| 0 <= j < 4 * i ==> #[trigger] r.coeffs[j] == t1_coeff(a@, off as int, j),
    {
        let b0 = a[off + 5 * i];
        let b1 = a[off + 5 * i + 1];
        let b2 = a[off + 5 * i + 2];
        let b3 = a[off + 5 * i + 3];
        let b4 = a[off + 5 * i + 4];
        assert(((b0 >> 0u8) as u32 | ((b1 as u32) << 8u32)) & 0x3FFu32 == (b0 as u32) + ((b1 as u32) % 4) * 256) by (bit_vector);
        assert(((b1 >> 2u8) as u32 | ((b2 as u32) << 6u32)) & 0x3FFu32 == (b1 as u32) / 4 + ((b2 as u32) % 16) * 64) by (bit_vector);
        assert(((b2 >> 4u8) as u32 | ((b3 as u32) << 4u32)) & 0x3FFu32 == (b2 as u32) / 16 + ((b3 as u32) % 64) * 16) by (bit_vector);
        assert(((b3 >> 6u8) as u32 | ((b4 as u32) << 2u32)) & 0x3FFu32 == (b3 as u32) / 64 + (b4 as u32) * 4) by (bit_vector);
        r.coeffs[4 * i] = (((b0 >> 0) as u32 | (b1 as u32) << 8) & 0x3FF) as i32;
        r.coeffs[4 * i + 1] = (((b1 >> 2) as u32 | (b2 as u32) << 6) & 0x3FF) as i32;
        r.coeffs[4 * i + 2] = (((b2 >> 4) as u32 | (b3 as u32) << 4) & 0x3FF) as i32;
        r.coeffs[4 * i + 3] = (((b3 >> 6) as u32 | (b4 as u32) << 2) & 0x3FF) as i32;
    }
}

/// Unpacks the coefficients `ETA - t` for the 4-bit values `t` stored in
/// `a[off..off + POLYETA_PACKEDBYTES]`.
pub fn polyeta_unpack(r: &mut Poly, a: &[u8], off: usize)
    requires
        off + POLYETA_PACKEDBYTES <= a@.len(),
    ensures
        forall|i: int| 0 <= i < N ==> #[trigger] final(r).coeffs[i] == eta_coeff(a@, off as int, i),
        poly_in_range(*final(r), ETA_I32 - 15, ETA_I32 as int),
{
    let len = a.len();
    for i in 0..N / 2
        invariant
            off + POLYETA_PACKEDBYTES <= a@.len(),
            a@.len() == len,
            forall|j: int| 0 <= j < 2 * i ==> #[trigger] r.coeffs[j] == eta_coeff(a@, off as int, j),
            forall|j: int| 0 <= j < 2 * i ==> ETA_I32 - 15 <= #[trigger] r.coeffs[j] <= ETA_I32,
    {
        let b = a[off + i];
        assert((b & 0x0Fu8) == b % 16 && (b >> 4u8) == b / 16) by (bit_vector);
        r.coeffs[2 * i] = (b & 0x0F) as i32;
        r.coeffs[2 * i + 1] = (b >> 4) as i32;
        r.coeffs[2 * i] = ETA_I32 - r.coeffs[2 * i];
        r.coeffs[2 * i + 1] = ETA_I32 - r.coeffs[2 * i + 1];
    }
}

/// Unpacks the coefficients `2^(D-1) - t` for the 13-bit values `t` stored
/// in `a[off..off + POLYT0_PACKEDBYTES]`.
pub fn polyt0_unpack(r: &mut Poly, a: &[u8], off: usize)
    requires
        off + POLYT0_PACKEDBYTES <= a@.len(),
    ensures
        forall|i: int| 0 <= i < N ==> #[trigger] final(r).coeffs[i] == t0_coeff(a@, off as int, i),
        poly_in_range(*final(r), -4095, 4096),
{
    let len = a.len();
    for i in 0..N / 8
        invariant
            off + POLYT0_PACKEDBYTES <= a@.len(),
            a@.len() == len,
            forall|j: int| 0 <= j < 8 * i ==> #[trigger] r.coeffs[j] == t0_coeff(a@, off as int, j),
            forall|j: int| 0 <= j < 8 * i ==> -4095 <= #[trigger] r.coeffs[j] <= 4096,
    {
        let o = off + 13 * i;
        let b0 = a[o] as i32;
        let b1 = a[o + 1] as i32;
        let b2 = a[o + 2] as i32;
        let b3 = a[o + 3] as i32;
        let b4 = a[o + 4] as i32;
        let b5 = a[o + 5] as i32;
        let b6 = a[o + 6] as i32;
        let b7 = a[o + 7] as i32;
        let b8 = a[o + 8] as i32;
        let b9 = a[o + 9] as i32;
        let b10 = a[o + 10] as i32;
        let b11 = a[o + 11] as i32;
        let b12 = a[o + 12] as i32;
        assert(0 <= b0 < 256 && 0 <= b1 < 256 && 0 <= b2 < 256 && 0 <= b3 < 256 && 0 <= b4 < 256
            && 0 <= b5 < 256 && 0 <= b6 < 256 ==>
            (b0 | (b1 << 8i32)) & 0x1FFFi32 == b0 + (b1 % 32) * 256
            && ((b1 >> 5i32) | (b2 << 3i32) | (b3 << 11i32)) & 0x1FFFi32 == b1 / 32 + b2 * 8 + (b3 % 4) * 2048
            && ((b3 >> 2i32) | (b4 << 6i32)) & 0x1FFFi32 == b3 / 4 + (b4 % 128) * 64
            && ((b4 >> 7i32) | (b5 << 1i32) | (b6 << 9i32)) & 0x1FFFi32 == b4 / 128 + b5 * 2 + (b6 % 16) * 512) by (bit_vector);
        assert(0 <= b6 < 256 && 0 <= b7 < 256 && 0 <= b8 < 256 && 0 <= b9 < 256 && 0 <= b10 < 256
            && 0 <= b11 < 256 && 0 <= b12 < 256 ==>
            ((b6 >> 4i32) | (b7 << 4i32) | (b8 << 12i32)) & 0x1FFFi32 == b6 / 16 + b7 * 16 + (b8 % 2) * 4096
            && ((b8 >> 1i32) | (b9 << 7i32)) & 0x1FFFi32 == b8 / 2 + (b9 % 64) * 128
            && ((b9 >> 6i32) | (b10 << 2i32) | (b11 << 10i32)) & 0x1FFFi32 == b9 / 64 + b10 * 4 + (b11 % 8) * 1024
            && ((b11 >> 3i32) | (b12 << 5i32)) & 0x1FFFi32 == b11 / 8 + b12 * 32) by (bit_vector);
        let c0 = (b0 | (b1 << 8)) & 0x1FFF;
        let c1 = ((b1 >> 5) | (b2 << 3) | (b3 << 11)) & 0x1FFF;
        let c2 = ((b3 >> 2) | (b4 << 6)) & 0x1FFF;
        let c3 = ((b4 >> 7) | (b5 << 1) | (b6 << 9)) & 0x1FFF;
        let c4 = ((b6 >> 4) | (b7 << 4) | (b8 << 12)) & 0x1FFF;
        let c5 = ((b8 >> 1) | (b9 << 7)) & 0x1FFF;
        let c6 = ((b9 >> 6) | (b10 << 2) | (b11 << 10)) & 0x1FFF;
        let c7 = ((b11 >> 3) | (b12 << 5)) & 0x1FFF;
        r.coeffs[8 * i] = 4096 - c0;
        r.coeffs[8 * i + 1] = 4096 - c1;
        r.coeffs[8 * i + 2] = 4096 - c2;
        r.coeffs[8 * i + 3] = 4096 - c3;
        r.coeffs[8 * i + 4] = 4096 - c4;
        r.coeffs[8 * i + 5] = 4096 - c5;
        r.coeffs[8 * i + 6] = 4096 - c6;
        r.coeffs[8 * i + 7] = 4096 - c7;
        assert forall|m: int| 0 <= m < 8 implies #[trigger] r.coeffs[8 * i + m] == t0_coeff(a@, off as int, 8 * i + m) by {
            assert((8 * i + m) / 8 == i && (8 * i + m) % 8 == m);
            let grp = t0_group(a@, off as int, i as int);
            assert(grp[0] == b0 && grp[1] == b1 && grp[2] == b2 && grp[3] == b3 && grp[4] == b4);
            assert(grp[5] == b5 && grp[6] == b6 && grp[7] == b7 && grp[8] == b8 && grp[9] == b9);
            assert(grp[10] == b10 && grp[11] == b11 && grp[12] == b12);
        }
    }
}

/// Unpacks the coefficients `GAMMA1 - t` for the 20-bit values `t` stored
/// in `a[off..off + POLYZ_PACKEDBYTES]`.
pub fn polyz_unpack(r: &mut Poly, a: &[u8], off: usize)
    requires
        off + POLYZ_PACKEDBYTES <= a@.len(),
    ensures
        forall|i: int| 0 <= i < N ==> #[trigger] final(r).coeffs[i] == z_coeff(a@, off as int, i),
        poly_in_range(*final(r), GAMMA1_I32 - 1048575, GAMMA1_I32 as int),
{
    let len = a.len();
    for i in 0..N / 2
        invariant
            off + POLYZ_PACKEDBYTES <= a@.len(),
            a@.len() == len,
            forall|j: int| 0 <= j < 2 * i ==> #[trigger] r.coeffs[j] == z_coeff(a@, off as int, j),
            forall|j: int| 0 <= j < 2 * i ==> GAMMA1_I32 - 1048575 <= #[trigger] r.coeffs[j] <= GAMMA1_I32,
    {
        let b0 = a[off + 5 * i];
        let b1 = a[off + 5 * i + 1];
        let b2 = a[off + 5 * i + 2];
        let b3 = a[off + 5 * i + 3];
        let b4 = a[off + 5 * i + 4];
        assert(((((b0 as i32) | ((b1 as i32) << 8i32)) | ((b2 as i32) << 16i32)) & 0xFFFFFi32) & 0xFFFFFi32
            == (b0 as i32) + (b1 as i32) * 256 + ((b2 as i32) % 16) * 65536) by (bit_vector);
        assert((((b2 as i32) >> 4i32) | ((b3 as i32) << 4i32)) | ((b4 as i32) << 12i32)
            == (b2 as i32) / 16 + (b3 as i32) * 16 + (b4 as i32) * 4096) by (bit_vector);
        let mut c0 = b0 as i32;
        c0 = c0 | (b1 as i32) << 8;
        c0 = c0 | (b2 as i32) << 16;
        c0 = c0 & 0xFFFFF;
        let mut c1 = (b2 as i32) >> 4;
        c1 = c1 | (b3 as i32) << 4;
        c1 = c1 | (b4 as i32) << 12;
        c0 = c0 & 0xFFFFF;
        r.coeffs[2 * i] = GAMMA1_I32 - c0;
        r.coeffs[2 * i + 1] = GAMMA1_I32 - c1;
    }
}

proof fn lemma_t1_group(c0: i32, c1: i32, c2: i32, c3: i32)
    requires
        0 <= c0 < 1024,
        0 <= c1 < 1024,
        0 <= c2 < 1024,
        0 <= c3 < 1024,
    ensures
        ((c0 >> 0i32) as u8) as int + ((((c0 >> 8i32) | (c1 << 2i32)) as u8) as int % 4) * 256 == c0,
        (((c0 >> 8i32) | (c1 << 2i32)) as u8) as int / 4 + ((((c1 >> 6i32) | (c2 << 4i32)) as u8) as int % 16) * 64 == c1,
        (((c1 >> 6i32) | (c2 << 4i32)) as u8) as int / 16 + ((((c2 >> 4i32) | (c3 << 6i32)) as u8) as int % 64) * 16 == c2,
        (((c2 >> 4i32) | (c3 << 6i32)) as u8) as int / 64 + ((c3 >> 2i32) as u8) as int * 4 == c3,
{
    assert(0 <= c0 < 1024 && 0 <= c1 < 1024 ==> ((c0 >> 0i32) as u8) as u32 + ((((c0 >> 8i32) | (c1 << 2i32)) as u8) as u32 % 4) * 256 == c0 as u32) by (bit_vector);
    assert(0 <= c0 < 1024 && 0 <= c1 < 1024 && 0 <= c2 < 1024 ==> (((c0 >> 8i32) | (c1 << 2i32)) as u8) as u32 / 4 + ((((c1 >> 6i32) | (c2 << 4i32)) as u8) as u32 % 16) * 64 == c1 as u32) by (bit_vector);
    assert(0 <= c1 < 1024 && 0 <= c2 < 1024 && 0 <= c3 < 1024 ==> (((c1 >> 6i32) | (c2 << 4i32)) as u8) as u32 / 16 + ((((c2 >> 4i32) | (c3 << 6i32)) as u8) as u32 % 64) * 16 == c2 as u32) by (bit_vector);
    assert(0 <= c2 < 1024 && 0 <= c3 < 1024 ==> (((c2 >> 4i32) | (c3 << 6i32)) as u8) as u32 / 64 + ((c3 >> 2i32) as u8) as u32 * 4 == c3 as u32) by (bit_vector);
}

/// Unpacking a 10-bit packing gives back the packed polynomial when its
/// coefficients are in `[0, 1023]`.
pub proof fn lemma_t1_roundtrip(a: Poly, bytes: Seq<u8>, off: int)
    requires
        poly_in_range(a, 0, 1023),
        0 <= off,
        off + POLYT1_PACKEDBYTES <= bytes.len(),
        forall|g: int, j: int| 0 <= g < N / 4 && 0 <= j < 5 ==> #[trigger] bytes[off + 5 * g + j] == t1_byte(a, g, j),
    ensures
        forall|i: int| 0 <= i < N ==> #[trigger] t1_coeff(bytes, off, i) == a.coeffs[i],
{
    assert forall|i: int| 0 <= i < N implies #[trigger] t1_coeff(bytes, off, i) == a.coeffs[i] by {
        let g = i / 4;
        assert(bytes[off + 5 * g + 0] == t1_byte(a, g, 0));
        assert(bytes[off + 5 * g + 1] == t1_byte(a, g, 1));
        assert(bytes[off + 5 * g + 2] == t1_byte(a, g, 2));
        assert(bytes[off + 5 * g + 3] == t1_byte(a, g, 3));
        assert(bytes[off + 5 * g + 4] == t1_byte(a, g, 4));
        assert(0 <= a.coeffs[4 * g] <= 1023);
        assert(0 <= a.coeffs[4 * g + 1] <= 1023);
        assert(0 <= a.coeffs[4 * g + 2] <= 1023);
        assert(0 <= a.coeffs[4 * g + 3] <= 1023);
        lemma_t1_group(a.coeffs[4 * g], a.coeffs[4 * g + 1], a.coeffs[4 * g + 2], a.coeffs[4 * g + 3]);
    }
}

proof fn lemma_eta_pair(c0: i32, c1: i32)
    requires
        -11 <= c0 <= 4,
        -11 <= c1 <= 4,
    ensures
        ({
            let b = (((4 - c0) as i32) as u8) | (((((4 - c1) as i32) as u8) << 4u8) as u8);
            &&& 4 - (b as int) % 16 == c0
            &&& 4 - (b as int) / 16 == c1
        }),
{
    assert(-11 <= c0 <= 4 && -11 <= c1 <= 4 ==> 4i32 - ((((((4i32 - c0) as i32) as u8) | (((((4i32 - c1) as i32) as u8) << 4u8) as u8)) % 16) as i32) == c0) by (bit_vector);
    assert(-11 <= c0 <= 4 && -11 <= c1 <= 4 ==> 4i32 - ((((((4i32 - c0) as i32) as u8) | (((((4i32 - c1) as i32) as u8) << 4u8) as u8)) / 16) as i32) == c1) by (bit_vector);
}

/// Unpacking a 4-bit `ETA - c` packing gives back the packed polynomial when
/// its coefficients are in `[ETA - 15, ETA]`.
pub proof fn lemma_eta_roundtrip(a: Poly, bytes: Seq<u8>, off: int)
    requires
        poly_in_range(a, ETA_I32 - 15, ETA_I32 as int),
        0 <= off,
        off + POLYETA_PACKEDBYTES <= bytes.len(),
        forall|g: int| 0 <= g < N / 2 ==> #[trigger] bytes[off + g] == eta_byte(a, g),
    ensures
        forall|i: int| 0 <= i < N ==> #[trigger] eta_coeff(bytes, off, i) == a.coeffs[i],
{
    assert forall|i: int| 0 <= i < N implies #[trigger] eta_coeff(bytes, off, i) == a.coeffs[i] by {
        let g = i / 2;
        assert(bytes[off + g] == eta_byte(a, g));
        assert(-11 <= a.coeffs[2 * g] <= 4);
        assert(-11 <= a.coeffs[2 * g + 1] <= 4);
        lemma_eta_pair(a.coeffs[2 * g], a.coeffs[2 * g + 1]);
    }
}

proof fn lemma_z_pair(c0: i32, c1: i32)
    requires
        -524287 <= c0 <= 524288,
        -524287 <= c1 <= 524288,
    ensures
        ({
            let t0 = (524288 - c0) as i32;
            let t1 = (524288 - c1) as i32;
            let b0 = (t0 as u8) as int;
            let b1 = ((t0 >> 8i32) as u8) as int;
            let b2 = (((t0 >> 16i32) as u8) | ((t1 << 4i32) as u8)) as int;
            let b3 = ((t1 >> 4i32) as u8) as int;
            let b4 = ((t1 >> 12i32) as u8) as int;
            &&& 524288 - (b0 + b1 * 256 + (b2 % 16) * 65536) == c0
            &&& 524288 - (b2 / 16 + b3 * 16 + b4 * 4096) == c1
        }),
{
    assert(-524287 <= c0 <= 524288 && -524287 <= c1 <= 524288 ==>
        524288i64 - (((((524288i32 - c0) as i32) as u8) as i64) + ((((((524288i32 - c0) as i32) >> 8i32) as u8) as i64) * 256)
        + ((((((((524288i32 - c0) as i32) >> 16i32) as u8) | ((((524288i32 - c1) as i32) << 4i32) as u8)) as i64) % 16) * 65536)) == c0 as i64) by (bit_vector);
    assert(-524287 <= c0 <= 524288 && -524287 <= c1 <= 524288 ==>
        524288i64 - ((((((((524288i32 - c0) as i32) >> 16i32) as u8) | ((((524288i32 - c1) as i32) << 4i32) as u8)) as i64) / 16)
        + ((((((524288i32 - c1) as i32) >> 4i32) as u8) as i64) * 16) + ((((((524288i32 - c1) as i32) >> 12i32) as u8) as i64) * 4096)) == c1 as i64) by (bit_vector);
}

/// Unpacking a 20-bit `GAMMA1 - c` packing gives back the packed polynomial
/// when its coefficients are in `[GAMMA1 - 2^20 + 1, GAMMA1]`.
pub proof fn lemma_z_roundtrip(a: Poly, bytes: Seq<u8>, off: int)
    requires
        poly_in_range(a, GAMMA1_I32 - 1048575, GAMMA1_I32 as int),
        0 <= off,
        off + POLYZ_PACKEDBYTES <= bytes.len(),
        forall|g: int, j: int| 0 <= g < N / 2 && 0 <= j < 5 ==> #[trigger] bytes[off + 5 * g + j] == z_byte(a, g, j),
    ensures
        forall|i: int| 0 <= i < N ==> #[trigger] z_coeff(bytes, off, i) == a.coeffs[i],
{
    assert forall|i: int| 0 <= i < N implies #[trigger] z_coeff(bytes, off, i) == a.coeffs[i] by {
        let g = i / 2;
        assert(bytes[off + 5 * g + 0] == z_byte(a, g, 0));
        assert(bytes[off + 5 * g + 1] == z_byte(a, g, 1));
        assert(bytes[off + 5 * g + 2] == z_byte(a, g, 2));
        assert(bytes[off + 5 * g + 3] == z_byte(a, g, 3));
        assert(bytes[off + 5 * g + 4] == z_byte(a, g, 4));
        assert(-524287 <= a.coeffs[2 * g] <= 524288);
        assert(-524287 <= a.coeffs[2 * g + 1] <= 524288);
        lemma_z_pair(a.coeffs[2 * g], a.coeffs[2 * g + 1]);
    }
}

proof fn lemma_t0_group(t0: i32, t1: i32, t2: i32, t3: i32, t4: i32, t5: i32, t6: i32, t7: i32)
    requires
        0 <= t0 < 8192,
        0 <= t1 < 8192,
        0 <= t2 < 8192,
        0 <= t3 < 8192,
        0 <= t4 < 8192,
        0 <= t5 < 8192,
        0 <= t6 < 8192,
        0 <= t7 < 8192,
    ensures
        ((t0 as u8) as int) + (((((t0 >> 8i32) | (t1 << 5i32)) as u8) as int) % 32) * 256 == t0,
        ((((t0 >> 8i32) | (t1 << 5i32)) as u8) as int) / 32 + (((t1 >> 3i32) as u8) as int) * 8 + (((((t1 >> 11i32) | (t2 << 2i32)) as u8) as int) % 4) * 2048 == t1,
        ((((t1 >> 11i32) | (t2 << 2i32)) as u8) as int) / 4 + (((((t2 >> 6i32) | (t3 << 7i32)) as u8) as int) % 128) * 64 == t2,
        ((((t2 >> 6i32) | (t3 << 7i32)) as u8) as int) / 128 + (((t3 >> 1i32) as u8) as int) * 2 + (((((t3 >> 9i32) | (t4 << 4i32)) as u8) as int) % 16) * 512 == t3,
        ((((t3 >> 9i32) | (t4 << 4i32)) as u8) as int) / 16 + (((t4 >> 4i32) as u8) as int) * 16 + (((((t4 >> 12i32) | (t5 << 1i32)) as u8) as int) % 2) * 4096 == t4,
        ((((t4 >> 12i32) | (t5 << 1i32)) as u8) as int) / 2 + (((((t5 >> 7i32) | (t6 << 6i32)) as u8) as int) % 64) * 128 == t5,
        ((((t5 >> 7i32) | (t6 << 6i32)) as u8) as int) / 64 + (((t6 >> 2i32) as u8) as int) * 4 + (((((t6 >> 10i32) | (t7 << 3i32)) as u8) as int) % 8) * 1024 == t6,
        ((((t6 >> 10i32) | (t7 << 3i32)) as u8) as int) / 8 + (((t7 >> 5i32) as u8) as int) * 32 == t7,
{
    assert(((t0 as u8) as u32) + (((((t0 >> 8i32) | (t1 << 5i32)) as u8) as u32) % 32) * 256 == t0 as u32
        && ((((t0 >> 8i32) | (t1 << 5i32)) as u8) as u32) / 32 + (((t1 >> 3i32) as u8) as u32) * 8 + (((((t1 >> 11i32) | (t2 << 2i32)) as u8) as u32) % 4) * 2048 == t1 as u32) by (bit_vector)
        requires
            0 <= t0 < 8192, 0 <= t1 < 8192, 0 <= t2 < 8192, 0 <= t3 < 8192, 0 <= t4 < 8192, 0 <= t5 < 8192, 0 <= t6 < 8192, 0 <= t7 < 8192,
    ;
    assert(((((t1 >> 11i32) | (t2 << 2i32)) as u8) as u32) / 4 + (((((t2 >> 6i32) | (t3 << 7i32)) as u8) as u32) % 128) * 64 == t2 as u32
        && ((((t2 >> 6i32) | (t3 << 7i32)) as u8) as u32) / 128 + (((t3 >> 1i32) as u8) as u32) * 2 + (((((t3 >> 9i32) | (t4 << 4i32)) as u8) as u32) % 16) * 512 == t3 as u32) by (bit_vector)
        requires
            0 <= t0 < 8192, 0 <= t1 < 8192, 0 <= t2 < 8192, 0 <= t3 < 8192, 0 <= t4 < 8192, 0 <= t5 < 8192, 0 <= t6 < 8192, 0 <= t7 < 8192,
    ;
    assert(((((t3 >> 9i32) | (t4 << 4i32)) as u8) as u32) / 16 + (((t4 >> 4i32) as u8) as u32) * 16 + (((((t4 >> 12i32) | (t5 << 1i32)) as u8) as u32) % 2) * 4096 == t4 as u32
        && ((((t4 >> 12i32) | (t5 << 1i32)) as u8) as u32) / 2 + (((((t5 >> 7i32) | (t6 << 6i32)) as u8) as u32) % 64) * 128 == t5 as u32) by (bit_vector)
        requires
            0 <= t0 < 8192, 0 <= t1 < 8192, 0 <= t2 < 8192, 0 <= t3 < 8192, 0 <= t4 < 8192, 0 <= t5 < 8192, 0 <= t6 < 8192, 0 <= t7 < 8192,
    ;
    assert(((((t5 >> 7i32) | (t6 << 6i32)) as u8) as u32) / 64 + (((t6 >> 2i32) as u8) as u32) * 4 + (((((t6 >> 10i32) | (t7 << 3i32)) as u8) as u32) % 8) * 1024 == t6 as u32
        && ((((t6 >> 10i32) | (t7 << 3i32)) as u8) as u32) / 8 + (((t7 >> 5i32) as u8) as u32) * 32 == t7 as u32) by (bit_vector)
        requires
            0 <= t0 < 8192, 0 <= t1 < 8192, 0 <= t2 < 8192, 0 <= t3 < 8192, 0 <= t4 < 8192, 0 <= t5 < 8192, 0 <= t6 < 8192, 0 <= t7 < 8192,
    ;
}

/// Unpacking a 13-bit `2^(D-1) - c` packing gives back the packed
/// polynomial when its coefficients are in `(-2^(D-1), 2^(D-1)]`.
pub proof fn lemma_t0_roundtrip(a: Poly, bytes: Seq<u8>, off: int)
    requires
        poly_in_range(a, -4095, 4096),
        0 <= off,
        off + POLYT0_PACKEDBYTES <= bytes.len(),
        forall|g: int, j: int| 0 <= g < N / 8 && 0 <= j < 13 ==> #[trigger] bytes[off + 13 * g + j] == t0_byte(a, g, j),
    ensures
        forall|i: int| 0 <= i < N ==> #[trigger] t0_coeff(bytes, off, i) == a.coeffs[i],
{
    assert forall|i: int| 0 <= i < N implies #[trigger] t0_coeff(bytes, off, i) == a.coeffs[i] by {
        let g = i / 8;
        let grp = t0_group(bytes, off, g);
        assert forall|j: int| 0 <= j < 13 implies #[trigger] grp[j] == t0_byte(a, g, j) as int by {
            assert(bytes[off + 13 * g + j] == t0_byte(a, g, j));
        }
        assert forall|m: int| 0 <= m < 8 implies -4095 <= #[trigger] a.coeffs[8 * g + m] <= 4096 by {}
        lemma_t0_group((4096 - a.coeffs[8 * g]) as i32, (4096 - a.coeffs[8 * g + 1]) as i32,
            (4096 - a.coeffs[8 * g + 2]) as i32, (4096 - a.coeffs[8 * g + 3]) as i32,
            (4096 - a.coeffs[8 * g + 4]) as i32, (4096 - a.coeffs[8 * g + 5]) as i32,
            (4096 - a.coeffs[8 * g + 6]) as i32, (4096 - a.coeffs[8 * g + 7]) as i32);
        assert(grp[0] == t0_byte(a, g, 0) as int && grp[1] == t0_byte(a, g, 1) as int && grp[2] == t0_byte(a, g, 2) as int);
        assert(grp[3] == t0_byte(a, g, 3) as int && grp[4] == t0_byte(a, g, 4) as int && grp[5] == t0_byte(a, g, 5) as int);
        assert(grp[6] == t0_byte(a, g, 6) as int && grp[7] == t0_byte(a, g, 7) as int && grp[8] == t0_byte(a, g, 8) as int);
        assert(grp[9] == t0_byte(a, g, 9) as int && grp[10] == t0_byte(a, g, 10) as int && grp[11] == t0_byte(a, g, 11) as int);
        assert(grp[12] == t0_byte(a, g, 12) as int);
        assert(i == 8 * g + i % 8);
    }
}

/// One group of the 10-bit packing: packing the four coefficients decoded
/// from five bytes gives the five bytes back.
proof fn lemma_t1_group_unpack_pack(b0: u8, b1: u8, b2: u8, b3: u8, b4: u8, c0: i32, c1: i32, c2: i32, c3: i32)
    requires
        c0 == b0 + (b1 % 4) * 256,
        c1 == b1 / 4 + (b2 % 16) * 64,
        c2 == b2 / 16 + (b3 % 64) * 16,
        c3 == b3 / 64 + b4 * 4,
    ensures
        (c0 >> 0i32) as u8 == b0,
        ((c0 >> 8i32) | (c1 << 2i32)) as u8 == b1,
        ((c1 >> 6i32) | (c2 << 4i32)) as u8 == b2,
        ((c2 >> 4i32) | (c3 << 6i32)) as u8 == b3,
        (c3 >> 2i32) as u8 == b4,
{
    assert((c0 >> 0i32) as u8 == b0 && ((c0 >> 8i32) | (c1 << 2i32)) as u8 == b1
        && ((c1 >> 6i32) | (c2 << 4i32)) as u8 == b2 && ((c2 >> 4i32) | (c3 << 6i32)) as u8 == b3
        && (c3 >> 2i32) as u8 == b4) by (bit_vector)
        requires
            c0 == b0 + (b1 % 4) * 256,
            c1 == b1 / 4 + (b2 % 16) * 64,
            c2 == b2 / 16 + (b3 % 64) * 16,
            c3 == b3 / 64 + b4 * 4,
    ;
}

/// Packing the coefficients decoded from any bytes by the 10-bit packing
/// gives those bytes back.
pub proof fn lemma_t1_unpack_pack(a: Poly, bytes: Seq<u8>, off: int)
    requires
        0 <= off,
        off + POLYT1_PACKEDBYTES <= bytes.len(),
        forall|i: int| 0 <= i < N ==> #[trigger] a.coeffs[i] == t1_coeff(bytes, off, i),
    ensures
        forall|g: int, j: int| 0 <= g < N / 4 && 0 <= j < 5 ==> #[trigger] t1_byte(a, g, j) == bytes[off + 5 * g + j],
{
    assert forall|g: int, j: int| 0 <= g < N / 4 && 0 <= j < 5 implies #[trigger] t1_byte(a, g, j) == bytes[off + 5 * g + j] by {
        assert(a.coeffs[4 * g] == t1_coeff(bytes, off, 4 * g));
        assert(a.coeffs[4 * g + 1] == t1_coeff(bytes, off, 4 * g + 1));
        assert(a.coeffs[4 * g + 2] == t1_coeff(bytes, off, 4 * g + 2));
        assert(a.coeffs[4 * g + 3] == t1_coeff(bytes, off, 4 * g + 3));
        assert((4 * g) / 4 == g && (4 * g + 1) / 4 == g && (4 * g + 2) / 4 == g && (4 * g + 3) / 4 == g);
        assert((4 * g) % 4 == 0 && (4 * g + 1) % 4 == 1 && (4 * g + 2) % 4 == 2 && (4 * g + 3) % 4 == 3);
        lemma_t1_group_unpack_pack(bytes[off + 5 * g], bytes[off + 5 * g + 1], bytes[off + 5 * g + 2],
            bytes[off + 5 * g + 3], bytes[off + 5 * g + 4], a.coeffs[4 * g], a.coeffs[4 * g + 1],
            a.coeffs[4 * g + 2], a.coeffs[4 * g + 3]);
    }
}

} // verus!
