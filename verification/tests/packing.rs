use nopki_dilithium::nopki::kgc::{
    pack_params, pack_ppk, pack_short_vecl, partial_private_key_generation, unpack_params,
    unpack_ppk, PARAMS_BYTES, PPK_BYTES, SHORT_VECL_BYTES,
};
use nopki_dilithium::packing::{
    polyeta_pack, polyeta_unpack, polyt0_pack, polyt0_unpack, polyt1_pack, polyt1_unpack, polyz_pack,
    polyz_unpack,
};
use nopki_dilithium::params::{K, L, N, SEEDBYTES};
use nopki_dilithium::poly::Poly;
use nopki_dilithium::polyvec::{Polyveck, Polyvecl};

#[test]
fn t1_packing_layout() {
    let mut a = Poly::default();
    a.coeffs[0] = 0x3FF;
    a.coeffs[1] = 1;
    let mut r = [0u8; 320];
    polyt1_pack(&mut r, 0, &a);
    assert_eq!(&r[..5], &[0xFF, 0x07, 0x00, 0x00, 0x00]);
    let mut b = Poly::default();
    polyt1_unpack(&mut b, &r, 0);
    assert_eq!(b.coeffs, a.coeffs);
}

#[test]
fn eta_and_z_packing_roundtrip() {
    let mut a = Poly::default();
    let mut z = Poly::default();
    for i in 0..N {
        a.coeffs[i] = (i as i32 % 9) - 4;
        z.coeffs[i] = ((i as i32) * 4099) % 524288 - 262144;
    }
    z.coeffs[0] = 524288;
    z.coeffs[1] = -524287;
    let mut r = [0u8; 640];
    polyeta_pack(&mut r, 0, &a);
    let mut b = Poly::default();
    polyeta_unpack(&mut b, &r, 0);
    assert_eq!(b.coeffs, a.coeffs);
    polyz_pack(&mut r, 0, &z);
    polyz_unpack(&mut b, &r, 0);
    assert_eq!(b.coeffs, z.coeffs);
}

#[test]
fn params_roundtrip() {
    let identity = [7u8; 32];
    let rho = [9u8; SEEDBYTES];
    let (params, _msk, _ppk) = partial_private_key_generation(&identity, &rho);
    let mut bytes = vec![0u8; PARAMS_BYTES + 3];
    pack_params(&mut bytes, &params.rho, &params.b11_h);
    assert_eq!(&bytes[PARAMS_BYTES..], &[0, 0, 0]);
    let mut rho2 = [0u8; SEEDBYTES];
    let mut b_h = Polyveck::default();
    unpack_params(&mut rho2, &mut b_h, &bytes);
    assert_eq!(rho2, rho);
    for k in 0..K {
        assert_eq!(b_h.vec[k].coeffs, params.b11_h.vec[k].coeffs);
    }
}

#[test]
fn t0_packing_layout() {
    let mut a = Poly::default();
    a.coeffs[0] = -4095;
    a.coeffs[1] = 4096;
    a.coeffs[2] = 1;
    let mut r = [0u8; 416];
    polyt0_pack(&mut r, 0, &a);
    assert_eq!(
        &r[..13],
        &[0xFF, 0x1F, 0x00, 0xFC, 0x3F, 0x00, 0x08, 0x00, 0x01, 0x20, 0x00, 0x04, 0x80]
    );
    let mut b = Poly::default();
    polyt0_unpack(&mut b, &r, 0);
    assert_eq!(b.coeffs, a.coeffs);
}

#[test]
fn ppk_roundtrip_of_an_issued_key() {
    let identity = [3u8; 32];
    let rho = [5u8; SEEDBYTES];
    let (_params, msk, ppk) = partial_private_key_generation(&identity, &rho);
    let mut bytes = vec![0u8; PPK_BYTES];
    pack_ppk(&mut bytes, &ppk.s11, &ppk.y11, &ppk.b11_l);
    let mut s = Polyvecl::default();
    let mut y = Polyvecl::default();
    let mut b = Polyveck::default();
    unpack_ppk(&mut s, &mut y, &mut b, &bytes);
    for l in 0..L {
        assert_eq!(s.vec[l].coeffs, ppk.s11.vec[l].coeffs);
        assert_eq!(y.vec[l].coeffs, ppk.y11.vec[l].coeffs);
    }
    for k in 0..K {
        assert_eq!(b.vec[k].coeffs, ppk.b11_l.vec[k].coeffs);
    }
    assert!(ppk.b11_l.vec.iter().any(|p| p.coeffs.iter().any(|&c| !(-4..=4).contains(&c))));
    let mut key = vec![0u8; SHORT_VECL_BYTES];
    pack_short_vecl(&mut key, &msk.s11);
    assert_eq!(&key[..], &bytes[..SHORT_VECL_BYTES]);
}

#[test]
fn ppk_low_parts_at_the_ends_of_their_range_are_recovered() {
    let identity = [3u8; 32];
    let rho = [5u8; SEEDBYTES];
    let (_params, _msk, ppk) = partial_private_key_generation(&identity, &rho);
    let mut b_l = Polyveck::default();
    b_l.vec[0].coeffs[0] = 100;
    b_l.vec[1].coeffs[7] = -4095;
    b_l.vec[K - 1].coeffs[N - 1] = 4096;
    let mut bytes = vec![0u8; PPK_BYTES];
    pack_ppk(&mut bytes, &ppk.s11, &ppk.y11, &b_l);
    let mut s = Polyvecl::default();
    let mut y = Polyvecl::default();
    let mut b = Polyveck::default();
    unpack_ppk(&mut s, &mut y, &mut b, &bytes);
    for k in 0..K {
        assert_eq!(b.vec[k].coeffs, b_l.vec[k].coeffs);
    }
    assert_eq!(b.vec[0].coeffs[0], 100);
    assert_eq!(PPK_BYTES, 5 * 128 + 5 * 640 + 6 * 416);
}

#[test]
fn unpack_then_pack_params_gives_the_bytes_back() {
    let buf: Vec<u8> = (0..PARAMS_BYTES).map(|i| ((i * 193 + 71) % 256) as u8).collect();
    let mut rho = [0u8; 32];
    let mut b_h = Polyveck::default();
    unpack_params(&mut rho, &mut b_h, &buf);
    let mut out = vec![0u8; PARAMS_BYTES];
    pack_params(&mut out, &rho, &b_h);
    assert_eq!(out, buf);
}
