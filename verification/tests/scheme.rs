use nopki_dilithium::nopki::kgc::{partial_private_key_generation, ID_SIZE};
use nopki_dilithium::nopki::user_keygen::{generate_signature, user_generate_key, verify_sign};
use nopki_dilithium::params::{GAMMA1_I32, SEEDBYTES};

fn inputs(tag: u8) -> ([u8; ID_SIZE], [u8; SEEDBYTES]) {
    let mut identity = [0u8; ID_SIZE];
    let mut rho = [0u8; SEEDBYTES];
    for i in 0..32 {
        identity[i] = (i as u8).wrapping_mul(31).wrapping_add(tag);
        rho[i] = (i as u8).wrapping_mul(17) ^ tag;
    }
    (identity, rho)
}

#[test]
fn kgc_outputs_are_in_range_and_deterministic() {
    let (identity, rho) = inputs(1);
    let (params, msk, ppk) = partial_private_key_generation(&identity, &rho);
    assert_eq!(params.rho, rho);
    for k in 0..6 {
        assert!(params.b11_h.vec[k].coeffs.iter().all(|&c| (0..=1023).contains(&c)));
        assert!(ppk.b11_l.vec[k].coeffs.iter().all(|&c| (-4095..=4096).contains(&c)));
    }
    for l in 0..5 {
        assert_eq!(msk.s11.vec[l].coeffs, ppk.s11.vec[l].coeffs);
        assert!(ppk.s11.vec[l].coeffs.iter().all(|&c| (-4..=4).contains(&c)));
        assert!(ppk.y11.vec[l].coeffs.iter().all(|&c| c > -GAMMA1_I32 && c <= GAMMA1_I32));
    }
    let (params2, _, ppk2) = partial_private_key_generation(&identity, &rho);
    for k in 0..6 {
        assert_eq!(params.b11_h.vec[k].coeffs, params2.b11_h.vec[k].coeffs);
        assert_eq!(ppk.b11_l.vec[k].coeffs, ppk2.b11_l.vec[k].coeffs);
    }
}

#[test]
fn sign_then_verify() {
    let mut accepted = 0;
    let mut signed = 0;
    for tag in 0..3u8 {
        let (identity, rho) = inputs(tag);
        let (params, _msk, ppk) = partial_private_key_generation(&identity, &rho);
        let keys = user_generate_key(&identity, params, ppk, None);
        let (pk, sk) = match keys {
            Ok(keys) => keys,
            Err(_) => continue,
        };
        assert_eq!(sk.s11.vec[0].coeffs, ppk.s11.vec[0].coeffs);
        let msg = b"lorem ipsum dolor sit amet";
        if let Ok(sig) = generate_signature(msg, &identity, params, pk, sk) {
            signed += 1;
            if verify_sign(msg, &identity, sig, params, pk) {
                accepted += 1;
            }
            // A different message is rejected.
            assert!(!verify_sign(b"lorem ipsum dolor sit amen", &identity, sig, params, pk));
        }
    }
    assert!(signed > 0);
    assert_eq!(accepted, signed);
}

#[test]
fn key_generation_and_signing_are_deterministic() {
    let (identity, rho) = inputs(7);
    let (params, _msk, ppk) = partial_private_key_generation(&identity, &rho);
    let first = user_generate_key(&identity, params, ppk, None);
    let second = user_generate_key(&identity, params, ppk, None);
    match (first, second) {
        (Ok((pk1, sk1)), Ok((pk2, sk2))) => {
            assert_eq!(pk1.c, pk2.c);
            for k in 0..6 {
                assert_eq!(pk1.h.vec[k].coeffs, pk2.h.vec[k].coeffs);
                assert_eq!(pk1.b12_h.vec[k].coeffs, pk2.b12_h.vec[k].coeffs);
            }
            for l in 0..5 {
                assert_eq!(pk1.z1.vec[l].coeffs, pk2.z1.vec[l].coeffs);
                assert_eq!(sk1.y12.vec[l].coeffs, sk2.y12.vec[l].coeffs);
            }
            let msg = b"deterministic";
            let s1 = generate_signature(msg, &identity, params, pk1, sk1);
            let s2 = generate_signature(msg, &identity, params, pk2, sk2);
            match (s1, s2) {
                (Ok(a), Ok(b)) => {
                    assert_eq!(a.c_i, b.c_i);
                    assert_eq!(a.z_i1.vec[0].coeffs, b.z_i1.vec[0].coeffs);
                }
                (Err(_), Err(_)) => {}
                _ => panic!("signing is not deterministic"),
            }
        }
        (Err(_), Err(_)) => {}
        _ => panic!("key generation is not deterministic"),
    }
}
