use nopki_dilithium::nopki::kgc::{partial_private_key_generation, ID_SIZE};
use nopki_dilithium::nopki::user_keygen::{
    generate_signature, user_generate_key, verify_sign, verify_sign_checked, KeygenError, SigError,
};
use nopki_dilithium::params::{K, L, N, OMEGA, SEEDBYTES};
use nopki_dilithium::polyvec::Polyveck;

fn inputs() -> ([u8; ID_SIZE], [u8; SEEDBYTES]) {
    let mut identity = [0u8; ID_SIZE];
    let mut rho = [0u8; SEEDBYTES];
    for i in 0..32 {
        identity[i] = i as u8;
        rho[i] = 255 - i as u8;
    }
    (identity, rho)
}

#[test]
fn keygen_gives_up_when_every_response_is_long() {
    let (identity, rho) = inputs();
    let (params, _msk, mut ppk) = partial_private_key_generation(&identity, &rho);
    // A masking vector far outside (-GAMMA1, GAMMA1] makes every z1 too long.
    for l in 0..L {
        for i in 0..N {
            ppk.y11.vec[l].coeffs[i] = 1_000_000;
        }
    }
    match user_generate_key(&identity, params, ppk, None) {
        Err(KeygenError::ThresholdError) => {}
        Ok(_) => panic!("a key with long responses was accepted"),
    }
}

#[test]
fn signing_gives_up_when_every_response_is_long() {
    let (identity, rho) = inputs();
    let (params, _msk, ppk) = partial_private_key_generation(&identity, &rho);
    let (pk, mut sk) = match user_generate_key(&identity, params, ppk, None) {
        Ok(keys) => keys,
        Err(_) => return,
    };
    // A secret far outside [-ETA, ETA] makes every c * s11 + y too long.
    for l in 0..L {
        for i in 0..N {
            sk.s11.vec[l].coeffs[i] = 170_000 + (i as i32) * 13;
        }
    }
    match generate_signature(b"message", &identity, params, pk, sk) {
        Err(SigError::ThresholdError) => {}
        Ok(_) => panic!("a signature with long responses was produced"),
    }
}

#[test]
fn verification_rejects_long_responses() {
    let (identity, rho) = inputs();
    let (params, _msk, ppk) = partial_private_key_generation(&identity, &rho);
    let (pk, sk) = match user_generate_key(&identity, params, ppk, None) {
        Ok(keys) => keys,
        Err(_) => return,
    };
    let sig = match generate_signature(b"message", &identity, params, pk, sk) {
        Ok(sig) => sig,
        Err(_) => return,
    };
    let mut bad = sig;
    bad.z_i1.vec[0].coeffs[0] = 600_000;
    assert!(!verify_sign(b"message", &identity, bad, params, pk));
    let mut bad_pk = pk;
    bad_pk.z2.vec[L - 1].coeffs[N - 1] = -600_000;
    assert!(!verify_sign(b"message", &identity, sig, params, bad_pk));
    // A modified hint makes the recomputed challenge differ.
    let mut bad_hint = sig;
    bad_hint.h_i.vec[K - 1].coeffs[7] ^= 1;
    bad_hint.h_i.vec[0].coeffs[3] ^= 1;
    assert!(!verify_sign(b"message", &identity, bad_hint, params, pk));
}

#[test]
fn long_response_is_rejected_whatever_the_hints() {
    let (identity, rho) = inputs();
    let (params, _msk, ppk) = partial_private_key_generation(&identity, &rho);
    let (pk, sk) = match user_generate_key(&identity, params, ppk, None) {
        Ok(keys) => keys,
        Err(_) => return,
    };
    let sig = match generate_signature(b"message", &identity, params, pk, sk) {
        Ok(sig) => sig,
        Err(_) => return,
    };
    let mut bad = sig;
    bad.z_i2.vec[1].coeffs[5] = 524_092;
    for k in 0..K {
        for i in 0..N {
            bad.h_i.vec[k].coeffs[i] = 7;
        }
    }
    let mut bad_pk = pk;
    bad_pk.h.vec[2].coeffs[9] = -3;
    assert!(!verify_sign(b"message", &identity, bad, params, bad_pk));
}

#[test]
fn verification_rejects_heavy_hints() {
    let (identity, rho) = inputs();
    let (params, _msk, ppk) = partial_private_key_generation(&identity, &rho);
    let (pk, sk) = match user_generate_key(&identity, params, ppk, None) {
        Ok(keys) => keys,
        Err(_) => return,
    };
    let sig = match generate_signature(b"message", &identity, params, pk, sk) {
        Ok(sig) => sig,
        Err(_) => return,
    };
    assert!(verify_sign(b"message", &identity, sig, params, pk));
    let weight = |h: &Polyveck| h.vec.iter().map(|p| p.coeffs.iter().filter(|&&c| c == 1).count()).sum::<usize>();
    assert!(weight(&sig.h_i) <= OMEGA);
    assert!(weight(&pk.h) <= OMEGA);
    let mut heavy = sig;
    for i in 0..=OMEGA {
        heavy.h_i.vec[i % K].coeffs[i] = 1;
    }
    assert!(weight(&heavy.h_i) > OMEGA);
    assert!(!verify_sign(b"message", &identity, heavy, params, pk));
    let mut heavy_pk = pk;
    for i in 0..=OMEGA {
        heavy_pk.h.vec[K - 1 - i % K].coeffs[N - 1 - i] = 1;
    }
    assert!(weight(&heavy_pk.h) > OMEGA);
    assert!(!verify_sign(b"message", &identity, sig, params, heavy_pk));
}

#[test]
fn checked_verification_rejects_malformed_input() {
    let (identity, rho) = inputs();
    let (params, _msk, ppk) = partial_private_key_generation(&identity, &rho);
    let (pk, sk) = match user_generate_key(&identity, params, ppk, None) {
        Ok(keys) => keys,
        Err(_) => return,
    };
    let sig = match generate_signature(b"message", &identity, params, pk, sk) {
        Ok(sig) => sig,
        Err(_) => return,
    };
    assert!(verify_sign_checked(b"message", &identity, sig, params, pk));
    assert!(!verify_sign_checked(b"message", &identity[..31], sig, params, pk));
    let mut far = sig;
    far.z_i1.vec[2].coeffs[17] = i32::MIN;
    assert!(!verify_sign_checked(b"message", &identity, far, params, pk));
    let mut far_pk = pk;
    far_pk.z1.vec[0].coeffs[0] = 1 << 30;
    assert!(!verify_sign_checked(b"message", &identity, sig, params, far_pk));
    let mut odd_hint = sig;
    odd_hint.h_i.vec[3].coeffs[100] = 2;
    assert!(!verify_sign_checked(b"message", &identity, odd_hint, params, pk));
    let mut odd_pk = pk;
    odd_pk.h.vec[0].coeffs[1] = -1;
    assert!(!verify_sign_checked(b"message", &identity, sig, params, odd_pk));
}
