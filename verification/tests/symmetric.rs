use nopki_dilithium::fips202::{
    shake128_absorb, shake128_finalize, shake128_squeeze, shake256, shake256_absorb,
    shake256_finalize, shake256_squeeze, KeccakState,
};

fn hex(bytes: &[u8]) -> String {
    bytes.iter().map(|b| format!("{:02x}", b)).collect()
}

#[test]
fn shake256_of_empty_input() {
    let mut out = [0u8; 32];
    let input = [0u8; 1];
    shake256(&mut out, 32, &input, 0);
    assert_eq!(hex(&out), "46b9dd2b0ba88d13233b3feb743eeb243fcd52ea62b81b82b50c27646ed5762f");
}

#[test]
fn shake128_of_empty_input() {
    let mut state = KeccakState::default();
    let input = [0u8; 1];
    shake128_absorb(&mut state, &input, 0);
    shake128_finalize(&mut state);
    let mut out = [0u8; 32];
    shake128_squeeze(&mut out, 0, 32, &mut state);
    assert_eq!(hex(&out), "7f9c2ba4e88f827d616045507605853ed73b8093f6efbc88eb1a6eacfa66ef26");
}

#[test]
fn shake256_incremental_matches_one_shot() {
    let input: Vec<u8> = (0..300u32).map(|i| (i * 7 % 256) as u8).collect();
    let mut one = [0u8; 200];
    shake256(&mut one, 200, &input, 300);
    let mut state = KeccakState::default();
    shake256_absorb(&mut state, &input[..100], 100);
    shake256_absorb(&mut state, &input[100..], 200);
    shake256_finalize(&mut state);
    let mut two = [0u8; 200];
    shake256_squeeze(&mut two, 0, 150, &mut state);
    shake256_squeeze(&mut two, 150, 50, &mut state);
    assert_eq!(one.to_vec(), two.to_vec());
}

#[test]
fn shake256_leaves_tail_of_output() {
    let mut out = [0xAAu8; 40];
    let input = [1u8, 2, 3];
    shake256(&mut out, 32, &input, 3);
    assert_eq!(&out[32..], &[0xAAu8; 8]);
}

#[test]
fn shake256_shorter_output_is_prefix_of_longer() {
    let input: Vec<u8> = (0..64u32).map(|i| (i * 13 + 5) as u8).collect();
    let mut short = [0u8; 96];
    shake256(&mut short, 96, &input, 64);
    let mut long = [0u8; 400];
    shake256(&mut long, 400, &input, 64);
    assert_eq!(&long[..96], &short[..]);
}

#[test]
fn keccak_permutation_of_zero_state() {
    let mut st = [0u64; 25];
    nopki_dilithium::fips202::keccakf1600_statepermute(&mut st);
    assert_eq!(st[0], 0xF1258F7940E1DDE7);
    assert_eq!(st[1], 0x84D5CCF933C0478A);
    assert_eq!(st[24], 0xEAF1FF7B5CECA249);
}
