use block_modes::{
    aes_decrypt, aes_ecb_encrypt, attack_ecb_oracle, find_blocksize, find_suffix_len, CryptError,
    EcbOracle,
};

const KEY: &[u8] = b"YELLOW SUBMARINE";

#[test]
fn oracle_appends_suffix_and_encrypts() {
    let oracle = EcbOracle::new(KEY.to_vec(), b"secret!!".to_vec()).unwrap();
    let expected = aes_ecb_encrypt(b"AAAsecret!!", KEY).unwrap();
    assert_eq!(oracle.encrypt(b"AAA"), expected);
}

#[test]
fn oracle_rejects_bad_key() {
    assert!(matches!(
        EcbOracle::new(vec![0u8; 10], vec![]),
        Err(CryptError::InvalidKeyLength)
    ));
}

#[test]
fn block_size_is_found() {
    for n in [0usize, 1, 8, 15, 16, 33] {
        let oracle = EcbOracle::new(KEY.to_vec(), vec![9u8; n]).unwrap();
        assert_eq!(find_blocksize(&oracle), Ok(16));
        assert_eq!(find_suffix_len(&oracle), Ok(n));
    }
}

#[test]
fn attack_recovers_short_suffix() {
    let oracle = EcbOracle::new(KEY.to_vec(), b"8 bytes!".to_vec()).unwrap();
    assert_eq!(attack_ecb_oracle(&oracle), b"8 bytes!".to_vec());
}

#[test]
fn attack_recovers_multi_block_suffix() {
    let suffix = b"Rollin' in my 5.0, with my rag-top down".to_vec();
    let key: Vec<u8> = (0..16).map(|i| i * 7 + 1).collect();
    let oracle = EcbOracle::new(key, suffix.clone()).unwrap();
    assert_eq!(attack_ecb_oracle(&oracle), suffix);
}

#[test]
fn attack_recovers_empty_suffix() {
    let oracle = EcbOracle::new(KEY.to_vec(), vec![]).unwrap();
    assert_eq!(attack_ecb_oracle(&oracle), Vec::<u8>::new());
}

#[test]
fn attack_recovers_every_byte_value() {
    let suffix: Vec<u8> = (0..=255u8).rev().step_by(9).collect();
    let oracle = EcbOracle::new(KEY.to_vec(), suffix.clone()).unwrap();
    assert_eq!(attack_ecb_oracle(&oracle), suffix);
}

#[test]
fn random_key_attack_recovers_input() {
    let unknown = b"hidden text, 31 bytes of it....".to_vec();
    assert_eq!(aes_decrypt(&unknown), unknown);
}
