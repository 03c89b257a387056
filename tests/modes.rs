use block_modes::{
    aes_cbc_decrypt, aes_cbc_encrypt, aes_ecb_decrypt, aes_ecb_encrypt, fixed_xor, pkcs_padding,
    CryptError,
};

fn from_hex(s: &str) -> Vec<u8> {
    (0..s.len())
        .step_by(2)
        .map(|i| u8::from_str_radix(&s[i..i + 2], 16).unwrap())
        .collect()
}

const KEY: &[u8] = b"YELLOW SUBMARINE";

#[test]
fn padding_to_twenty() {
    let r = pkcs_padding(b"YELLOW SUBMARINE", 20);
    assert_eq!(r, b"YELLOW SUBMARINE\x04\x04\x04\x04".to_vec());
}

#[test]
fn padding_unaligned_message() {
    let r = pkcs_padding(b"abc", 16);
    let mut expected = b"abc".to_vec();
    expected.extend(std::iter::repeat(13u8).take(13));
    assert_eq!(r, expected);
}

#[test]
fn padding_aligned_message_gets_full_block() {
    let r = pkcs_padding(KEY, 16);
    assert_eq!(r.len(), 32);
    assert_eq!(&r[..16], KEY);
    assert!(r[16..].iter().all(|&b| b == 16));
}

#[test]
fn padding_empty_message() {
    assert_eq!(pkcs_padding(&[], 16), vec![16u8; 16]);
}

#[test]
fn padding_lengths_are_smallest_multiple_above() {
    for n in 0..50usize {
        let m = vec![7u8; n];
        let r = pkcs_padding(&m, 16);
        let added = r.len() - n;
        assert!((1..=16).contains(&added));
        assert_eq!(r.len() % 16, 0);
        assert!(r.len() - 16 <= n);
        assert!(r[n..].iter().all(|&b| b as usize == added));
    }
}

#[test]
fn xor_of_equal_length_buffers() {
    let a = from_hex("1c0111001f010100061a024b53535009181c");
    let b = from_hex("686974207468652062756c6c277320657965");
    assert_eq!(fixed_xor(&a, &b), from_hex("746865206b696420646f6e277420706c6179"));
}

#[test]
fn ecb_known_answer() {
    let key = from_hex("000102030405060708090a0b0c0d0e0f");
    let pt = from_hex("00112233445566778899aabbccddeeff");
    let ct = aes_ecb_encrypt(&pt, &key).unwrap();
    assert_eq!(ct.len(), 32);
    assert_eq!(ct[..16].to_vec(), from_hex("69c4e0d86a7b0430d8cdb78070b4c55a"));
    let back = aes_ecb_decrypt(&ct[..16], &key).unwrap();
    assert_eq!(back, pt);
}

#[test]
fn ecb_round_trip_gives_padded_plaintext() {
    for n in [0usize, 1, 15, 16, 17, 40] {
        let pt: Vec<u8> = (0..n as u8).collect();
        let ct = aes_ecb_encrypt(&pt, KEY).unwrap();
        assert_eq!(aes_ecb_decrypt(&ct, KEY).unwrap(), pkcs_padding(&pt, 16));
    }
}

#[test]
fn cbc_round_trip_gives_padded_plaintext() {
    let iv: Vec<u8> = (100..116).collect();
    for n in [0usize, 1, 15, 16, 17, 40] {
        let pt: Vec<u8> = (0..n as u8).collect();
        let ct = aes_cbc_encrypt(&pt, KEY, &iv).unwrap();
        assert_eq!(aes_cbc_decrypt(&ct, KEY, &iv).unwrap(), pkcs_padding(&pt, 16));
    }
}

#[test]
fn cbc_chains_each_block_into_the_next() {
    let iv = [0u8; 16];
    let pt = b"0123456789abcdefFEDCBA9876543210".to_vec();
    let ct = aes_cbc_encrypt(&pt, KEY, &iv).unwrap();
    assert_eq!(ct.len(), 48);
    let first = aes_ecb_encrypt(&pt[..16], KEY).unwrap();
    assert_eq!(ct[..16], first[..16]);
    let mask = fixed_xor(&pt[16..32], &ct[..16]);
    let second = aes_ecb_encrypt(&mask, KEY).unwrap();
    assert_eq!(ct[16..32], second[..16]);
}

#[test]
fn cbc_yellow_submarine_scenario() {
    let iv = [0u8; 16];
    let pt = b"I'm back and I'm ringin' the bell".to_vec();
    let ct = aes_cbc_encrypt(&pt, KEY, &iv).unwrap();
    let decrypted = aes_cbc_decrypt(&ct, KEY, &iv).unwrap();
    assert_eq!(decrypted, pkcs_padding(&pt, 16));
    // The decrypted text is padded again on re-encryption, which adds one
    // block after a byte-for-byte copy of the original ciphertext.
    let enc2 = aes_cbc_encrypt(&decrypted, KEY, &iv).unwrap();
    assert_eq!(enc2.len(), ct.len() + 16);
    assert_eq!(enc2[..ct.len()], ct[..]);
    let dec2 = aes_cbc_decrypt(&enc2, KEY, &iv).unwrap();
    assert_eq!(dec2[..decrypted.len()], decrypted[..]);
}

#[test]
fn ecb_equal_blocks_encrypt_equally() {
    let block = b"SIXTEEN BYTE BLK";
    let pt = [&block[..], &block[..]].concat();
    let ct = aes_ecb_encrypt(&pt, KEY).unwrap();
    assert_eq!(ct[..16], ct[16..32]);
}

#[test]
fn cbc_equal_blocks_encrypt_differently() {
    let block = b"SIXTEEN BYTE BLK";
    let pt = [&block[..], &block[..]].concat();
    let ct = aes_cbc_encrypt(&pt, KEY, &[3u8; 16]).unwrap();
    assert_ne!(ct[..16], ct[16..32]);
}

#[test]
fn bad_key_length_is_reported() {
    assert_eq!(aes_ecb_encrypt(b"abc", b"short"), Err(CryptError::InvalidKeyLength));
    assert_eq!(aes_ecb_decrypt(&[0u8; 16], b"short"), Err(CryptError::InvalidKeyLength));
    assert_eq!(aes_cbc_encrypt(b"abc", b"short", &[0u8; 16]), Err(CryptError::InvalidKeyLength));
    assert_eq!(aes_cbc_decrypt(&[0u8; 16], b"short", &[0u8; 16]), Err(CryptError::InvalidKeyLength));
}

#[test]
fn bad_iv_length_is_reported() {
    assert_eq!(aes_cbc_encrypt(b"abc", KEY, &[0u8; 8]), Err(CryptError::InvalidIvLength));
    assert_eq!(aes_cbc_decrypt(&[0u8; 16], KEY, &[0u8; 17]), Err(CryptError::InvalidIvLength));
}

#[test]
fn unaligned_ciphertext_is_reported() {
    assert_eq!(aes_ecb_decrypt(&[0u8; 17], KEY), Err(CryptError::InvalidLength));
    assert_eq!(aes_cbc_decrypt(&[0u8; 20], KEY, &[0u8; 16]), Err(CryptError::InvalidLength));
}

#[test]
fn empty_ciphertext_decrypts_to_nothing() {
    assert_eq!(aes_ecb_decrypt(&[], KEY), Ok(vec![]));
    assert_eq!(aes_cbc_decrypt(&[], KEY, &[0u8; 16]), Ok(vec![]));
}
