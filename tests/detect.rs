use block_modes::{aes_cbc_encrypt, aes_ecb_encrypt, find_aes_encryption_mode, is_aes_ecb_encrypted};

const KEY: &[u8] = b"YELLOW SUBMARINE";

fn repeated_blocks() -> Vec<u8> {
    b"0123456789abcdef".repeat(3)
}

#[test]
fn ecb_of_repeated_blocks_is_detected() {
    let ct = aes_ecb_encrypt(&repeated_blocks(), KEY).unwrap();
    assert!(is_aes_ecb_encrypted(&ct));
    assert_eq!(find_aes_encryption_mode(&ct), "ECB");
}

#[test]
fn cbc_of_repeated_blocks_is_not_detected() {
    let iv: Vec<u8> = (1..17).collect();
    let ct = aes_cbc_encrypt(&repeated_blocks(), KEY, &iv).unwrap();
    assert!(!is_aes_ecb_encrypted(&ct));
    assert_eq!(find_aes_encryption_mode(&ct), "CBC");
}

#[test]
fn repeat_among_leading_blocks_counts() {
    let mut c = vec![1u8; 16];
    c.extend([2u8; 16]);
    c.extend([1u8; 16]);
    c.extend([3u8; 16]);
    assert!(is_aes_ecb_encrypted(&c));
}

#[test]
fn repeat_of_last_block_is_ignored() {
    let mut c = vec![1u8; 16];
    c.extend([2u8; 16]);
    c.extend([3u8; 16]);
    c.extend([1u8; 16]);
    assert!(!is_aes_ecb_encrypted(&c));
    assert_eq!(find_aes_encryption_mode(&c), "CBC");
}

#[test]
fn short_input_is_not_ecb() {
    assert!(!is_aes_ecb_encrypted(&[]));
    assert!(!is_aes_ecb_encrypted(&[5u8; 15]));
    assert!(!is_aes_ecb_encrypted(&[5u8; 31]));
}
