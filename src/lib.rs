//! Block-cipher chaining modes (ECB, CBC) over AES-128, a detector that tells
//! the two modes apart, and a byte-at-a-time attack on an ECB encryption
//! oracle.

pub mod attack;
pub mod blocks;
pub mod cipher;
pub mod detect;
pub mod error;
pub mod modes;
pub mod padding;

pub use attack::{aes_decrypt, attack_ecb_oracle, find_blocksize, find_suffix_len, EcbOracle};
pub use blocks::fixed_xor;
pub use detect::{find_aes_encryption_mode, is_aes_ecb_encrypted};
pub use error::CryptError;
pub use modes::{aes_cbc_decrypt, aes_cbc_encrypt, aes_ecb_decrypt, aes_ecb_encrypt};
pub use padding::pkcs_padding;
