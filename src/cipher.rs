use aes::cipher::generic_array::GenericArray;
use aes::cipher::{BlockDecrypt, BlockEncrypt, KeyInit};
use aes::Aes128;
use vstd::prelude::*;

verus! {

/// AES-128 encryption of the 16-byte `block` under the 16-byte `key`.
pub uninterp spec fn aes128_encrypt_block(key: Seq<u8>, block: Seq<u8>) -> [u8; 16];

/// AES-128 decryption of the 16-byte `block` under the 16-byte `key`.
pub uninterp spec fn aes128_decrypt_block(key: Seq<u8>, block: Seq<u8>) -> [u8; 16];

/// Relies on `aes::Aes128` (`KeyInit::new`, `BlockEncrypt::encrypt_block`):
/// encrypts one block. Under a fixed key AES is a permutation of blocks, so
/// the output block is the image of no other block.
#[verifier::external_body]
pub(crate) fn aes128_encrypt(key: &[u8], block: &[u8]) -> (r: [u8; 16])
    requires
        key@.len() == 16,
        block@.len() == 16,
    ensures
        r == aes128_encrypt_block(key@, block@),
        forall|x: Seq<u8>|
            x.len() == 16 && #[trigger] aes128_encrypt_block(key@, x)@ == r@ ==> x == block@,
{
    let cipher = Aes128::new(GenericArray::from_slice(key));
    let mut b = GenericArray::clone_from_slice(block);
    cipher.encrypt_block(&mut b);
    b.into()
}

/// Relies on `aes::Aes128` (`KeyInit::new`, `BlockDecrypt::decrypt_block`):
/// decrypts one block, which inverts `aes128_encrypt` under the same key.
#[verifier::external_body]
pub(crate) fn aes128_decrypt(key: &[u8], block: &[u8]) -> (r: [u8; 16])
    requires
        key@.len() == 16,
        block@.len() == 16,
    ensures
        r == aes128_decrypt_block(key@, block@),
        forall|x: Seq<u8>|
            x.len() == 16 && #[trigger] aes128_encrypt_block(key@, x)@ == block@ ==> r@ == x,
{
    let cipher = Aes128::new(GenericArray::from_slice(key));
    let mut b = GenericArray::clone_from_slice(block);
    cipher.decrypt_block(&mut b);
    b.into()
}

/// Relies on `rand::random`: sixteen bytes from the thread-local generator.
/// Nothing is known of their values.
#[verifier::external_body]
pub(crate) fn random_key() -> (r: Vec<u8>)
    ensures
        r@.len() == 16,
{
    let k: [u8; 16] = rand::random();
    k.to_vec()
}

} // verus!
