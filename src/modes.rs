use crate::blocks::{append_bytes, block_at, block_of, copy_bytes, fixed_xor, lemma_xor_cancel, xor_seq, BLOCK_SIZE};
use crate::cipher::{aes128_decrypt, aes128_decrypt_block, aes128_encrypt, aes128_encrypt_block};
use crate::error::CryptError;
use crate::padding::{lemma_padded_len, pkcs7_pad, pkcs_padding};
use vstd::prelude::*;

verus! {

/// ECB encryption of the first `n` blocks of `p`, each block on its own.
pub open spec fn ecb_blocks(key: Seq<u8>, p: Seq<u8>, n: nat) -> Seq<u8>
    decreases n,
{
    if n == 0 {
        Seq::empty()
    } else {
        ecb_blocks(key, p, (n - 1) as nat) + aes128_encrypt_block(key, block_at(p, n - 1))@
    }
}

/// ECB decryption of the first `n` blocks of `c`, each block on its own.
pub open spec fn ecb_decrypt_blocks(key: Seq<u8>, c: Seq<u8>, n: nat) -> Seq<u8>
    decreases n,
{
    if n == 0 {
        Seq::empty()
    } else {
        ecb_decrypt_blocks(key, c, (n - 1) as nat) + aes128_decrypt_block(key, block_at(c, n - 1))@
    }
}

/// ECB ciphertext of `p`: the padded message, block by block.
pub open spec fn ecb_encrypt_spec(key: Seq<u8>, p: Seq<u8>) -> Seq<u8> {
    let q = pkcs7_pad(p, 16);
    ecb_blocks(key, q, q.len() / 16)
}

/// ECB plaintext of `c`, padding left in place.
pub open spec fn ecb_decrypt_spec(key: Seq<u8>, c: Seq<u8>) -> Seq<u8> {
    ecb_decrypt_blocks(key, c, c.len() / 16)
}

/// CBC chain state after `n` blocks of `p`: the IV at first, then the
/// ciphertext block just produced.
pub open spec fn cbc_chain(key: Seq<u8>, iv: Seq<u8>, p: Seq<u8>, n: nat) -> Seq<u8>
    decreases n,
{
    if n == 0 {
        iv
    } else {
        aes128_encrypt_block(key, xor_seq(block_at(p, n - 1), cbc_chain(key, iv, p, (n - 1) as nat)))@
    }
}

/// CBC encryption of the first `n` blocks of `p`.
pub open spec fn cbc_blocks(key: Seq<u8>, iv: Seq<u8>, p: Seq<u8>, n: nat) -> Seq<u8>
    decreases n,
{
    if n == 0 {
        Seq::empty()
    } else {
        cbc_blocks(key, iv, p, (n - 1) as nat) + cbc_chain(key, iv, p, n)
    }
}

/// CBC ciphertext of `p`: the padded message, chained from `iv`.
pub open spec fn cbc_encrypt_spec(key: Seq<u8>, iv: Seq<u8>, p: Seq<u8>) -> Seq<u8> {
    let q = pkcs7_pad(p, 16);
    cbc_blocks(key, iv, q, q.len() / 16)
}

/// The mask of ciphertext block `i` in CBC decryption: the IV for the first
/// block, the preceding ciphertext block after that.
pub open spec fn cbc_prev(iv: Seq<u8>, c: Seq<u8>, i: int) -> Seq<u8> {
    if i == 0 {
        iv
    } else {
        block_at(c, i - 1)
    }
}

/// CBC decryption of the first `n` blocks of `c`.
pub open spec fn cbc_decrypt_blocks(key: Seq<u8>, iv: Seq<u8>, c: Seq<u8>, n: nat) -> Seq<u8>
    decreases n,
{
    if n == 0 {
        Seq::empty()
    } else {
        cbc_decrypt_blocks(key, iv, c, (n - 1) as nat) + xor_seq(
            aes128_decrypt_block(key, block_at(c, n - 1))@,
            cbc_prev(iv, c, n - 1),
        )
    }
}

/// CBC plaintext of `c`, padding left in place.
pub open spec fn cbc_decrypt_spec(key: Seq<u8>, iv: Seq<u8>, c: Seq<u8>) -> Seq<u8> {
    cbc_decrypt_blocks(key, iv, c, c.len() / 16)
}

/// Block `i` of `a + b`, where `a` holds `m` whole blocks and `b` one block.
proof fn lemma_block_at_append(a: Seq<u8>, b: Seq<u8>, m: int, i: int)
    requires
        a.len() == 16 * m,
        b.len() == 16,
        0 <= i <= m,
    ensures
        i < m ==> block_at(a + b, i) == block_at(a, i),
        i == m ==> block_at(a + b, i) == b,
{
    if i < m {
        assert(block_at(a + b, i) =~= block_at(a, i));
    } else {
        assert(block_at(a + b, i) =~= b);
    }
}

/// The ECB encryption of `n` blocks is `n` blocks long, and its block `i`
/// is the encryption of plaintext block `i`.
pub proof fn lemma_ecb_blocks(key: Seq<u8>, p: Seq<u8>, n: nat)
    ensures
        ecb_blocks(key, p, n).len() == 16 * n,
        forall|i: int|
            0 <= i < n ==> #[trigger] block_at(ecb_blocks(key, p, n), i) == aes128_encrypt_block(
                key,
                block_at(p, i),
            )@,
    decreases n,
{
    if n > 0 {
        let m = (n - 1) as nat;
        lemma_ecb_blocks(key, p, m);
        assert forall|i: int| 0 <= i < n implies #[trigger] block_at(ecb_blocks(key, p, n), i)
            == aes128_encrypt_block(key, block_at(p, i))@ by {
            lemma_block_at_append(
                ecb_blocks(key, p, m),
                aes128_encrypt_block(key, block_at(p, m as int))@,
                m as int,
                i,
            );
        }
    }
}

/// The CBC encryption of `n` blocks is `n` blocks long, and its block `i`
/// is the chain state after `i + 1` blocks.
pub proof fn lemma_cbc_blocks(key: Seq<u8>, iv: Seq<u8>, p: Seq<u8>, n: nat)
    ensures
        cbc_blocks(key, iv, p, n).len() == 16 * n,
        forall|i: int|
            0 <= i < n ==> #[trigger] block_at(cbc_blocks(key, iv, p, n), i) == cbc_chain(
                key,
                iv,
                p,
                (i + 1) as nat,
            ),
    decreases n,
{
    if n > 0 {
        let m = (n - 1) as nat;
        lemma_cbc_blocks(key, iv, p, m);
        assert forall|i: int| 0 <= i < n implies #[trigger] block_at(cbc_blocks(key, iv, p, n), i)
            == cbc_chain(key, iv, p, (i + 1) as nat) by {
            lemma_block_at_append(cbc_blocks(key, iv, p, m), cbc_chain(key, iv, p, n), m as int, i);
        }
    }
}

/// Encrypts `padded`, whose length is a whole number of blocks, in ECB mode.
/// Each ciphertext block is the image of its own plaintext block only.
pub(crate) fn ecb_encrypt_blocks(padded: &[u8], key: &[u8]) -> (r: Vec<u8>)
    requires
        key@.len() == 16,
        padded@.len() % 16 == 0,
    ensures
        r@ == ecb_blocks(key@, padded@, padded@.len() / 16),
        r@.len() == padded@.len(),
        forall|i: int, x: Seq<u8>|
            #![trigger aes128_encrypt_block(key@, x), block_at(padded@, i)]
            0 <= i < padded@.len() / 16 && x.len() == 16 && aes128_encrypt_block(key@, x)@
                == aes128_encrypt_block(key@, block_at(padded@, i))@ ==> x == block_at(padded@, i),
{
    let n: usize = padded.len() / BLOCK_SIZE;
    let mut out: Vec<u8> = Vec::new();
    let mut k: usize = 0;
    let mut start: usize = 0;
    while k < n
        invariant
            key@.len() == 16,
            n == padded@.len() / 16,
            16 * n == padded@.len(),
            padded@.len() <= usize::MAX,
            k <= n,
            start == 16 * k,
            out@ == ecb_blocks(key@, padded@, k as nat),
            forall|i: int, x: Seq<u8>|
                #![trigger aes128_encrypt_block(key@, x), block_at(padded@, i)]
                0 <= i < k && x.len() == 16 && aes128_encrypt_block(key@, x)@
                    == aes128_encrypt_block(key@, block_at(padded@, i))@ ==> x == block_at(padded@, i),
        decreases n - k,
    {
        let blk = block_of(padded, start);
        let e = aes128_encrypt(key, blk.as_slice());
        append_bytes(&mut out, &e);
        k = k + 1;
        start = start + 16;
    }
    proof {
        lemma_ecb_blocks(key@, padded@, n as nat);
    }
    out
}

/// Decrypts `c`, whose length is a whole number of blocks, in ECB mode.
/// Where `c` is the ECB encryption of some `q`, the result is `q`.
pub(crate) fn ecb_decrypt_blocks_exec(c: &[u8], key: &[u8]) -> (r: Vec<u8>)
    requires
        key@.len() == 16,
        c@.len() % 16 == 0,
    ensures
        r@ == ecb_decrypt_spec(key@, c@),
        forall|q: Seq<u8>|
            q.len() == c@.len() && #[trigger] ecb_blocks(key@, q, c@.len() / 16) == c@ ==> r@ == q,
{
    let n: usize = c.len() / BLOCK_SIZE;
    let mut out: Vec<u8> = Vec::new();
    let mut k: usize = 0;
    let mut start: usize = 0;
    while k < n
        invariant
            key@.len() == 16,
            n == c@.len() / 16,
            16 * n == c@.len(),
            c@.len() <= usize::MAX,
            k <= n,
            start == 16 * k,
            out@ == ecb_decrypt_blocks(key@, c@, k as nat),
            forall|q: Seq<u8>|
                q.len() == c@.len() && #[trigger] ecb_blocks(key@, q, n as nat) == c@ ==> out@
                    == q.subrange(0, 16 * k),
        decreases n - k,
    {
        let blk = block_of(c, start);
        let d = aes128_decrypt(key, blk.as_slice());
        let ghost prev = out@;
        append_bytes(&mut out, &d);
        assert forall|q: Seq<u8>|
            q.len() == c@.len() && #[trigger] ecb_blocks(key@, q, n as nat) == c@ implies out@
                == q.subrange(0, 16 * (k + 1)) by {
            lemma_ecb_blocks(key@, q, n as nat);
            assert(block_at(c@, k as int) == aes128_encrypt_block(key@, block_at(q, k as int))@);
            assert(out@ =~= q.subrange(0, 16 * (k + 1)));
        }
        k = k + 1;
        start = start + 16;
    }
    proof {
        assert forall|q: Seq<u8>|
            q.len() == c@.len() && #[trigger] ecb_blocks(key@, q, c@.len() / 16) == c@ implies out@
                == q by {
            assert(q.subrange(0, 16 * n) =~= q);
        }
    }
    out
}

/// Encrypts `padded`, whose length is a whole number of blocks, in CBC mode.
fn cbc_encrypt_blocks(padded: &[u8], key: &[u8], iv: &[u8]) -> (r: Vec<u8>)
    requires
        key@.len() == 16,
        iv@.len() == 16,
        padded@.len() % 16 == 0,
    ensures
        r@ == cbc_blocks(key@, iv@, padded@, padded@.len() / 16),
{
    let n: usize = padded.len() / BLOCK_SIZE;
    let mut out: Vec<u8> = Vec::new();
    let mut chain: Vec<u8> = copy_bytes(iv);
    let mut k: usize = 0;
    let mut start: usize = 0;
    while k < n
        invariant
            key@.len() == 16,
            iv@.len() == 16,
            n == padded@.len() / 16,
            16 * n == padded@.len(),
            padded@.len() <= usize::MAX,
            k <= n,
            start == 16 * k,
            chain@ == cbc_chain(key@, iv@, padded@, k as nat),
            chain@.len() == 16,
            out@ == cbc_blocks(key@, iv@, padded@, k as nat),
        decreases n - k,
    {
        let blk = block_of(padded, start);
        let x = fixed_xor(blk.as_slice(), chain.as_slice());
        let e = aes128_encrypt(key, x.as_slice());
        append_bytes(&mut out, &e);
        chain = copy_bytes(&e);
        k = k + 1;
        start = start + 16;
    }
    out
}

/// Decrypts `c`, whose length is a whole number of blocks, in CBC mode.
/// Where `c` is the CBC encryption of some `q` from `iv`, the result is `q`.
fn cbc_decrypt_blocks_exec(c: &[u8], key: &[u8], iv: &[u8]) -> (r: Vec<u8>)
    requires
        key@.len() == 16,
        iv@.len() == 16,
        c@.len() % 16 == 0,
    ensures
        r@ == cbc_decrypt_spec(key@, iv@, c@),
        forall|q: Seq<u8>|
            q.len() == c@.len() && #[trigger] cbc_blocks(key@, iv@, q, c@.len() / 16) == c@ ==> r@
                == q,
{
    let n: usize = c.len() / BLOCK_SIZE;
    let mut out: Vec<u8> = Vec::new();
    let mut prev: Vec<u8> = copy_bytes(iv);
    let mut k: usize = 0;
    let mut start: usize = 0;
    while k < n
        invariant
            key@.len() == 16,
            iv@.len() == 16,
            n == c@.len() / 16,
            16 * n == c@.len(),
            c@.len() <= usize::MAX,
            k <= n,
            start == 16 * k,
            prev@ == cbc_prev(iv@, c@, k as int),
            prev@.len() == 16,
            out@ == cbc_decrypt_blocks(key@, iv@, c@, k as nat),
            forall|q: Seq<u8>|
                q.len() == c@.len() && #[trigger] cbc_blocks(key@, iv@, q, n as nat) == c@ ==> out@
                    == q.subrange(0, 16 * k),
        decreases n - k,
    {
        let blk = block_of(c, start);
        let d = aes128_decrypt(key, blk.as_slice());
        let x = fixed_xor(&d, prev.as_slice());
        append_bytes(&mut out, x.as_slice());
        assert forall|q: Seq<u8>|
            q.len() == c@.len() && #[trigger] cbc_blocks(key@, iv@, q, n as nat) == c@ implies out@
                == q.subrange(0, 16 * (k + 1)) by {
            lemma_cbc_blocks(key@, iv@, q, n as nat);
            let qb = block_at(q, k as int);
            let ch = cbc_chain(key@, iv@, q, k as nat);
            assert(prev@ == ch);
            assert(block_at(c@, k as int) == aes128_encrypt_block(key@, xor_seq(qb, ch))@);
            assert(d@ == xor_seq(qb, ch));
            lemma_xor_cancel(qb, ch);
            assert(out@ =~= q.subrange(0, 16 * (k + 1)));
        }
        prev = blk;
        k = k + 1;
        start = start + 16;
    }
    proof {
        assert forall|q: Seq<u8>|
            q.len() == c@.len() && #[trigger] cbc_blocks(key@, iv@, q, c@.len() / 16) == c@ implies out@
                == q by {
            assert(q.subrange(0, 16 * n) =~= q);
        }
    }
    out
}

/// Encrypts `plaintext_bytes` under `key_bytes` in ECB mode: the message is
/// padded, and each block is encrypted on its own.
pub fn aes_ecb_encrypt(plaintext_bytes: &[u8], key_bytes: &[u8]) -> (r: Result<Vec<u8>, CryptError>)
    requires
        plaintext_bytes@.len() + 16 <= usize::MAX,
    ensures
        match r {
            Ok(c) => key_bytes@.len() == 16 && c@ == ecb_encrypt_spec(key_bytes@, plaintext_bytes@),
            Err(e) => key_bytes@.len() != 16 && e == CryptError::InvalidKeyLength,
        },
{
    if key_bytes.len() != BLOCK_SIZE {
        return Err(CryptError::InvalidKeyLength);
    }
    let padded = pkcs_padding(plaintext_bytes, BLOCK_SIZE);
    Ok(ecb_encrypt_blocks(padded.as_slice(), key_bytes))
}

/// Decrypts `encrypted_bytes` under `key_bytes` in ECB mode, block by block;
/// the padding is not removed.
///
/// Decrypting the ECB encryption of a message gives the padded message back.
pub fn aes_ecb_decrypt(encrypted_bytes: &[u8], key_bytes: &[u8]) -> (r: Result<Vec<u8>, CryptError>)
    ensures
        match r {
            Ok(p) => {
                &&& key_bytes@.len() == 16
                &&& encrypted_bytes@.len() % 16 == 0
                &&& p@ == ecb_decrypt_spec(key_bytes@, encrypted_bytes@)
                &&& forall|m: Seq<u8>|
                    #[trigger] ecb_encrypt_spec(key_bytes@, m) == encrypted_bytes@ ==> p@ == pkcs7_pad(
                        m,
                        16,
                    )
            },
            Err(e) => {
                ||| key_bytes@.len() != 16 && e == CryptError::InvalidKeyLength
                ||| key_bytes@.len() == 16 && encrypted_bytes@.len() % 16 != 0 && e
                    == CryptError::InvalidLength
            },
        },
{
    if key_bytes.len() != BLOCK_SIZE {
        return Err(CryptError::InvalidKeyLength);
    }
    if encrypted_bytes.len() % BLOCK_SIZE != 0 {
        return Err(CryptError::InvalidLength);
    }
    let p = ecb_decrypt_blocks_exec(encrypted_bytes, key_bytes);
    proof {
        assert forall|m: Seq<u8>|
            #[trigger] ecb_encrypt_spec(key_bytes@, m) == encrypted_bytes@ implies p@ == pkcs7_pad(
            m,
            16,
        ) by {
            let q = pkcs7_pad(m, 16);
            lemma_padded_len(m.len(), 16);
            lemma_ecb_blocks(key_bytes@, q, q.len() / 16);
        }
    }
    Ok(p)
}

/// Encrypts `plaintext_bytes` under `key_bytes` in CBC mode from `iv_bytes`:
/// the message is padded, and each block is XORed with the preceding
/// ciphertext block (the IV for the first) before it is encrypted.
pub fn aes_cbc_encrypt(plaintext_bytes: &[u8], key_bytes: &[u8], iv_bytes: &[u8]) -> (r: Result<
    Vec<u8>,
    CryptError,
>)
    requires
        plaintext_bytes@.len() + 16 <= usize::MAX,
    ensures
        match r {
            Ok(c) => {
                &&& key_bytes@.len() == 16
                &&& iv_bytes@.len() == 16
                &&& c@ == cbc_encrypt_spec(key_bytes@, iv_bytes@, plaintext_bytes@)
            },
            Err(e) => {
                ||| key_bytes@.len() != 16 && e == CryptError::InvalidKeyLength
                ||| key_bytes@.len() == 16 && iv_bytes@.len() != 16 && e == CryptError::InvalidIvLength
            },
        },
{
    if key_bytes.len() != BLOCK_SIZE {
        return Err(CryptError::InvalidKeyLength);
    }
    if iv_bytes.len() != BLOCK_SIZE {
        return Err(CryptError::InvalidIvLength);
    }
    let padded = pkcs_padding(plaintext_bytes, BLOCK_SIZE);
    Ok(cbc_encrypt_blocks(padded.as_slice(), key_bytes, iv_bytes))
}

/// Decrypts `encrypted_bytes` under `key_bytes` in CBC mode from `iv_bytes`;
/// the padding is not removed.
///
/// Decrypting the CBC encryption of a message under the same key and IV
/// gives the padded message back.
pub fn aes_cbc_decrypt(encrypted_bytes: &[u8], key_bytes: &[u8], iv_bytes: &[u8]) -> (r: Result<
    Vec<u8>,
    CryptError,
>)
    ensures
        match r {
            Ok(p) => {
                &&& key_bytes@.len() == 16
                &&& iv_bytes@.len() == 16
                &&& encrypted_bytes@.len() % 16 == 0
                &&& p@ == cbc_decrypt_spec(key_bytes@, iv_bytes@, encrypted_bytes@)
                &&& forall|m: Seq<u8>|
                    #[trigger] cbc_encrypt_spec(key_bytes@, iv_bytes@, m) == encrypted_bytes@ ==> p@
                        == pkcs7_pad(m, 16)
            },
            Err(e) => {
                ||| key_bytes@.len() != 16 && e == CryptError::InvalidKeyLength
                ||| key_bytes@.len() == 16 && iv_bytes@.len() != 16 && e == CryptError::InvalidIvLength
                ||| key_bytes@.len() == 16 && iv_bytes@.len() == 16 && encrypted_bytes@.len() % 16 != 0
                    && e == CryptError::InvalidLength
            },
        },
{
    if key_bytes.len() != BLOCK_SIZE {
        return Err(CryptError::InvalidKeyLength);
    }
    if iv_bytes.len() != BLOCK_SIZE {
        return Err(CryptError::InvalidIvLength);
    }
    if encrypted_bytes.len() % BLOCK_SIZE != 0 {
        return Err(CryptError::InvalidLength);
    }
    let p = cbc_decrypt_blocks_exec(encrypted_bytes, key_bytes, iv_bytes);
    proof {
        assert forall|m: Seq<u8>|
            #[trigger] cbc_encrypt_spec(key_bytes@, iv_bytes@, m) == encrypted_bytes@ implies p@
                == pkcs7_pad(m, 16) by {
            let q = pkcs7_pad(m, 16);
            lemma_padded_len(m.len(), 16);
            lemma_cbc_blocks(key_bytes@, iv_bytes@, q, q.len() / 16);
        }
    }
    Ok(p)
}

/// Two equal plaintext blocks encrypt to two equal ciphertext blocks in ECB
/// mode: the mode carries no state from one block to the next.
pub proof fn lemma_ecb_equal_blocks_equal_output(key: Seq<u8>, a: Seq<u8>, b: Seq<u8>)
    requires
        a.len() == 16,
        a == b,
    ensures
        ecb_encrypt_spec(key, a + b).len() >= 32,
        block_at(ecb_encrypt_spec(key, a + b), 0) == block_at(ecb_encrypt_spec(key, a + b), 1),
{
    let q = pkcs7_pad(a + b, 16);
    lemma_padded_len(32, 16);
    lemma_ecb_blocks(key, q, q.len() / 16);
    assert(block_at(q, 0) =~= a);
    assert(block_at(q, 1) =~= b);
}

} // verus!
