use crate::blocks::{block_at, BLOCK_SIZE};
use crate::cipher::aes128_encrypt_block;
use crate::modes::{ecb_encrypt_spec, lemma_ecb_blocks};
use crate::padding::{lemma_padded_len, pkcs7_pad};
use vstd::prelude::*;

verus! {

/// Number of blocks the detector compares: every whole block of a buffer of
/// `len` bytes except the last one.
pub open spec fn compared_blocks(len: nat) -> nat {
    if len / 16 == 0 {
        0
    } else {
        (len / 16 - 1) as nat
    }
}

/// Two of the compared blocks of `c` are byte-for-byte equal.
pub open spec fn has_repeated_block(c: Seq<u8>) -> bool {
    exists|i: int, j: int|
        0 <= i < j < compared_blocks(c.len()) && #[trigger] block_at(c, i) == #[trigger] block_at(c, j)
}

/// The name of the mode that the detector reports for `c`.
pub open spec fn detected_mode(c: Seq<u8>) -> Seq<char> {
    if has_repeated_block(c) {
        "ECB"@
    } else {
        "CBC"@
    }
}

/// Whether blocks `i` and `j` of `l` hold the same bytes.
fn same_block(l: &[u8], i: usize, j: usize) -> (r: bool)
    requires
        16 * i + 16 <= l@.len(),
        16 * j + 16 <= l@.len(),
    ensures
        r == (block_at(l@, i as int) == block_at(l@, j as int)),
{
    let len: usize = l.len();
    assert(16 * i + 16 <= len && 16 * j + 16 <= len);
    let a: usize = i * BLOCK_SIZE;
    let b: usize = j * BLOCK_SIZE;
    let mut k: usize = 0;
    while k < BLOCK_SIZE
        invariant
            a == 16 * i,
            b == 16 * j,
            a + 16 <= l@.len(),
            b + 16 <= l@.len(),
            k <= 16,
            forall|t: int| 0 <= t < k ==> #[trigger] block_at(l@, i as int)[t] == block_at(l@, j as int)[t],
        decreases 16 - k,
    {
        if l[a + k] != l[b + k] {
            assert(block_at(l@, i as int)[k as int] != block_at(l@, j as int)[k as int]);
            return false;
        }
        k = k + 1;
    }
    assert(block_at(l@, i as int) =~= block_at(l@, j as int));
    true
}

/// Reports whether `l` looks ECB-encrypted: whether two of its whole blocks,
/// the last one left out, are identical.
pub fn is_aes_ecb_encrypted(l: &[u8]) -> (r: bool)
    ensures
        r == has_repeated_block(l@),
{
    let block_ct: usize = l.len() / BLOCK_SIZE;
    let m: usize = if block_ct == 0 {
        0
    } else {
        block_ct - 1
    };
    let mut i: usize = 0;
    while i < m
        invariant
            m == compared_blocks(l@.len()),
            16 * m <= l@.len(),
            i <= m,
            forall|x: int, y: int|
                0 <= x < i && x < y < m ==> #[trigger] block_at(l@, x) != #[trigger] block_at(l@, y),
        decreases m - i,
    {
        let mut j: usize = i + 1;
        while j < m
            invariant
                m == compared_blocks(l@.len()),
                16 * m <= l@.len(),
                i < m,
                i + 1 <= j <= m,
                forall|x: int, y: int|
                    0 <= x < i && x < y < m ==> #[trigger] block_at(l@, x) != #[trigger] block_at(l@, y),
                forall|y: int| i < y < j ==> block_at(l@, i as int) != #[trigger] block_at(l@, y),
            decreases m - j,
        {
            if same_block(l, i, j) {
                return true;
            }
            j = j + 1;
        }
        i = i + 1;
    }
    false
}

/// Names the mode that `encrypted` appears to be encrypted with: "ECB" when
/// it has a repeated block, "CBC" otherwise.
pub fn find_aes_encryption_mode(encrypted: &[u8]) -> (r: String)
    ensures
        r@ == detected_mode(encrypted@),
{
    if is_aes_ecb_encrypted(encrypted) {
        "ECB".to_string()
    } else {
        "CBC".to_string()
    }
}

/// Three equal blocks encrypted in ECB mode are detected as ECB.
pub proof fn lemma_ecb_repeats_detected(key: Seq<u8>, a: Seq<u8>)
    requires
        a.len() == 16,
    ensures
        has_repeated_block(ecb_encrypt_spec(key, a + a + a)),
        detected_mode(ecb_encrypt_spec(key, a + a + a)) == "ECB"@,
{
    let p = a + a + a;
    let q = pkcs7_pad(p, 16);
    let c = ecb_encrypt_spec(key, p);
    lemma_padded_len(48, 16);
    lemma_ecb_blocks(key, q, q.len() / 16);
    assert(q.len() == 64);
    assert(block_at(q, 0) =~= a);
    assert(block_at(q, 1) =~= a);
    assert(block_at(c, 0) == aes128_encrypt_block(key, block_at(q, 0))@);
    assert(block_at(c, 1) == aes128_encrypt_block(key, block_at(q, 1))@);
    assert(compared_blocks(c.len()) == 3);
    assert(block_at(c, 0) == block_at(c, 1));
}

} // verus!
