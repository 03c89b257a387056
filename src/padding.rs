use vstd::arithmetic::div_mod::{lemma_fundamental_div_mod, lemma_fundamental_div_mod_converse_mod};
use vstd::prelude::*;

verus! {

/// Number of padding bytes added to a message of `len` bytes: between 1 and
/// `bs`, never 0 (an aligned message gets a whole block of padding).
pub open spec fn pad_count(len: nat, bs: nat) -> nat {
    (bs - len % bs) as nat
}

/// PKCS#7 padding: `pad_count` bytes appended, each holding that count.
pub open spec fn pkcs7_pad(m: Seq<u8>, bs: nat) -> Seq<u8> {
    let n = pad_count(m.len(), bs);
    m + Seq::new(n, |i: int| n as u8)
}

/// The padded length is the smallest multiple of `bs` above `len`.
pub proof fn lemma_padded_len(len: nat, bs: nat)
    requires
        bs > 0,
    ensures
        1 <= pad_count(len, bs) <= bs,
        (len + pad_count(len, bs)) % bs == 0,
        (len + pad_count(len, bs)) / bs == len / bs + 1,
        len < len + pad_count(len, bs) <= len + bs,
{
    let q = len as int / bs as int;
    let r = len as int % bs as int;
    lemma_fundamental_div_mod(len as int, bs as int);
    assert(len + pad_count(len, bs) == (q + 1) * bs + 0) by (nonlinear_arith)
        requires
            len == bs * q + r,
            pad_count(len, bs) == bs - r,
    ;
    lemma_fundamental_div_mod_converse_mod((len + pad_count(len, bs)) as int, bs as int, q + 1, 0);
    lemma_fundamental_div_mod((len + pad_count(len, bs)) as int, bs as int);
    assert((len + pad_count(len, bs)) / bs == q + 1) by (nonlinear_arith)
        requires
            len + pad_count(len, bs) == (q + 1) * bs,
            len + pad_count(len, bs) == bs * ((len + pad_count(len, bs)) / bs) + 0,
            bs > 0,
    ;
}

/// Pads `message` to a multiple of `block_size` with PKCS#7 padding.
///
/// Between 1 and `block_size` bytes are appended, each equal to the number
/// of bytes appended; the result length is the smallest multiple of
/// `block_size` that exceeds the message length.
pub fn pkcs_padding(message: &[u8], block_size: usize) -> (r: Vec<u8>)
    requires
        0 < block_size <= 255,
        message@.len() + block_size <= usize::MAX,
    ensures
        r@ == pkcs7_pad(message@, block_size as nat),
        r@.subrange(0, message@.len() as int) == message@,
        1 <= r@.len() - message@.len() <= block_size,
        forall|i: int|
            message@.len() <= i < r@.len() ==> #[trigger] r@[i] == (r@.len() - message@.len()) as u8,
        r@.len() % (block_size as nat) == 0,
        r@.len() - (block_size as int) <= message@.len() < r@.len(),
{
    proof {
        lemma_padded_len(message@.len(), block_size as nat);
    }
    let pad_ct: usize = block_size - message.len() % block_size;
    let mut bytes: Vec<u8> = Vec::new();
    let mut i: usize = 0;
    while i < message.len()
        invariant
            i <= message@.len(),
            bytes@ == message@.subrange(0, i as int),
        decreases message@.len() - i,
    {
        bytes.push(message[i]);
        i = i + 1;
        assert(bytes@ =~= message@.subrange(0, i as int));
    }
    let mut k: usize = 0;
    while k < pad_ct
        invariant
            pad_ct == pad_count(message@.len(), block_size as nat),
            pad_ct <= 255,
            k <= pad_ct,
            bytes@ == message@ + Seq::new(k as nat, |j: int| pad_ct as u8),
        decreases pad_ct - k,
    {
        bytes.push(pad_ct as u8);
        k = k + 1;
        assert(bytes@ =~= message@ + Seq::new(k as nat, |j: int| pad_ct as u8));
    }
    assert(bytes@.subrange(0, message@.len() as int) =~= message@);
    bytes
}

} // verus!
