use crate::blocks::{append_bytes, block_at, block_of, bytes_equal, copy_bytes, BLOCK_SIZE};
use crate::cipher::{aes128_encrypt_block, random_key};
use crate::error::CryptError;
use crate::modes::{ecb_encrypt_blocks, ecb_encrypt_spec, lemma_ecb_blocks};
use crate::padding::{lemma_padded_len, pad_count, pkcs7_pad, pkcs_padding};
use vstd::arithmetic::div_mod::{lemma_fundamental_div_mod, lemma_fundamental_div_mod_converse_mod};
use vstd::prelude::*;

verus! {

/// The most probes that the length search makes.
pub const MAX_PROBES: usize = 256;

/// The byte the attacker repeats in its chosen inputs (`b'A'`).
pub const FILLER: u8 = 65;

/// An ECB encryption oracle: it appends a fixed secret suffix to whatever the
/// attacker hands it and encrypts the whole in ECB mode under a fixed key.
pub struct EcbOracle {
    key: Vec<u8>,
    suffix: Vec<u8>,
}

/// Length of the padded encryption of an `n`-byte message.
pub open spec fn padded_len(n: nat) -> nat {
    n + pad_count(n, 16)
}

/// The fifteen bytes that precede byte `j` of the suffix `s` in the block
/// that the attack aims at: filler where the block starts before the
/// suffix, suffix bytes after that.
pub open spec fn attack_window(s: Seq<u8>, j: int) -> Seq<u8> {
    Seq::new(15, |t: int| if j + t < 15 { FILLER } else { s[j + t - 15] })
}

/// `n` filler bytes.
pub open spec fn filler(n: nat) -> Seq<u8> {
    Seq::new(n, |t: int| FILLER)
}

impl EcbOracle {
    /// The secret key.
    pub closed spec fn key_spec(&self) -> Seq<u8> {
        self.key@
    }

    /// The secret suffix appended to every input.
    pub closed spec fn suffix_spec(&self) -> Seq<u8> {
        self.suffix@
    }

    /// The key is one block long, and the suffix leaves room in a `usize`
    /// for the probes that the attack appends before it.
    pub closed spec fn wf(&self) -> bool {
        &&& self.key@.len() == 16
        &&& self.suffix@.len() + 2 * MAX_PROBES <= usize::MAX
    }

    /// An oracle with the given secret key and suffix.
    pub fn new(key: Vec<u8>, suffix: Vec<u8>) -> (r: Result<EcbOracle, CryptError>)
        requires
            suffix@.len() + 2 * MAX_PROBES <= usize::MAX,
        ensures
            match r {
                Ok(o) => {
                    &&& key@.len() == 16
                    &&& o.wf()
                    &&& o.key_spec() == key@
                    &&& o.suffix_spec() == suffix@
                },
                Err(e) => key@.len() != 16 && e == CryptError::InvalidKeyLength,
            },
    {
        if key.len() != BLOCK_SIZE {
            return Err(CryptError::InvalidKeyLength);
        }
        Ok(EcbOracle { key, suffix })
    }

    /// ECB encryption of `attacker` followed by the secret suffix. Each
    /// block of the answer is the image of its own plaintext block only.
    pub fn encrypt(&self, attacker: &[u8]) -> (r: Vec<u8>)
        requires
            self.wf(),
            attacker@.len() + self.suffix_spec().len() + 16 <= usize::MAX,
        ensures
            r@ == ecb_encrypt_spec(self.key_spec(), attacker@ + self.suffix_spec()),
            r@.len() == padded_len((attacker@ + self.suffix_spec()).len()),
            forall|i: int, x: Seq<u8>|
                #![trigger aes128_encrypt_block(self.key_spec(), x), block_at(pkcs7_pad(attacker@ + self.suffix_spec(), 16), i)]
                0 <= i < r@.len() / 16 && x.len() == 16 && aes128_encrypt_block(self.key_spec(), x)@
                    == aes128_encrypt_block(
                    self.key_spec(),
                    block_at(pkcs7_pad(attacker@ + self.suffix_spec(), 16), i),
                )@ ==> x == block_at(pkcs7_pad(attacker@ + self.suffix_spec(), 16), i),
    {
        let mut input: Vec<u8> = copy_bytes(attacker);
        append_bytes(&mut input, self.suffix.as_slice());
        let padded = pkcs_padding(input.as_slice(), BLOCK_SIZE);
        ecb_encrypt_blocks(padded.as_slice(), self.key.as_slice())
    }
}

/// Padded lengths as the input grows by `i` bytes: unchanged until the
/// input reaches the next multiple of 16, one block more there.
proof fn lemma_probe_len(s: nat, i: nat)
    requires
        s % 16 + i <= 16,
    ensures
        s % 16 + i < 16 ==> padded_len(s + i) == padded_len(s),
        s % 16 + i == 16 ==> padded_len(s + i) == padded_len(s) + 16,
{
    let q = s as int / 16;
    let r = s as int % 16;
    lemma_fundamental_div_mod(s as int, 16);
    if r + i < 16 {
        lemma_fundamental_div_mod_converse_mod((s + i) as int, 16, q, r + i);
    } else {
        lemma_fundamental_div_mod_converse_mod((s + i) as int, 16, q + 1, 0);
    }
}

/// Feeds the oracle ever longer runs of filler until its answer grows.
/// Returns the length of the answer to the empty input, the input length at
/// which it grew, and the grown length.
fn length_jump(oracle: &EcbOracle) -> (r: Option<(usize, usize, usize)>)
    requires
        oracle.wf(),
    ensures
        match r {
            Some((initial, n, grown)) => {
                &&& initial == padded_len(oracle.suffix_spec().len())
                &&& n == 16 - oracle.suffix_spec().len() % 16
                &&& grown == initial + 16
            },
            None => false,
        },
{
    let ghost s = oracle.suffix_spec();
    let empty: Vec<u8> = Vec::new();
    let initial: usize = oracle.encrypt(empty.as_slice()).len();
    assert(empty@ + s =~= s);
    let mut input: Vec<u8> = Vec::new();
    while input.len() < MAX_PROBES
        invariant
            oracle.wf(),
            s == oracle.suffix_spec(),
            initial == padded_len(s.len()),
            input@.len() + s.len() % 16 < 16,
        decreases MAX_PROBES - input@.len(),
    {
        input.push(FILLER);
        let len: usize = oracle.encrypt(input.as_slice()).len();
        proof {
            lemma_probe_len(s.len(), input@.len());
        }
        if len != initial {
            return Some((initial, input.len(), len));
        }
    }
    None
}

/// The block size of the oracle's cipher, found by growing the input one
/// byte at a time until the answer grows, and measuring by how much.
pub fn find_blocksize(oracle: &EcbOracle) -> (r: Result<usize, CryptError>)
    requires
        oracle.wf(),
    ensures
        r == Ok::<usize, CryptError>(16),
{
    match length_jump(oracle) {
        Some((initial, _, grown)) => Ok(grown - initial),
        None => Err(CryptError::OracleNotLengthDeterministic),
    }
}

/// The length of the oracle's secret suffix: the answer to the empty input
/// less the input length at which the answer grows.
pub fn find_suffix_len(oracle: &EcbOracle) -> (r: Result<usize, CryptError>)
    requires
        oracle.wf(),
    ensures
        r == Ok::<usize, CryptError>(oracle.suffix_spec().len() as usize),
{
    match length_jump(oracle) {
        Some((initial, n, _)) => {
            proof {
                lemma_padded_len(oracle.suffix_spec().len(), 16);
            }
            Ok(initial - n)
        },
        None => Err(CryptError::OracleNotLengthDeterministic),
    }
}

/// The block of the oracle's answer to `15 - j % 16` filler bytes that ends
/// with byte `j` of the suffix: the attack window, then that byte.
proof fn lemma_target_block(s: Seq<u8>, j: int)
    requires
        0 <= j < s.len(),
    ensures
        16 * (j / 16) + 16 <= (filler((15 - j % 16) as nat) + s).len(),
        block_at(pkcs7_pad(filler((15 - j % 16) as nat) + s, 16), j / 16) == attack_window(s, j).push(
            s[j],
        ),
{
    let p = 15 - j % 16;
    let b = j / 16;
    let x = filler(p as nat) + s;
    lemma_fundamental_div_mod(j, 16);
    assert(p + j == 15 + 16 * b);
    let q = pkcs7_pad(x, 16);
    assert forall|t: int| 0 <= t < 16 implies #[trigger] block_at(q, b)[t] == attack_window(s, j).push(
        s[j],
    )[t] by {
        assert(q[16 * b + t] == x[16 * b + t]);
        if t < 15 && j + t >= 15 {
            assert(x[16 * b + t] == s[16 * b + t - p]);
        }
    }
    assert(block_at(q, b) =~= attack_window(s, j).push(s[j]));
}

/// The first block of the oracle's answer to a whole block `w` of input is
/// the encryption of `w`.
proof fn lemma_probe_block(s: Seq<u8>, w: Seq<u8>)
    requires
        w.len() == 16,
    ensures
        block_at(pkcs7_pad(w + s, 16), 0) == w,
{
    assert(block_at(pkcs7_pad(w + s, 16), 0) =~= w);
}

/// Recovers byte `j` of the oracle's suffix, given the bytes before it.
///
/// The oracle is asked to encrypt `15 - j % 16` filler bytes, which puts byte
/// `j` last in a block behind fifteen bytes the attacker knows. A dictionary
/// holds the encryption of those fifteen bytes followed by each of the 256
/// byte values; the one entry equal to the target block names the byte.
fn recover_byte(oracle: &EcbOracle, known: &[u8], j: usize) -> (r: u8)
    requires
        oracle.wf(),
        j < oracle.suffix_spec().len(),
        known@ == oracle.suffix_spec().subrange(0, j as int),
    ensures
        r == oracle.suffix_spec()[j as int],
{
    let ghost s = oracle.suffix_spec();
    let ghost key = oracle.key_spec();
    let p: usize = 15 - j % BLOCK_SIZE;
    let mut prefix: Vec<u8> = Vec::new();
    while prefix.len() < p
        invariant
            p <= 15,
            prefix@.len() <= p,
            prefix@ == filler(prefix@.len()),
        decreases p - prefix@.len(),
    {
        prefix.push(FILLER);
        assert(prefix@ =~= filler(prefix@.len()));
    }
    let answer = oracle.encrypt(prefix.as_slice());
    let ghost q = pkcs7_pad(prefix@ + s, 16);
    let ghost b = j / 16;
    proof {
        lemma_target_block(s, j as int);
        lemma_fundamental_div_mod(j as int, 16);
        lemma_padded_len((prefix@ + s).len(), 16);
        lemma_ecb_blocks(key, q, q.len() / 16);
    }
    let target = block_of(answer.as_slice(), j - j % BLOCK_SIZE);
    assert(target@ == block_at(answer@, b as int));
    assert(target@ == aes128_encrypt_block(key, block_at(q, b as int))@);

    let mut window: Vec<u8> = Vec::new();
    let mut t: usize = 0;
    while t < 15
        invariant
            oracle.wf(),
            s == oracle.suffix_spec(),
            j < s.len(),
            known@ == s.subrange(0, j as int),
            t <= 15,
            window@ == attack_window(s, j as int).subrange(0, t as int),
        decreases 15 - t,
    {
        if j + t < 15 {
            window.push(FILLER);
        } else {
            window.push(known[j + t - 15]);
        }
        t = t + 1;
        assert(window@ =~= attack_window(s, j as int).subrange(0, t as int));
    }
    assert(window@ =~= attack_window(s, j as int));

    let mut dict: Vec<Vec<u8>> = Vec::new();
    let mut c: usize = 0;
    while c < 256
        invariant
            oracle.wf(),
            s == oracle.suffix_spec(),
            key == oracle.key_spec(),
            window@ == attack_window(s, j as int),
            c <= 256,
            dict@.len() == c,
            forall|d: int|
                0 <= d < c ==> #[trigger] dict@[d]@ == aes128_encrypt_block(key, window@.push(d as u8))@,
        decreases 256 - c,
    {
        let mut probe: Vec<u8> = copy_bytes(window.as_slice());
        probe.push(c as u8);
        let e = oracle.encrypt(probe.as_slice());
        proof {
            let pq = pkcs7_pad(probe@ + s, 16);
            lemma_probe_block(s, probe@);
            lemma_padded_len((probe@ + s).len(), 16);
            lemma_ecb_blocks(key, pq, pq.len() / 16);
        }
        let first = block_of(e.as_slice(), 0);
        assert(first@ == block_at(e@, 0));
        dict.push(first);
        c = c + 1;
    }

    let ghost byte = s[j as int];
    assert(dict@[byte as int]@ == target@) by {
        assert(window@.push(byte) == block_at(q, b as int));
    }
    assert(b < answer@.len() / 16);
    assert forall|x: Seq<u8>|
        x.len() == 16 && #[trigger] aes128_encrypt_block(key, x)@ == aes128_encrypt_block(
            key,
            block_at(q, b as int),
        )@ implies x == block_at(q, b as int) by {
        assert(aes128_encrypt_block(key, x)@ == aes128_encrypt_block(key, block_at(q, b as int))@);
    }
    let mut c: usize = 0;
    while c < 256
        invariant
            dict@.len() == 256,
            c <= 256,
            window@.len() == 15,
            target@ == aes128_encrypt_block(key, block_at(q, b as int))@,
            forall|d: int|
                0 <= d < 256 ==> #[trigger] dict@[d]@ == aes128_encrypt_block(key, window@.push(d as u8))@,
            forall|x: Seq<u8>|
                x.len() == 16 && #[trigger] aes128_encrypt_block(key, x)@ == aes128_encrypt_block(
                    key,
                    block_at(q, b as int),
                )@ ==> x == block_at(q, b as int),
            block_at(q, b as int) == window@.push(byte),
            s == oracle.suffix_spec(),
            j < s.len(),
            byte == s[j as int],
            forall|d: int| 0 <= d < c ==> #[trigger] dict@[d]@ != target@,
        decreases 256 - c,
    {
        if bytes_equal(dict[c].as_slice(), target.as_slice()) {
            assert(window@.push(c as u8) == block_at(q, b as int));
            assert(window@.push(c as u8)[15] == c as u8);
            return c as u8;
        }
        c = c + 1;
    }
    // Not reached: the entry for the true byte equals the target block.
    FILLER
}

/// Recovers the whole secret suffix of `oracle` through chosen inputs
/// alone, one byte at a time.
pub fn attack_ecb_oracle(oracle: &EcbOracle) -> (r: Vec<u8>)
    requires
        oracle.wf(),
    ensures
        r@ == oracle.suffix_spec(),
{
    let ghost s = oracle.suffix_spec();
    let n: usize = match find_suffix_len(oracle) {
        Ok(n) => n,
        Err(_) => 0,
    };
    let mut recovered: Vec<u8> = Vec::new();
    let mut j: usize = 0;
    while j < n
        invariant
            oracle.wf(),
            s == oracle.suffix_spec(),
            n == s.len(),
            j <= n,
            recovered@ == s.subrange(0, j as int),
        decreases n - j,
    {
        let byte = recover_byte(oracle, recovered.as_slice(), j);
        recovered.push(byte);
        j = j + 1;
        assert(recovered@ =~= s.subrange(0, j as int));
    }
    assert(recovered@ =~= s);
    recovered
}

/// Hides `unknown` behind an ECB oracle with a freshly drawn random key and
/// recovers it through the oracle alone.
pub fn aes_decrypt(unknown: &[u8]) -> (r: Vec<u8>)
    requires
        unknown@.len() + 2 * MAX_PROBES <= usize::MAX,
    ensures
        r@ == unknown@,
{
    let oracle = EcbOracle { key: random_key(), suffix: copy_bytes(unknown) };
    attack_ecb_oracle(&oracle)
}

} // verus!
