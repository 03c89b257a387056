use vstd::prelude::*;

verus! {

/// Input-validation failures, detected before any block is transformed.
#[derive(Clone, Copy, Debug, PartialEq, Eq, Structural)]
pub enum CryptError {
    /// A buffer that must be split into whole blocks is not a multiple of
    /// the block size.
    InvalidLength,
    /// The key is not exactly one block long.
    InvalidKeyLength,
    /// The initialization vector is not exactly one block long.
    InvalidIvLength,
    /// Probing the oracle with growing inputs never changed the length of
    /// its output.
    OracleNotLengthDeterministic,
}

} // verus!
