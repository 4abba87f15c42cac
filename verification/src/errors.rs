use vstd::prelude::*;

verus! {

/// Every failure the vault can report. Cryptographic and integrity failures
/// are never masked: they abort the enclosing operation with a distinguishable
/// kind.
#[derive(Clone, Copy, Debug, PartialEq, Eq, Structural)]
pub enum VaultError {
    /// The ledger file is absent.
    LedgerMissing,
    /// The ledger file decrypted but its plaintext did not parse.
    LedgerCorrupt,
    /// An authenticated decryption failed: the ciphertext was tampered with
    /// or was produced under another key or nonce.
    AuthenticationError,
    /// No stored ciphertext exists for the requested page.
    PageNotFound,
    /// A page decrypted to a byte count other than `width * height * 3`.
    CorruptPage,
    /// The ledger names a device other than the one the vault runs on.
    DeviceMismatch,
    /// A plaintext exceeds the cipher's length cap and cannot be encrypted.
    PayloadTooLarge,
}

} // verus!
