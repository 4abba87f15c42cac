//! Authenticated encryption shared by the ledger and every stored page.
//!
//! The vault performs all of its encryption under one fixed 256-bit key and
//! one fixed 192-bit nonce, so for a given configuration the ciphertext is a
//! function of the plaintext alone. That function is named `encrypt_of`; the
//! two trusted wrappers below relate the cipher's encrypt and decrypt calls
//! to it, and everything else is proved from those contracts.

use vstd::prelude::*;

use chacha20poly1305::aead::Aead;
use chacha20poly1305::{KeyInit, XChaCha20Poly1305};

verus! {

/// The ciphertext that the cipher produces for plaintext `pt` under `key` and
/// `nonce`. XChaCha20-Poly1305 encryption is deterministic in those three
/// inputs, so the result is a function of them alone.
pub uninterp spec fn encrypt_of(key: Seq<u8>, nonce: Seq<u8>, pt: Seq<u8>) -> Seq<u8>;

/// The fixed key and nonce a vault was provisioned with. Shared by every
/// encryption the vault performs, for the ledger and for every page.
pub struct CryptoConfig {
    pub key: [u8; 32],
    pub nonce: [u8; 24],
}

/// Largest plaintext byte count the cipher accepts: below 64 bytes per block
/// times a 32-bit block counter.
pub open spec fn cipher_len_cap() -> int {
    0xFFFF_FFFFint * 64
}

/// Relies on `chacha20poly1305::XChaCha20Poly1305` through `aead::Aead::encrypt`:
/// deterministic in key, nonce and plaintext; the ciphertext is the plaintext
/// length plus a 16-byte tag; the call fails exactly when the plaintext is at
/// or beyond the cipher's 32-bit block-counter cap.
#[verifier::external_body]
pub(crate) fn xchacha_encrypt(key: &[u8; 32], nonce: &[u8; 24], pt: &Vec<u8>) -> (r: Option<
    Vec<u8>,
>)
    ensures
        r matches Some(ct) ==> ct@ == encrypt_of(key@, nonce@, pt@) && ct@.len() == pt@.len()
            + 16,
        r is Some <==> pt@.len() < cipher_len_cap(),
{
    let cipher = XChaCha20Poly1305::new(&(*key).into());
    cipher.encrypt(&(*nonce).into(), pt.as_slice()).ok()
}

/// Relies on `chacha20poly1305::XChaCha20Poly1305` through `aead::Aead::decrypt`:
/// the tag is a deterministic function of the ciphertext body under the fixed
/// key and nonce, so decryption succeeds exactly on the ciphertexts that
/// encryption produces, and then returns the plaintext that produced them.
#[verifier::external_body]
pub(crate) fn xchacha_decrypt(key: &[u8; 32], nonce: &[u8; 24], ct: &Vec<u8>) -> (r: Option<
    Vec<u8>,
>)
    ensures
        r matches Some(pt) ==> ct@ == encrypt_of(key@, nonce@, pt@),
        r is None ==> forall|pt: Seq<u8>| ct@ != encrypt_of(key@, nonce@, pt),
        r matches Some(p) ==> forall|pt: Seq<u8>|
            ct@ == encrypt_of(key@, nonce@, pt) ==> p@ == pt,
{
    let cipher = XChaCha20Poly1305::new(&(*key).into());
    cipher.decrypt(&(*nonce).into(), ct.as_slice()).ok()
}

/// Encrypt one opaque byte buffer under the vault's configuration.
pub fn encrypt_payload(cfg: &CryptoConfig, pt: &Vec<u8>) -> (r: Result<Vec<u8>, crate::errors::VaultError>)
    ensures
        r matches Ok(ct) ==> ct@ == encrypt_of(cfg.key@, cfg.nonce@, pt@) && ct@.len() == pt@.len() + 16,
        r is Ok <==> pt@.len() < cipher_len_cap(),
        r is Err ==> r == Err::<Vec<u8>, crate::errors::VaultError>(
            crate::errors::VaultError::PayloadTooLarge,
        ),
{
    match xchacha_encrypt(&cfg.key, &cfg.nonce, pt) {
        Some(ct) => Ok(ct),
        None => Err(crate::errors::VaultError::PayloadTooLarge),
    }
}

/// Decrypt one opaque byte buffer under the vault's configuration. Succeeds
/// exactly on ciphertexts that `encrypt_of` maps some plaintext to; any other
/// buffer, a tampered one included, is an authentication failure.
pub fn decrypt_payload(cfg: &CryptoConfig, ct: &Vec<u8>) -> (r: Result<Vec<u8>, crate::errors::VaultError>)
    ensures
        r matches Ok(pt) ==> ct@ == encrypt_of(cfg.key@, cfg.nonce@, pt@),
        r matches Ok(p) ==> forall|pt: Seq<u8>|
            ct@ == encrypt_of(cfg.key@, cfg.nonce@, pt) ==> p@ == pt,
        r is Ok <==> exists|pt: Seq<u8>| ct@ == encrypt_of(cfg.key@, cfg.nonce@, pt),
        r is Err ==> r == Err::<Vec<u8>, crate::errors::VaultError>(
            crate::errors::VaultError::AuthenticationError,
        ),
{
    match xchacha_decrypt(&cfg.key, &cfg.nonce, ct) {
        Some(pt) => Ok(pt),
        None => Err(crate::errors::VaultError::AuthenticationError),
    }
}

} // verus!
