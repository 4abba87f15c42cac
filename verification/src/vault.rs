//! Persisting the ledger as one encrypted file.
//!
//! Saving serializes the whole database and encrypts the image under the
//! vault's fixed key and nonce; loading decrypts and parses it back. A load
//! of a saved ledger is proved to reproduce it exactly, and any tampered or
//! foreign file is rejected with a distinguishable error.

use vstd::prelude::*;

use crate::codec::{cipher_len_cap, decrypt_payload, encrypt_of, encrypt_payload, CryptoConfig};
use crate::errors::VaultError;
use crate::ledger::{db_wf, DbView, DB};
use crate::ledger_format::{
    db_in_range, decode_db, enc_db, encodable, encode_db, lemma_db_view_in_range,
    lemma_enc_dec_db, parse_db,
};

verus! {

/// The file a ledger is stored as: its serialized image, encrypted.
pub open spec fn spec_saved_ledger(key: Seq<u8>, nonce: Seq<u8>, v: DbView) -> Seq<u8> {
    encrypt_of(key, nonce, enc_db(v))
}

/// Serialize and encrypt the ledger. The result is the exact file image to
/// be written; failures come only from counts beyond the format's 32-bit
/// fields or a plaintext beyond the cipher's cap.
pub fn save_ledger(cfg: &CryptoConfig, db: &DB) -> (r: Result<Vec<u8>, VaultError>)
    requires
        db_wf(db@),
    ensures
        r matches Ok(ct) ==> ct@ == spec_saved_ledger(cfg.key@, cfg.nonce@, db@),
        r is Ok ==> encodable(db@) && db_in_range(db@),
        r is Ok <==> encodable(db@) && enc_db(db@).len() < cipher_len_cap(),
        r is Err ==> r == Err::<Vec<u8>, VaultError>(VaultError::PayloadTooLarge),
{
    match encode_db(db) {
        None => Err(VaultError::PayloadTooLarge),
        Some(pt) => {
            proof {
                lemma_db_view_in_range(db);
            }
            encrypt_payload(cfg, &pt)
        },
    }
}

/// Decrypt and parse a ledger file image. Loading what `save_ledger`
/// produced gives the saved ledger back; a file that no well-formed ledger
/// saves to is rejected, as an authentication failure when nothing decrypts
/// and as corruption when the plaintext does not parse.
pub fn load_ledger(cfg: &CryptoConfig, ct: &Vec<u8>) -> (r: Result<DB, VaultError>)
    ensures
        r matches Ok(d) ==> db_wf(d@),
        r matches Ok(d) ==> exists|pt: Seq<u8>|
            ct@ == encrypt_of(cfg.key@, cfg.nonce@, pt) && parse_db(pt) == Some::<DbView>(d@),
        r matches Ok(d) ==> forall|v: DbView|
            ct@ == spec_saved_ledger(cfg.key@, cfg.nonce@, v) && db_wf(v) && encodable(v)
                && db_in_range(v) ==> d@ == v,
        r is Err ==> !(exists|v: DbView|
            ct@ == spec_saved_ledger(cfg.key@, cfg.nonce@, v) && db_wf(v) && encodable(v)
                && db_in_range(v)),
        r == Err::<DB, VaultError>(VaultError::AuthenticationError) <==> !(exists|pt: Seq<u8>|
            ct@ == encrypt_of(cfg.key@, cfg.nonce@, pt)),
        r is Err ==> r == Err::<DB, VaultError>(VaultError::AuthenticationError) || r == Err::<
            DB,
            VaultError,
        >(VaultError::LedgerCorrupt),
{
    match decrypt_payload(cfg, ct) {
        Err(_) => Err(VaultError::AuthenticationError),
        Ok(pt) => {
            proof {
                assert(ct@ == encrypt_of(cfg.key@, cfg.nonce@, pt@));
            }
            match decode_db(&pt) {
                Err(_) => {
                    proof {
                        assert forall|v: DbView|
                            !(ct@ == spec_saved_ledger(cfg.key@, cfg.nonce@, v) && db_wf(v)
                                && encodable(v) && db_in_range(v)) by {
                            if ct@ == spec_saved_ledger(cfg.key@, cfg.nonce@, v) && db_wf(v)
                                && encodable(v) && db_in_range(v) {
                                assert(enc_db(v) == pt@);
                                lemma_enc_dec_db(v);
                            }
                        }
                    }
                    Err(VaultError::LedgerCorrupt)
                },
                Ok(d) => {
                    proof {
                        assert forall|v: DbView|
                            ct@ == spec_saved_ledger(cfg.key@, cfg.nonce@, v) && db_wf(v)
                                && encodable(v) && db_in_range(v) implies d@ == v by {
                            assert(enc_db(v) == pt@);
                            lemma_enc_dec_db(v);
                        }
                    }
                    Ok(d)
                },
            }
        },
    }
}

/// Interpret a ledger file that may be absent. An absent file is the
/// distinguished `LedgerMissing`, never conflated with a file that fails to
/// decrypt or parse; present content is loaded as `load_ledger` does.
pub fn load_ledger_file(cfg: &CryptoConfig, content: Option<&Vec<u8>>) -> (r: Result<
    DB,
    VaultError,
>)
    ensures
        r == Err::<DB, VaultError>(VaultError::LedgerMissing) <==> content is None,
        r matches Ok(d) ==> db_wf(d@),
        r matches Ok(d) ==> (content matches Some(ct) && exists|pt: Seq<u8>|
            ct@ == encrypt_of(cfg.key@, cfg.nonce@, pt) && parse_db(pt) == Some::<DbView>(d@)),
        r matches Ok(d) ==> forall|v: DbView|
            (content matches Some(ct) && ct@ == #[trigger] spec_saved_ledger(
                cfg.key@,
                cfg.nonce@,
                v,
            ) && db_wf(v) && encodable(v) && db_in_range(v)) ==> d@ == v,
        r is Err ==> !(content matches Some(ct) && exists|v: DbView|
            ct@ == spec_saved_ledger(cfg.key@, cfg.nonce@, v) && db_wf(v) && encodable(v)
                && db_in_range(v)),
{
    match content {
        None => Err(VaultError::LedgerMissing),
        Some(ct) => {
            match load_ledger(cfg, ct) {
                Ok(d) => Ok(d),
                Err(e) => Err(e),
            }
        },
    }
}

} // verus!
