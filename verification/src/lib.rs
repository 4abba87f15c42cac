//! An encrypted, device-bound document vault.
//!
//! Each registered document is rasterized page by page; every page is
//! repacked to packed RGB, encrypted, and stored under a deterministic name,
//! while a single encrypted ledger records each document's page geometry,
//! its open-count policy, and the identity of the storage device the vault
//! is bound to. Viewing sessions enforce the device binding and the
//! open-count ceiling, navigate within a document's pages, and commit every
//! granted viewing back to the ledger.
//!
//! All reading of files, rasterization and display is the embedding
//! program's business: this crate holds the decisions and the data, with
//! their contracts. The cipher and the hex decoding of the provisioning
//! material are outside crates, trusted at their stated contracts; all else
//! is verified.

use vstd::prelude::*;

pub mod codec;
pub mod errors;
pub mod keys;
pub mod ledger;
pub mod ledger_format;
pub mod naming;
pub mod pagestore;
pub mod registration;
pub mod session;
pub mod strings;
pub mod vault;

verus! {

/// Width and height, in pixels, of one rendered page. Decrypted page bytes
/// carry no dimensions of their own, so the geometry is recorded beside them.
pub struct PageGeometry {
    pub width: u32,
    pub height: u32,
}

} // verus!
