//! Registering one document into the vault.
//!
//! Registration runs once per intake document: every page the rasterizer
//! yields is repacked, encrypted and handed back for storage while its
//! geometry is recorded, and only then is a ledger record built and
//! inserted. The caller must keep that order — the source document may be
//! removed only after every page ciphertext is durably written and the
//! ledger is persisted.

use vstd::prelude::*;

use crate::codec::{cipher_len_cap, encrypt_of, CryptoConfig};
use crate::errors::VaultError;
use crate::ledger::{
    contains_key, db_wf, doc_of, index_of_key, meta_wf, MetaData, MetaDataView, DB,
};
use crate::pagestore::{rgb_of_rgba, store_page};
use crate::strings::str_eq;

verus! {

/// The suffix that marks an intake file as a document.
pub open spec fn document_suffix() -> Seq<char> {
    seq!['.', 'p', 'd', 'f']
}

/// Whether an intake file name carries the document suffix; anything else
/// is skipped during registration.
pub fn is_document_file(name: &str) -> (r: bool)
    ensures
        r == (name@.len() >= 4 && name@.skip(name@.len() - 4) == document_suffix()),
{
    proof {
        reveal_strlit(".pdf");
    }
    let n = name.unicode_len();
    if n < 4 {
        return false;
    }
    let suffix = name.substring_char(n - 4, n);
    let r = str_eq(suffix, ".pdf");
    proof {
        assert(name@.skip(name@.len() - 4) =~= name@.subrange(name@.len() - 4, name@.len() as int));
        assert(".pdf"@ =~= document_suffix());
    }
    r
}

/// The pattern a document's stored page names follow, recorded in its
/// ledger entry: the key with a page-number placeholder and the stored-page
/// suffix.
pub open spec fn spec_glob_pattern(key: Seq<char>) -> Seq<char> {
    key + seq!['_', '@', '@', '.', 'e', 'n', 'c']
}

/// Render the stored-name pattern for a document key.
pub fn glob_pattern(key: &str) -> (r: String)
    ensures
        r@ == spec_glob_pattern(key@),
{
    proof {
        reveal_strlit("_@@.enc");
    }
    let mut s = key.to_owned();
    s.append("_@@.enc");
    proof {
        assert(s@ =~= spec_glob_pattern(key@));
    }
    s
}

/// One document's registration in progress: the pages stored so far and
/// their geometries, in page order.
pub struct Registration {
    /// The document's key: its intake path.
    pub key: String,
    /// Geometry of each page stored so far.
    pub geometries: Vec<(u32, u32)>,
}

/// An element-wise copy of a geometry table.
fn copy_geometries(v: &Vec<(u32, u32)>) -> (r: Vec<(u32, u32)>)
    ensures
        r@ == v@,
{
    let mut out: Vec<(u32, u32)> = Vec::new();
    let n = v.len();
    let mut i: usize = 0;
    while i < n
        invariant
            i <= n,
            n == v@.len(),
            out@ == v@.take(i as int),
        decreases n - i,
    {
        out.push(v[i]);
        proof {
            assert(v@.take(i as int).push(v@[i as int]) =~= v@.take(i + 1));
        }
        i = i + 1;
    }
    proof {
        assert(v@.take(n as int) =~= v@);
    }
    out
}

impl Registration {
    /// Begin registering the document keyed `key`; no pages yet.
    pub fn new(key: &str) -> (r: Registration)
        ensures
            r.key@ == key@,
            r.geometries@ == Seq::<(u32, u32)>::empty(),
    {
        let r = Registration { key: key.to_owned(), geometries: Vec::new() };
        proof {
            assert(r.geometries@ =~= Seq::<(u32, u32)>::empty());
        }
        r
    }

    /// Take the next page's raw RGBA raster: repack it to RGB, encrypt it,
    /// record its geometry. The result is the ciphertext to write under this
    /// page's index, which is the number of pages taken before it.
    pub fn add_page(&mut self, cfg: &CryptoConfig, rgba: &Vec<u8>, width: u32, height: u32) -> (r:
        Result<Vec<u8>, VaultError>)
        requires
            rgba@.len() == width * height * 4,
            old(self).geometries@.len() < i32::MAX,
        ensures
            final(self).key == old(self).key,
            r matches Ok(ct) ==> ct@ == encrypt_of(cfg.key@, cfg.nonce@, rgb_of_rgba(rgba@))
                && final(self).geometries@ == old(self).geometries@.push((width, height)),
            r is Ok <==> width * height * 3 < cipher_len_cap(),
            r is Err ==> final(self).geometries@ == old(self).geometries@ && r == Err::<
                Vec<u8>,
                VaultError,
            >(VaultError::PayloadTooLarge),
    {
        match store_page(cfg, rgba, width, height) {
            Ok((ct, _geometry)) => {
                self.geometries.push((width, height));
                Ok(ct)
            },
            Err(e) => Err(e),
        }
    }

    /// The number of pages stored so far: the next page's index.
    pub fn page_count(&self) -> (r: usize)
        ensures
            r == self.geometries@.len(),
    {
        self.geometries.len()
    }

    /// The ledger record for a completed registration: registration itself
    /// counts as the first grant, so the open count starts at one.
    pub fn build_record(&self, max_open_count: i8) -> (m: MetaData)
        requires
            self.geometries@.len() <= i32::MAX,
        ensures
            meta_wf(m@),
            m@.file_open_count == 1,
            m@.max_files_open_count == max_open_count as int,
            m@.renders_config == self.geometries@,
            m@.glob_pattern == spec_glob_pattern(self.key@),
            m@.number_of_images == self.geometries@.len(),
    {
        MetaData {
            file_open_count: 1,
            max_files_open_count: max_open_count,
            renders_config: copy_geometries(&self.geometries),
            glob_pattern: glob_pattern(self.key.as_str()),
            number_of_images: self.geometries.len() as i32,
        }
    }

    /// Finish: build the record and insert it into the ledger under the
    /// document's key, overwriting any record already there. The caller must
    /// persist the ledger afterwards.
    pub fn finish(&self, db: &mut DB, max_open_count: i8)
        requires
            db_wf(old(db)@),
            self.geometries@.len() <= i32::MAX,
        ensures
            db_wf(final(db)@),
            final(db)@.usb_id == old(db)@.usb_id,
            contains_key(final(db)@.docs, self.key@),
            doc_of(final(db)@.docs, self.key@) == (MetaDataView {
                file_open_count: 1,
                max_files_open_count: max_open_count as int,
                renders_config: self.geometries@,
                glob_pattern: spec_glob_pattern(self.key@),
                number_of_images: self.geometries@.len() as int,
            }),
            !contains_key(old(db)@.docs, self.key@) ==> final(db)@.docs == old(db)@.docs.push(
                (self.key@, doc_of(final(db)@.docs, self.key@)),
            ),
            contains_key(old(db)@.docs, self.key@) ==> final(db)@.docs == old(db)@.docs.update(
                index_of_key(old(db)@.docs, self.key@),
                (self.key@, doc_of(final(db)@.docs, self.key@)),
            ),
    {
        let record = self.build_record(max_open_count);
        db.join(self.key.as_str(), record);
    }
}

} // verus!
