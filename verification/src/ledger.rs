//! The metadata ledger: one record per registered document, plus the identity
//! of the device the vault is bound to.
//!
//! The ledger is modelled as a sequence of key/record pairs with unique keys,
//! kept in insertion order. It is always read in full, mutated in memory and
//! rewritten in full; the encrypted file format lives in `ledger_format`.

use vstd::prelude::*;

use crate::strings::str_eq;

verus! {

/// One registered document's access policy and page layout.
#[derive(Debug)]
pub struct MetaData {
    /// Number of viewing sessions granted so far; registration itself counts
    /// as the first grant, so it starts at 1.
    pub file_open_count: i8,
    /// Operator-supplied ceiling on `file_open_count`; immutable after
    /// registration.
    pub max_files_open_count: i8,
    /// Width and height of each rendered page, indexed by page number.
    pub renders_config: Vec<(u32, u32)>,
    /// The pattern the stored page files were named under.
    pub glob_pattern: String,
    /// Total pages produced during registration.
    pub number_of_images: i32,
}

/// The mathematical value of a `MetaData`.
pub ghost struct MetaDataView {
    pub file_open_count: int,
    pub max_files_open_count: int,
    pub renders_config: Seq<(u32, u32)>,
    pub glob_pattern: Seq<char>,
    pub number_of_images: int,
}

impl View for MetaData {
    type V = MetaDataView;

    open spec fn view(&self) -> MetaDataView {
        MetaDataView {
            file_open_count: self.file_open_count as int,
            max_files_open_count: self.max_files_open_count as int,
            renders_config: self.renders_config@,
            glob_pattern: self.glob_pattern@,
            number_of_images: self.number_of_images as int,
        }
    }
}

/// A record is well formed when its page table is dense: exactly one geometry
/// per page index `0 .. number_of_images`.
pub open spec fn meta_wf(m: MetaDataView) -> bool {
    m.number_of_images == m.renders_config.len()
}

/// A document may still be opened while its grant count has not passed its
/// ceiling; the count equalling the ceiling still admits one viewing.
pub open spec fn spec_can_open(m: MetaDataView) -> bool {
    m.file_open_count <= m.max_files_open_count
}

/// The record after one more viewing is granted: the open count goes up by
/// one, or stays at its field's ceiling; everything else is kept.
pub open spec fn spec_record_open(m: MetaDataView) -> MetaDataView {
    MetaDataView {
        file_open_count: if m.file_open_count < 127 {
            m.file_open_count + 1
        } else {
            m.file_open_count
        },
        ..m
    }
}

impl MetaData {
    /// Whether the open-count policy still admits a viewing session.
    pub fn can_open(&self) -> (r: bool)
        ensures
            r == spec_can_open(self@),
    {
        self.file_open_count <= self.max_files_open_count
    }
}

/// Whether some entry of `docs` carries the key `k`.
pub open spec fn contains_key(docs: Seq<(Seq<char>, MetaDataView)>, k: Seq<char>) -> bool {
    exists|i: int| 0 <= i < docs.len() && docs[i].0 == k
}

/// The index of the entry carrying key `k`.
pub open spec fn index_of_key(docs: Seq<(Seq<char>, MetaDataView)>, k: Seq<char>) -> int {
    choose|i: int| 0 <= i < docs.len() && docs[i].0 == k
}

/// The record stored under key `k`.
pub open spec fn doc_of(docs: Seq<(Seq<char>, MetaDataView)>, k: Seq<char>) -> MetaDataView {
    docs[index_of_key(docs, k)].1
}

/// No two entries carry the same key.
pub open spec fn keys_unique(docs: Seq<(Seq<char>, MetaDataView)>) -> bool {
    forall|i: int, j: int| 0 <= i < j < docs.len() ==> docs[i].0 != docs[j].0
}

/// With unique keys, the entry at any index is the one its key looks up.
pub proof fn lemma_doc_at(docs: Seq<(Seq<char>, MetaDataView)>, i: int)
    requires
        keys_unique(docs),
        0 <= i < docs.len(),
    ensures
        contains_key(docs, docs[i].0),
        index_of_key(docs, docs[i].0) == i,
        doc_of(docs, docs[i].0) == docs[i].1,
{
    assert(contains_key(docs, docs[i].0));
    let k = index_of_key(docs, docs[i].0);
    assert(0 <= k < docs.len() && docs[k].0 == docs[i].0);
    if k < i {
        assert(docs[k].0 != docs[i].0);
    } else if i < k {
        assert(docs[i].0 != docs[k].0);
    }
}

/// The metadata database: the device the vault is bound to, and one record
/// per registered document.
#[derive(Debug)]
pub struct DB {
    /// Identity of the storage device recorded when the ledger was created.
    pub usb_id: String,
    /// The registered documents, keyed by their original path.
    pub data: Vec<(String, MetaData)>,
}

/// The mathematical value of a `DB`.
pub ghost struct DbView {
    pub usb_id: Seq<char>,
    pub docs: Seq<(Seq<char>, MetaDataView)>,
}

/// The mathematical value of a document table held as a vector of entries.
pub open spec fn entries_view(data: Seq<(String, MetaData)>) -> Seq<(Seq<char>, MetaDataView)> {
    Seq::new(data.len(), |i: int| (data[i].0@, data[i].1@))
}

impl View for DB {
    type V = DbView;

    open spec fn view(&self) -> DbView {
        DbView { usb_id: self.usb_id@, docs: entries_view(self.data@) }
    }
}

/// A ledger is well formed when its keys are unique and every record is.
pub open spec fn db_wf(v: DbView) -> bool {
    &&& keys_unique(v.docs)
    &&& forall|i: int| 0 <= i < v.docs.len() ==> meta_wf(#[trigger] v.docs[i].1)
}

impl DB {
    /// A fresh ledger bound to `usb_id`, with no documents.
    pub fn new(usb_id: &String) -> (r: DB)
        ensures
            r@.usb_id == usb_id@,
            r@.docs == Seq::<(Seq<char>, MetaDataView)>::empty(),
            db_wf(r@),
    {
        let r = DB { usb_id: usb_id.clone(), data: Vec::new() };
        proof {
            assert(r@.docs =~= Seq::<(Seq<char>, MetaDataView)>::empty());
        }
        r
    }

    /// The index of `key`'s entry, if the ledger holds one.
    fn find(&self, key: &str) -> (r: Option<usize>)
        ensures
            r matches Some(i) ==> i < self@.docs.len() && self@.docs[i as int].0 == key@,
            r is None ==> !contains_key(self@.docs, key@),
    {
        let n = self.data.len();
        let mut i: usize = 0;
        while i < n
            invariant
                i <= n,
                n == self.data@.len(),
                self@.docs.len() == self.data@.len(),
                forall|j: int| 0 <= j < i ==> self@.docs[j].0 != key@,
                forall|j: int|
                    0 <= j < self.data@.len() ==> self@.docs[j].0 == self.data@[j].0@,
            decreases n - i,
        {
            if str_eq(self.data[i].0.as_str(), key) {
                return Some(i);
            }
            i = i + 1;
        }
        None
    }

    /// Insert a record, or overwrite the record already stored under `key`.
    pub fn join(&mut self, key: &str, value: MetaData)
        requires
            db_wf(old(self)@),
            meta_wf(value@),
        ensures
            final(self)@.usb_id == old(self)@.usb_id,
            db_wf(final(self)@),
            contains_key(final(self)@.docs, key@),
            doc_of(final(self)@.docs, key@) == value@,
            !contains_key(old(self)@.docs, key@) ==> final(self)@.docs == old(self)@.docs.push(
                (key@, value@),
            ),
            contains_key(old(self)@.docs, key@) ==> final(self)@.docs == old(self)@.docs.update(
                index_of_key(old(self)@.docs, key@),
                (key@, value@),
            ),
    {
        let ghost pre = self@.docs;
        match self.find(key) {
            Some(i) => {
                self.data[i] = (key.to_owned(), value);
                proof {
                    lemma_doc_at(pre, i as int);
                    let post = final(self)@.docs;
                    assert(post =~= pre.update(i as int, (key@, value@)));
                    lemma_update_keeps_wf(pre, i as int, key@, value@);
                    lemma_doc_at(post, i as int);
                }
            },
            None => {
                self.data.push((key.to_owned(), value));
                proof {
                    let post = final(self)@.docs;
                    assert(post =~= pre.push((key@, value@)));
                    let n = pre.len() as int;
                    assert(keys_unique(post)) by {
                        assert forall|a: int, b: int| 0 <= a < b < post.len() implies post[a].0
                            != post[b].0 by {
                            if b < n {
                                assert(pre[a].0 != pre[b].0);
                            } else {
                                assert(post[a].0 == pre[a].0);
                                if pre[a].0 == key@ {
                                    assert(contains_key(pre, key@));
                                }
                            }
                        }
                    }
                    lemma_doc_at(post, n);
                    assert(forall|j: int| 0 <= j < post.len() ==> meta_wf(#[trigger] post[j].1));
                }
            },
        }
    }

    /// Set the open count of `key`'s record; a ledger without that key is
    /// left unchanged.
    pub fn update_file_open_count(&mut self, key: &str, file_open_count: i8)
        requires
            db_wf(old(self)@),
        ensures
            final(self)@.usb_id == old(self)@.usb_id,
            db_wf(final(self)@),
            !contains_key(old(self)@.docs, key@) ==> final(self)@ == old(self)@,
            contains_key(old(self)@.docs, key@) ==> final(self)@.docs == old(self)@.docs.update(
                index_of_key(old(self)@.docs, key@),
                (
                    key@,
                    MetaDataView {
                        file_open_count: file_open_count as int,
                        ..doc_of(old(self)@.docs, key@)
                    },
                ),
            ),
    {
        let ghost pre = self@.docs;
        match self.find(key) {
            Some(i) => {
                self.data[i].1.file_open_count = file_open_count;
                proof {
                    lemma_doc_at(pre, i as int);
                    let m = MetaDataView {
                        file_open_count: file_open_count as int,
                        ..pre[i as int].1
                    };
                    assert(final(self)@.docs =~= pre.update(i as int, (key@, m)));
                    lemma_update_keeps_wf(pre, i as int, key@, m);
                }
            },
            None => {
                proof {
                    assert(final(self)@ =~= old(self)@);
                }
            },
        }
    }

    /// Grant one more viewing: increment `key`'s open count. A ledger
    /// without that key is left unchanged. The count never decreases; at the
    /// ceiling of its 8-bit field it stays put rather than wrap.
    pub fn record_open(&mut self, key: &str)
        requires
            db_wf(old(self)@),
        ensures
            final(self)@.usb_id == old(self)@.usb_id,
            db_wf(final(self)@),
            !contains_key(old(self)@.docs, key@) ==> final(self)@ == old(self)@,
            contains_key(old(self)@.docs, key@) ==> final(self)@.docs == old(self)@.docs.update(
                index_of_key(old(self)@.docs, key@),
                (key@, spec_record_open(doc_of(old(self)@.docs, key@))),
            ),
    {
        let current = match self.get(key) {
            Some(m) => m.file_open_count,
            None => {
                return ;
            },
        };
        let next = if current < i8::MAX {
            current + 1
        } else {
            current
        };
        self.update_file_open_count(key, next);
    }

    /// The record stored under `key`, if any.
    pub fn get(&self, key: &str) -> (r: Option<&MetaData>)
        ensures
            r matches Some(m) ==> contains_key(self@.docs, key@) && exists|i: int|
                0 <= i < self@.docs.len() && self@.docs[i] == (key@, m@),
            r is None ==> !contains_key(self@.docs, key@),
            r matches Some(m) ==> (keys_unique(self@.docs) ==> m@ == doc_of(self@.docs, key@)),
    {
        match self.find(key) {
            Some(i) => {
                let m = &self.data[i].1;
                proof {
                    assert(self@.docs[i as int] == (key@, m@));
                    if keys_unique(self@.docs) {
                        let k = index_of_key(self@.docs, key@);
                        assert(self@.docs[k].0 == key@);
                        assert(k == i as int);
                    }
                }
                Some(m)
            },
            None => None,
        }
    }
}

/// Updating one entry in place, key kept, preserves well-formedness.
proof fn lemma_update_keeps_wf(
    docs: Seq<(Seq<char>, MetaDataView)>,
    i: int,
    k: Seq<char>,
    m: MetaDataView,
)
    requires
        keys_unique(docs),
        forall|j: int| 0 <= j < docs.len() ==> meta_wf(#[trigger] docs[j].1),
        0 <= i < docs.len(),
        docs[i].0 == k,
        meta_wf(m),
    ensures
        keys_unique(docs.update(i, (k, m))),
        forall|j: int|
            0 <= j < docs.update(i, (k, m)).len() ==> meta_wf(
                #[trigger] docs.update(i, (k, m))[j].1,
            ),
{
    let updated = docs.update(i, (k, m));
    assert forall|a: int, b: int| 0 <= a < b < updated.len() implies updated[a].0
        != updated[b].0 by {
        assert(docs[a].0 != docs[b].0);
    }
}

} // verus!
