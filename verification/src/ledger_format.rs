//! The ledger's serialized form.
//!
//! The ledger file's plaintext is a little-endian binary image of the whole
//! database: the device identity, then each document's key, policy and page
//! geometry, in ledger order. Strings travel as a 32-bit byte count followed
//! by their UTF-8 bytes; a record's page count is not stored separately, it
//! is the length of its geometry table. Encoding and decoding are both
//! verified, and decoding an encoding is proved to give the database back.

use vstd::prelude::*;

use vstd::bytes::{spec_u32_from_le_bytes, spec_u32_to_le_bytes};
use vstd::utf8::{decode_utf8, encode_utf8, valid_utf8};

use crate::ledger::{db_wf, keys_unique, meta_wf, DbView, MetaData, MetaDataView, DB};

verus! {

/// The two's-complement byte of an 8-bit signed value.
pub open spec fn i8_byte(x: int) -> u8
    recommends
        -128 <= x < 128,
{
    if x >= 0 {
        x as u8
    } else {
        (x + 256) as u8
    }
}

/// The 8-bit signed value of a two's-complement byte.
pub open spec fn byte_i8(b: u8) -> int {
    if b < 128 {
        b as int
    } else {
        b - 256
    }
}

/// One 32-bit length or coordinate, little endian.
pub open spec fn enc_u32(x: u32) -> Seq<u8> {
    spec_u32_to_le_bytes(x)
}

/// One string: its UTF-8 byte count, then its UTF-8 bytes.
pub open spec fn enc_string(s: Seq<char>) -> Seq<u8> {
    enc_u32(encode_utf8(s).len() as u32) + encode_utf8(s)
}

/// A geometry table: each page's width and height, in page order.
pub open spec fn enc_geom(g: Seq<(u32, u32)>) -> Seq<u8>
    decreases g.len(),
{
    if g.len() == 0 {
        Seq::empty()
    } else {
        enc_u32(g[0].0) + enc_u32(g[0].1) + enc_geom(g.drop_first())
    }
}

/// One document record: policy counters, then the geometry table preceded by
/// its page count, then the stored-name pattern.
pub open spec fn enc_meta(m: MetaDataView) -> Seq<u8> {
    seq![i8_byte(m.file_open_count), i8_byte(m.max_files_open_count)] + enc_u32(
        m.renders_config.len() as u32,
    ) + enc_geom(m.renders_config) + enc_string(m.glob_pattern)
}

/// The document table: each key and its record, in ledger order.
pub open spec fn enc_docs(docs: Seq<(Seq<char>, MetaDataView)>) -> Seq<u8>
    decreases docs.len(),
{
    if docs.len() == 0 {
        Seq::empty()
    } else {
        enc_string(docs[0].0) + enc_meta(docs[0].1) + enc_docs(docs.drop_first())
    }
}

/// The whole ledger: device identity, document count, document table.
pub open spec fn enc_db(v: DbView) -> Seq<u8> {
    enc_string(v.usb_id) + enc_u32(v.docs.len() as u32) + enc_docs(v.docs)
}

/// Whether every count in `v` fits the format's 32-bit fields. Machine
/// limits only: any ledger a machine can hold in practice satisfies this.
pub open spec fn encodable(v: DbView) -> bool {
    &&& encode_utf8(v.usb_id).len() <= u32::MAX
    &&& v.docs.len() <= u32::MAX
    &&& forall|i: int|
        0 <= i < v.docs.len() ==> encode_utf8(#[trigger] v.docs[i].0).len() <= u32::MAX
    &&& forall|i: int|
        0 <= i < v.docs.len() ==> encode_utf8(#[trigger] v.docs[i].1.glob_pattern).len()
            <= u32::MAX
    &&& forall|i: int| 0 <= i < v.docs.len() ==> (#[trigger] v.docs[i].1.renders_config).len()
        <= u32::MAX
}

/// Parse a 32-bit little-endian value off the front of `s`.
pub open spec fn dec_u32(s: Seq<u8>) -> Option<(u32, Seq<u8>)> {
    if s.len() >= 4 {
        Some((spec_u32_from_le_bytes(s.take(4)), s.skip(4)))
    } else {
        None
    }
}

/// Parse a length-prefixed UTF-8 string off the front of `s`.
pub open spec fn dec_string(s: Seq<u8>) -> Option<(Seq<char>, Seq<u8>)> {
    match dec_u32(s) {
        Option::None => Option::None,
        Option::Some((n, rest)) => {
            if rest.len() >= n && valid_utf8(rest.take(n as int)) {
                Option::Some((decode_utf8(rest.take(n as int)), rest.skip(n as int)))
            } else {
                Option::None
            }
        },
    }
}

/// Parse `n` width/height pairs off the front of `s`.
pub open spec fn dec_geom(s: Seq<u8>, n: nat) -> Option<(Seq<(u32, u32)>, Seq<u8>)>
    decreases n,
{
    if n == 0 {
        Option::Some((Seq::empty(), s))
    } else {
        match dec_u32(s) {
            Option::None => Option::None,
            Option::Some((w, r1)) => match dec_u32(r1) {
                Option::None => Option::None,
                Option::Some((h, r2)) => match dec_geom(r2, (n - 1) as nat) {
                    Option::None => Option::None,
                    Option::Some((g, r3)) => Option::Some((seq![(w, h)] + g, r3)),
                },
            },
        }
    }
}

/// Parse one document record off the front of `s`. The record's page count
/// is the length of its geometry table, which the format bounds to an `i32`.
pub open spec fn dec_meta(s: Seq<u8>) -> Option<(MetaDataView, Seq<u8>)> {
    if s.len() < 2 {
        Option::None
    } else {
        let open_count = byte_i8(s[0]);
        let max_open = byte_i8(s[1]);
        match dec_u32(s.skip(2)) {
            Option::None => Option::None,
            Option::Some((n, r1)) => {
                if n > i32::MAX {
                    Option::None
                } else {
                    match dec_geom(r1, n as nat) {
                        Option::None => Option::None,
                        Option::Some((g, r2)) => match dec_string(r2) {
                            Option::None => Option::None,
                            Option::Some((glob, r3)) => Option::Some(
                                (
                                    MetaDataView {
                                        file_open_count: open_count,
                                        max_files_open_count: max_open,
                                        renders_config: g,
                                        glob_pattern: glob,
                                        number_of_images: n as int,
                                    },
                                    r3,
                                ),
                            ),
                        },
                    }
                }
            },
        }
    }
}

/// Parse `n` key/record pairs off the front of `s`.
pub open spec fn dec_docs(s: Seq<u8>, n: nat) -> Option<
    (Seq<(Seq<char>, MetaDataView)>, Seq<u8>),
>
    decreases n,
{
    if n == 0 {
        Option::Some((Seq::empty(), s))
    } else {
        match dec_string(s) {
            Option::None => Option::None,
            Option::Some((k, r1)) => match dec_meta(r1) {
                Option::None => Option::None,
                Option::Some((m, r2)) => match dec_docs(r2, (n - 1) as nat) {
                    Option::None => Option::None,
                    Option::Some((d, r3)) => Option::Some((seq![(k, m)] + d, r3)),
                },
            },
        }
    }
}

/// Parse a whole ledger image; every byte must be consumed.
pub open spec fn dec_db(s: Seq<u8>) -> Option<DbView> {
    match dec_string(s) {
        Option::None => Option::None,
        Option::Some((usb, r1)) => match dec_u32(r1) {
            Option::None => Option::None,
            Option::Some((n, r2)) => match dec_docs(r2, n as nat) {
                Option::None => Option::None,
                Option::Some((docs, r3)) => {
                    if r3.len() == 0 {
                        Option::Some(DbView { usb_id: usb, docs })
                    } else {
                        Option::None
                    }
                },
            },
        },
    }
}

/// Whether a record's counters and table sizes lie in the ranges its struct
/// fields hold: the values any real `MetaData` gives rise to.
pub open spec fn meta_in_range(m: MetaDataView) -> bool {
    &&& -128 <= m.file_open_count < 128
    &&& -128 <= m.max_files_open_count < 128
    &&& m.renders_config.len() <= i32::MAX
    &&& encode_utf8(m.glob_pattern).len() <= u32::MAX
}

/// Whether every record of `v` is in range.
pub open spec fn db_in_range(v: DbView) -> bool {
    forall|i: int| 0 <= i < v.docs.len() ==> meta_in_range(#[trigger] v.docs[i].1)
}

/// Parsing a 32-bit value off its encoding returns the value and the rest.
pub proof fn lemma_dec_u32(x: u32, rest: Seq<u8>)
    ensures
        dec_u32(enc_u32(x) + rest) == Some::<(u32, Seq<u8>)>((x, rest)),
{
    vstd::bytes::lemma_auto_spec_u32_to_from_le_bytes();
    let s = enc_u32(x) + rest;
    assert(s.take(4) =~= enc_u32(x));
    assert(s.skip(4) =~= rest);
}

/// Parsing a string off its encoding returns the string and the rest.
pub proof fn lemma_dec_string(s: Seq<char>, rest: Seq<u8>)
    requires
        encode_utf8(s).len() <= u32::MAX,
    ensures
        dec_string(enc_string(s) + rest) == Some::<(Seq<char>, Seq<u8>)>((s, rest)),
{
    broadcast use vstd::utf8::encode_utf8_valid_utf8, vstd::utf8::encode_utf8_decode_utf8;

    let bytes = encode_utf8(s);
    let n = bytes.len() as u32;
    let whole = enc_string(s) + rest;
    assert(whole =~= enc_u32(n) + (bytes + rest));
    lemma_dec_u32(n, bytes + rest);
    assert((bytes + rest).take(n as int) =~= bytes);
    assert((bytes + rest).skip(n as int) =~= rest);
}

/// Parsing a geometry table off its encoding returns the table and the rest.
pub proof fn lemma_dec_geom(g: Seq<(u32, u32)>, rest: Seq<u8>)
    ensures
        dec_geom(enc_geom(g) + rest, g.len()) == Some::<(Seq<(u32, u32)>, Seq<u8>)>((g, rest)),
    decreases g.len(),
{
    if g.len() == 0 {
        assert(enc_geom(g) + rest =~= rest);
        assert(g =~= Seq::<(u32, u32)>::empty());
    } else {
        let tail = g.drop_first();
        let whole = enc_geom(g) + rest;
        assert(whole =~= enc_u32(g[0].0) + (enc_u32(g[0].1) + (enc_geom(tail) + rest)));
        lemma_dec_u32(g[0].0, enc_u32(g[0].1) + (enc_geom(tail) + rest));
        lemma_dec_u32(g[0].1, enc_geom(tail) + rest);
        lemma_dec_geom(tail, rest);
        assert(seq![(g[0].0, g[0].1)] + tail =~= g);
    }
}

/// Parsing a record off its encoding returns the record and the rest.
pub proof fn lemma_dec_meta(m: MetaDataView, rest: Seq<u8>)
    requires
        meta_wf(m),
        meta_in_range(m),
    ensures
        dec_meta(enc_meta(m) + rest) == Some::<(MetaDataView, Seq<u8>)>((m, rest)),
{
    let n = m.renders_config.len() as u32;
    let whole = enc_meta(m) + rest;
    let after_counts = enc_u32(n) + (enc_geom(m.renders_config) + (enc_string(m.glob_pattern)
        + rest));
    assert(whole.len() >= 2);
    assert(whole[0] == i8_byte(m.file_open_count));
    assert(whole[1] == i8_byte(m.max_files_open_count));
    assert(byte_i8(i8_byte(m.file_open_count)) == m.file_open_count);
    assert(byte_i8(i8_byte(m.max_files_open_count)) == m.max_files_open_count);
    assert(whole.skip(2) =~= after_counts);
    lemma_dec_u32(n, enc_geom(m.renders_config) + (enc_string(m.glob_pattern) + rest));
    lemma_dec_geom(m.renders_config, enc_string(m.glob_pattern) + rest);
    lemma_dec_string(m.glob_pattern, rest);
}

/// Parsing a document table off its encoding returns the table and the rest.
pub proof fn lemma_dec_docs(docs: Seq<(Seq<char>, MetaDataView)>, rest: Seq<u8>)
    requires
        forall|i: int| 0 <= i < docs.len() ==> meta_wf(#[trigger] docs[i].1),
        forall|i: int| 0 <= i < docs.len() ==> meta_in_range(#[trigger] docs[i].1),
        forall|i: int| 0 <= i < docs.len() ==> encode_utf8(#[trigger] docs[i].0).len() <= u32::MAX,
    ensures
        dec_docs(enc_docs(docs) + rest, docs.len()) == Some::<
            (Seq<(Seq<char>, MetaDataView)>, Seq<u8>),
        >((docs, rest)),
    decreases docs.len(),
{
    if docs.len() == 0 {
        assert(enc_docs(docs) + rest =~= rest);
        assert(docs =~= Seq::<(Seq<char>, MetaDataView)>::empty());
    } else {
        let tail = docs.drop_first();
        let whole = enc_docs(docs) + rest;
        assert(whole =~= enc_string(docs[0].0) + (enc_meta(docs[0].1) + (enc_docs(tail) + rest)));
        lemma_dec_string(docs[0].0, enc_meta(docs[0].1) + (enc_docs(tail) + rest));
        lemma_dec_meta(docs[0].1, enc_docs(tail) + rest);
        assert(forall|i: int| 0 <= i < tail.len() ==> meta_wf(#[trigger] tail[i].1));
        assert(forall|i: int| 0 <= i < tail.len() ==> meta_in_range(#[trigger] tail[i].1));
        assert(forall|i: int|
            0 <= i < tail.len() ==> encode_utf8(#[trigger] tail[i].0).len() <= u32::MAX);
        lemma_dec_docs(tail, rest);
        assert(seq![(docs[0].0, docs[0].1)] + tail =~= docs);
    }
}

/// Decoding an encoded ledger gives the ledger back: the format loses
/// nothing and invents nothing.
pub proof fn lemma_enc_dec_db(v: DbView)
    requires
        encodable(v),
        db_in_range(v),
        forall|i: int| 0 <= i < v.docs.len() ==> meta_wf(#[trigger] v.docs[i].1),
    ensures
        dec_db(enc_db(v)) == Some::<DbView>(v),
        keys_unique(v.docs) ==> parse_db(enc_db(v)) == Some::<DbView>(v),
{
    let n = v.docs.len() as u32;
    let whole = enc_db(v);
    assert(whole =~= enc_string(v.usb_id) + (enc_u32(n) + (enc_docs(v.docs) + Seq::empty())));
    lemma_dec_string(v.usb_id, enc_u32(n) + (enc_docs(v.docs) + Seq::empty()));
    lemma_dec_u32(n, enc_docs(v.docs) + Seq::empty());
    lemma_dec_docs(v.docs, Seq::empty());
    assert(dec_db(enc_db(v)) == Some::<DbView>(DbView { usb_id: v.usb_id, docs: v.docs }));
}

/// Ledger persistence loses nothing: parsing the serialized form of any
/// well-formed ledger yields that ledger back, field for field. Writing,
/// reading and writing again therefore produces the same bytes.
pub proof fn lemma_ledger_round_trip(v: DbView)
    requires
        db_wf(v),
        encodable(v),
        db_in_range(v),
    ensures
        parse_db(enc_db(v)) == Some::<DbView>(v),
{
    lemma_enc_dec_db(v);
}

/// Every ledger a `DB` value can hold is in range for the format: its
/// counters are 8-bit fields and its page counts 32-bit fields already.
pub proof fn lemma_db_view_in_range(db: &DB)
    requires
        db_wf(db@),
        encodable(db@),
    ensures
        db_in_range(db@),
{
    assert forall|i: int| 0 <= i < db@.docs.len() implies meta_in_range(
        #[trigger] db@.docs[i].1,
    ) by {
        assert(db@.docs[i].1 == db.data@[i].1@);
        assert(meta_wf(db@.docs[i].1));
        assert(encode_utf8(db@.docs[i].1.glob_pattern).len() <= u32::MAX);
    }
}

/// A ledger image is accepted when it parses and its keys are unique.
pub open spec fn parse_db(s: Seq<u8>) -> Option<DbView> {
    match dec_db(s) {
        Option::None => Option::None,
        Option::Some(v) => {
            if keys_unique(v.docs) {
                Option::Some(v)
            } else {
                Option::None
            }
        },
    }
}

/// Appending one entry to a geometry table appends its encoding.
proof fn lemma_enc_geom_push(g: Seq<(u32, u32)>, w: u32, h: u32)
    ensures
        enc_geom(g.push((w, h))) == enc_geom(g) + enc_u32(w) + enc_u32(h),
    decreases g.len(),
{
    let pushed = g.push((w, h));
    if g.len() == 0 {
        assert(pushed[0] == (w, h));
        assert(pushed.drop_first() =~= Seq::<(u32, u32)>::empty());
        assert(enc_geom(pushed) =~= enc_geom(g) + enc_u32(w) + enc_u32(h));
    } else {
        assert(pushed[0] == g[0]);
        assert(pushed.drop_first() =~= g.drop_first().push((w, h)));
        lemma_enc_geom_push(g.drop_first(), w, h);
        assert(enc_geom(pushed) == enc_u32(pushed[0].0) + enc_u32(pushed[0].1) + enc_geom(
            pushed.drop_first(),
        ));
        assert(enc_geom(pushed.drop_first()) == enc_geom(g.drop_first()) + enc_u32(w) + enc_u32(
            h,
        ));
        assert(enc_geom(g) == enc_u32(g[0].0) + enc_u32(g[0].1) + enc_geom(g.drop_first()));
        assert(enc_geom(pushed) =~= enc_geom(g) + enc_u32(w) + enc_u32(h));
    }
}

/// Appending one document to the table appends its encoding.
proof fn lemma_enc_docs_push(docs: Seq<(Seq<char>, MetaDataView)>, k: Seq<char>, m: MetaDataView)
    ensures
        enc_docs(docs.push((k, m))) == enc_docs(docs) + enc_string(k) + enc_meta(m),
    decreases docs.len(),
{
    let pushed = docs.push((k, m));
    if docs.len() == 0 {
        assert(pushed[0] == (k, m));
        assert(pushed.drop_first() =~= Seq::<(Seq<char>, MetaDataView)>::empty());
        assert(enc_docs(pushed.drop_first()) == Seq::<u8>::empty());
        assert(enc_docs(docs) == Seq::<u8>::empty());
        assert(enc_docs(pushed) == enc_string(k) + enc_meta(m) + enc_docs(pushed.drop_first()));
        assert(enc_docs(pushed) =~= enc_docs(docs) + enc_string(k) + enc_meta(m));
    } else {
        assert(pushed[0] == docs[0]);
        assert(pushed.drop_first() =~= docs.drop_first().push((k, m)));
        lemma_enc_docs_push(docs.drop_first(), k, m);
        assert(enc_docs(pushed) == enc_string(pushed[0].0) + enc_meta(pushed[0].1) + enc_docs(
            pushed.drop_first(),
        ));
        assert(enc_docs(pushed.drop_first()) == enc_docs(docs.drop_first()) + enc_string(k)
            + enc_meta(m));
        assert(enc_docs(docs) == enc_string(docs[0].0) + enc_meta(docs[0].1) + enc_docs(
            docs.drop_first(),
        ));
        let a = enc_string(docs[0].0);
        let b = enc_meta(docs[0].1);
        let c = enc_docs(docs.drop_first());
        let d = enc_string(k);
        let e = enc_meta(m);
        assert(enc_docs(pushed) == a + b + (c + d + e));
        assert(a + b + (c + d + e) =~= (a + b + c) + d + e);
    }
}

/// The two's-complement byte of an 8-bit signed value.
fn i8_to_byte(x: i8) -> (r: u8)
    ensures
        r == i8_byte(x as int),
        byte_i8(r) == x as int,
{
    if x >= 0 {
        x as u8
    } else {
        ((x as i16) + 256) as u8
    }
}

/// The 8-bit signed value of a two's-complement byte.
fn byte_to_i8(b: u8) -> (r: i8)
    ensures
        r as int == byte_i8(b),
{
    if b < 128 {
        b as i8
    } else {
        ((b as i16) - 256) as i8
    }
}

/// Append a 32-bit little-endian value.
fn append_u32(out: &mut Vec<u8>, x: u32)
    ensures
        final(out)@ == old(out)@ + enc_u32(x),
{
    let mut bytes = vstd::bytes::u32_to_le_bytes(x);
    out.append(&mut bytes);
}

/// Append a length-prefixed string; refused when its UTF-8 form does not
/// fit the 32-bit length field.
fn append_string(out: &mut Vec<u8>, s: &str) -> (ok: bool)
    ensures
        ok ==> final(out)@ == old(out)@ + enc_string(s@),
        ok == (encode_utf8(s@).len() <= u32::MAX),
        !ok ==> final(out)@ == old(out)@,
{
    let bytes = s.as_bytes();
    if bytes.len() > u32::MAX as usize {
        return false;
    }
    append_u32(out, bytes.len() as u32);
    out.extend_from_slice(bytes);
    true
}

/// Append one record's encoding; refused when a field does not fit the
/// format.
fn append_meta(out: &mut Vec<u8>, m: &MetaData) -> (ok: bool)
    requires
        meta_wf(m@),
    ensures
        ok ==> final(out)@ == old(out)@ + enc_meta(m@),
        ok == (encode_utf8(m@.glob_pattern).len() <= u32::MAX),
{
    let ghost base = out@;
    out.push(i8_to_byte(m.file_open_count));
    out.push(i8_to_byte(m.max_files_open_count));
    let n = m.renders_config.len();
    append_u32(out, n as u32);
    let ghost mid = out@;
    let mut i: usize = 0;
    while i < n
        invariant
            i <= n,
            n == m.renders_config@.len(),
            n <= i32::MAX,
            out@ == mid + enc_geom(m.renders_config@.take(i as int)),
        decreases n - i,
    {
        let (w, h) = m.renders_config[i];
        append_u32(out, w);
        append_u32(out, h);
        proof {
            lemma_enc_geom_push(m.renders_config@.take(i as int), w, h);
            assert(m.renders_config@.take(i as int).push((w, h)) =~= m.renders_config@.take(
                i + 1,
            ));
        }
        i = i + 1;
    }
    proof {
        assert(m.renders_config@.take(n as int) =~= m.renders_config@);
    }
    let ok = append_string(out, m.glob_pattern.as_str());
    proof {
        if ok {
            assert(final(out)@ =~= base + enc_meta(m@));
        }
    }
    ok
}

/// Read a 32-bit little-endian value at `pos`.
fn read_u32(bytes: &Vec<u8>, pos: usize) -> (r: Option<(u32, usize)>)
    requires
        pos <= bytes@.len(),
    ensures
        r matches Some(p) ==> pos < p.1 <= bytes@.len() && dec_u32(bytes@.skip(pos as int))
            == Some::<(u32, Seq<u8>)>((p.0, bytes@.skip(p.1 as int))),
        r is None ==> dec_u32(bytes@.skip(pos as int)) is None,
{
    if bytes.len() - pos >= 4 {
        let s = vstd::slice::slice_subrange(bytes.as_slice(), pos, pos + 4);
        let x = vstd::bytes::u32_from_le_bytes(s);
        proof {
            assert(bytes@.skip(pos as int).take(4) =~= bytes@.subrange(pos as int, pos + 4));
            assert(bytes@.skip(pos as int).skip(4) =~= bytes@.skip(pos + 4));
        }
        Some((x, pos + 4))
    } else {
        None
    }
}

/// Read a length-prefixed UTF-8 string at `pos`.
fn read_string(bytes: &Vec<u8>, pos: usize) -> (r: Option<(String, usize)>)
    requires
        pos <= bytes@.len(),
    ensures
        r matches Some(p) ==> pos < p.1 <= bytes@.len() && (dec_string(bytes@.skip(pos as int))
            matches Some(q) && q.0 == p.0@ && q.1 == bytes@.skip(p.1 as int)),
        r is None ==> dec_string(bytes@.skip(pos as int)) is None,
{
    match read_u32(bytes, pos) {
        None => None,
        Some((n, p1)) => {
            if (n as usize) <= bytes.len() - p1 {
                let end = p1 + n as usize;
                let sub = vstd::slice::slice_subrange(bytes.as_slice(), p1, end);
                let v = vstd::slice::slice_to_vec(sub);
                proof {
                    assert(bytes@.skip(p1 as int).take(n as int) =~= bytes@.subrange(
                        p1 as int,
                        end as int,
                    ));
                    assert(bytes@.skip(p1 as int).skip(n as int) =~= bytes@.skip(end as int));
                }
                match crate::strings::string_from_utf8(v) {
                    None => None,
                    Some(s) => Some((s, end)),
                }
            } else {
                None
            }
        },
    }
}

/// Read `n` width/height pairs at `pos`.
fn read_geom(bytes: &Vec<u8>, pos: usize, n: u32) -> (r: Option<(Vec<(u32, u32)>, usize)>)
    requires
        pos <= bytes@.len(),
    ensures
        r matches Some(p) ==> pos <= p.1 <= bytes@.len() && (dec_geom(
            bytes@.skip(pos as int),
            n as nat,
        ) matches Some(q) && q.0 == p.0@ && q.1 == bytes@.skip(p.1 as int)),
        r matches Some(p) ==> p.0@.len() == n,
        r is None ==> dec_geom(bytes@.skip(pos as int), n as nat) is None,
{
    let mut acc: Vec<(u32, u32)> = Vec::new();
    let mut cur: usize = pos;
    let mut i: u32 = 0;
    proof {
        match dec_geom(bytes@.skip(pos as int), n as nat) {
            Option::Some(q0) => {
                assert(Seq::<(u32, u32)>::empty() + q0.0 =~= q0.0);
            },
            Option::None => {},
        }
    }
    while i < n
        invariant
            i <= n,
            pos <= cur <= bytes@.len(),
            acc@.len() == i,
            dec_geom(bytes@.skip(pos as int), n as nat) is Some <==> dec_geom(
                bytes@.skip(cur as int),
                (n - i) as nat,
            ) is Some,
            dec_geom(bytes@.skip(pos as int), n as nat) matches Some(q0) ==> (dec_geom(
                bytes@.skip(cur as int),
                (n - i) as nat,
            ) matches Some(q) && q0.0 == acc@ + q.0 && q0.1 == q.1),
        decreases n - i,
    {
        let w = match read_u32(bytes, cur) {
            Some(p) => p,
            None => {
                return None;
            },
        };
        let h = match read_u32(bytes, w.1) {
            Some(p) => p,
            None => {
                return None;
            },
        };
        acc.push((w.0, h.0));
        proof {
            match dec_geom(bytes@.skip(cur as int), (n - i) as nat) {
                Option::Some(q) => {
                    let tail = dec_geom(bytes@.skip(h.1 as int), (n - i - 1) as nat);
                    match tail {
                        Option::Some(qt) => {
                            assert(q.0 == seq![(w.0, h.0)] + qt.0);
                            assert(acc@.drop_last() + q.0 =~= acc@ + qt.0);
                        },
                        Option::None => {},
                    }
                },
                Option::None => {},
            }
        }
        cur = h.1;
        i = i + 1;
    }
    proof {
        match dec_geom(bytes@.skip(cur as int), 0) {
            Option::Some(q) => {
                assert(q.1 == bytes@.skip(cur as int));
            },
            Option::None => {},
        }
    }
    Some((acc, cur))
}

/// Read one document record at `pos`.
fn read_meta(bytes: &Vec<u8>, pos: usize) -> (r: Option<(MetaData, usize)>)
    requires
        pos <= bytes@.len(),
    ensures
        r matches Some(p) ==> pos <= p.1 <= bytes@.len() && (dec_meta(bytes@.skip(pos as int))
            matches Some(q) && q.0 == p.0@ && q.1 == bytes@.skip(p.1 as int)) && meta_wf(p.0@),
        r is None ==> dec_meta(bytes@.skip(pos as int)) is None,
{
    if bytes.len() - pos < 2 {
        return None;
    }
    let open_count = byte_to_i8(bytes[pos]);
    let max_open = byte_to_i8(bytes[pos + 1]);
    proof {
        assert(bytes@.skip(pos as int)[0] == bytes@[pos as int]);
        assert(bytes@.skip(pos as int)[1] == bytes@[pos as int + 1]);
        assert(bytes@.skip(pos as int).skip(2) =~= bytes@.skip(pos as int + 2));
    }
    let (n, p1) = match read_u32(bytes, pos + 2) {
        Some(p) => p,
        None => {
            return None;
        },
    };
    if n > i32::MAX as u32 {
        return None;
    }
    let (geom, p2) = match read_geom(bytes, p1, n) {
        Some(p) => p,
        None => {
            return None;
        },
    };
    let (glob, p3) = match read_string(bytes, p2) {
        Some(p) => p,
        None => {
            return None;
        },
    };
    let meta = MetaData {
        file_open_count: open_count,
        max_files_open_count: max_open,
        renders_config: geom,
        glob_pattern: glob,
        number_of_images: n as i32,
    };
    Some((meta, p3))
}

/// Read `n` key/record pairs at `pos`.
fn read_docs(bytes: &Vec<u8>, pos: usize, n: u32) -> (r: Option<(Vec<(String, MetaData)>, usize)>)
    requires
        pos <= bytes@.len(),
    ensures
        r matches Some(p) ==> pos <= p.1 <= bytes@.len() && (dec_docs(
            bytes@.skip(pos as int),
            n as nat,
        ) matches Some(q) && q.0 == crate::ledger::entries_view(p.0@) && q.1 == bytes@.skip(
            p.1 as int,
        )) && (forall|j: int| 0 <= j < p.0@.len() ==> meta_wf(#[trigger] p.0@[j].1@)),
        r is None ==> dec_docs(bytes@.skip(pos as int), n as nat) is None,
{
    let mut acc: Vec<(String, MetaData)> = Vec::new();
    let mut cur: usize = pos;
    let mut i: u32 = 0;
    proof {
        match dec_docs(bytes@.skip(pos as int), n as nat) {
            Option::Some(q0) => {
                assert(crate::ledger::entries_view(acc@) + q0.0 =~= q0.0);
            },
            Option::None => {},
        }
    }
    while i < n
        invariant
            i <= n,
            pos <= cur <= bytes@.len(),
            acc@.len() == i,
            forall|j: int| 0 <= j < acc@.len() ==> meta_wf(#[trigger] acc@[j].1@),
            dec_docs(bytes@.skip(pos as int), n as nat) is Some <==> dec_docs(
                bytes@.skip(cur as int),
                (n - i) as nat,
            ) is Some,
            dec_docs(bytes@.skip(pos as int), n as nat) matches Some(q0) ==> (dec_docs(
                bytes@.skip(cur as int),
                (n - i) as nat,
            ) matches Some(q) && q0.0 == crate::ledger::entries_view(acc@) + q.0 && q0.1 == q.1),
        decreases n - i,
    {
        let (key, p1) = match read_string(bytes, cur) {
            Some(p) => p,
            None => {
                return None;
            },
        };
        let (meta, p2) = match read_meta(bytes, p1) {
            Some(p) => p,
            None => {
                return None;
            },
        };
        acc.push((key, meta));
        proof {
            match dec_docs(bytes@.skip(cur as int), (n - i) as nat) {
                Option::Some(q) => {
                    let tail = dec_docs(bytes@.skip(p2 as int), (n - i - 1) as nat);
                    match tail {
                        Option::Some(qt) => {
                            assert(q.0 == seq![(acc@.last().0@, acc@.last().1@)] + qt.0);
                            assert(crate::ledger::entries_view(acc@.drop_last()) + q.0
                                =~= crate::ledger::entries_view(acc@) + qt.0);
                        },
                        Option::None => {},
                    }
                },
                Option::None => {},
            }
        }
        cur = p2;
        i = i + 1;
    }
    proof {
        match dec_docs(bytes@.skip(cur as int), 0) {
            Option::Some(q) => {
                assert(q.1 == bytes@.skip(cur as int));
            },
            Option::None => {},
        }
    }
    Some((acc, cur))
}

/// Whether the entries' keys are pairwise distinct.
fn check_keys_unique(data: &Vec<(String, MetaData)>) -> (r: bool)
    ensures
        r == keys_unique(crate::ledger::entries_view(data@)),
{
    let ghost docs = crate::ledger::entries_view(data@);
    let n = data.len();
    let mut i: usize = 0;
    while i < n
        invariant
            i <= n,
            n == data@.len(),
            docs == crate::ledger::entries_view(data@),
            forall|a: int, b: int| 0 <= a < b < data@.len() && a < i ==> docs[a].0 != docs[b].0,
        decreases n - i,
    {
        let mut j: usize = i + 1;
        while j < n
            invariant
                i < j,
                j <= n,
                i < n,
                n == data@.len(),
                docs == crate::ledger::entries_view(data@),
                forall|b: int| i < b < j ==> docs[i as int].0 != docs[b].0,
            decreases n - j,
        {
            if crate::strings::str_eq(data[i].0.as_str(), data[j].0.as_str()) {
                proof {
                    assert(docs[i as int].0 == docs[j as int].0);
                    assert(!keys_unique(docs));
                }
                return false;
            }
            j = j + 1;
        }
        i = i + 1;
    }
    true
}

/// Parse a ledger file's plaintext back into the database. Every failure is
/// the one corruption error: the image must parse in full, with unique keys.
pub fn decode_db(bytes: &Vec<u8>) -> (r: Result<DB, crate::errors::VaultError>)
    ensures
        r matches Ok(d) ==> parse_db(bytes@) == Some::<DbView>(d@) && db_wf(d@),
        r is Err ==> parse_db(bytes@) is None,
        r is Err ==> r == Err::<DB, crate::errors::VaultError>(
            crate::errors::VaultError::LedgerCorrupt,
        ),
{
    proof {
        assert(bytes@.skip(0) =~= bytes@);
    }
    let (usb_id, p1) = match read_string(bytes, 0) {
        Some(p) => p,
        None => {
            return Err(crate::errors::VaultError::LedgerCorrupt);
        },
    };
    let (n, p2) = match read_u32(bytes, p1) {
        Some(p) => p,
        None => {
            return Err(crate::errors::VaultError::LedgerCorrupt);
        },
    };
    let (data, p3) = match read_docs(bytes, p2, n) {
        Some(p) => p,
        None => {
            return Err(crate::errors::VaultError::LedgerCorrupt);
        },
    };
    if p3 != bytes.len() {
        proof {
            assert(bytes@.skip(p3 as int).len() != 0);
        }
        return Err(crate::errors::VaultError::LedgerCorrupt);
    }
    if !check_keys_unique(&data) {
        return Err(crate::errors::VaultError::LedgerCorrupt);
    }
    let db = DB { usb_id, data };
    proof {
        assert(bytes@.skip(p3 as int).len() == 0);
    }
    Ok(db)
}

/// Serialize a ledger to the plaintext the vault encrypts and stores.
/// Refused only when a count overruns the format's 32-bit fields.
pub fn encode_db(db: &DB) -> (r: Option<Vec<u8>>)
    requires
        db_wf(db@),
    ensures
        r matches Some(bytes) ==> bytes@ == enc_db(db@),
        r is Some <==> encodable(db@),
{
    let mut out: Vec<u8> = Vec::new();
    if !append_string(&mut out, db.usb_id.as_str()) {
        return None;
    }
    let n = db.data.len();
    if n > u32::MAX as usize {
        return None;
    }
    append_u32(&mut out, n as u32);
    let ghost mid = out@;
    let ghost docs = db@.docs;
    let mut i: usize = 0;
    while i < n
        invariant
            i <= n,
            n == db.data@.len(),
            n <= u32::MAX,
            docs == db@.docs,
            db_wf(db@),
            docs.len() == n,
            out@ == mid + enc_docs(docs.take(i as int)),
            forall|j: int| 0 <= j < i ==> encode_utf8(#[trigger] docs[j].0).len() <= u32::MAX,
            forall|j: int|
                0 <= j < i ==> encode_utf8(#[trigger] docs[j].1.glob_pattern).len() <= u32::MAX,
        decreases n - i,
    {
        proof {
            assert(docs[i as int] == (db.data@[i as int].0@, db.data@[i as int].1@));
            assert(meta_wf(docs[i as int].1));
        }
        if !append_string(&mut out, db.data[i].0.as_str()) {
            proof {
                assert(encode_utf8(docs[i as int].0).len() > u32::MAX);
                assert(!encodable(db@));
            }
            return None;
        }
        if !append_meta(&mut out, &db.data[i].1) {
            proof {
                assert(encode_utf8(docs[i as int].1.glob_pattern).len() > u32::MAX);
                assert(!encodable(db@));
            }
            return None;
        }
        proof {
            assert(docs[i as int].0 == db.data@[i as int].0@);
            assert(docs[i as int].1 == db.data@[i as int].1@);
            lemma_enc_docs_push(docs.take(i as int), docs[i as int].0, docs[i as int].1);
            assert(docs.take(i as int).push(docs[i as int]) =~= docs.take(i + 1));
        }
        i = i + 1;
    }
    proof {
        assert(docs.take(n as int) =~= docs);
        assert forall|j: int| 0 <= j < docs.len() implies (#[trigger] docs[j].1).renders_config.len()
            <= u32::MAX by {
            assert(meta_wf(docs[j].1));
        }
        assert(out@ =~= enc_db(db@));
    }
    Some(out)
}

} // verus!
