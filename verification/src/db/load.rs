//! Loading databases: from the descriptors of the installed packages, and
//! from the compressed archive of a repository.

use crate::db::database::{lemma_position_of, position_of, Database};
use crate::db::desc::descriptor;
use crate::db::field::unsigned;
use crate::db::package::{
    accepted, interned_texts, lemma_package_stays, text_record, Package, Record,
};
use crate::db::pool::{
    after_interns, distinct, extends, lemma_extends_reflexive, lemma_extends_transitive, Pool,
};
use crate::text::{chars_of, parse_u64, strings_view, strs_view, trim_bounds, trimmed};
use flate2::read::GzDecoder;
use std::io::{Cursor, Read};
use tar::Archive;
use vstd::prelude::*;
use vstd::slice::slice_subrange;
use vstd::string::StringSliceAdditionalSpecFns;
use vstd::utf8::{decode_utf8, encode_utf8_decode_utf8, valid_utf8};

verus! {

/// The bytes that a gzip stream holds; `None` where `data` is no such stream.
pub uninterp spec fn gzip_decoded(data: Seq<u8>) -> Option<Seq<u8>>;

/// `GzDecoder` of the `flate2` crate, read to its end. What comes out depends
/// on the bytes alone; the contract gives it its name.
#[verifier::external_body]
fn gunzip(data: &[u8]) -> (r: Option<Vec<u8>>)
    ensures
        match r {
            Some(v) => gzip_decoded(data@) == Some(v@),
            None => gzip_decoded(data@) is None,
        },
{
    let mut out = Vec::new();
    match GzDecoder::new(data).read_to_end(&mut out) {
        Ok(_) => Some(out),
        Err(_) => None,
    }
}

/// The entries of a tar archive, in their order: for each, whether it is a
/// regular file, where its content starts in the archive, and the length of
/// the content. `None` where the archive cannot be read to its end.
pub uninterp spec fn tar_index(archive: Seq<u8>) -> Option<Seq<(bool, u64, u64)>>;

/// `Archive::entries_with_seek` of the `tar` crate, walked to its end, with
/// `EntryType::is_file`, `Entry::raw_file_position` and `Entry::size` of each
/// entry. What comes out depends on the bytes alone; the contract gives it
/// its name.
#[verifier::external_body]
fn tar_entries(archive: &[u8]) -> (r: Option<Vec<(bool, u64, u64)>>)
    ensures
        match r {
            Some(v) => tar_index(archive@) == Some(v@),
            None => tar_index(archive@) is None,
        },
{
    let mut ar = Archive::new(Cursor::new(archive));
    let mut out = Vec::new();
    for entry in ar.entries_with_seek().ok()? {
        let e = entry.ok()?;
        out.push((e.header().entry_type().is_file(), e.raw_file_position(), e.size()));
    }
    Some(out)
}

/// `str::from_utf8` of the standard library: the bytes as a string, where
/// they are valid UTF-8.
#[verifier::external_body]
fn text_of(bytes: &[u8]) -> (r: Option<&str>)
    ensures
        match r {
            Some(s) => valid_utf8(bytes@) && s.spec_bytes() == bytes@,
            None => !valid_utf8(bytes@),
        },
{
    match std::str::from_utf8(bytes) {
        Ok(s) => Some(s),
        Err(_) => None,
    }
}

/// The text of an entry of an archive: its bytes must lie within the archive
/// and be valid UTF-8.
pub open spec fn entry_text(archive: Seq<u8>, e: (bool, u64, u64)) -> Option<Seq<char>> {
    if e.1 + e.2 <= archive.len() && valid_utf8(archive.subrange(e.1 as int, e.1 + e.2)) {
        Some(decode_utf8(archive.subrange(e.1 as int, e.1 + e.2)))
    } else {
        None
    }
}

/// The texts of the regular files among the first `n` entries, where each of
/// them has a text. Entries that are no regular files are passed over.
pub open spec fn file_texts(archive: Seq<u8>, entries: Seq<(bool, u64, u64)>, n: int) -> Option<
    Seq<Seq<char>>,
>
    decreases n,
{
    if n <= 0 {
        Some(Seq::empty())
    } else {
        match file_texts(archive, entries, n - 1) {
            None => None,
            Some(ts) => if !entries[n - 1].0 {
                Some(ts)
            } else {
                match entry_text(archive, entries[n - 1]) {
                    Some(t) => Some(ts.push(t)),
                    None => None,
                }
            },
        }
    }
}

/// Reads the text of one entry.
pub fn read_entry_text<'a>(archive: &'a [u8], e: (bool, u64, u64)) -> (r: Option<&'a str>)
    ensures
        match r {
            Some(s) => entry_text(archive@, e) == Some(s@),
            None => entry_text(archive@, e) is None,
        },
{
    let n = archive.len();
    if e.1 > n as u64 || e.2 > n as u64 - e.1 {
        return None;
    }
    let start = e.1 as usize;
    let end = start + e.2 as usize;
    match text_of(slice_subrange(archive, start, end)) {
        Some(s) => {
            proof {
                encode_utf8_decode_utf8(s@);
            }
            Some(s)
        },
        None => None,
    }
}

/// The views of a list of strings that may be missing.
pub open spec fn opt_strs_view(l: Option<Vec<&str>>) -> Option<Seq<Seq<char>>> {
    match l {
        Some(v) => Some(strs_view(v@)),
        None => None,
    }
}

/// Reads the texts of the regular files of an archive.
pub fn sync_texts<'a>(archive: &'a [u8], entries: &Vec<(bool, u64, u64)>) -> (r: Option<
    Vec<&'a str>,
>)
    ensures
        opt_strs_view(r) == file_texts(archive@, entries@, entries@.len() as int),
{
    let mut v: Vec<&'a str> = Vec::new();
    let mut k: usize = 0;
    proof {
        assert(strs_view(v@) =~= Seq::empty());
    }
    while k < entries.len()
        invariant
            k <= entries@.len(),
            file_texts(archive@, entries@, k as int) == Some(strs_view(v@)),
        decreases entries@.len() - k,
    {
        let e = entries[k];
        if e.0 {
            match read_entry_text(archive, e) {
                Some(s) => {
                    let ghost before = strs_view(v@);
                    v.push(s);
                    proof {
                        assert(strs_view(v@) =~= before.push(s@));
                    }
                },
                None => {
                    proof {
                        lemma_file_texts_fail(archive@, entries@, k + 1, entries@.len() as int);
                    }
                    return None;
                },
            }
        }
        k = k + 1;
    }
    Some(v)
}

/// Once an entry has no text, no longer list of entries has texts.
proof fn lemma_file_texts_fail(archive: Seq<u8>, entries: Seq<(bool, u64, u64)>, k: int, n: int)
    requires
        0 <= k <= n,
        file_texts(archive, entries, k) is None,
    ensures
        file_texts(archive, entries, n) is None,
    decreases n - k,
{
    if k < n {
        lemma_file_texts_fail(archive, entries, k, n - 1);
    }
}

/// The records of a list of packages, with every handle resolved in `pool`.
pub open spec fn records_of(pool: Seq<Seq<char>>, entries: Seq<Package>) -> Seq<Record> {
    entries.map_values(|p: Package| p.record(pool))
}

/// The position of the record called `name` in `recs`, if there is one.
pub open spec fn record_position(recs: Seq<Record>, name: Seq<char>) -> Option<int>
    decreases recs.len(),
{
    if recs.len() == 0 {
        None
    } else if recs.last().name == name {
        Some(recs.len() - 1)
    } else {
        record_position(recs.drop_last(), name)
    }
}

/// `recs` with `r` under its name: in the place of the record of that name,
/// or at the end where there is none.
pub open spec fn put(recs: Seq<Record>, r: Record) -> Seq<Record> {
    match record_position(recs, r.name) {
        Some(p) => recs.update(p, r),
        None => recs.push(r),
    }
}

/// The records that the first `n` descriptor texts make, each put under its
/// name in the order of the texts.
pub open spec fn loaded(texts: Seq<Seq<char>>, n: int) -> Seq<Record>
    decreases n,
{
    if n <= 0 {
        Seq::empty()
    } else {
        put(loaded(texts, n - 1), text_record(texts[n - 1]).unwrap())
    }
}

/// The strings of a pool after the first `n` descriptor texts were loaded
/// into it.
pub open spec fn pool_loaded(pool: Seq<Seq<char>>, texts: Seq<Seq<char>>, n: int) -> Seq<Seq<char>>
    decreases n,
{
    if n <= 0 {
        pool
    } else {
        after_interns(
            pool_loaded(pool, texts, n - 1),
            interned_texts(descriptor(texts[n - 1]).unwrap()),
        )
    }
}

/// The first `n` descriptor texts can be loaded into `pool`, one after the
/// other: each is accepted by the pool that the texts before it have made.
pub open spec fn loads(pool: Seq<Seq<char>>, texts: Seq<Seq<char>>, n: int) -> bool
    decreases n,
{
    n <= 0 || (loads(pool, texts, n - 1) && accepted(
        pool_loaded(pool, texts, n - 1),
        texts[n - 1],
    ))
}

/// Texts of which one cannot be loaded cannot be loaded as a whole.
proof fn lemma_loads_fail(pool: Seq<Seq<char>>, texts: Seq<Seq<char>>, k: int, n: int)
    requires
        0 <= k <= n,
        !loads(pool, texts, k),
    ensures
        !loads(pool, texts, n),
    decreases n - k,
{
    if k < n {
        lemma_loads_fail(pool, texts, k, n - 1);
    }
}

/// In a pool that holds no string twice, a package stands in a list at the
/// position at which its name stands in the list of the records.
proof fn lemma_positions_agree(pool: Seq<Seq<char>>, entries: Seq<Package>, p: Package)
    requires
        distinct(pool),
        p.wf(pool),
        forall|k: int| 0 <= k < entries.len() ==> (#[trigger] entries[k]).wf(pool),
    ensures
        position_of(entries, p.name) == record_position(
            records_of(pool, entries),
            p.record(pool).name,
        ),
    decreases entries.len(),
{
    if entries.len() > 0 {
        assert(entries.last().wf(pool));
        assert(records_of(pool, entries).drop_last() =~= records_of(pool, entries.drop_last()));
        assert forall|k: int| 0 <= k < entries.drop_last().len() implies (
        #[trigger] entries.drop_last()[k]).wf(pool) by {
            assert(entries[k].wf(pool));
        }
        lemma_positions_agree(pool, entries.drop_last(), p);
    }
}

/// Reads the descriptor texts in their order and puts each package under its
/// name. The load stops at the first text that the pool does not accept; the
/// texts before it stay in the pool.
pub fn load_all(pool: &mut Pool, texts: &Vec<&str>) -> (r: Result<Database, ()>)
    ensures
        final(pool).wf(),
        extends(final(pool)@, old(pool)@),
        r is Ok <==> loads(old(pool)@, strs_view(texts@), texts@.len() as int),
        r matches Ok(db) ==> {
            &&& final(pool)@ == pool_loaded(old(pool)@, strs_view(texts@), texts@.len() as int)
            &&& db.wf(final(pool)@)
            &&& records_of(final(pool)@, db@) == loaded(strs_view(texts@), texts@.len() as int)
        },
{
    let mut db = Database::new();
    let ghost all = strs_view(texts@);
    let ghost start = pool@;
    let mut k: usize = 0;
    proof {
        use_type_invariant(&*pool);
        lemma_extends_reflexive(pool@);
        assert(records_of(pool@, db@) =~= loaded(all, 0));
    }
    while k < texts.len()
        invariant
            k <= texts@.len(),
            all == strs_view(texts@),
            start == old(pool)@,
            pool.wf(),
            extends(pool@, start),
            db.wf(pool@),
            loads(start, all, k as int),
            pool@ == pool_loaded(start, all, k as int),
            records_of(pool@, db@) == loaded(all, k as int),
        decreases texts@.len() - k,
    {
        let ghost before = pool@;
        let ghost entries = db@;
        proof {
            assert(all[k as int] == texts@[k as int]@);
        }
        let pkg = match Package::from_str(pool, texts[k]) {
            Ok(p) => p,
            Err(_) => {
                proof {
                    lemma_extends_transitive(pool@, before, start);
                    lemma_loads_fail(start, all, k + 1, texts@.len() as int);
                }
                return Err(());
            },
        };
        proof {
            lemma_extends_transitive(pool@, before, start);
            assert forall|j: int| 0 <= j < entries.len() implies (#[trigger] entries[j]).wf(pool@)
                && entries[j].record(pool@) == entries[j].record(before) by {
                lemma_package_stays(entries[j], pool@, before);
            }
            assert(records_of(pool@, entries) =~= records_of(before, entries));
            lemma_positions_agree(pool@, entries, pkg);
            lemma_position_of(entries, pkg.name);
        }
        db.insert(pkg);
        proof {
            assert(records_of(pool@, db@) =~= put(records_of(pool@, entries), pkg.record(pool@)));
            assert forall|j: int| 0 <= j < db@.len() implies (#[trigger] db@[j]).wf(pool@) by {
                if position_of(entries, pkg.name) is Some {
                    if j != position_of(entries, pkg.name).unwrap() {
                        assert(db@[j] == entries[j]);
                    }
                } else {
                    if j < entries.len() {
                        assert(db@[j] == entries[j]);
                    }
                }
            }
        }
        k = k + 1;
    }
    Ok(db)
}

/// The version of the database format that this library reads.
pub open spec fn format_version() -> u64 {
    9
}

/// The text of a version file names the format that this library reads: a
/// number, with white space around it at most.
pub open spec fn format_accepted(version: Seq<char>) -> bool {
    unsigned(trimmed(version)) == Some(format_version())
}

/// Reads the text of a version file.
pub fn check_format(version: &str) -> (ok: bool)
    ensures
        ok == format_accepted(version@),
{
    let chars = chars_of(version);
    let (a, e) = trim_bounds(chars.as_slice());
    let inner = slice_subrange(chars.as_slice(), a, e);
    let number = if inner.len() > 0 && inner[0] == '+' {
        proof {
            assert(inner@.skip(1) =~= inner@.subrange(1, inner@.len() as int));
        }
        parse_u64(slice_subrange(inner, 1, inner.len()))
    } else {
        parse_u64(inner)
    };
    match number {
        Some(n) => n == 9,
        None => false,
    }
}

/// Loads the installed packages. `version` is the text of the version file
/// of the database, `descs` are the descriptors of the packages. The load is
/// refused where the version is not that which this library reads.
pub fn parse_localdb(pool: &mut Pool, version: &str, descs: &Vec<String>) -> (r: Result<
    Database,
    (),
>)
    ensures
        final(pool).wf(),
        extends(final(pool)@, old(pool)@),
        r is Ok <==> format_accepted(version@) && loads(
            old(pool)@,
            strings_view(descs@),
            descs@.len() as int,
        ),
        r matches Ok(db) ==> {
            &&& final(pool)@ == pool_loaded(old(pool)@, strings_view(descs@), descs@.len() as int)
            &&& db.wf(final(pool)@)
            &&& records_of(final(pool)@, db@) == loaded(strings_view(descs@), descs@.len() as int)
        },
{
    if !check_format(version) {
        proof {
            use_type_invariant(&*pool);
            lemma_extends_reflexive(pool@);
        }
        return Err(());
    }
    let mut texts: Vec<&str> = Vec::new();
    let mut k: usize = 0;
    while k < descs.len()
        invariant
            k <= descs@.len(),
            texts@.len() == k,
            forall|j: int| 0 <= j < k ==> (#[trigger] texts@[j])@ == descs@[j]@,
        decreases descs@.len() - k,
    {
        texts.push(descs[k].as_str());
        k = k + 1;
    }
    proof {
        assert(strs_view(texts@) =~= strings_view(descs@));
    }
    load_all(pool, &texts)
}

/// The descriptor texts that a compressed archive holds: those of the
/// regular files of the tar archive in the gzip stream.
pub open spec fn archive_texts(data: Seq<u8>) -> Option<Seq<Seq<char>>> {
    match gzip_decoded(data) {
        Some(archive) => match tar_index(archive) {
            Some(entries) => file_texts(archive, entries, entries.len() as int),
            None => None,
        },
        None => None,
    }
}

/// Loads the packages of a repository from its compressed archive. The load
/// fails where the archive cannot be read, where a regular file in it is no
/// text, and where the pool does not accept a text.
pub fn parse_syncdb(pool: &mut Pool, data: &[u8]) -> (r: Result<Database, ()>)
    ensures
        final(pool).wf(),
        extends(final(pool)@, old(pool)@),
        r is Ok <==> archive_texts(data@) is Some && loads(
            old(pool)@,
            archive_texts(data@).unwrap(),
            archive_texts(data@).unwrap().len() as int,
        ),
        r matches Ok(db) ==> {
            &&& final(pool)@ == pool_loaded(
                old(pool)@,
                archive_texts(data@).unwrap(),
                archive_texts(data@).unwrap().len() as int,
            )
            &&& db.wf(final(pool)@)
            &&& records_of(final(pool)@, db@) == loaded(
                archive_texts(data@).unwrap(),
                archive_texts(data@).unwrap().len() as int,
            )
        },
{
    proof {
        use_type_invariant(&*pool);
        lemma_extends_reflexive(pool@);
    }
    let archive = match gunzip(data) {
        Some(a) => a,
        None => {
            return Err(());
        },
    };
    let entries = match tar_entries(archive.as_slice()) {
        Some(e) => e,
        None => {
            return Err(());
        },
    };
    let texts = match sync_texts(archive.as_slice(), &entries) {
        Some(t) => t,
        None => {
            return Err(());
        },
    };
    load_all(pool, &texts)
}

} // verus!
