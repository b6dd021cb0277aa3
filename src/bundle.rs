use crate::error::SyncError;
use std::io::{Cursor, Read, Write};
use vstd::prelude::*;
use vstd::string::StringSliceAdditionalSpecFns;
use vstd::utf8::encode_utf8;

verus! {

#[verifier::external_type_specification]
#[verifier::external_body]
#[verifier::reject_recursive_types(T)]
pub struct ExCursor<T>(Cursor<T>);

/// An archive being written into an in-memory buffer, by a `zip::ZipWriter` held in a
/// private field; what it holds so far is `staged_entries`.
#[verifier::external_body]
pub struct ArchiveWriter {
    inner: zip::ZipWriter<Cursor<Vec<u8>>>,
}

#[verifier::external_type_specification]
#[verifier::external_body]
#[verifier::reject_recursive_types(R)]
pub struct ExZipArchive<R>(zip::ZipArchive<R>);

/// The entries, (name, content) in order, that a writer holds so far.
pub uninterp spec fn staged_entries(w: ArchiveWriter) -> Seq<(Seq<char>, Seq<u8>)>;

/// No call on the writer has failed yet: so once it holds an entry, that entry is open for
/// content.
pub uninterp spec fn healthy(w: ArchiveWriter) -> bool;

/// The bytes of the stored (uncompressed) archive that holds the given entries.
pub uninterp spec fn stored_archive(entries: Seq<(Seq<char>, Seq<u8>)>) -> Seq<u8>;

/// The entries, (name, content) in order, that an opened archive holds.
pub uninterp spec fn archive_entries(a: zip::ZipArchive<Cursor<Vec<u8>>>) -> Seq<
    (Seq<char>, Seq<u8>),
>;

/// The bytes that an opened archive reads from.
pub uninterp spec fn archive_bytes(a: zip::ZipArchive<Cursor<Vec<u8>>>) -> Seq<u8>;

/// The entries that the archive in these bytes holds.
pub uninterp spec fn read_entries(bytes: Seq<u8>) -> Seq<(Seq<char>, Seq<u8>)>;

/// The largest size of one entry's content without the large-file (zip64) option, plus one.
pub open spec fn content_limit() -> int {
    0xFFFF_FFFF
}

/// Entries that an archive of the stored format holds without the large-file option: names
/// pairwise distinct and at most 65535 UTF-8 bytes, contents under `content_limit()`.
pub open spec fn writable(e: Seq<(Seq<char>, Seq<u8>)>) -> bool {
    &&& forall|i: int, j: int| 0 <= i < j < e.len() ==> #[trigger] e[i].0 != #[trigger] e[j].0
    &&& forall|i: int|
        0 <= i < e.len() ==> encode_utf8(#[trigger] e[i].0).len() <= 65535 && e[i].1.len()
            < content_limit()
}

/// The bytes are the stored archive of some writable entries.
pub open spec fn written_archive(bytes: Seq<u8>) -> bool {
    exists|e: Seq<(Seq<char>, Seq<u8>)>| writable(e) && stored_archive(e) == bytes
}

/// Relies on `zip::ZipWriter::new`: a writer over an empty in-memory buffer holds no entry.
#[verifier::external_body]
fn new_writer() -> (w: ArchiveWriter)
    ensures
        staged_entries(w) == Seq::<(Seq<char>, Seq<u8>)>::empty(),
        healthy(w),
{
    ArchiveWriter { inner: zip::ZipWriter::new(Cursor::new(Vec::new())) }
}

/// Relies on `zip::ZipWriter::start_file`, with the stored method. A name over 65535 bytes
/// panics in its header, so it is excluded. On a writer on which no call failed, the call
/// fails only on a name already present (or on a previous entry too large to finish); on success the writer holds one more
/// entry, with this name and no content yet.
#[verifier::external_body]
fn start_stored_entry(w: &mut ArchiveWriter, name: &str) -> (r: Result<(), String>)
    requires
        name.spec_bytes().len() <= 65535,
    ensures
        r is Ok ==> staged_entries(*final(w)) == staged_entries(*old(w)).push((name@, Seq::empty())),
        r is Ok && healthy(*old(w)) ==> healthy(*final(w)),
        healthy(*old(w)) && (forall|k: int|
            0 <= k < staged_entries(*old(w)).len() ==> #[trigger] staged_entries(*old(w))[k].0
                != name@ && staged_entries(*old(w))[k].1.len() < content_limit()) ==> r is Ok,
{
    let options = zip::write::SimpleFileOptions::default().compression_method(
        zip::CompressionMethod::Stored,
    );
    w.inner.start_file(name, options).map_err(|e| e.to_string())
}

/// Relies on `std::io::Write::write_all` of `zip::ZipWriter`: on a writer on which no call
/// failed and which holds an entry (so that entry is open), the bytes are appended to the
/// content of that entry; this fails only when the content would exceed the large-file
/// threshold.
#[verifier::external_body]
fn write_entry_bytes(w: &mut ArchiveWriter, data: &[u8]) -> (r: Result<(), String>)
    requires
        healthy(*old(w)),
        staged_entries(*old(w)).len() > 0,
    ensures
        r is Ok ==> healthy(*final(w)),
        r is Ok ==> {
            let old_e = staged_entries(*old(w));
            staged_entries(*final(w)) == old_e.update(
                old_e.len() - 1,
                (old_e.last().0, old_e.last().1 + data@),
            )
        },
        staged_entries(*old(w)).last().1.len() + data@.len() < content_limit() ==> r is Ok,
{
    w.inner.write_all(data).map_err(|e| e.to_string())
}

/// Relies on `zip::ZipWriter::finish`: for a writer on which no call failed, the archive's
/// bytes, a function of its entries, from which `zip::ZipArchive` reads the same entries back;
/// on an in-memory buffer it then fails only on an entry too large for the format.
#[verifier::external_body]
fn finish_archive(w: ArchiveWriter) -> (r: Result<Vec<u8>, String>)
    ensures
        healthy(w) && r is Ok ==> r->Ok_0@ == stored_archive(staged_entries(w)),
        healthy(w) && r is Ok ==> read_entries(r->Ok_0@) == staged_entries(w),
        healthy(w) && (forall|k: int|
            0 <= k < staged_entries(w).len() ==> (#[trigger] staged_entries(w)[k]).1.len()
                < content_limit()) ==> r is Ok,
{
    w.inner.finish().map(|c| c.into_inner()).map_err(|e| e.to_string())
}

/// Relies on `zip::ZipArchive::new`: on success, the opened archive reads these bytes and holds
/// the entries that they hold; the bytes of an archive that `zip::ZipWriter` wrote open.
#[verifier::external_body]
fn open_archive(bytes: Vec<u8>) -> (r: Result<zip::ZipArchive<Cursor<Vec<u8>>>, String>)
    ensures
        r is Ok ==> archive_entries(r->Ok_0) == read_entries(bytes@),
        r is Ok ==> archive_bytes(r->Ok_0) == bytes@,
        written_archive(bytes@) ==> r is Ok,
{
    zip::ZipArchive::new(Cursor::new(bytes)).map_err(|e| e.to_string())
}

/// Relies on `zip::ZipArchive::len`: the number of entries.
#[verifier::external_body]
fn entry_count(a: &zip::ZipArchive<Cursor<Vec<u8>>>) -> (r: usize)
    ensures
        r == archive_entries(*a).len(),
{
    a.len()
}

/// Relies on `zip::ZipArchive::by_index`, with the entry's `name` and its content read to
/// the end: the name and content of entry `i`, read without failure from an archive that
/// `zip::ZipWriter` wrote; the archive's entries and bytes stay as they were.
#[verifier::external_body]
fn read_entry(a: &mut zip::ZipArchive<Cursor<Vec<u8>>>, i: usize) -> (r: Result<
    (String, Vec<u8>),
    String,
>)
    requires
        i < archive_entries(*old(a)).len(),
    ensures
        archive_entries(*final(a)) == archive_entries(*old(a)),
        archive_bytes(*final(a)) == archive_bytes(*old(a)),
        r is Ok ==> (r->Ok_0.0@, r->Ok_0.1@) == archive_entries(*old(a))[i as int],
        written_archive(archive_bytes(*old(a))) ==> r is Ok,
{
    let mut f = a.by_index(i).map_err(|e| e.to_string())?;
    let name = f.name().to_string();
    let mut content = Vec::new();
    f.read_to_end(&mut content).map_err(|e| e.to_string())?;
    Ok((name, content))
}

/// One file of a bundle: its display name and its bytes.
#[derive(Debug, Clone)]
pub struct BundleEntry {
    pub name: String,
    pub content: Vec<u8>,
}

pub open spec fn entry_view(e: BundleEntry) -> (Seq<char>, Seq<u8>) {
    (e.name@, e.content@)
}

/// The (name, content) pairs of the entries, in order.
pub open spec fn entries_view(s: Seq<BundleEntry>) -> Seq<(Seq<char>, Seq<u8>)> {
    s.map_values(|e: BundleEntry| entry_view(e))
}

/// No two entries share a display name.
pub open spec fn names_unique(s: Seq<BundleEntry>) -> bool {
    forall|i: int, j: int| 0 <= i < j < s.len() ==> #[trigger] s[i].name@ != #[trigger] s[j].name@
}

/// The first name, in order of the entries, that an earlier entry already has.
pub fn find_duplicate_name(entries: &Vec<BundleEntry>) -> (r: Option<usize>)
    ensures
        r is None <==> names_unique(entries@),
        r is Some ==> r->0 < entries@.len() && exists|j: int|
            0 <= j < r->0 && #[trigger] entries@[j].name@ == entries@[r->0 as int].name@,
        r is Some ==> forall|a: int, b: int|
            0 <= a < b < r->0 ==> #[trigger] entries@[a].name@ != #[trigger] entries@[b].name@,
{
    let mut i: usize = 0;
    while i < entries.len()
        invariant
            i <= entries@.len(),
            forall|a: int, b: int|
                0 <= a < b < i ==> #[trigger] entries@[a].name@ != #[trigger] entries@[b].name@,
        decreases entries@.len() - i,
    {
        let mut j: usize = 0;
        while j < i
            invariant
                i < entries@.len(),
                j <= i,
                forall|a: int, b: int|
                    0 <= a < b < i ==> #[trigger] entries@[a].name@ != #[trigger] entries@[b].name@,
                forall|a: int| 0 <= a < j ==> #[trigger] entries@[a].name@ != entries@[i as int].name@,
            decreases i - j,
        {
            if entries[j].name == entries[i].name {
                return Some(i);
            }
            j += 1;
        }
        i += 1;
    }
    None
}

/// What `bundle` gives for these entries: `DuplicateName` exactly when two share a name;
/// else `ArchiveWrite` exactly when a name is over 65535 UTF-8 bytes or a content reaches
/// `content_limit()`; else the stored archive of the entries, which reads back as them.
pub open spec fn bundle_outcome(es: Seq<BundleEntry>, r: Result<Vec<u8>, SyncError>) -> bool {
    if !names_unique(es) {
        r is Err && r->Err_0 is DuplicateName
    } else if !writable(entries_view(es)) {
        r is Err && r->Err_0 is ArchiveWrite
    } else {
        &&& r is Ok
        &&& r->Ok_0@ == stored_archive(entries_view(es))
        &&& read_entries(r->Ok_0@) == entries_view(es)
        &&& written_archive(r->Ok_0@)
    }
}

/// What `unbundle` gives for these bytes: on success the entries that the archive holds, in
/// archive order; every failure is `ArchiveRead`; and an archive written by `bundle` (or any
/// stored archive of writable entries) is read without failure.
pub open spec fn unbundle_outcome(bytes: Seq<u8>, r: Result<Vec<BundleEntry>, SyncError>) -> bool {
    &&& r is Ok ==> entries_view(r->Ok_0@) == read_entries(bytes)
    &&& r is Err ==> r->Err_0 is ArchiveRead
    &&& written_archive(bytes) ==> r is Ok
}

/// Packs the entries, in order, into one archive in the stored format (no compression).
/// Entries are held in memory whole: bundles are a few files of moderate size. Duplicate
/// names fail with `DuplicateName`, and entries too large for the format with
/// `ArchiveWrite` (carrying the entry's name), both before anything is written.
pub fn bundle(entries: &Vec<BundleEntry>) -> (r: Result<Vec<u8>, SyncError>)
    ensures
        bundle_outcome(entries@, r),
{
    if let Some(i) = find_duplicate_name(entries) {
        return Err(SyncError::DuplicateName(entries[i].name.clone()));
    }
    let ghost ev = entries_view(entries@);
    let mut k: usize = 0;
    while k < entries.len()
        invariant
            k <= entries@.len(),
            names_unique(entries@),
            ev == entries_view(entries@),
            forall|j: int|
                0 <= j < k ==> encode_utf8(#[trigger] ev[j].0).len() <= 65535 && ev[j].1.len()
                    < content_limit(),
        decreases entries@.len() - k,
    {
        let e = &entries[k];
        let name_bytes = e.name.as_str().as_bytes();
        proof {
            assert(name_bytes@ == encode_utf8(e.name@));
        }
        if name_bytes.len() > 65535 || e.content.len() as u64 >= 0xFFFF_FFFFu64 {
            proof {
                assert(ev[k as int] == entry_view(entries@[k as int]));
                assert(!(encode_utf8(ev[k as int].0).len() <= 65535 && ev[k as int].1.len()
                    < content_limit()));
                assert(!writable(ev));
            }
            return Err(SyncError::ArchiveWrite(e.name.clone()));
        }
        proof {
            assert(ev[k as int] == entry_view(entries@[k as int]));
        }
        k += 1;
    }
    assert(writable(ev)) by {
        assert forall|a: int, b: int| 0 <= a < b < ev.len() implies #[trigger] ev[a].0
            != #[trigger] ev[b].0 by {
            assert(ev[a] == entry_view(entries@[a]) && ev[b] == entry_view(entries@[b]));
        }
    }
    let mut w = new_writer();
    let mut i: usize = 0;
    while i < entries.len()
        invariant
            i <= entries@.len(),
            names_unique(entries@),
            ev == entries_view(entries@),
            writable(ev),
            healthy(w),
            staged_entries(w) == entries_view(entries@.subrange(0, i as int)),
        decreases entries@.len() - i,
    {
        let e = &entries[i];
        proof {
            assert(ev[i as int] == entry_view(entries@[i as int]));
            let st = staged_entries(w);
            assert forall|j: int| 0 <= j < st.len() implies #[trigger] st[j].0 != e.name@
                && st[j].1.len() < content_limit() by {
                assert(st[j] == entry_view(entries@[j]));
                assert(ev[j] == entry_view(entries@[j]));
            }
        }
        let nm = e.name.as_str();
        assert(nm.spec_bytes() == encode_utf8(ev[i as int].0));
        match start_stored_entry(&mut w, nm) {
            Ok(()) => {},
            Err(m) => {
                return Err(SyncError::ArchiveWrite(m));
            },
        }
        match write_entry_bytes(&mut w, e.content.as_slice()) {
            Ok(()) => {},
            Err(m) => {
                return Err(SyncError::ArchiveWrite(m));
            },
        }
        proof {
            assert(entries_view(entries@.subrange(0, i + 1)) =~= entries_view(
                entries@.subrange(0, i as int),
            ).push(entry_view(entries@[i as int])));
            assert(entries@[i as int].content@ =~= Seq::<u8>::empty() + entries@[i as int].content@);
        }
        i += 1;
    }
    assert(entries@.subrange(0, entries@.len() as int) =~= entries@);
    assert forall|j: int| 0 <= j < staged_entries(w).len() implies (#[trigger] staged_entries(
        w,
    )[j]).1.len() < content_limit() by {
        assert(staged_entries(w)[j] == ev[j]);
        assert(encode_utf8(ev[j].0).len() <= 65535);
    }
    match finish_archive(w) {
        Ok(bytes) => {
            assert(writable(ev) && stored_archive(ev) == bytes@);
            Ok(bytes)
        },
        Err(m) => Err(SyncError::ArchiveWrite(m)),
    }
}

/// Reads every entry of an archive, in archive order. Only the stored (uncompressed) method is
/// read, as `bundle` writes it; an entry compressed otherwise fails as `ArchiveRead`. An archive that cannot be opened, or
/// an entry that cannot be read, is `ArchiveRead`; reading stops at the first such entry.
pub fn unbundle(archive: Vec<u8>) -> (r: Result<Vec<BundleEntry>, SyncError>)
    ensures
        unbundle_outcome(archive@, r),
{
    let ghost bytes = archive@;
    let mut a = match open_archive(archive) {
        Ok(a) => a,
        Err(m) => {
            return Err(SyncError::ArchiveRead(m));
        },
    };
    let n = entry_count(&a);
    let mut out: Vec<BundleEntry> = Vec::new();
    let mut i: usize = 0;
    while i < n
        invariant
            i <= n,
            n == archive_entries(a).len(),
            archive_entries(a) == read_entries(bytes),
            archive_bytes(a) == bytes,
            bytes == archive@,
            entries_view(out@) == archive_entries(a).subrange(0, i as int),
        decreases n - i,
    {
        match read_entry(&mut a, i) {
            Ok((name, content)) => {
                let ghost prev = out@;
                out.push(BundleEntry { name, content });
                proof {
                    assert(out@ == prev.push(out@.last()));
                    assert(entries_view(out@) =~= entries_view(prev).push(
                        entry_view(out@.last()),
                    ));
                    assert(archive_entries(a).subrange(0, i + 1) =~= archive_entries(a).subrange(
                        0,
                        i as int,
                    ).push(archive_entries(a)[i as int]));
                }
            },
            Err(m) => {
                return Err(SyncError::ArchiveRead(m));
            },
        }
        i += 1;
    }
    assert(archive_entries(a).subrange(0, n as int) =~= archive_entries(a));
    Ok(out)
}

/// Unbundling what `bundle` produced gives the files back: as many, in the same order, with
/// the same names and byte-identical contents (empty ones included).
pub proof fn law_unbundle_inverts_bundle(
    files: Seq<BundleEntry>,
    bundled: Result<Vec<u8>, SyncError>,
    back: Result<Vec<BundleEntry>, SyncError>,
)
    requires
        bundle_outcome(files, bundled),
        bundled is Ok,
        unbundle_outcome(bundled->Ok_0@, back),
    ensures
        back is Ok,
        back->Ok_0@.len() == files.len(),
        forall|i: int|
            0 <= i < files.len() ==> (#[trigger] back->Ok_0@[i]).name@ == files[i].name@
                && back->Ok_0@[i].content@ == files[i].content@,
{
    let out = back->Ok_0@;
    assert(entries_view(out) == entries_view(files));
    assert forall|i: int| 0 <= i < files.len() implies (#[trigger] out[i]).name@ == files[i].name@
        && out[i].content@ == files[i].content@ by {
        assert(entries_view(out)[i] == entry_view(out[i]));
        assert(entries_view(files)[i] == entry_view(files[i]));
    }
}

/// Bundling succeeds whenever the names are distinct and every entry fits the format.
pub proof fn law_bundle_succeeds_on_distinct_names(
    files: Seq<BundleEntry>,
    bundled: Result<Vec<u8>, SyncError>,
)
    requires
        bundle_outcome(files, bundled),
        names_unique(files),
        forall|i: int|
            0 <= i < files.len() ==> encode_utf8((#[trigger] files[i]).name@).len() <= 65535
                && files[i].content@.len() < content_limit(),
    ensures
        bundled is Ok,
{
    let ev = entries_view(files);
    assert(writable(ev)) by {
        assert forall|a: int, b: int| 0 <= a < b < ev.len() implies #[trigger] ev[a].0
            != #[trigger] ev[b].0 by {
            assert(ev[a] == entry_view(files[a]) && ev[b] == entry_view(files[b]));
        }
        assert forall|a: int| 0 <= a < ev.len() implies encode_utf8(#[trigger] ev[a].0).len()
            <= 65535 && ev[a].1.len() < content_limit() by {
            assert(ev[a] == entry_view(files[a]));
        }
    }
}

} // verus!
