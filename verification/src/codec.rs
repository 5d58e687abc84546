//! The archive codec: bidirectional conversion between a directory tree,
//! given as a list of entries, and the bytes of a deflate-compressed
//! container. Writing and parsing the container format is done by the `zip`
//! crate behind trusted wrappers; everything around it — which entries are
//! written, which are materialized on extraction, path-traversal safety, and
//! the exclusion of the VCS metadata directory — is verified.

use vstd::prelude::*;

use crate::names::active_vcs_name;

verus! {

/// One entry of a directory tree: a relative path, whether it is a
/// directory, the file's bytes (empty for a directory), and an optional
/// permission-mode integer as stored in the container.
#[derive(Debug)]
pub struct Entry {
    pub path: Vec<char>,
    pub is_dir: bool,
    pub data: Vec<u8>,
    pub mode: Option<u32>,
}

impl View for Entry {
    type V = (Seq<char>, bool, Seq<u8>, Option<u32>);

    open spec fn view(&self) -> (Seq<char>, bool, Seq<u8>, Option<u32>) {
        (self.path@, self.is_dir, self.data@, self.mode)
    }
}

/// The view of a list of entries.
pub open spec fn entries_view(v: Seq<Entry>) -> Seq<(Seq<char>, bool, Seq<u8>, Option<u32>)> {
    v.map_values(|e: Entry| e@)
}

/// What can go wrong at the archive boundary: the container's bytes do not
/// parse, an entry cannot be read out of it, or an entry cannot be written
/// into it.
#[derive(Debug)]
pub enum ArchiveError {
    Malformed,
    ReadFailed,
    WriteFailed,
}

// ---------------------------------------------------------------------------
// Path safety
// ---------------------------------------------------------------------------

/// Whether a `..` segment stands at position `i` of a path: preceded and
/// followed by a separator or an end of the path.
pub open spec fn parent_segment_at(p: Seq<char>, i: int) -> bool {
    0 <= i && i + 2 <= p.len() && p[i] == '.' && p[i + 1] == '.' && (i == 0 || p[i - 1] == '/')
        && (i + 2 == p.len() || p[i + 2] == '/')
}

/// A stored path is safe to materialize under a destination root when it is
/// non-empty, relative, holds no backslash and no colon — stored names use
/// `/`, and either character could reroot the path on a platform that reads
/// it as a separator or a drive prefix — and no segment of it is `..`:
/// resolving it can then not escape the root.
pub open spec fn safe_rel_path(p: Seq<char>) -> bool {
    p.len() > 0 && p[0] != '/' && (forall|j: int| 0 <= j < p.len() ==> p[j] != '\\' && p[j] != ':')
        && !(exists|i: int| parent_segment_at(p, i))
}

/// Whether a path names the VCS metadata directory or anything under it.
pub open spec fn vcs_prefixed(p: Seq<char>) -> bool {
    p == active_vcs_name() || (p.len() > active_vcs_name().len() && p.subrange(
        0,
        active_vcs_name().len() as int,
    ) == active_vcs_name() && p[active_vcs_name().len() as int] == '/')
}

/// Tests whether a stored path is safe to materialize under the destination
/// root.
pub fn is_safe_rel_path(p: &Vec<char>) -> (r: bool)
    ensures
        r == safe_rel_path(p@),
{
    if p.len() == 0 {
        return false;
    }
    if p[0] == '/' {
        return false;
    }
    let n = p.len();
    let mut i: usize = 0;
    while i < n
        invariant
            0 <= i <= n == p@.len(),
            forall|j: int| 0 <= j < i ==> !parent_segment_at(p@, j),
            forall|j: int| 0 <= j < i ==> p@[j] != '\\' && p@[j] != ':',
        decreases n - i,
    {
        if p[i] == '\\' || p[i] == ':' {
            return false;
        }
        if n - i >= 2 && p[i] == '.' && p[i + 1] == '.' && (i == 0 || p[i - 1] == '/') && (n - i
            == 2 || p[i + 2] == '/') {
            assert(parent_segment_at(p@, i as int));
            return false;
        }
        assert(!parent_segment_at(p@, i as int));
        i += 1;
    }
    assert forall|j: int| !parent_segment_at(p@, j) by {
        if 0 <= j < n {
            assert(!parent_segment_at(p@, j));
        }
    }
    true
}

/// Tests whether a stored path lies at or under the VCS metadata directory.
pub fn is_vcs_prefixed(p: &Vec<char>) -> (r: bool)
    ensures
        r == vcs_prefixed(p@),
{
    let name = crate::names::active_vcs_name_chars();
    if p.len() < name.len() {
        assert(!vcs_prefixed(p@));
        return false;
    }
    let mut i: usize = 0;
    while i < name.len()
        invariant
            0 <= i <= name@.len() <= p@.len(),
            name@ == active_vcs_name(),
            forall|j: int| 0 <= j < i ==> p@[j] == name@[j],
        decreases name@.len() - i,
    {
        if p[i] != name[i] {
            assert(p@.subrange(0, name@.len() as int)[i as int] != name@[i as int]);
            assert(p@ != name@) by {
                if p@ == name@ {
                    assert(p@[i as int] == name@[i as int]);
                }
            }
            return false;
        }
        i += 1;
    }
    if p.len() == name.len() {
        assert(p@ =~= name@);
        return true;
    }
    let r = p[name.len()] == '/';
    proof {
        assert(p@.subrange(0, name@.len() as int) =~= name@);
        assert(p@.len() != name@.len());
    }
    r
}

// ---------------------------------------------------------------------------
// Trusted boundary: the zip container
// ---------------------------------------------------------------------------

/// An in-memory container being written. The `zip` crate's writer is held
/// opaquely; its contents are tracked by `written_entries`.
#[verifier::external_body]
pub struct ArchiveWriter {
    inner: zip::ZipWriter<std::io::Cursor<Vec<u8>>>,
}

/// The entries a writer holds, in the order they were added, as the container
/// will hand them back: a path, the directory flag, the file bytes, and the
/// stored permission mode.
pub uninterp spec fn written_entries(w: &ArchiveWriter) -> Seq<
    (Seq<char>, bool, Seq<u8>, Option<u32>),
>;

/// What a byte string parses to as a container: `None` when the bytes are not
/// a well-formed container, else the entries in stored order.
pub uninterp spec fn parsed_entries(b: Seq<u8>) -> Option<
    Seq<(Seq<char>, bool, Seq<u8>, Option<u32>)>,
>;

/// The mode a file entry comes back with: the given permission bits masked to
/// the permission range and marked as a regular file, or the writer's default
/// of `rw-r--r--` when none were given.
pub open spec fn file_mode_stored(m: Option<u32>) -> u32 {
    match m {
        Some(bits) => 0o100000 | (bits & 0o777),
        None => 0o100644,
    }
}

/// The mode a directory entry comes back with: the writer's default of
/// `rwxr-xr-x`, marked as a directory.
pub open spec fn dir_mode_stored() -> u32 {
    0o40755
}

/// A name differs from every name already stored in the container.
pub open spec fn fresh_stored_name(
    s: Seq<(Seq<char>, bool, Seq<u8>, Option<u32>)>,
    name: Seq<char>,
) -> bool {
    forall|i: int| 0 <= i < s.len() ==> s[i].0 != name
}

/// The file bytes held in a list of entries, summed.
pub open spec fn total_data(s: Seq<(Seq<char>, bool, Seq<u8>, Option<u32>)>) -> int
    decreases s.len(),
{
    if s.len() == 0 {
        0
    } else {
        s.first().2.len() + total_data(s.drop_first())
    }
}

/// Whether the container's entry at one index can be read out: whether
/// opening it and decompressing its bytes succeed. Reading an in-memory
/// container is deterministic, so this is a function of the bytes and the
/// index alone.
pub uninterp spec fn entry_readable(b: Seq<u8>, i: int) -> bool;

/// Relies on `zip::ZipWriter::new` over an in-memory cursor: a fresh
/// container holds no entries.
#[verifier::external_body]
pub(crate) fn writer_new() -> (w: ArchiveWriter)
    ensures
        written_entries(&w) == Seq::<(Seq<char>, bool, Seq<u8>, Option<u32>)>::empty(),
{
    ArchiveWriter { inner: zip::ZipWriter::new(std::io::Cursor::new(Vec::new())) }
}

/// Relies on `zip::ZipWriter::start_file` with deflate compression followed
/// by `std::io::Write::write_all` on the writer: on success the container
/// gains one file entry under the given name holding the given bytes, with
/// the given permission bits (masked to the permission range, marked as a
/// regular file) or the writer's default. The call succeeds whenever the name
/// is fresh, short enough to store, and the bytes stay under the format's
/// plain size limit: writing to an in-memory cursor cannot otherwise fail.
#[verifier::external_body]
pub(crate) fn writer_add_file(
    w: &mut ArchiveWriter,
    path: &Vec<char>,
    data: &Vec<u8>,
    mode: Option<u32>,
) -> (r: Result<(), ArchiveError>)
    requires
        path@.len() > 0,
        path@[path@.len() - 1] != '/',
        path@[path@.len() - 1] != '\\',
    ensures
        r is Ok ==> written_entries(final(w)) == written_entries(old(w)).push(
            (path@, false, data@, Some(file_mode_stored(mode))),
        ),
        fresh_stored_name(written_entries(old(w)), path@) && path@.len() <= 2048 && data@.len()
            < 0x8000_0000 ==> r is Ok,
{
    let name: String = path.iter().collect();
    let mut options = zip::write::SimpleFileOptions::default().compression_method(
        zip::CompressionMethod::Deflated,
    );
    if let Some(bits) = mode {
        options = options.unix_permissions(bits);
    }
    if w.inner.start_file(name, options).is_err() {
        return Err(ArchiveError::WriteFailed);
    }
    match std::io::Write::write_all(&mut w.inner, data.as_slice()) {
        Ok(()) => Ok(()),
        Err(_) => Err(ArchiveError::WriteFailed),
    }
}

/// Relies on `zip::ZipWriter::add_directory`: on success the container gains
/// one directory entry, stored under the given name with a `/` appended and
/// the writer's default directory mode. The call succeeds whenever the stored
/// name is fresh and short enough to store.
#[verifier::external_body]
pub(crate) fn writer_add_dir(w: &mut ArchiveWriter, path: &Vec<char>) -> (r: Result<(), ArchiveError>)
    requires
        path@.len() == 0 || (path@[path@.len() - 1] != '/' && path@[path@.len() - 1] != '\\'),
    ensures
        r is Ok ==> written_entries(final(w)) == written_entries(old(w)).push(
            (path@ + seq!['/'], true, Seq::<u8>::empty(), Some(dir_mode_stored())),
        ),
        fresh_stored_name(written_entries(old(w)), path@ + seq!['/']) && path@.len() <= 2048
            ==> r is Ok,
{
    let name: String = path.iter().collect();
    let options = zip::write::SimpleFileOptions::default().compression_method(
        zip::CompressionMethod::Deflated,
    );
    match w.inner.add_directory(name, options) {
        Ok(()) => Ok(()),
        Err(_) => Err(ArchiveError::WriteFailed),
    }
}

/// Relies on `zip::ZipWriter::finish`: on success the returned bytes are a
/// well-formed container that parses back to exactly the written entries —
/// same names in the same order, same directory flags, same file bytes, same
/// stored modes — and every entry it holds can be read out again, since this
/// writer stores only intact, deflate-compressed entries. Finishing succeeds
/// whenever the entries stay within the format's plain limits: name lengths,
/// entry count, and total size.
#[verifier::external_body]
pub(crate) fn writer_finish(w: ArchiveWriter) -> (r: Result<Vec<u8>, ArchiveError>)
    ensures
        r matches Ok(bytes) ==> parsed_entries(bytes@) == Some(written_entries(&w)),
        r matches Ok(bytes) ==> forall|i: int|
            0 <= i < written_entries(&w).len() ==> entry_readable(bytes@, i),
        (forall|i: int|
            0 <= i < written_entries(&w).len() ==> written_entries(&w)[i].0.len() <= 2049)
            && written_entries(&w).len() < 0x10000 && total_data(written_entries(&w)) + 65536
            * written_entries(&w).len() < 0x8000_0000 ==> r is Ok,
{
    match w.inner.finish() {
        Ok(cursor) => Ok(cursor.into_inner()),
        Err(_) => Err(ArchiveError::WriteFailed),
    }
}

/// An in-memory container being read. The `zip` crate's reader is held
/// opaquely; its contents are `reader_entries`.
#[verifier::external_body]
pub struct ArchiveReader {
    inner: zip::ZipArchive<std::io::Cursor<Vec<u8>>>,
}

/// The entries a reader hands out, by index.
pub uninterp spec fn reader_entries(a: &ArchiveReader) -> Seq<
    (Seq<char>, bool, Seq<u8>, Option<u32>),
>;

/// The byte string a reader was opened on.
pub uninterp spec fn source_bytes(a: &ArchiveReader) -> Seq<u8>;

/// Relies on `zip::ZipArchive::new`: it accepts exactly the byte strings that
/// are a well-formed container, and hands back its entries.
#[verifier::external_body]
pub(crate) fn reader_open(bytes: &Vec<u8>) -> (r: Result<ArchiveReader, ArchiveError>)
    ensures
        r is Ok <==> parsed_entries(bytes@) is Some,
        r matches Ok(a) ==> reader_entries(&a) == parsed_entries(bytes@).unwrap()
            && source_bytes(&a) == bytes@,
{
    match zip::ZipArchive::new(std::io::Cursor::new(bytes.clone())) {
        Ok(a) => Ok(ArchiveReader { inner: a }),
        Err(_) => Err(ArchiveError::Malformed),
    }
}

/// Relies on `zip::ZipArchive::len`: the number of entries.
#[verifier::external_body]
pub(crate) fn reader_len(a: &ArchiveReader) -> (n: usize)
    ensures
        n == reader_entries(a).len(),
{
    a.inner.len()
}

/// Relies on `zip::ZipArchive::by_index` and `std::io::Read::read_to_end`:
/// on success the indexed entry's stored name, directory flag, decompressed
/// bytes and stored mode are handed out; the reader's contents are unchanged
/// either way. Whether the read succeeds is a function of the container's
/// bytes and the index alone — it fails exactly on an entry whose header,
/// compression method or compressed bytes cannot be read.
#[verifier::external_body]
pub(crate) fn reader_entry(a: &mut ArchiveReader, i: usize) -> (r: Result<Entry, ArchiveError>)
    requires
        i < reader_entries(old(a)).len(),
    ensures
        reader_entries(final(a)) == reader_entries(old(a)),
        source_bytes(final(a)) == source_bytes(old(a)),
        r is Ok <==> entry_readable(source_bytes(old(a)), i as int),
        r matches Ok(e) ==> e@ == reader_entries(old(a))[i as int],
{
    let mut f = match a.inner.by_index(i) {
        Ok(f) => f,
        Err(_) => {
            return Err(ArchiveError::ReadFailed);
        },
    };
    let path: Vec<char> = f.name().chars().collect();
    let is_dir = f.is_dir();
    let mode = f.unix_mode();
    let mut data: Vec<u8> = Vec::new();
    if !is_dir && std::io::Read::read_to_end(&mut f, &mut data).is_err() {
        return Err(ArchiveError::ReadFailed);
    }
    Ok(Entry { path, is_dir, data, mode })
}

// ---------------------------------------------------------------------------
// Archiving a tree
// ---------------------------------------------------------------------------

/// A tree's entries can be stored: every path is non-empty and carries no
/// trailing separator (a tree walk never produces one), and a directory
/// carries no bytes.
pub open spec fn archivable(s: Seq<(Seq<char>, bool, Seq<u8>, Option<u32>)>) -> bool {
    forall|i: int|
        0 <= i < s.len() ==> s[i].0.len() > 0 && s[i].0[s[i].0.len() - 1] != '/' && s[i].0[s[
            i
        ].0.len() - 1] != '\\' && (s[i].1 ==> s[i].2.len() == 0)
}

/// How one tree entry is stored in the container: a directory's name gains a
/// trailing `/`, holds no bytes and takes the default directory mode; a file
/// keeps its name and bytes and takes its permission bits as the writer
/// stores them.
pub open spec fn stored_view(e: (Seq<char>, bool, Seq<u8>, Option<u32>)) -> (
    Seq<char>,
    bool,
    Seq<u8>,
    Option<u32>,
) {
    if e.1 {
        (e.0 + seq!['/'], true, Seq::<u8>::empty(), Some(dir_mode_stored()))
    } else {
        (e.0, false, e.2, Some(file_mode_stored(e.3)))
    }
}

/// A tree that archiving is bound to store whole: its entries are archivable,
/// their stored names are distinct, and names, count and total size stay
/// within the container format's plain limits.
pub open spec fn tree_storable(s: Seq<(Seq<char>, bool, Seq<u8>, Option<u32>)>) -> bool {
    archivable(s) && s.len() < 0x10000 && (forall|i: int|
        0 <= i < s.len() ==> s[i].0.len() <= 2048) && (forall|i: int, j: int|
        0 <= i < j < s.len() ==> stored_view(s[i]).0 != stored_view(s[j]).0) && total_data(s)
        + 65536 * s.len() < 0x8000_0000
}

/// Storing a tree keeps its total of file bytes: directories store nothing
/// and hold nothing.
proof fn lemma_total_data_stored(s: Seq<(Seq<char>, bool, Seq<u8>, Option<u32>)>)
    requires
        archivable(s),
    ensures
        total_data(s.map_values(|e: (Seq<char>, bool, Seq<u8>, Option<u32>)| stored_view(e)))
            == total_data(s),
    decreases s.len(),
{
    let m = s.map_values(|e: (Seq<char>, bool, Seq<u8>, Option<u32>)| stored_view(e));
    if s.len() > 0 {
        lemma_total_data_stored(s.drop_first());
        assert(m.drop_first() =~= s.drop_first().map_values(
            |e: (Seq<char>, bool, Seq<u8>, Option<u32>)| stored_view(e),
        ));
        assert(m.first() == stored_view(s.first()));
    }
}

/// Every entry's bytes are counted in the total, which is never negative.
proof fn lemma_total_data_bound(s: Seq<(Seq<char>, bool, Seq<u8>, Option<u32>)>, i: int)
    requires
        0 <= i < s.len(),
    ensures
        s[i].2.len() <= total_data(s),
        total_data(s) >= 0,
    decreases s.len(),
{
    lemma_total_data_nonneg(s.drop_first());
    if i > 0 {
        lemma_total_data_bound(s.drop_first(), i - 1);
        assert(s.drop_first()[i - 1] == s[i]);
    }
}

proof fn lemma_total_data_nonneg(s: Seq<(Seq<char>, bool, Seq<u8>, Option<u32>)>)
    ensures
        total_data(s) >= 0,
    decreases s.len(),
{
    if s.len() > 0 {
        lemma_total_data_nonneg(s.drop_first());
    }
}

/// Packs a directory tree into container bytes. Every entry is written, in
/// the order given — the walk's order, nothing is sorted — each directory as
/// a directory entry and each file as a deflate-compressed file entry. On
/// success the bytes parse back to exactly the stored form of the tree, and
/// every stored entry can be read out again. Packing succeeds for every
/// storable tree: distinct stored names within the format's limits.
pub fn archive_tree(entries: &Vec<Entry>) -> (r: Result<Vec<u8>, ArchiveError>)
    requires
        archivable(entries_view(entries@)),
    ensures
        r matches Ok(bytes) ==> parsed_entries(bytes@) == Some(
            entries_view(entries@).map_values(
                |e: (Seq<char>, bool, Seq<u8>, Option<u32>)| stored_view(e),
            ),
        ),
        r matches Ok(bytes) ==> forall|i: int|
            0 <= i < entries@.len() ==> entry_readable(bytes@, i),
        tree_storable(entries_view(entries@)) ==> r is Ok,
{
    let ghost s = entries_view(entries@);
    let ghost stored = s.map_values(|e: (Seq<char>, bool, Seq<u8>, Option<u32>)| stored_view(e));
    let mut w = writer_new();
    let mut i: usize = 0;
    proof {
        assert(written_entries(&w) =~= stored.subrange(0, 0));
    }
    while i < entries.len()
        invariant
            0 <= i <= entries@.len(),
            s == entries_view(entries@),
            s.len() == entries@.len(),
            archivable(s),
            stored == s.map_values(|e: (Seq<char>, bool, Seq<u8>, Option<u32>)| stored_view(e)),
            written_entries(&w) == stored.subrange(0, i as int),
        decreases entries@.len() - i,
    {
        assert(s[i as int] == entries@[i as int]@);
        let e = &entries[i];
        proof {
            if tree_storable(s) {
                lemma_total_data_bound(s, i as int);
                assert forall|j: int|
                    0 <= j < written_entries(&w).len() implies written_entries(&w)[j].0
                    != stored_view(s[i as int]).0 by {
                    assert(written_entries(&w)[j] == stored[j]);
                    assert(stored[j] == stored_view(s[j]));
                }
            }
        }
        if e.is_dir {
            match writer_add_dir(&mut w, &e.path) {
                Ok(()) => {},
                Err(err) => {
                    assert(!tree_storable(s));
                    return Err(err);
                },
            }
        } else {
            match writer_add_file(&mut w, &e.path, &e.data, e.mode) {
                Ok(()) => {},
                Err(err) => {
                    assert(!tree_storable(s));
                    return Err(err);
                },
            }
        }
        proof {
            assert(stored[i as int] == stored_view(s[i as int]));
            assert(written_entries(&w) =~= stored.subrange(0, i + 1));
        }
        i += 1;
    }
    proof {
        assert(stored.subrange(0, s.len() as int) =~= stored);
        if tree_storable(s) {
            lemma_total_data_stored(s);
            assert forall|j: int|
                0 <= j < written_entries(&w).len() implies written_entries(&w)[j].0.len()
                <= 2049 by {
                assert(written_entries(&w)[j] == stored_view(s[j]));
            }
        }
    }
    writer_finish(w)
}

// ---------------------------------------------------------------------------
// Extracting a tree
// ---------------------------------------------------------------------------

/// A stored entry brought back to tree form: a directory entry's trailing `/`
/// is stripped.
pub open spec fn norm_entry(e: (Seq<char>, bool, Seq<u8>, Option<u32>)) -> (
    Seq<char>,
    bool,
    Seq<u8>,
    Option<u32>,
) {
    if e.1 && e.0.len() > 0 && e.0[e.0.len() - 1] == '/' {
        (e.0.subrange(0, e.0.len() - 1), e.1, e.2, e.3)
    } else {
        e
    }
}

/// Whether an entry is materialized on extraction: its path must be safe to
/// enclose under the destination root, and must not lie under the VCS
/// metadata directory — extraction must never reintroduce a stale VCS
/// snapshot.
pub open spec fn keep_entry(e: (Seq<char>, bool, Seq<u8>, Option<u32>)) -> bool {
    safe_rel_path(e.0) && !vcs_prefixed(e.0)
}

/// What extraction materializes from a container's entries: each one in tree
/// form, those that are unsafe or belong to the VCS directory skipped.
pub open spec fn extract_view(s: Seq<(Seq<char>, bool, Seq<u8>, Option<u32>)>) -> Seq<
    (Seq<char>, bool, Seq<u8>, Option<u32>),
>
    decreases s.len(),
{
    if s.len() == 0 {
        Seq::empty()
    } else {
        let e = norm_entry(s.first());
        (if keep_entry(e) {
            seq![e]
        } else {
            Seq::empty()
        }) + extract_view(s.drop_first())
    }
}

/// Unpacks container bytes into the list of tree entries to materialize.
/// Entries whose stored path cannot be safely enclosed are skipped, not
/// fatal; entries under the VCS metadata directory are always skipped. Fails
/// exactly when the bytes are not a well-formed container or one of its
/// entries cannot be read out.
pub fn extract_archive(bytes: &Vec<u8>) -> (r: Result<Vec<Entry>, ArchiveError>)
    ensures
        r matches Ok(out) ==> parsed_entries(bytes@) is Some && entries_view(out@)
            == extract_view(parsed_entries(bytes@).unwrap()),
        r matches Ok(out) ==> forall|i: int|
            0 <= i < out@.len() ==> safe_rel_path(out@[i]@.0) && !vcs_prefixed(out@[i]@.0),
        parsed_entries(bytes@) is None ==> r is Err,
        r is Err ==> parsed_entries(bytes@) is None || (exists|i: int|
            0 <= i < parsed_entries(bytes@).unwrap().len() && !entry_readable(bytes@, i)),
        parsed_entries(bytes@) is Some && (forall|i: int|
            0 <= i < parsed_entries(bytes@).unwrap().len() ==> entry_readable(bytes@, i))
            ==> r is Ok,
{
    let mut a = match reader_open(bytes) {
        Ok(a) => a,
        Err(err) => {
            return Err(err);
        },
    };
    let ghost s = reader_entries(&a);
    let n = reader_len(&a);
    let mut out: Vec<Entry> = Vec::new();
    let mut i: usize = 0;
    proof {
        assert(s.skip(0) =~= s);
        assert(entries_view(out@) + extract_view(s.skip(0)) =~= extract_view(s));
    }
    while i < n
        invariant
            0 <= i <= n == s.len(),
            s == reader_entries(&a),
            s == parsed_entries(bytes@).unwrap(),
            parsed_entries(bytes@) is Some,
            source_bytes(&a) == bytes@,
            extract_view(s) == entries_view(out@) + extract_view(s.skip(i as int)),
            forall|j: int|
                0 <= j < out@.len() ==> safe_rel_path(out@[j]@.0) && !vcs_prefixed(out@[j]@.0),
        decreases n - i,
    {
        let e = match reader_entry(&mut a, i) {
            Ok(e) => e,
            Err(err) => {
                proof {
                    assert(0 <= (i as int) < s.len() && !entry_readable(bytes@, i as int));
                }
                return Err(err);
            },
        };
        proof {
            assert(s.skip(i as int).first() == s[i as int]);
            assert(s.skip(i as int).drop_first() =~= s.skip(i as int + 1));
        }
        // Bring the stored entry to tree form: strip a directory's trailing slash.
        let mut e = e;
        if e.is_dir && e.path.len() > 0 && e.path[e.path.len() - 1] == '/' {
            e.path.pop();
            proof {
                assert(e@ =~= norm_entry(s[i as int]));
            }
        } else {
            proof {
                assert(e@ =~= norm_entry(s[i as int]));
            }
        }
        let keep = is_safe_rel_path(&e.path) && !is_vcs_prefixed(&e.path);
        if keep {
            let ghost out0 = out@;
            out.push(e);
            proof {
                assert(entries_view(out@) =~= entries_view(out0) + seq![norm_entry(s[i as int])]);
                assert(extract_view(s) =~= entries_view(out@) + extract_view(s.skip(i as int + 1)));
            }
        } else {
            proof {
                assert(extract_view(s) =~= entries_view(out@) + extract_view(s.skip(i as int + 1)));
            }
        }
        i += 1;
    }
    proof {
        assert(s.skip(i as int) =~= Seq::<(Seq<char>, bool, Seq<u8>, Option<u32>)>::empty());
        assert(extract_view(s) =~= entries_view(out@));
    }
    Ok(out)
}

// ---------------------------------------------------------------------------
// The round trip
// ---------------------------------------------------------------------------

/// A tree filtered as extraction filters: entries with unsafe paths or under
/// the VCS metadata directory are absent, everything else is kept in order.
pub open spec fn tree_filtered(s: Seq<(Seq<char>, bool, Seq<u8>, Option<u32>)>) -> Seq<
    (Seq<char>, bool, Seq<u8>, Option<u32>),
>
    decreases s.len(),
{
    if s.len() == 0 {
        Seq::empty()
    } else {
        (if keep_entry(s.first()) {
            seq![s.first()]
        } else {
            Seq::empty()
        }) + tree_filtered(s.drop_first())
    }
}

/// How one tree entry comes back after a round trip: its own path, flag and
/// bytes, with the mode the container stored — its own permission bits,
/// masked and marked, for a file; the default for a directory.
pub open spec fn restored_view(e: (Seq<char>, bool, Seq<u8>, Option<u32>)) -> (
    Seq<char>,
    bool,
    Seq<u8>,
    Option<u32>,
) {
    if e.1 {
        (e.0, true, Seq::<u8>::empty(), Some(dir_mode_stored()))
    } else {
        (e.0, false, e.2, Some(file_mode_stored(e.3)))
    }
}

/// The round trip: when a tree is packed and the resulting bytes are
/// unpacked, the extracted entries are exactly the tree's own — same paths,
/// same directory flags, same file bytes, in the same order, and each file's
/// permission bits as the container stores them — except that entries with
/// unsafe paths and entries under the VCS metadata directory are absent.
pub proof fn lemma_archive_round_trip(
    tree: Seq<(Seq<char>, bool, Seq<u8>, Option<u32>)>,
    parsed: Seq<(Seq<char>, bool, Seq<u8>, Option<u32>)>,
)
    requires
        archivable(tree),
        parsed == tree.map_values(|e: (Seq<char>, bool, Seq<u8>, Option<u32>)| stored_view(e)),
    ensures
        extract_view(parsed) == tree_filtered(tree).map_values(
            |e: (Seq<char>, bool, Seq<u8>, Option<u32>)| restored_view(e),
        ),
    decreases tree.len(),
{
    if tree.len() == 0 {
        assert(extract_view(parsed) =~= Seq::<(Seq<char>, bool, Seq<u8>, Option<u32>)>::empty());
        assert(tree_filtered(tree).map_values(
            |e: (Seq<char>, bool, Seq<u8>, Option<u32>)| restored_view(e),
        ) =~= Seq::<(Seq<char>, bool, Seq<u8>, Option<u32>)>::empty());
    } else {
        let t0 = tree.first();
        let p0 = parsed.first();
        assert(p0 == stored_view(t0));
        let ne = norm_entry(p0);
        assert(t0.0.len() > 0 && t0.0[t0.0.len() - 1] != '/');
        if t0.1 {
            assert((t0.0 + seq!['/']).subrange(0, t0.0.len() as int) =~= t0.0);
            assert(ne =~= restored_view(t0));
        } else {
            assert(ne =~= restored_view(t0));
        }
        assert(keep_entry(ne) == keep_entry(t0));
        assert(parsed.drop_first() =~= tree.drop_first().map_values(
            |e: (Seq<char>, bool, Seq<u8>, Option<u32>)| stored_view(e),
        ));
        lemma_archive_round_trip(tree.drop_first(), parsed.drop_first());
        let er = extract_view(parsed.drop_first());
        let tr = tree_filtered(tree.drop_first()).map_values(
            |e: (Seq<char>, bool, Seq<u8>, Option<u32>)| restored_view(e),
        );
        if keep_entry(ne) {
            assert(extract_view(parsed) == seq![ne] + er);
            assert(tree_filtered(tree) == seq![t0] + tree_filtered(tree.drop_first()));
            assert(tree_filtered(tree).map_values(
                |e: (Seq<char>, bool, Seq<u8>, Option<u32>)| restored_view(e),
            ) =~= seq![restored_view(t0)] + tr);
            assert(extract_view(parsed) =~= tree_filtered(tree).map_values(
                |e: (Seq<char>, bool, Seq<u8>, Option<u32>)| restored_view(e),
            ));
        } else {
            assert(extract_view(parsed) =~= er);
            assert(tree_filtered(tree) =~= tree_filtered(tree.drop_first()));
            assert(tree_filtered(tree).map_values(
                |e: (Seq<char>, bool, Seq<u8>, Option<u32>)| restored_view(e),
            ) =~= tr);
        }
    }
}

} // verus!
