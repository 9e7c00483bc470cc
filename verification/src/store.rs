//! The decisions of the on-disk cache: when its rows can be used as they
//! are, which files are stale, what an incremental save rewrites, and how
//! its rows become entities and a graph again.

use vstd::prelude::*;
use std::collections::hash_map::DefaultHasher;
use std::hash::Hasher;
use vstd::std_specs::hash::DefaultHasherAdditionalSpecFns;
use vstd::utf8::encode_utf8;
use crate::cache::{is_cache_manifest_key, is_manifest_file_name, is_manifest_key, is_manifest_name, sources_below, source_file_count};
use crate::model::{EntityGraph, EntityInfo, EntityRef, RefType, SemanticEntity};
use crate::text::{clone_opt, opt_text, same_str};

verus! {

// ---------------------------------------------------------------------------
// Reference types by name

/// The name under which the cache stores a reference type.
pub open spec fn ref_type_text(t: RefType) -> Seq<char> {
    match t {
        RefType::Calls => "calls"@,
        RefType::TypeRef => "typeref"@,
        RefType::Imports => "imports"@,
    }
}

/// The reference type a stored name stands for; any name but `calls` and
/// `imports` reads as a type reference.
pub open spec fn ref_type_of_text(s: Seq<char>) -> RefType {
    if s == "calls"@ {
        RefType::Calls
    } else if s == "imports"@ {
        RefType::Imports
    } else {
        RefType::TypeRef
    }
}

pub fn ref_type_name(t: RefType) -> (r: &'static str)
    ensures
        r@ == ref_type_text(t),
{
    match t {
        RefType::Calls => "calls",
        RefType::TypeRef => "typeref",
        RefType::Imports => "imports",
    }
}

pub fn ref_type_from_name(s: &str) -> (r: RefType)
    ensures
        r == ref_type_of_text(s@),
{
    if same_str(s, "calls") {
        RefType::Calls
    } else if same_str(s, "imports") {
        RefType::Imports
    } else {
        RefType::TypeRef
    }
}

/// A stored reference type reads back as itself.
pub proof fn ref_type_round_trip(t: RefType)
    ensures
        ref_type_of_text(ref_type_text(t)) == t,
{
    reveal_strlit("calls");
    reveal_strlit("typeref");
    reveal_strlit("imports");
    assert("typeref"@[0] != "calls"@[0]);
    assert("typeref"@[0] != "imports"@[0]);
    assert("imports"@[0] != "calls"@[0]);
}

// ---------------------------------------------------------------------------
// Entities and graphs from stored rows

/// `i` summarises entity `e`.
pub open spec fn summarises(i: EntityInfo, e: SemanticEntity) -> bool {
    &&& i.id@ == e.id@
    &&& i.name@ == e.name@
    &&& i.entity_type@ == e.entity_type@
    &&& i.file_path@ == e.file_path@
    &&& i.start_line == e.start_line
    &&& i.end_line == e.end_line
    &&& opt_text(i.parent_id) == opt_text(e.parent_id)
}

/// The summary the graph keeps of an entity.
pub fn entity_info(e: &SemanticEntity) -> (r: EntityInfo)
    ensures
        summarises(r, *e),
{
    EntityInfo {
        id: e.id.clone(),
        name: e.name.clone(),
        entity_type: e.entity_type.clone(),
        file_path: e.file_path.clone(),
        start_line: e.start_line,
        end_line: e.end_line,
        parent_id: clone_opt(&e.parent_id),
    }
}

impl EntityGraph {
    /// The graph of `entities`, one summary each in their order, with
    /// `edges` as its references.
    pub fn from_entities(entities: &[SemanticEntity], edges: Vec<EntityRef>) -> (r: EntityGraph)
        ensures
            r.entities@.len() == entities@.len(),
            forall|k: int| 0 <= k < entities@.len() ==> summarises(#[trigger] r.entities@[k], entities@[k]),
            r.edges@ == edges@,
    {
        let mut infos: Vec<EntityInfo> = Vec::new();
        let mut k: usize = 0;
        while k < entities.len()
            invariant
                k <= entities@.len(),
                infos@.len() == k,
                forall|j: int| 0 <= j < k ==> summarises(#[trigger] infos@[j], entities@[j]),
            decreases entities@.len() - k,
        {
            infos.push(entity_info(&entities[k]));
            k += 1;
        }
        EntityGraph { entities: infos, edges }
    }
}

// ---------------------------------------------------------------------------
// Whether the stored cache can be used as it is

/// A row of the cache's file table: a path and the mtime recorded for it.
pub struct FileStamp {
    pub path: String,
    pub secs: i64,
    pub nanos: i64,
}

/// The mtime recorded for `path`.
pub open spec fn stamp_of(rows: Seq<FileStamp>, path: Seq<char>) -> Option<(i64, i64)>
    decreases rows.len(),
{
    if rows.len() == 0 {
        None
    } else if rows[0].path@ == path {
        Some((rows[0].secs, rows[0].nanos))
    } else {
        stamp_of(rows.drop_first(), path)
    }
}

/// How many rows record manifest files.
pub open spec fn manifest_rows_below(rows: Seq<FileStamp>, n: int) -> nat
    decreases n,
{
    if n <= 0 {
        0
    } else {
        manifest_rows_below(rows, n - 1) + if is_manifest_key(rows[n - 1].path@) {
            1nat
        } else {
            0nat
        }
    }
}

/// The stored cache describes the files as they are: no manifest file is
/// stale, the table has one row per source file besides the manifest rows,
/// and every source file has an mtime that equals its recorded one.
/// `current[k]` is the mtime of `files[k]` now, where it can be read.
pub open spec fn cache_is_current(
    manifest_stale: bool,
    rows: Seq<FileStamp>,
    files: Seq<String>,
    current: Seq<Option<(i64, i64)>>,
) -> bool {
    &&& !manifest_stale
    &&& rows.len() - manifest_rows_below(rows, rows.len() as int) == sources_below(
        files,
        files.len() as int,
    )
    &&& forall|k: int|
        0 <= k < files.len() && !is_manifest_name(#[trigger] files[k]@) ==> current[k] is Some
            && stamp_of(rows, files[k]@) == current[k]
}

fn find_stamp(rows: &[FileStamp], path: &String) -> (r: Option<(i64, i64)>)
    ensures
        r == stamp_of(rows@, path@),
{
    let mut i: usize = 0;
    assert(rows@.skip(0) =~= rows@);
    while i < rows.len()
        invariant
            i <= rows@.len(),
            stamp_of(rows@, path@) == stamp_of(rows@.skip(i as int), path@),
        decreases rows@.len() - i,
    {
        assert(rows@.skip(i as int).drop_first() =~= rows@.skip(i + 1));
        if rows[i].path == *path {
            return Some((rows[i].secs, rows[i].nanos));
        }
        i += 1;
    }
    None
}

fn count_manifest_rows(rows: &[FileStamp]) -> (r: usize)
    ensures
        r == manifest_rows_below(rows@, rows@.len() as int),
        r <= rows@.len(),
{
    let mut n: usize = 0;
    let mut i: usize = 0;
    while i < rows.len()
        invariant
            i <= rows@.len(),
            n == manifest_rows_below(rows@, i as int),
            n <= i,
        decreases rows@.len() - i,
    {
        if is_cache_manifest_key(rows[i].path.as_str()) {
            n += 1;
        }
        i += 1;
    }
    n
}

/// Whether the stored cache can be loaded as it is.
pub fn check_cache_current(
    manifest_stale: bool,
    rows: &[FileStamp],
    files: &[String],
    current: &[Option<(i64, i64)>],
) -> (r: bool)
    requires
        current@.len() == files@.len(),
    ensures
        r == cache_is_current(manifest_stale, rows@, files@, current@),
{
    if manifest_stale {
        return false;
    }
    let manifest = count_manifest_rows(rows);
    if rows.len() - manifest != source_file_count(files) {
        return false;
    }
    let mut k: usize = 0;
    while k < files.len()
        invariant
            current@.len() == files@.len(),
            k <= files@.len(),
            forall|j: int|
                0 <= j < k && !is_manifest_name(#[trigger] files@[j]@) ==> current@[j] is Some
                    && stamp_of(rows@, files@[j]@) == current@[j],
        decreases files@.len() - k,
    {
        if !is_manifest_file_name(files[k].as_str()) {
            let now = match current[k] {
                Some(m) => m,
                None => return false,
            };
            match find_stamp(rows, &files[k]) {
                None => return false,
                Some(st) => {
                    if st.0 != now.0 || st.1 != now.1 {
                        return false;
                    }
                },
            }
        }
        k += 1;
    }
    true
}


// ---------------------------------------------------------------------------
// What a full save writes to the file table, and reading it back

/// The recorded mtime of `path` among stamps `(path, secs, nanos)`: that of
/// the first stamp for it.
pub open spec fn stamp_in(st: Seq<(Seq<char>, i64, i64)>, path: Seq<char>) -> Option<(i64, i64)>
    decreases st.len(),
{
    if st.len() == 0 {
        None
    } else if st[0].0 == path {
        Some((st[0].1, st[0].2))
    } else {
        stamp_in(st.drop_first(), path)
    }
}

/// The stamps the rows of the file table hold, in order.
pub open spec fn stamp_view(rows: Seq<FileStamp>) -> Seq<(Seq<char>, i64, i64)> {
    rows.map_values(|r: FileStamp| (r.path@, r.secs, r.nanos))
}

/// The rows a full save writes for `files[..n]`: each source file whose
/// mtime could be read, in order; manifest files by name are left out.
pub open spec fn saved_source_stamps(
    files: Seq<String>,
    mtimes: Seq<Option<(i64, i64)>>,
    n: int,
) -> Seq<(Seq<char>, i64, i64)>
    decreases n,
{
    if n <= 0 {
        seq![]
    } else {
        saved_source_stamps(files, mtimes, n - 1) + if !is_manifest_name(files[n - 1]@)
            && mtimes[n - 1] is Some {
            seq![(files[n - 1]@, mtimes[n - 1].unwrap().0, mtimes[n - 1].unwrap().1)]
        } else {
            seq![]
        }
    }
}

/// The stamp a full save writes for a manifest file under its cache key,
/// where its mtime could be read.
pub open spec fn manifest_stamp(key: Seq<char>, m: Option<(i64, i64)>) -> Seq<(Seq<char>, i64, i64)> {
    match m {
        Some((secs, nanos)) => seq![(key, secs, nanos)],
        None => seq![],
    }
}

/// Every row a full save writes to the file table, in order: the source
/// files, then `.semrc` and `.gitattributes` under their cache keys.
/// `manifest[j]` is the mtime of the `j`-th manifest file, where it exists
/// and can be read.
pub open spec fn saved_stamps(
    files: Seq<String>,
    mtimes: Seq<Option<(i64, i64)>>,
    manifest: Seq<Option<(i64, i64)>>,
) -> Seq<(Seq<char>, i64, i64)> {
    saved_source_stamps(files, mtimes, files.len() as int) + manifest_stamp(
        "\0sem-manifest:.semrc"@,
        manifest[0],
    ) + manifest_stamp("\0sem-manifest:.gitattributes"@, manifest[1])
}

/// The rows a full save writes to the file table. `mtimes[k]` is the mtime
/// of `files[k]` and `manifest[j]` that of the `j`-th manifest file, where
/// they can be read.
pub fn file_rows_to_save(
    files: &[String],
    mtimes: &[Option<(i64, i64)>],
    manifest: &[Option<(i64, i64)>],
) -> (r: Vec<FileStamp>)
    requires
        mtimes@.len() == files@.len(),
        manifest@.len() == 2,
    ensures
        stamp_view(r@) == saved_stamps(files@, mtimes@, manifest@),
{
    let mut out: Vec<FileStamp> = Vec::new();
    let mut k: usize = 0;
    while k < files.len()
        invariant
            mtimes@.len() == files@.len(),
            k <= files@.len(),
            stamp_view(out@) == saved_source_stamps(files@, mtimes@, k as int),
        decreases files@.len() - k,
    {
        if !is_manifest_file_name(files[k].as_str()) {
            if let Some((secs, nanos)) = mtimes[k] {
                out.push(FileStamp { path: files[k].clone(), secs, nanos });
            }
        }
        assert(stamp_view(out@) =~= saved_source_stamps(files@, mtimes@, k + 1));
        k += 1;
    }
    let names = crate::cache::cache_manifest_files();
    let mut j: usize = 0;
    let ghost sources = stamp_view(out@);
    while j < 2
        invariant
            names@.len() == 2,
            names@[0].1@ == "\0sem-manifest:.semrc"@,
            names@[1].1@ == "\0sem-manifest:.gitattributes"@,
            manifest@.len() == 2,
            j <= 2,
            stamp_view(out@) == sources + if j == 0 {
                Seq::<(Seq<char>, i64, i64)>::empty()
            } else if j == 1 {
                manifest_stamp("\0sem-manifest:.semrc"@, manifest@[0])
            } else {
                manifest_stamp("\0sem-manifest:.semrc"@, manifest@[0]) + manifest_stamp(
                    "\0sem-manifest:.gitattributes"@,
                    manifest@[1],
                )
            },
        decreases 2 - j,
    {
        let ghost before = stamp_view(out@);
        if let Some((secs, nanos)) = manifest[j] {
            out.push(FileStamp { path: names[j].1.to_owned(), secs, nanos });
        }
        assert(stamp_view(out@) =~= before + manifest_stamp(names@[j as int].1@, manifest@[j as int]));
        j += 1;
    }
    assert(stamp_view(out@) =~= saved_stamps(files@, mtimes@, manifest@));
    out
}

proof fn lemma_stamp_of_view(rows: Seq<FileStamp>, path: Seq<char>)
    ensures
        stamp_of(rows, path) == stamp_in(stamp_view(rows), path),
    decreases rows.len(),
{
    if rows.len() > 0 {
        assert(stamp_view(rows).drop_first() =~= stamp_view(rows.drop_first()));
        lemma_stamp_of_view(rows.drop_first(), path);
    }
}

proof fn lemma_stamp_in_append(a: Seq<(Seq<char>, i64, i64)>, b: Seq<(Seq<char>, i64, i64)>, path: Seq<char>)
    ensures
        stamp_in(a + b, path) == if stamp_in(a, path) is Some {
            stamp_in(a, path)
        } else {
            stamp_in(b, path)
        },
    decreases a.len(),
{
    if a.len() == 0 {
        assert(a + b =~= b);
    } else {
        assert((a + b).drop_first() =~= a.drop_first() + b);
        lemma_stamp_in_append(a.drop_first(), b, path);
    }
}

proof fn lemma_stamp_in_absent(st: Seq<(Seq<char>, i64, i64)>, path: Seq<char>)
    requires
        forall|i: int| 0 <= i < st.len() ==> (#[trigger] st[i]).0 != path,
    ensures
        stamp_in(st, path) is None,
    decreases st.len(),
{
    if st.len() > 0 {
        assert forall|i: int| 0 <= i < st.drop_first().len() implies (#[trigger] st.drop_first()[i]).0
            != path by {
            assert(st.drop_first()[i] == st[i + 1]);
        }
        lemma_stamp_in_absent(st.drop_first(), path);
    }
}

/// What the saved source stamps hold: each is a source file of `files[..n]`
/// that is not a manifest key, and their number is that of the source files.
proof fn lemma_saved_sources(files: Seq<String>, mtimes: Seq<Option<(i64, i64)>>, n: int)
    requires
        0 <= n <= files.len(),
        mtimes.len() == files.len(),
        forall|k: int| 0 <= k < files.len() && !is_manifest_name(files[k]@) ==> (#[trigger] mtimes[k]) is Some,
    ensures
        saved_source_stamps(files, mtimes, n).len() == sources_below(files, n),
        forall|i: int|
            0 <= i < saved_source_stamps(files, mtimes, n).len() ==> exists|k: int|
                0 <= k < n && (#[trigger] saved_source_stamps(files, mtimes, n)[i]).0 == files[k]@,
    decreases n,
{
    if n > 0 {
        lemma_saved_sources(files, mtimes, n - 1);
        let prev = saved_source_stamps(files, mtimes, n - 1);
        let cur = saved_source_stamps(files, mtimes, n);
        assert forall|i: int| 0 <= i < cur.len() implies exists|k: int|
            0 <= k < n && (#[trigger] cur[i]).0 == files[k]@ by {
            if i < prev.len() {
                assert(cur[i] == prev[i]);
                let k = choose|k: int| 0 <= k < n - 1 && prev[i].0 == files[k]@;
                assert(0 <= k < n && cur[i].0 == files[k]@);
            } else {
                assert(cur[i].0 == files[n - 1]@);
            }
        }
    }
}

proof fn lemma_saved_source_stamp(files: Seq<String>, mtimes: Seq<Option<(i64, i64)>>, n: int, k: int)
    requires
        0 <= k < n <= files.len(),
        mtimes.len() == files.len(),
        texts(files).no_duplicates(),
        !is_manifest_name(files[k]@),
        forall|j: int| 0 <= j < files.len() && !is_manifest_name(files[j]@) ==> (#[trigger] mtimes[j]) is Some,
    ensures
        stamp_in(saved_source_stamps(files, mtimes, n), files[k]@) == mtimes[k],
    decreases n,
{
    let prev = saved_source_stamps(files, mtimes, n - 1);
    let last = if !is_manifest_name(files[n - 1]@) && mtimes[n - 1] is Some {
        seq![(files[n - 1]@, mtimes[n - 1].unwrap().0, mtimes[n - 1].unwrap().1)]
    } else {
        seq![]
    };
    lemma_stamp_in_append(prev, last, files[k]@);
    if k < n - 1 {
        lemma_saved_source_stamp(files, mtimes, n - 1, k);
    } else {
        lemma_saved_sources(files, mtimes, n - 1);
        assert forall|i: int| 0 <= i < prev.len() implies (#[trigger] prev[i]).0 != files[k]@ by {
            let j = choose|j: int| 0 <= j < n - 1 && prev[i].0 == files[j]@;
            assert(texts(files)[j] != texts(files)[k]);
        }
        lemma_stamp_in_absent(prev, files[k]@);
        assert(stamp_in(last.drop_first(), files[k]@) is None);
    }
}

proof fn lemma_manifest_rows(rows: Seq<FileStamp>, a: int, n: int)
    requires
        0 <= n <= rows.len(),
        0 <= a <= rows.len(),
        forall|i: int| 0 <= i < a ==> !is_manifest_key((#[trigger] rows[i]).path@),
        forall|i: int| a <= i < rows.len() ==> is_manifest_key((#[trigger] rows[i]).path@),
    ensures
        manifest_rows_below(rows, n) == if n <= a {
            0
        } else {
            n - a
        },
    decreases n,
{
    if n > 0 {
        lemma_manifest_rows(rows, a, n - 1);
    }
}

/// A full save read back as it was written describes the files as they
/// are. Where no file changed since the save (each source file and each
/// manifest file has the mtime the save read, a manifest file exists just
/// where its mtime can be read), the source files are distinct and none is
/// named like a manifest key (which starts with NUL), and every source
/// file's mtime can be read: neither manifest file is stale, and the load
/// finds the cache current.
pub proof fn saved_cache_is_current(
    files: Seq<String>,
    mtimes: Seq<Option<(i64, i64)>>,
    manifest: Seq<Option<(i64, i64)>>,
    rows: Seq<FileStamp>,
)
    requires
        mtimes.len() == files.len(),
        manifest.len() == 2,
        texts(files).no_duplicates(),
        forall|k: int| 0 <= k < files.len() ==> !is_manifest_key(#[trigger] files[k]@),
        forall|k: int| 0 <= k < files.len() && !is_manifest_name(files[k]@) ==> (#[trigger] mtimes[k]) is Some,
        stamp_view(rows) == saved_stamps(files, mtimes, manifest),
    ensures
        !crate::cache::manifest_entry_stale(
            crate::cache::ManifestState {
                exists: manifest[0] is Some,
                cached: stamp_of(rows, "\0sem-manifest:.semrc"@),
                current: manifest[0],
            },
        ),
        !crate::cache::manifest_entry_stale(
            crate::cache::ManifestState {
                exists: manifest[1] is Some,
                cached: stamp_of(rows, "\0sem-manifest:.gitattributes"@),
                current: manifest[1],
            },
        ),
        cache_is_current(false, rows, files, mtimes),
{
    reveal_strlit("\0sem-manifest:.semrc");
    reveal_strlit("\0sem-manifest:.gitattributes");
    let key0 = "\0sem-manifest:.semrc"@;
    let key1 = "\0sem-manifest:.gitattributes"@;
    assert(key0 != key1) by {
        assert(key0.len() != key1.len());
    }
    let src = saved_source_stamps(files, mtimes, files.len() as int);
    let m0 = manifest_stamp(key0, manifest[0]);
    let m1 = manifest_stamp(key1, manifest[1]);
    lemma_saved_sources(files, mtimes, files.len() as int);
    assert forall|i: int| 0 <= i < src.len() implies !is_manifest_key((#[trigger] src[i]).0) by {
        let k = choose|k: int| 0 <= k < files.len() && src[i].0 == files[k]@;
        assert(!is_manifest_key(files[k]@));
    }
    // The manifest files.
    assert forall|i: int| 0 <= i < src.len() implies (#[trigger] src[i]).0 != key0 && src[i].0 != key1 by {
        assert(!is_manifest_key(src[i].0));
    }
    lemma_stamp_in_absent(src, key0);
    lemma_stamp_in_absent(src, key1);
    lemma_stamp_of_view(rows, key0);
    lemma_stamp_of_view(rows, key1);
    lemma_stamp_in_append(src + m0, m1, key0);
    lemma_stamp_in_append(src, m0, key0);
    lemma_stamp_in_append(src + m0, m1, key1);
    lemma_stamp_in_append(src, m0, key1);
    lemma_stamp_in_absent(m1, key0);
    lemma_stamp_in_absent(m0, key1);
    if manifest[0] is Some {
        assert(m0.drop_first().len() == 0);
    }
    if manifest[1] is Some {
        assert(m1.drop_first().len() == 0);
    }
    // The count of rows.
    let a = src.len() as int;
    assert(stamp_view(rows).len() == rows.len());
    assert forall|i: int| 0 <= i < a implies !is_manifest_key((#[trigger] rows[i]).path@) by {
        assert(stamp_view(rows)[i] == src[i]);
    }
    assert forall|i: int| a <= i < rows.len() implies is_manifest_key((#[trigger] rows[i]).path@) by {
        assert(stamp_view(rows)[i] == (m0 + m1)[i - a]);
        if i - a < m0.len() {
            assert((m0 + m1)[i - a] == m0[i - a]);
        } else {
            assert((m0 + m1)[i - a] == m1[i - a - m0.len()]);
        }
    }
    lemma_manifest_rows(rows, a, rows.len() as int);
    // Each source file's stamp.
    assert forall|k: int|
        0 <= k < files.len() && !is_manifest_name(#[trigger] files[k]@) implies mtimes[k] is Some
            && stamp_of(rows, files[k]@) == mtimes[k] by {
        lemma_saved_source_stamp(files, mtimes, files.len() as int, k);
        lemma_stamp_of_view(rows, files[k]@);
        lemma_stamp_in_append(src, m0 + m1, files[k]@);
        assert(src + m0 + m1 =~= src + (m0 + m1));
    }
}

// ---------------------------------------------------------------------------
// Partial loads

/// Result of a partial cache load: stale files that need reparsing, plus
/// cached clean data.
pub struct PartialCache {
    pub stale_files: Vec<String>,
    pub cached_entities: Vec<SemanticEntity>,
    pub cached_edges: Vec<EntityRef>,
    /// Cached entities from stale files (for entity-level content_hash
    /// comparison).
    pub stale_file_entities: Vec<SemanticEntity>,
}

pub open spec fn texts(v: Seq<String>) -> Seq<Seq<char>> {
    v.map_values(|s: String| s@)
}

/// Source file `files[k]` is stale: it has no recorded mtime, or its mtime
/// cannot be read or differs from the recorded one.
pub open spec fn source_is_stale(
    rows: Seq<FileStamp>,
    files: Seq<String>,
    current: Seq<Option<(i64, i64)>>,
    k: int,
) -> bool {
    !is_manifest_name(files[k]@) && match stamp_of(rows, files[k]@) {
        Some(st) => current[k] != Some(st),
        None => true,
    }
}

/// The stale source files among `files[..n]`, in order.
pub open spec fn stale_below(
    rows: Seq<FileStamp>,
    files: Seq<String>,
    current: Seq<Option<(i64, i64)>>,
    n: int,
) -> Seq<Seq<char>>
    decreases n,
{
    if n <= 0 {
        seq![]
    } else {
        stale_below(rows, files, current, n - 1) + if source_is_stale(rows, files, current, n - 1) {
            seq![files[n - 1]@]
        } else {
            seq![]
        }
    }
}

/// `path` is one of the source files among `files`.
pub open spec fn is_current_source(files: Seq<String>, path: Seq<char>) -> bool {
    exists|j: int| 0 <= j < files.len() && !is_manifest_name(files[j]@) && #[trigger] files[j]@ == path
}

/// A recorded path that is gone: neither a manifest key nor a manifest
/// name, and not among the current source files.
pub open spec fn is_gone(files: Seq<String>, path: Seq<char>) -> bool {
    !is_manifest_key(path) && !is_manifest_name(path) && !is_current_source(files, path)
}

/// The recorded paths among `rows[..n]` that are gone, in row order.
pub open spec fn gone_below(rows: Seq<FileStamp>, files: Seq<String>, n: int) -> Seq<Seq<char>>
    decreases n,
{
    if n <= 0 {
        seq![]
    } else {
        gone_below(rows, files, n - 1) + if is_gone(files, rows[n - 1].path@) {
            seq![rows[n - 1].path@]
        } else {
            seq![]
        }
    }
}

/// Which files a partial load treats as stale and as deleted; `None` where
/// the cache should not be loaded partially: a manifest file is stale, the
/// file table is empty, nothing is stale or deleted, or every source file
/// is stale.
pub open spec fn partial_plan(
    manifest_stale: bool,
    rows: Seq<FileStamp>,
    files: Seq<String>,
    current: Seq<Option<(i64, i64)>>,
) -> Option<(Seq<Seq<char>>, Seq<Seq<char>>)> {
    let stale = stale_below(rows, files, current, files.len() as int);
    let gone = gone_below(rows, files, rows.len() as int);
    if manifest_stale || rows.len() == 0 {
        None
    } else if stale.len() == 0 && gone.len() == 0 {
        None
    } else if stale.len() >= sources_below(files, files.len() as int) {
        None
    } else {
        Some((stale, gone))
    }
}

fn contains_text(v: &Vec<String>, s: &String) -> (r: bool)
    ensures
        r == texts(v@).contains(s@),
{
    let mut k: usize = 0;
    while k < v.len()
        invariant
            k <= v@.len(),
            forall|j: int| 0 <= j < k ==> texts(v@)[j] != s@,
        decreases v@.len() - k,
    {
        if v[k] == *s {
            assert(texts(v@)[k as int] == s@);
            return true;
        }
        k += 1;
    }
    false
}

fn current_source(files: &[String], path: &String) -> (r: bool)
    ensures
        r == is_current_source(files@, path@),
{
    let mut k: usize = 0;
    while k < files.len()
        invariant
            k <= files@.len(),
            forall|j: int| 0 <= j < k ==> !(!is_manifest_name(files@[j]@) && #[trigger] files@[j]@ == path@),
        decreases files@.len() - k,
    {
        if !is_manifest_file_name(files[k].as_str()) && files[k] == *path {
            return true;
        }
        k += 1;
    }
    false
}

/// The stale and the deleted files of a partial load, where one is due.
/// `current[k]` is the mtime of `files[k]` now, where it can be read.
pub fn plan_partial_load(
    manifest_stale: bool,
    rows: &[FileStamp],
    files: &[String],
    current: &[Option<(i64, i64)>],
) -> (r: Option<(Vec<String>, Vec<String>)>)
    requires
        current@.len() == files@.len(),
    ensures
        match partial_plan(manifest_stale, rows@, files@, current@) {
            None => r is None,
            Some((stale, gone)) => r matches Some((s, g)) && texts(s@) == stale && texts(g@) == gone,
        },
{
    if manifest_stale || rows.len() == 0 {
        return None;
    }
    let mut stale: Vec<String> = Vec::new();
    let mut k: usize = 0;
    while k < files.len()
        invariant
            current@.len() == files@.len(),
            k <= files@.len(),
            texts(stale@) == stale_below(rows@, files@, current@, k as int),
        decreases files@.len() - k,
    {
        let is_stale = if is_manifest_file_name(files[k].as_str()) {
            false
        } else {
            match find_stamp(rows, &files[k]) {
                Some(st) => match current[k] {
                    Some(now) => st.0 != now.0 || st.1 != now.1,
                    None => true,
                },
                None => true,
            }
        };
        let ghost before = texts(stale@);
        if is_stale {
            stale.push(files[k].clone());
        }
        assert(texts(stale@) =~= stale_below(rows@, files@, current@, k + 1));
        k += 1;
    }
    let mut gone: Vec<String> = Vec::new();
    let mut i: usize = 0;
    while i < rows.len()
        invariant
            i <= rows@.len(),
            texts(gone@) == gone_below(rows@, files@, i as int),
        decreases rows@.len() - i,
    {
        let p = &rows[i].path;
        let is_gone = !is_cache_manifest_key(p.as_str()) && !is_manifest_file_name(p.as_str())
            && !current_source(files, p);
        if is_gone {
            gone.push(p.clone());
        }
        assert(texts(gone@) =~= gone_below(rows@, files@, i + 1));
        i += 1;
    }
    if stale.len() == 0 && gone.len() == 0 {
        return None;
    }
    if stale.len() >= source_file_count(files) {
        return None;
    }
    Some((stale, gone))
}

/// The entities among `all[..n]` whose file is (when `inside`) or is not
/// (otherwise) among `paths`, in order.
pub open spec fn entities_by_file(all: Seq<SemanticEntity>, paths: Seq<Seq<char>>, inside: bool, n: int) -> Seq<
    SemanticEntity,
>
    decreases n,
{
    if n <= 0 {
        seq![]
    } else {
        entities_by_file(all, paths, inside, n - 1) + if paths.contains(all[n - 1].file_path@)
            == inside {
            seq![all[n - 1]]
        } else {
            seq![]
        }
    }
}

/// The items of `v` in reverse order.
fn reversed<T>(v: Vec<T>) -> (r: Vec<T>)
    ensures
        r@.len() == v@.len(),
        forall|j: int| 0 <= j < v@.len() ==> #[trigger] r@[j] == v@[v@.len() - 1 - j],
{
    let ghost orig = v@;
    let mut v = v;
    let mut out: Vec<T> = Vec::new();
    while v.len() > 0
        invariant
            v@ == orig.take(v@.len() as int),
            out@.len() + v@.len() == orig.len(),
            forall|j: int| 0 <= j < out@.len() ==> #[trigger] out@[j] == orig[orig.len() - 1 - j],
        decreases v@.len(),
    {
        let x = v.pop().unwrap();
        out.push(x);
        assert(v@ =~= orig.take(v@.len() as int));
    }
    out
}

impl PartialCache {
    /// A partial load: the stale files, and the cached entities split by
    /// whether their file is stale or deleted, with every cached edge.
    pub fn assemble(
        stale_files: Vec<String>,
        deleted_files: &Vec<String>,
        entities: Vec<SemanticEntity>,
        cached_edges: Vec<EntityRef>,
    ) -> (r: PartialCache)
        ensures
            r.stale_files@ == stale_files@,
            r.cached_edges@ == cached_edges@,
            r.cached_entities@ == entities_by_file(
                entities@,
                texts(stale_files@) + texts(deleted_files@),
                false,
                entities@.len() as int,
            ),
            r.stale_file_entities@ == entities_by_file(
                entities@,
                texts(stale_files@) + texts(deleted_files@),
                true,
                entities@.len() as int,
            ),
    {
        let ghost paths = texts(stale_files@) + texts(deleted_files@);
        let ghost all = entities@;
        let mut clean: Vec<SemanticEntity> = Vec::new();
        let mut stale: Vec<SemanticEntity> = Vec::new();
        let n = entities.len();
        let mut rest = reversed(entities);
        let mut k: usize = 0;
        while rest.len() > 0
            invariant
                n == all.len(),
                paths == texts(stale_files@) + texts(deleted_files@),
                k + rest@.len() == all.len(),
                forall|j: int| 0 <= j < rest@.len() ==> #[trigger] rest@[j] == all[all.len() - 1 - j],
                clean@ == entities_by_file(all, paths, false, k as int),
                stale@ == entities_by_file(all, paths, true, k as int),
            decreases rest@.len(),
        {
            let e = rest.pop().unwrap();
            assert(e == all[k as int]);
            let inside = contains_text(&stale_files, &e.file_path) || contains_text(
                deleted_files,
                &e.file_path,
            );
            proof {
                assert(paths.contains(e.file_path@) == (texts(stale_files@).contains(e.file_path@)
                    || texts(deleted_files@).contains(e.file_path@))) by {
                    if paths.contains(e.file_path@) {
                        let j = choose|j: int| 0 <= j < paths.len() && paths[j] == e.file_path@;
                        if j >= texts(stale_files@).len() {
                            assert(texts(deleted_files@)[j - texts(stale_files@).len()] == e.file_path@);
                        }
                    }
                    if texts(deleted_files@).contains(e.file_path@) {
                        let j = choose|j: int|
                            0 <= j < texts(deleted_files@).len() && texts(deleted_files@)[j]
                                == e.file_path@;
                        assert(paths[texts(stale_files@).len() + j] == e.file_path@);
                    }
                    if texts(stale_files@).contains(e.file_path@) {
                        let j = choose|j: int|
                            0 <= j < texts(stale_files@).len() && texts(stale_files@)[j]
                                == e.file_path@;
                        assert(paths[j] == e.file_path@);
                    }
                }
            }
            if inside {
                stale.push(e);
            } else {
                clean.push(e);
            }
            k += 1;
        }
        PartialCache {
            stale_files,
            cached_entities: clean,
            cached_edges,
            stale_file_entities: stale,
        }
    }
}


// ---------------------------------------------------------------------------
// Incremental saves

/// What an incremental save rewrites.
pub struct SavePlan {
    /// The stale files that are sources: their file rows are rewritten,
    /// and (unless all entities are) their entities.
    pub stale_sources: Vec<String>,
    /// Recorded paths of files that are gone: their rows and entities are
    /// dropped.
    pub deleted_files: Vec<String>,
    /// Every entity row is dropped and all entities written again, as after
    /// a repair that changed the ids of clean entities.
    pub clear_entities: bool,
    /// The positions of the entities to write.
    pub entities_to_write: Vec<usize>,
}

/// The files among `files[..n]` that are not manifest files, in order.
pub open spec fn sources_among(files: Seq<String>, n: int) -> Seq<Seq<char>>
    decreases n,
{
    if n <= 0 {
        seq![]
    } else {
        sources_among(files, n - 1) + if is_manifest_name(files[n - 1]@) {
            seq![]
        } else {
            seq![files[n - 1]@]
        }
    }
}

/// The recorded paths among `cached[..n]` that remain after the stale
/// sources' rows are dropped and that name no current source or manifest
/// file.
pub open spec fn dropped_below(
    cached: Seq<String>,
    stale_sources: Seq<Seq<char>>,
    all_files: Seq<String>,
    n: int,
) -> Seq<Seq<char>>
    decreases n,
{
    if n <= 0 {
        seq![]
    } else {
        dropped_below(cached, stale_sources, all_files, n - 1) + if !stale_sources.contains(
            cached[n - 1]@,
        ) && is_gone(all_files, cached[n - 1]@) {
            seq![cached[n - 1]@]
        } else {
            seq![]
        }
    }
}

/// The positions among `entities[..n]` of the entities to write: all of
/// them when `repair`, else those of the stale sources.
pub open spec fn written_below(
    entities: Seq<SemanticEntity>,
    stale_sources: Seq<Seq<char>>,
    repair: bool,
    n: int,
) -> Seq<usize>
    decreases n,
{
    if n <= 0 {
        seq![]
    } else {
        written_below(entities, stale_sources, repair, n - 1) + if repair || stale_sources.contains(
            entities[n - 1].file_path@,
        ) {
            seq![(n - 1) as usize]
        } else {
            seq![]
        }
    }
}

/// The plan of an incremental save. `cached_paths` are the paths the file
/// table records before the save; `repair` says whether the ids of clean
/// entities changed.
pub fn plan_incremental_save(
    all_files: &[String],
    stale_files: &[String],
    cached_paths: &[String],
    entities: &[SemanticEntity],
    repair: bool,
) -> (r: SavePlan)
    ensures
        texts(r.stale_sources@) == sources_among(stale_files@, stale_files@.len() as int),
        texts(r.deleted_files@) == dropped_below(
            cached_paths@,
            sources_among(stale_files@, stale_files@.len() as int),
            all_files@,
            cached_paths@.len() as int,
        ),
        r.clear_entities == repair,
        r.entities_to_write@ == written_below(
            entities@,
            sources_among(stale_files@, stale_files@.len() as int),
            repair,
            entities@.len() as int,
        ),
{
    let mut stale_sources: Vec<String> = Vec::new();
    let mut k: usize = 0;
    while k < stale_files.len()
        invariant
            k <= stale_files@.len(),
            texts(stale_sources@) == sources_among(stale_files@, k as int),
        decreases stale_files@.len() - k,
    {
        if !is_manifest_file_name(stale_files[k].as_str()) {
            stale_sources.push(stale_files[k].clone());
        }
        assert(texts(stale_sources@) =~= sources_among(stale_files@, k + 1));
        k += 1;
    }
    let ghost src = texts(stale_sources@);
    let mut deleted: Vec<String> = Vec::new();
    let mut i: usize = 0;
    while i < cached_paths.len()
        invariant
            src == texts(stale_sources@),
            i <= cached_paths@.len(),
            texts(deleted@) == dropped_below(cached_paths@, src, all_files@, i as int),
        decreases cached_paths@.len() - i,
    {
        let p = &cached_paths[i];
        if !contains_text(&stale_sources, p) && !is_cache_manifest_key(p.as_str())
            && !is_manifest_file_name(p.as_str()) && !current_source(all_files, p) {
            deleted.push(p.clone());
        }
        assert(texts(deleted@) =~= dropped_below(cached_paths@, src, all_files@, i + 1));
        i += 1;
    }
    let mut write: Vec<usize> = Vec::new();
    let mut j: usize = 0;
    while j < entities.len()
        invariant
            src == texts(stale_sources@),
            j <= entities@.len(),
            write@ == written_below(entities@, src, repair, j as int),
        decreases entities@.len() - j,
    {
        if repair || contains_text(&stale_sources, &entities[j].file_path) {
            write.push(j);
        }
        assert(write@ =~= written_below(entities@, src, repair, j + 1));
        j += 1;
    }
    SavePlan {
        stale_sources,
        deleted_files: deleted,
        clear_entities: repair,
        entities_to_write: write,
    }
}


// ---------------------------------------------------------------------------
// The manifest hash

/// The eight bytes of `x`, least significant first.
pub open spec fn le_bytes(x: u64) -> Seq<u8> {
    Seq::new(8, |k: int| (x >> ((8 * k) as u64)) as u8)
}

/// What hashing a text writes: its UTF-8 bytes, then the byte `0xff` that
/// ends it.
pub open spec fn text_items(t: Seq<char>) -> Seq<Seq<u8>> {
    seq![encode_utf8(t), seq![0xffu8]]
}

/// What the hash is fed for the first `n` source files: each path, then its
/// mtime's seconds and nanoseconds.
pub open spec fn file_items(files: Seq<String>, mtimes: Seq<Option<(i64, i64)>>, n: int) -> Seq<
    Seq<u8>,
>
    decreases n,
{
    if n <= 0 {
        seq![]
    } else {
        let (secs, nanos) = mtimes[n - 1].unwrap();
        file_items(files, mtimes, n - 1) + text_items(files[n - 1]@) + seq![
            le_bytes(secs as u64),
            le_bytes(nanos as u64),
        ]
    }
}

/// What the hash is fed for a manifest file: nothing where it does not
/// exist; else its name, then `1` and its mtime where that can be read, or
/// `0` where it cannot.
pub open spec fn manifest_items(name: Seq<char>, m: (bool, Option<(i64, i64)>)) -> Seq<Seq<u8>> {
    if !m.0 {
        seq![]
    } else {
        text_items(name) + match m.1 {
            Some((secs, nanos)) => seq![seq![1u8], le_bytes(secs as u64), le_bytes(nanos as u64)],
            None => seq![seq![0u8]],
        }
    }
}

/// Everything the manifest hash is fed, in order: the source files with
/// their mtimes, their number, then `.semrc` and `.gitattributes`.
pub open spec fn manifest_stream(
    files: Seq<String>,
    mtimes: Seq<Option<(i64, i64)>>,
    manifest: Seq<(bool, Option<(i64, i64)>)>,
) -> Seq<Seq<u8>> {
    file_items(files, mtimes, files.len() as int) + seq![le_bytes(files.len() as u64)]
        + manifest_items(".semrc"@, manifest[0]) + manifest_items(".gitattributes"@, manifest[1])
}

fn le_bytes_of(x: u64) -> (r: Vec<u8>)
    ensures
        r@ == le_bytes(x),
{
    let mut v: Vec<u8> = Vec::new();
    let mut k: u64 = 0;
    while k < 8
        invariant
            k <= 8,
            v@.len() == k,
            forall|j: int| 0 <= j < k ==> v@[j] == (x >> ((8 * j) as u64)) as u8,
        decreases 8 - k,
    {
        v.push((x >> (8 * k)) as u8);
        k += 1;
    }
    assert(v@ =~= le_bytes(x));
    v
}

fn feed_bytes(h: &mut DefaultHasher, bytes: Vec<u8>)
    ensures
        final(h)@ == old(h)@.push(bytes@),
{
    h.write(bytes.as_slice());
}

fn feed_byte(h: &mut DefaultHasher, b: u8)
    ensures
        final(h)@ == old(h)@.push(seq![b]),
{
    let mut v: Vec<u8> = Vec::new();
    v.push(b);
    assert(v@ =~= seq![b]);
    feed_bytes(h, v);
}

fn feed_text(h: &mut DefaultHasher, t: &str)
    ensures
        final(h)@ == old(h)@ + text_items(t@),
{
    let ghost start = h@;
    let bytes = t.as_bytes();
    h.write(bytes);
    let ghost mid = h@;
    assert(mid == start.push(encode_utf8(t@)));
    feed_byte(h, 0xffu8);
    assert(h@ == mid.push(seq![0xffu8]));
    assert(h@ =~= start + text_items(t@));
}

/// A hash of the source files with their mtimes, their number, and the
/// manifest files that exist, with their mtimes where they can be read;
/// `None` where the mtime of some file cannot be read. `mtimes[k]` is the
/// mtime of `files[k]`; `manifest[j]` says whether the `j`-th manifest file
/// exists and gives its mtime. Texts are fed as `str`'s `Hash` feeds them
/// and numbers as eight bytes, least significant first.
pub fn compute_manifest_hash(
    files: &[String],
    mtimes: &[Option<(i64, i64)>],
    manifest: &[(bool, Option<(i64, i64)>)],
) -> (r: Option<u64>)
    requires
        mtimes@.len() == files@.len(),
        manifest@.len() == 2,
    ensures
        r is Some <==> forall|k: int| 0 <= k < mtimes@.len() ==> (#[trigger] mtimes@[k]) is Some,
        r is Some ==> r == Some(
            DefaultHasher::spec_finish(manifest_stream(files@, mtimes@, manifest@)),
        ),
{
    let mut h = DefaultHasher::new();
    let mut k: usize = 0;
    while k < files.len()
        invariant
            mtimes@.len() == files@.len(),
            k <= files@.len(),
            forall|j: int| 0 <= j < k ==> (#[trigger] mtimes@[j]) is Some,
            h@ == file_items(files@, mtimes@, k as int),
        decreases files@.len() - k,
    {
        let (secs, nanos) = match mtimes[k] {
            Some(m) => m,
            None => return None,
        };
        feed_text(&mut h, files[k].as_str());
        feed_bytes(&mut h, le_bytes_of(#[verifier::truncate] (secs as u64)));
        feed_bytes(&mut h, le_bytes_of(#[verifier::truncate] (nanos as u64)));
        assert(h@ =~= file_items(files@, mtimes@, k + 1));
        k += 1;
    }
    feed_bytes(&mut h, le_bytes_of(files.len() as u64));
    let names = crate::cache::cache_manifest_files();
    let ghost start = h@;
    let mut j: usize = 0;
    while j < 2
        invariant
            names@.len() == 2,
            names@[0].0@ == ".semrc"@,
            names@[1].0@ == ".gitattributes"@,
            manifest@.len() == 2,
            j <= 2,
            h@ == start + if j == 0 {
                Seq::<Seq<u8>>::empty()
            } else if j == 1 {
                manifest_items(".semrc"@, manifest@[0])
            } else {
                manifest_items(".semrc"@, manifest@[0]) + manifest_items(
                    ".gitattributes"@,
                    manifest@[1],
                )
            },
        decreases 2 - j,
    {
        let ghost before = h@;
        if manifest[j].0 {
            feed_text(&mut h, names[j].0);
            match manifest[j].1 {
                Some((secs, nanos)) => {
                    feed_byte(&mut h, 1u8);
                    feed_bytes(&mut h, le_bytes_of(#[verifier::truncate] (secs as u64)));
                    feed_bytes(&mut h, le_bytes_of(#[verifier::truncate] (nanos as u64)));
                },
                None => feed_byte(&mut h, 0u8),
            }
        }
        assert(h@ =~= before + manifest_items(names@[j as int].0@, manifest@[j as int]));
        j += 1;
    }
    assert(h@ =~= manifest_stream(files@, mtimes@, manifest@));
    Some(h.finish())
}


// ---------------------------------------------------------------------------
// The table layout

/// The statements that create the cache's tables.
pub open spec fn tables_text() -> Seq<char> {
    "
CREATE TABLE IF NOT EXISTS files (
    path TEXT PRIMARY KEY,
    mtime_secs INTEGER NOT NULL,
    mtime_nanos INTEGER NOT NULL
);
CREATE TABLE IF NOT EXISTS entities (
    id TEXT PRIMARY KEY,
    name TEXT NOT NULL,
    entity_type TEXT NOT NULL,
    file_path TEXT NOT NULL,
    start_line INTEGER NOT NULL,
    end_line INTEGER NOT NULL,
    content TEXT NOT NULL,
    content_hash TEXT NOT NULL,
    structural_hash TEXT,
    parent_id TEXT,
    metadata_json TEXT
);
CREATE TABLE IF NOT EXISTS edges (
    from_entity TEXT NOT NULL,
    to_entity TEXT NOT NULL,
    ref_type TEXT NOT NULL
);
"@
}

/// The statements that drop the cache's tables.
pub fn reset_sql() -> (r: &'static str)
    ensures
        r@ == "
DROP TABLE IF EXISTS files;
DROP TABLE IF EXISTS entities;
DROP TABLE IF EXISTS edges;
"@,
{
    "
DROP TABLE IF EXISTS files;
DROP TABLE IF EXISTS entities;
DROP TABLE IF EXISTS edges;
"
}

/// The lookup indexes: each one's name, table and column.
pub open spec fn index_specs() -> Seq<(Seq<char>, Seq<char>, Seq<char>)> {
    seq![
        ("idx_entities_file_path"@, "entities"@, "file_path"@),
        ("idx_entities_name"@, "entities"@, "name"@),
        ("idx_entities_parent_id"@, "entities"@, "parent_id"@),
        ("idx_edges_from_entity"@, "edges"@, "from_entity"@),
        ("idx_edges_to_entity"@, "edges"@, "to_entity"@),
    ]
}

/// The lookup indexes that the cache keeps.
pub fn cache_indexes() -> (r: Vec<(&'static str, &'static str, &'static str)>)
    ensures
        r@.len() == index_specs().len(),
        forall|k: int|
            0 <= k < r@.len() ==> (#[trigger] r@[k]).0@ == index_specs()[k].0 && r@[k].1@
                == index_specs()[k].1 && r@[k].2@ == index_specs()[k].2,
{
    let mut v = Vec::new();
    v.push(("idx_entities_file_path", "entities", "file_path"));
    v.push(("idx_entities_name", "entities", "name"));
    v.push(("idx_entities_parent_id", "entities", "parent_id"));
    v.push(("idx_edges_from_entity", "edges", "from_entity"));
    v.push(("idx_edges_to_entity", "edges", "to_entity"));
    v
}

/// The statement that creates one index.
pub open spec fn index_statement(i: (Seq<char>, Seq<char>, Seq<char>)) -> Seq<char> {
    "CREATE INDEX IF NOT EXISTS "@ + i.0 + " ON "@ + i.1 + "("@ + i.2 + ");"@
}

/// The statements of the first `n` indexes, one per line.
pub open spec fn index_lines(n: int) -> Seq<char>
    decreases n,
{
    if n <= 0 {
        seq![]
    } else if n == 1 {
        index_statement(index_specs()[0])
    } else {
        index_lines(n - 1) + "\n"@ + index_statement(index_specs()[n - 1])
    }
}

/// The whole script that sets the cache's layout up: the tables, the
/// indexes, and the layout's version.
pub open spec fn schema_text() -> Seq<char> {
    tables_text() + " "@ + index_lines(5) + " PRAGMA user_version = 2;"@
}

/// The script that sets the cache's layout up.
pub fn schema_sql() -> (r: String)
    ensures
        r@ == schema_text(),
{
    let indexes = cache_indexes();
    let mut out = String::from_str("
CREATE TABLE IF NOT EXISTS files (
    path TEXT PRIMARY KEY,
    mtime_secs INTEGER NOT NULL,
    mtime_nanos INTEGER NOT NULL
);
CREATE TABLE IF NOT EXISTS entities (
    id TEXT PRIMARY KEY,
    name TEXT NOT NULL,
    entity_type TEXT NOT NULL,
    file_path TEXT NOT NULL,
    start_line INTEGER NOT NULL,
    end_line INTEGER NOT NULL,
    content TEXT NOT NULL,
    content_hash TEXT NOT NULL,
    structural_hash TEXT,
    parent_id TEXT,
    metadata_json TEXT
);
CREATE TABLE IF NOT EXISTS edges (
    from_entity TEXT NOT NULL,
    to_entity TEXT NOT NULL,
    ref_type TEXT NOT NULL
);
");
    out.append(" ");
    let ghost head = out@;
    let mut k: usize = 0;
    while k < indexes.len()
        invariant
            indexes@.len() == 5,
            forall|j: int|
                0 <= j < 5 ==> (#[trigger] indexes@[j]).0@ == index_specs()[j].0 && indexes@[j].1@
                    == index_specs()[j].1 && indexes@[j].2@ == index_specs()[j].2,
            k <= 5,
            out@ == head + index_lines(k as int),
        decreases 5 - k,
    {
        if k > 0 {
            out.append("\n");
        }
        let (name, table, column) = indexes[k];
        out.append("CREATE INDEX IF NOT EXISTS ");
        out.append(name);
        out.append(" ON ");
        out.append(table);
        out.append("(");
        out.append(column);
        out.append(");");
        assert(out@ =~= head + index_lines(k + 1));
        k += 1;
    }
    out.append(" PRAGMA user_version = 2;");
    out
}

/// Whether the stored layout is of another version, so that the tables must
/// be dropped before they are set up again.
pub fn schema_needs_reset(user_version: i32) -> (r: bool)
    ensures
        r == (user_version != crate::cache::CACHE_SCHEMA_VERSION),
{
    user_version != crate::cache::CACHE_SCHEMA_VERSION
}

} // verus!
