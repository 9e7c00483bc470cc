//! Hotspots: the entities that change most often across git history.

use vstd::prelude::*;
use crate::git::{CommitInfo, DiffScope};

verus! {

/// An entity and how many of the walked commits changed it.
pub struct EntityHotspot {
    pub entity_name: String,
    pub entity_type: String,
    pub file_path: String,
    pub change_count: usize,
}

/// A change to an entity that a semantic diff of two commits reports.
pub struct EntityChange {
    pub entity_id: String,
    pub entity_name: String,
    pub entity_type: String,
    pub file_path: String,
}

/// What identifies a changed entity: its id, name, type and file.
pub type ChangeKey = (Seq<char>, Seq<char>, Seq<char>, Seq<char>);

pub open spec fn key_of(c: EntityChange) -> ChangeKey {
    (c.entity_id@, c.entity_name@, c.entity_type@, c.file_path@)
}

/// The keys of the changes that count: those in `file`, where given.
pub open spec fn counted_keys(changes: Seq<EntityChange>, file: Option<Seq<char>>, n: int) -> Seq<ChangeKey>
    decreases n,
{
    if n <= 0 {
        seq![]
    } else {
        counted_keys(changes, file, n - 1) + if file matches Some(f) && changes[n - 1].file_path@
            != f {
            seq![]
        } else {
            seq![key_of(changes[n - 1])]
        }
    }
}

/// How often `k` occurs among `ks[..n]`.
pub open spec fn occurrences(ks: Seq<ChangeKey>, k: ChangeKey, n: int) -> nat
    decreases n,
{
    if n <= 0 {
        0
    } else {
        occurrences(ks, k, n - 1) + if ks[n - 1] == k {
            1nat
        } else {
            0nat
        }
    }
}

/// The distinct keys among `ks[..n]`, in the order they first occur.
pub open spec fn distinct_keys(ks: Seq<ChangeKey>, n: int) -> Seq<ChangeKey>
    decreases n,
{
    if n <= 0 {
        seq![]
    } else {
        let d = distinct_keys(ks, n - 1);
        if d.contains(ks[n - 1]) {
            d
        } else {
            d.push(ks[n - 1])
        }
    }
}

/// Each distinct key with how often it occurs.
pub open spec fn tally(ks: Seq<ChangeKey>) -> Seq<(ChangeKey, nat)> {
    distinct_keys(ks, ks.len() as int).map_values(|k: ChangeKey| (k, occurrences(ks, k, ks.len() as int)))
}

/// The hotspot that a key and its count make.
pub open spec fn shows(h: EntityHotspot, t: (ChangeKey, nat)) -> bool {
    &&& h.entity_name@ == t.0.1
    &&& h.entity_type@ == t.0.2
    &&& h.file_path@ == t.0.3
    &&& h.change_count == t.1
}

pub proof fn lemma_prefix_stable(ks: Seq<ChangeKey>, x: ChangeKey, k: ChangeKey, m: int)
    requires
        m <= ks.len(),
    ensures
        distinct_keys(ks.push(x), m) == distinct_keys(ks, m),
        occurrences(ks.push(x), k, m) == occurrences(ks, k, m),
    decreases m,
{
    if m > 0 {
        lemma_prefix_stable(ks, x, k, m - 1);
        assert(ks.push(x)[m - 1] == ks[m - 1]);
    }
}

pub proof fn lemma_distinct_keys(ks: Seq<ChangeKey>, n: int)
    requires
        0 <= n <= ks.len(),
    ensures
        distinct_keys(ks, n).no_duplicates(),
        forall|k: ChangeKey|
            #![trigger distinct_keys(ks, n).contains(k)]
            !distinct_keys(ks, n).contains(k) ==> occurrences(ks, k, n) == 0,
        forall|i: int| 0 <= i < n ==> distinct_keys(ks, n).contains(#[trigger] ks[i]),
    decreases n,
{
    if n > 0 {
        lemma_distinct_keys(ks, n - 1);
        let d = distinct_keys(ks, n - 1);
        if !d.contains(ks[n - 1]) {
            let dp = d.push(ks[n - 1]);
            assert(dp.no_duplicates()) by {
                assert forall|a: int, b: int| 0 <= a < b < dp.len() implies #[trigger] dp[a] != #[trigger] dp[b] by {
                    if b == d.len() {
                        assert(d.contains(d[a]));
                    }
                }
            }
        }
        assert forall|k: ChangeKey| !distinct_keys(ks, n).contains(k) implies occurrences(ks, k, n)
            == 0 by {
            if d.contains(k) {
                let j = choose|j: int| 0 <= j < d.len() && d[j] == k;
                assert(distinct_keys(ks, n)[j] == k);
            }
            assert(!d.contains(k));
            if ks[n - 1] == k {
                assert(distinct_keys(ks, n)[d.len() as int] == k);
            }
        }
        assert forall|i: int| 0 <= i < n implies distinct_keys(ks, n).contains(#[trigger] ks[i]) by {
            if i < n - 1 {
                assert(d.contains(ks[i]));
                let j = choose|j: int| 0 <= j < d.len() && d[j] == ks[i];
                assert(distinct_keys(ks, n)[j] == ks[i]);
            } else if d.contains(ks[i]) {
            } else {
                assert(distinct_keys(ks, n)[d.len() as int] == ks[i]);
            }
        }
    }
}

/// The key a tallied entity goes by.
pub open spec fn key_view(k: (String, String, String, String)) -> ChangeKey {
    (k.0@, k.1@, k.2@, k.3@)
}

pub open spec fn key_views(v: Seq<(String, String, String, String)>) -> Seq<ChangeKey> {
    v.map_values(|k: (String, String, String, String)| key_view(k))
}

fn find_key(keys: &Vec<(String, String, String, String)>, c: &EntityChange) -> (r: Option<usize>)
    ensures
        r matches Some(j) ==> j < keys@.len() && key_views(keys@)[j as int] == key_of(*c),
        r is None ==> !key_views(keys@).contains(key_of(*c)),
{
    let mut j: usize = 0;
    while j < keys.len()
        invariant
            j <= keys@.len(),
            forall|a: int| 0 <= a < j ==> #[trigger] key_views(keys@)[a] != key_of(*c),
        decreases keys@.len() - j,
    {
        let k = &keys[j];
        if k.0 == c.entity_id && k.1 == c.entity_name && k.2 == c.entity_type && k.3 == c.file_path {
            assert(key_views(keys@)[j as int] == key_of(*c));
            return Some(j);
        }
        j += 1;
    }
    None
}

/// The tally of `changes`, in order of first occurrence.
fn tally_changes(changes: &[EntityChange], file_path: Option<&str>) -> (r: (
    Vec<(String, String, String, String)>,
    Vec<usize>,
))
    ensures
        ({
            let file = match file_path {
                Some(f) => Some(f@),
                None => None,
            };
            let ks = counted_keys(changes@, file, changes@.len() as int);
            &&& key_views(r.0@) == distinct_keys(ks, ks.len() as int)
            &&& r.1@.len() == r.0@.len()
            &&& forall|j: int|
                0 <= j < r.1@.len() ==> #[trigger] r.1@[j] == occurrences(
                    ks,
                    key_views(r.0@)[j],
                    ks.len() as int,
                )
        }),
{
    let ghost file = match file_path {
        Some(f) => Some(f@),
        None => None,
    };
    let mut keys: Vec<(String, String, String, String)> = Vec::new();
    let mut counts: Vec<usize> = Vec::new();
    let mut i: usize = 0;
    while i < changes.len()
        invariant
            file == match file_path {
                Some(f) => Some(f@),
                None => None::<Seq<char>>,
            },
            i <= changes@.len(),
            counted_keys(changes@, file, i as int).len() <= i,
            key_views(keys@) == distinct_keys(
                counted_keys(changes@, file, i as int),
                counted_keys(changes@, file, i as int).len() as int,
            ),
            counts@.len() == keys@.len(),
            forall|j: int|
                0 <= j < counts@.len() ==> #[trigger] counts@[j] == occurrences(
                    counted_keys(changes@, file, i as int),
                    key_views(keys@)[j],
                    counted_keys(changes@, file, i as int).len() as int,
                ),
        decreases changes@.len() - i,
    {
        let ghost ks = counted_keys(changes@, file, i as int);
        let ghost n = ks.len() as int;
        let c = &changes[i];
        let counts_here = match file_path {
            Some(f) => c.file_path == f.to_owned(),
            None => true,
        };
        if counts_here {
            let ghost k = key_of(*c);
            let ghost ks2 = ks.push(k);
            assert(counted_keys(changes@, file, i + 1) == ks2);
            proof {
                lemma_distinct_keys(ks, n);
                lemma_prefix_stable(ks, k, k, n);
                assert forall|q: ChangeKey| #[trigger] occurrences(ks2, q, n + 1) == occurrences(ks, q, n) + if k == q {
                    1nat
                } else {
                    0nat
                } by {
                    lemma_prefix_stable(ks, k, q, n);
                }
            }
            let ghost before = key_views(keys@);
            match find_key(&keys, c) {
                Some(j) => {
                    assert(counts@[j as int] == occurrences(ks, k, n));
                    proof {
                        lemma_count_le(ks, k, n);
                    }
                    let v = counts[j] + 1;
                    counts.set(j, v);
                    assert forall|a: int| 0 <= a < counts@.len() implies #[trigger] counts@[a]
                        == occurrences(ks2, key_views(keys@)[a], n + 1) by {
                        if a != j {
                            assert(before[a] != before[j as int]);
                        }
                    }
                },
                None => {
                    keys.push((c.entity_id.clone(), c.entity_name.clone(), c.entity_type.clone(), c.file_path.clone()));
                    counts.push(1);
                    assert(key_views(keys@) =~= before.push(k));
                    assert forall|a: int| 0 <= a < counts@.len() implies #[trigger] counts@[a]
                        == occurrences(ks2, key_views(keys@)[a], n + 1) by {
                        if a < before.len() {
                            assert(before.contains(before[a]));
                            assert(before[a] != k);
                        }
                    }
                },
            }
        } else {
            assert(counted_keys(changes@, file, i + 1) == ks);
        }
        i += 1;
    }
    (keys, counts)
}

pub proof fn lemma_count_le(ks: Seq<ChangeKey>, k: ChangeKey, n: int)
    requires
        0 <= n,
    ensures
        occurrences(ks, k, n) <= n,
    decreases n,
{
    if n > 0 {
        lemma_count_le(ks, k, n - 1);
    }
}


proof fn lemma_counted_in_file(changes: Seq<EntityChange>, f: Seq<char>, n: int)
    ensures
        forall|i: int|
            0 <= i < counted_keys(changes, Some(f), n).len() ==> (#[trigger] counted_keys(
                changes,
                Some(f),
                n,
            )[i]).3 == f,
    decreases n,
{
    if n > 0 {
        lemma_counted_in_file(changes, f, n - 1);
        let prev = counted_keys(changes, Some(f), n - 1);
        let ks = counted_keys(changes, Some(f), n);
        assert forall|i: int| 0 <= i < ks.len() implies (#[trigger] ks[i]).3 == f by {
            if i < prev.len() {
                assert(ks[i] == prev[i]);
            }
        }
    }
}

proof fn lemma_distinct_in_file(ks: Seq<ChangeKey>, n: int, f: Seq<char>)
    requires
        forall|i: int| 0 <= i < ks.len() ==> (#[trigger] ks[i]).3 == f,
        n <= ks.len(),
    ensures
        forall|j: int|
            0 <= j < distinct_keys(ks, n).len() ==> (#[trigger] distinct_keys(ks, n)[j]).3 == f,
    decreases n,
{
    if n > 0 {
        lemma_distinct_in_file(ks, n - 1, f);
        let prev = distinct_keys(ks, n - 1);
        let d = distinct_keys(ks, n);
        assert forall|j: int| 0 <= j < d.len() implies (#[trigger] d[j]).3 == f by {
            if j < prev.len() {
                assert(d[j] == prev[j]);
            } else {
                assert(d[j] == ks[n - 1]);
            }
        }
    }
}

/// Every entity changed in `changes` (those of file `file_path`, where
/// given) with the number of changes reported for it, most changed first.
/// Entities that change equally often come in no promised order.
pub fn compute_hotspots(changes: &[EntityChange], file_path: Option<&str>) -> (r: Vec<EntityHotspot>)
    ensures
        file_path matches Some(f) ==> forall|i: int|
            0 <= i < r@.len() ==> (#[trigger] r@[i]).file_path@ == f@,
        forall|i: int, j: int|
            0 <= i < j < r@.len() ==> (#[trigger] r@[i]).change_count >= (#[trigger] r@[j]).change_count,
        ({
            let file = match file_path {
                Some(f) => Some(f@),
                None => None,
            };
            let t = tally(counted_keys(changes@, file, changes@.len() as int));
            exists|p: Seq<(ChangeKey, nat)>|
                p.len() == r@.len() && p.to_multiset() == t.to_multiset() && forall|i: int|
                    0 <= i < r@.len() ==> shows(#[trigger] r@[i], p[i])
        }),
{
    broadcast use vstd::seq_lib::to_multiset_build, vstd::seq_lib::to_multiset_insert;

    let ghost file = match file_path {
        Some(f) => Some(f@),
        None => None,
    };
    let ghost ks = counted_keys(changes@, file, changes@.len() as int);
    let ghost t = tally(ks);
    let (keys, counts) = tally_changes(changes, file_path);
    assert(t.len() == keys@.len());
    let mut out: Vec<EntityHotspot> = Vec::new();
    let ghost mut pg: Seq<(ChangeKey, nat)> = seq![];
    let mut j: usize = 0;
    assert(t.take(0) =~= Seq::<(ChangeKey, nat)>::empty());
    while j < keys.len()
        invariant
            t == tally(ks),
            key_views(keys@) == distinct_keys(ks, ks.len() as int),
            counts@.len() == keys@.len(),
            forall|a: int| 0 <= a < counts@.len() ==> #[trigger] counts@[a] == occurrences(ks, key_views(keys@)[a], ks.len() as int),
            j <= keys@.len(),
            pg.len() == out@.len(),
            pg.to_multiset() == t.take(j as int).to_multiset(),
            forall|i: int| 0 <= i < out@.len() ==> shows(#[trigger] out@[i], pg[i]),
            forall|a: int, b: int|
                0 <= a < b < out@.len() ==> (#[trigger] out@[a]).change_count >= (#[trigger] out@[b]).change_count,
        decreases keys@.len() - j,
    {
        let k = &keys[j];
        let h = EntityHotspot {
            entity_name: k.1.clone(),
            entity_type: k.2.clone(),
            file_path: k.3.clone(),
            change_count: counts[j],
        };
        assert(shows(h, t[j as int]));
        let mut p: usize = 0;
        while p < out.len() && out[p].change_count >= h.change_count
            invariant
                p <= out@.len(),
                forall|a: int| 0 <= a < p ==> (#[trigger] out@[a]).change_count >= h.change_count,
            decreases out@.len() - p,
        {
            p += 1;
        }
        let ghost before = out@;
        let ghost pg0 = pg;
        out.insert(p, h);
        proof {
            pg = pg0.insert(p as int, t[j as int]);
            assert(t.take(j + 1) =~= t.take(j as int).push(t[j as int]));
            vstd::seq_lib::to_multiset_insert(pg0, p as int, t[j as int]);
            vstd::seq_lib::to_multiset_build(t.take(j as int), t[j as int]);
            assert forall|i: int| 0 <= i < out@.len() implies shows(#[trigger] out@[i], pg[i]) by {
                if i < p {
                    assert(out@[i] == before[i]);
                } else if i > p {
                    assert(out@[i] == before[i - 1]);
                }
            }
            assert forall|a: int, b: int|
                0 <= a < b < out@.len() implies (#[trigger] out@[a]).change_count >= (#[trigger] out@[b]).change_count by {
                if b == p {
                    assert(out@[a] == before[a]);
                } else if a == p {
                    assert(out@[b] == before[b - 1]);
                    if p < before.len() {
                        assert(before[p as int].change_count < h.change_count);
                    }
                } else if a < p && b > p {
                    assert(out@[a] == before[a]);
                    assert(out@[b] == before[b - 1]);
                } else if b < p {
                    assert(out@[a] == before[a]);
                    assert(out@[b] == before[b]);
                } else {
                    assert(out@[a] == before[a - 1]);
                    assert(out@[b] == before[b - 1]);
                }
            }
        }
        j += 1;
    }
    assert(t.take(keys@.len() as int) =~= t);
    proof {
        if let Some(f) = file {
            lemma_counted_in_file(changes@, f, changes@.len() as int);
            lemma_distinct_in_file(ks, ks.len() as int, f);
            assert forall|i: int| 0 <= i < out@.len() implies (#[trigger] out@[i]).file_path@ == f by {
                vstd::seq_lib::to_multiset_contains(pg, pg[i]);
                vstd::seq_lib::to_multiset_contains(t, pg[i]);
                assert(pg.contains(pg[i]));
                let j = choose|j: int| 0 <= j < t.len() && t[j] == pg[i];
                assert(t[j].0 == distinct_keys(ks, ks.len() as int)[j]);
            }
        }
    }
    out
}

// ---------------------------------------------------------------------------
// The walk over history

/// How many commits the walk asks the log for: one more than the number of
/// commits whose changes it counts, since each is compared with the one
/// before it.
pub fn hotspot_log_limit(max_commits: usize) -> (r: usize)
    requires
        max_commits < usize::MAX,
    ensures
        r == max_commits + 1,
{
    max_commits + 1
}

/// The paths a diff of the walk is limited to: the one file, where given,
/// else none, so that every file counts.
pub fn hotspot_pathspecs(file_path: Option<&str>) -> (r: Vec<String>)
    ensures
        match file_path {
            Some(f) => r@.len() == 1 && r@[0]@ == f@,
            None => r@.len() == 0,
        },
{
    let mut v: Vec<String> = Vec::new();
    if let Some(f) = file_path {
        v.push(f.to_owned());
    }
    v
}

/// `scope` is the range from commit `from` to commit `to`.
pub open spec fn is_range(scope: DiffScope, from: Seq<char>, to: Seq<char>) -> bool {
    match scope {
        DiffScope::Range { from: f, to: t } => f@ == from && t@ == to,
        _ => false,
    }
}

/// The ranges the walk diffs, given the log newest first: for each two
/// consecutive commits, the range from the older to the newer, in the
/// order of the log; none where the log has fewer than two commits.
pub fn hotspot_ranges(commits: &[CommitInfo]) -> (r: Vec<DiffScope>)
    ensures
        r@.len() == if commits@.len() < 2 {
            0
        } else {
            commits@.len() - 1
        },
        forall|i: int|
            0 <= i < r@.len() ==> is_range(
                #[trigger] r@[i],
                commits@[i + 1].sha@,
                commits@[i].sha@,
            ),
{
    let mut out: Vec<DiffScope> = Vec::new();
    let n = commits.len();
    let mut i: usize = 0;
    while i + 1 < n
        invariant
            n == commits@.len(),
            i == 0 || i + 1 <= n,
            out@.len() == i,
            forall|j: int|
                0 <= j < i ==> is_range(#[trigger] out@[j], commits@[j + 1].sha@, commits@[j].sha@),
        decreases commits@.len() - i,
    {
        let scope = DiffScope::Range { from: commits[i + 1].sha.clone(), to: commits[i].sha.clone() };
        out.push(scope);
        i += 1;
    }
    out
}

} // verus!
