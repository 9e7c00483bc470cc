//! Path segments: which repository paths are tests, fixtures, lockfiles or
//! vendored code, and how extension filters are written.

use vstd::prelude::*;
use crate::text::chars_of;

verus! {

/// `s[i..j]` is one of the pieces that splitting `s` on `'/'` yields.
pub open spec fn is_segment(s: Seq<char>, i: int, j: int) -> bool {
    &&& 0 <= i <= j <= s.len()
    &&& (i == 0 || s[i - 1] == '/')
    &&& (j == s.len() || s[j] == '/')
    &&& forall|t: int| i <= t < j ==> s[t] != '/'
}

/// `s[i..]` is the last piece of `s` split on `'/'`.
pub open spec fn is_last_segment(s: Seq<char>, i: int) -> bool {
    is_segment(s, i, s.len() as int)
}

/// Whether `v[lo..hi]` spells `lit`.
pub fn range_is(v: &Vec<char>, lo: usize, hi: usize, lit: &str) -> (r: bool)
    requires
        lo <= hi <= v@.len(),
    ensures
        r == (v@.subrange(lo as int, hi as int) == lit@),
{
    let w = chars_of(lit);
    if hi - lo != w.len() {
        return false;
    }
    let mut k: usize = 0;
    while k < w.len()
        invariant
            lo <= hi <= v@.len(),
            hi - lo == w@.len(),
            w@ == lit@,
            k <= w@.len(),
            forall|t: int| 0 <= t < k ==> v@[lo + t] == w@[t],
        decreases w@.len() - k,
    {
        if v[lo + k] != w[k] {
            assert(v@.subrange(lo as int, hi as int)[k as int] != w@[k as int]);
            return false;
        }
        k += 1;
    }
    assert(v@.subrange(lo as int, hi as int) =~= w@);
    true
}

/// Directory names of tests, specs, fixtures and benchmarks.
pub open spec fn is_test_marker(seg: Seq<char>) -> bool {
    ||| seg == "test"@
    ||| seg == "tests"@
    ||| seg == "spec"@
    ||| seg == "specs"@
    ||| seg == "fixtures"@
    ||| seg == "fixture"@
    ||| seg == "benchmarks"@
    ||| seg == "benchmark"@
    ||| seg == "__tests__"@
    ||| seg == "__mocks__"@
}

fn test_marker(v: &Vec<char>, lo: usize, hi: usize) -> (r: bool)
    requires
        lo <= hi <= v@.len(),
    ensures
        r == is_test_marker(v@.subrange(lo as int, hi as int)),
{
    range_is(v, lo, hi, "test") || range_is(v, lo, hi, "tests") || range_is(v, lo, hi, "spec")
        || range_is(v, lo, hi, "specs") || range_is(v, lo, hi, "fixtures") || range_is(
        v,
        lo,
        hi,
        "fixture",
    ) || range_is(v, lo, hi, "benchmarks") || range_is(v, lo, hi, "benchmark") || range_is(
        v,
        lo,
        hi,
        "__tests__",
    ) || range_is(v, lo, hi, "__mocks__")
}

/// Directory names that the graph and index always leave out.
pub open spec fn is_excluded_dir(seg: Seq<char>) -> bool {
    ||| seg == "fixtures"@
    ||| seg == "fixture"@
    ||| seg == "benchmarks"@
    ||| seg == "vendor"@
    ||| seg == "node_modules"@
    ||| seg == "test-harness"@
}

fn excluded_dir(v: &Vec<char>, lo: usize, hi: usize) -> (r: bool)
    requires
        lo <= hi <= v@.len(),
    ensures
        r == is_excluded_dir(v@.subrange(lo as int, hi as int)),
{
    range_is(v, lo, hi, "fixtures") || range_is(v, lo, hi, "fixture") || range_is(
        v,
        lo,
        hi,
        "benchmarks",
    ) || range_is(v, lo, hi, "vendor") || range_is(v, lo, hi, "node_modules") || range_is(
        v,
        lo,
        hi,
        "test-harness",
    )
}

/// File names (lockfiles, generated content) that the graph and index always
/// leave out.
pub open spec fn is_excluded_file(seg: Seq<char>) -> bool {
    ||| seg == "Cargo.lock"@
    ||| seg == "package-lock.json"@
    ||| seg == "yarn.lock"@
    ||| seg == "pnpm-lock.yaml"@
    ||| seg == "Gemfile.lock"@
    ||| seg == "Pipfile.lock"@
    ||| seg == "poetry.lock"@
    ||| seg == "composer.lock"@
    ||| seg == "go.sum"@
    ||| seg == "flake.lock"@
}

fn excluded_file(v: &Vec<char>, lo: usize, hi: usize) -> (r: bool)
    requires
        lo <= hi <= v@.len(),
    ensures
        r == is_excluded_file(v@.subrange(lo as int, hi as int)),
{
    range_is(v, lo, hi, "Cargo.lock") || range_is(v, lo, hi, "package-lock.json") || range_is(
        v,
        lo,
        hi,
        "yarn.lock",
    ) || range_is(v, lo, hi, "pnpm-lock.yaml") || range_is(v, lo, hi, "Gemfile.lock")
        || range_is(v, lo, hi, "Pipfile.lock") || range_is(v, lo, hi, "poetry.lock") || range_is(
        v,
        lo,
        hi,
        "composer.lock",
    ) || range_is(v, lo, hi, "go.sum") || range_is(v, lo, hi, "flake.lock")
}

/// Some `'/'`-separated piece of `path` names a test or fixture directory.
pub open spec fn is_test_path(path: Seq<char>) -> bool {
    exists|i: int, j: int| is_segment(path, i, j) && is_test_marker(path.subrange(i, j))
}

/// The path is left out of the graph by default: its file name is a lockfile,
/// or one of its pieces names a fixture, benchmark or vendored directory.
pub open spec fn is_excluded_path(path: Seq<char>) -> bool {
    ||| exists|i: int| is_last_segment(path, i) && is_excluded_file(path.subrange(i, path.len() as int))
    ||| exists|i: int, j: int| is_segment(path, i, j) && is_excluded_dir(path.subrange(i, j))
}

/// The end of the segment starting at `i`.
fn segment_end(v: &Vec<char>, i: usize) -> (j: usize)
    requires
        i <= v@.len(),
    ensures
        i <= j <= v@.len(),
        j == v@.len() || v@[j as int] == '/',
        forall|t: int| i <= t < j ==> v@[t] != '/',
{
    let mut j = i;
    while j < v.len() && v[j] != '/'
        invariant
            i <= j <= v@.len(),
            forall|t: int| i <= t < j ==> v@[t] != '/',
        decreases v@.len() - j,
    {
        j += 1;
    }
    j
}

/// Segments found by the scan: every segment of `v` that starts before `i`
/// starts at a segment start the scan has visited.
proof fn lemma_segment_start(v: Seq<char>, i: int, j: int, a: int, b: int)
    requires
        is_segment(v, i, j),
        is_segment(v, a, b),
        i <= a <= j,
    ensures
        a == i && b == j || a == j + 1,
{
    if a != i && a <= j {
        assert(v[a - 1] == '/');
        if a - 1 >= i && a - 1 < j {
            assert(false);
        }
    }
    if a == i {
        if b < j {
            assert(v[b] == '/');
        } else if b > j {
            assert(v[j] == '/');
        }
    }
}

/// Whether `path` has a `'/'`-separated piece that names a test or fixture
/// directory.
pub fn is_test_or_fixture_path(path: &str) -> (r: bool)
    ensures
        r == is_test_path(path@),
{
    let v = chars_of(path);
    let mut i: usize = 0;
    loop
        invariant
            v@ == path@,
            i <= v@.len(),
            i == 0 || v@[i - 1] == '/',
            forall|a: int, b: int|
                is_segment(v@, a, b) && a < i ==> !is_test_marker(#[trigger] v@.subrange(a, b)),
        decreases v@.len() - i,
    {
        let j = segment_end(&v, i);
        assert(is_segment(v@, i as int, j as int));
        if test_marker(&v, i, j) {
            return true;
        }
        assert forall|a: int, b: int|
            is_segment(v@, a, b) && a < j + 1 implies !is_test_marker(#[trigger] v@.subrange(a, b)) by {
            if a >= i {
                lemma_segment_start(v@, i as int, j as int, a, b);
            }
        }
        if j == v.len() {
            assert forall|a: int, b: int| is_segment(v@, a, b) implies !is_test_marker(
                #[trigger] v@.subrange(a, b),
            ) by {}
            return false;
        }
        i = j + 1;
    }
}

/// Whether `rel_path` is left out of the graph unless default exclusions are
/// switched off.
pub fn is_default_excluded(rel_path: &str) -> (r: bool)
    ensures
        r == is_excluded_path(rel_path@),
{
    let v = chars_of(rel_path);
    // The file name: the piece after the last '/'.
    let mut last: usize = v.len();
    while last > 0 && v[last - 1] != '/'
        invariant
            last <= v@.len(),
            forall|t: int| last <= t < v@.len() ==> v@[t] != '/',
        decreases last,
    {
        last -= 1;
    }
    assert(is_last_segment(v@, last as int));
    let name_excluded = excluded_file(&v, last, v.len());
    assert(name_excluded ==> exists|i: int|
        is_last_segment(v@, i) && is_excluded_file(v@.subrange(i, v@.len() as int)));
    assert(!name_excluded ==> forall|i: int|
        is_last_segment(v@, i) ==> !is_excluded_file(v@.subrange(i, v@.len() as int))) by {
        assert forall|i: int| is_last_segment(v@, i) implies i == last by {
            if i < last {
                assert(v@[last - 1] == '/');
            } else if i > last {
                assert(v@[i - 1] == '/');
            }
        }
    }
    if name_excluded {
        return true;
    }
    let mut i: usize = 0;
    loop
        invariant
            v@ == rel_path@,
            !name_excluded,
            forall|i: int|
                is_last_segment(v@, i) ==> !is_excluded_file(v@.subrange(i, v@.len() as int)),
            i <= v@.len(),
            i == 0 || v@[i - 1] == '/',
            forall|a: int, b: int|
                is_segment(v@, a, b) && a < i ==> !is_excluded_dir(#[trigger] v@.subrange(a, b)),
        decreases v@.len() - i,
    {
        let j = segment_end(&v, i);
        assert(is_segment(v@, i as int, j as int));
        if excluded_dir(&v, i, j) {
            return true;
        }
        assert forall|a: int, b: int|
            is_segment(v@, a, b) && a < j + 1 implies !is_excluded_dir(#[trigger] v@.subrange(a, b)) by {
            if a >= i {
                lemma_segment_start(v@, i as int, j as int, a, b);
            }
        }
        if j == v.len() {
            return false;
        }
        i = j + 1;
    }
}

/// Each extension written with a leading `'.'`: kept as it is when it has
/// one, else prefixed with one.
pub open spec fn normalized_ext(e: Seq<char>) -> Seq<char> {
    if e.len() > 0 && e[0] == '.' {
        e
    } else {
        seq!['.'] + e
    }
}

/// Write every extension with a leading `'.'`.
pub fn normalize_exts(exts: &[String]) -> (r: Vec<String>)
    ensures
        r@.len() == exts@.len(),
        forall|k: int| 0 <= k < exts@.len() ==> #[trigger] r@[k]@ == normalized_ext(exts@[k]@),
{
    let mut out: Vec<String> = Vec::new();
    let mut i: usize = 0;
    while i < exts.len()
        invariant
            i <= exts@.len(),
            out@.len() == i,
            forall|k: int| 0 <= k < i ==> #[trigger] out@[k]@ == normalized_ext(exts@[k]@),
        decreases exts@.len() - i,
    {
        let e = &exts[i];
        let v = chars_of(e.as_str());
        if v.len() > 0 && v[0] == '.' {
            out.push(e.clone());
        } else {
            let mut s = String::from_str(".");
            s.append(e.as_str());
            proof {
                reveal_strlit(".");
                assert(s@ =~= seq!['.'] + e@);
            }
            out.push(s);
        }
        i += 1;
    }
    out
}

} // verus!
