//! Which files of a repository the graph is built from, in sorted order.

use vstd::prelude::*;
use crate::arity::occurs_at;
use crate::calls::{file_grammar, grammar_of_path};
use crate::paths::{is_default_excluded, is_excluded_path};
use crate::store::texts;
use crate::text::chars_of;

verus! {

/// `a` comes no later than `b` in the order of `str`'s `Ord`: UTF-8 bytes
/// compared lexicographically, which is the lexicographic order of the
/// characters' code points.
pub open spec fn text_le(a: Seq<char>, b: Seq<char>) -> bool
    decreases a.len(),
{
    if a.len() == 0 {
        true
    } else if b.len() == 0 {
        false
    } else if a[0] < b[0] {
        true
    } else if a[0] > b[0] {
        false
    } else {
        text_le(a.drop_first(), b.drop_first())
    }
}

pub proof fn lemma_text_le_total(a: Seq<char>, b: Seq<char>)
    ensures
        text_le(a, b) || text_le(b, a),
    decreases a.len(),
{
    if a.len() > 0 && b.len() > 0 && a[0] == b[0] {
        lemma_text_le_total(a.drop_first(), b.drop_first());
    }
}

pub proof fn lemma_text_le_transitive(a: Seq<char>, b: Seq<char>, c: Seq<char>)
    requires
        text_le(a, b),
        text_le(b, c),
    ensures
        text_le(a, c),
    decreases a.len(),
{
    if a.len() > 0 && b.len() > 0 && c.len() > 0 && a[0] == b[0] && b[0] == c[0] {
        lemma_text_le_transitive(a.drop_first(), b.drop_first(), c.drop_first());
    }
}

/// The texts are in order.
pub open spec fn sorted_texts(s: Seq<Seq<char>>) -> bool {
    forall|i: int, j: int| 0 <= i < j < s.len() ==> text_le(#[trigger] s[i], #[trigger] s[j])
}

fn text_le_exec(a: &String, b: &String) -> (r: bool)
    ensures
        r == text_le(a@, b@),
{
    let x = chars_of(a.as_str());
    let y = chars_of(b.as_str());
    let mut i: usize = 0;
    assert(x@.skip(0) =~= x@);
    assert(y@.skip(0) =~= y@);
    while i < x.len() && i < y.len() && x[i] == y[i]
        invariant
            x@ == a@,
            y@ == b@,
            i <= x@.len(),
            i <= y@.len(),
            text_le(a@, b@) == text_le(x@.skip(i as int), y@.skip(i as int)),
        decreases x@.len() - i,
    {
        assert(x@.skip(i as int).drop_first() =~= x@.skip(i + 1));
        assert(y@.skip(i as int).drop_first() =~= y@.skip(i + 1));
        i += 1;
    }
    if i == x.len() {
        return true;
    }
    if i == y.len() {
        return false;
    }
    assert(x@.skip(i as int)[0] == x@[i as int]);
    assert(y@.skip(i as int)[0] == y@[i as int]);
    x[i] < y[i]
}

/// `paths` in sorted order.
pub fn sort_paths(paths: Vec<String>) -> (r: Vec<String>)
    ensures
        sorted_texts(texts(r@)),
        texts(r@).to_multiset() == texts(paths@).to_multiset(),
{
    broadcast use vstd::seq_lib::to_multiset_build, vstd::seq_lib::to_multiset_insert;

    let ghost all = texts(paths@);
    let mut out: Vec<String> = Vec::new();
    let mut i: usize = 0;
    let n = paths.len();
    let mut rest = paths;
    proof {
        assert(texts(out@) =~= Seq::<Seq<char>>::empty());
        assert(all.take(0) =~= Seq::<Seq<char>>::empty());
    }
    while i < n
        invariant
            n == all.len(),
            i <= n,
            rest@.len() == n,
            texts(rest@) == all,
            sorted_texts(texts(out@)),
            texts(out@).to_multiset() == all.take(i as int).to_multiset(),
        decreases n - i,
    {
        let x = rest[i].clone();
        let mut p: usize = 0;
        while p < out.len() && text_le_exec(&out[p], &x)
            invariant
                p <= out@.len(),
                forall|k: int| 0 <= k < p ==> text_le(#[trigger] texts(out@)[k], x@),
            decreases out@.len() - p,
        {
            p += 1;
        }
        let ghost before = texts(out@);
        proof {
            assert forall|k: int| p <= k < before.len() implies text_le(x@, #[trigger] before[k]) by {
                if p < before.len() {
                    lemma_text_le_total(before[p as int], x@);
                    if k > p {
                        lemma_text_le_transitive(x@, before[p as int], before[k]);
                    }
                }
            }
        }
        assert(x@ == all[i as int]);
        out.insert(p, x);
        proof {
            assert(texts(out@) =~= before.insert(p as int, x@));
            assert(all.take(i + 1) =~= all.take(i as int).push(all[i as int]));
            vstd::seq_lib::to_multiset_insert(before, p as int, x@);
            vstd::seq_lib::to_multiset_build(all.take(i as int), all[i as int]);
            assert forall|a: int, b: int| 0 <= a < b < texts(out@).len() implies text_le(
                #[trigger] texts(out@)[a],
                #[trigger] texts(out@)[b],
            ) by {
                if a < p && b == p {
                } else if a < p && b > p {
                    lemma_text_le_transitive(before[a], x@, before[b - 1]);
                } else if a == p {
                } else if a < p {
                } else {
                }
            }
        }
        i += 1;
    }
    assert(all.take(n as int) =~= all);
    out
}

/// `path` ends with `ext`.
pub open spec fn ends_with(path: Seq<char>, ext: Seq<char>) -> bool {
    occurs_at(path, ext, path.len() - ext.len())
}

/// The graph is built from `path`: it is not excluded by default (unless
/// that is switched off), it ends with one of the extensions asked for
/// (where any are), and a grammar reads it.
pub open spec fn keeps_file(path: Seq<char>, exts: Seq<Seq<char>>, no_default_excludes: bool) -> bool {
    &&& no_default_excludes || !is_excluded_path(path)
    &&& exts.len() == 0 || exists|k: int| 0 <= k < exts.len() && ends_with(path, #[trigger] exts[k])
    &&& grammar_of_path(path) is Some
}

/// The kept paths among `paths[..n]`, in order.
pub open spec fn kept_below(paths: Seq<String>, exts: Seq<Seq<char>>, no_default_excludes: bool, n: int) -> Seq<
    Seq<char>,
>
    decreases n,
{
    if n <= 0 {
        seq![]
    } else {
        kept_below(paths, exts, no_default_excludes, n - 1) + if keeps_file(
            paths[n - 1]@,
            exts,
            no_default_excludes,
        ) {
            seq![paths[n - 1]@]
        } else {
            seq![]
        }
    }
}

fn ends_with_exec(path: &String, ext: &String) -> (r: bool)
    ensures
        r == ends_with(path@, ext@),
{
    let v = chars_of(path.as_str());
    let w = chars_of(ext.as_str());
    if w.len() > v.len() {
        return false;
    }
    crate::paths::range_is(&v, v.len() - w.len(), v.len(), ext.as_str())
}

fn has_ext(path: &String, exts: &[String]) -> (r: bool)
    ensures
        r == (exists|k: int| 0 <= k < exts@.len() && ends_with(path@, #[trigger] texts(exts@)[k])),
{
    let mut k: usize = 0;
    while k < exts.len()
        invariant
            k <= exts@.len(),
            forall|j: int| 0 <= j < k ==> !ends_with(path@, #[trigger] texts(exts@)[j]),
        decreases exts@.len() - k,
    {
        if ends_with_exec(path, &exts[k]) {
            assert(ends_with(path@, texts(exts@)[k as int]));
            return true;
        }
        k += 1;
    }
    false
}

/// The paths, among the files found in a repository, that the graph is
/// built from, sorted.
pub fn select_supported_files(candidates: Vec<String>, ext_filter: &[String], no_default_excludes: bool) -> (r: Vec<
    String,
>)
    ensures
        sorted_texts(texts(r@)),
        texts(r@).to_multiset() == kept_below(
            candidates@,
            texts(ext_filter@),
            no_default_excludes,
            candidates@.len() as int,
        ).to_multiset(),
{
    let ghost exts = texts(ext_filter@);
    let mut kept: Vec<String> = Vec::new();
    let mut k: usize = 0;
    while k < candidates.len()
        invariant
            exts == texts(ext_filter@),
            k <= candidates@.len(),
            texts(kept@) == kept_below(candidates@, exts, no_default_excludes, k as int),
        decreases candidates@.len() - k,
    {
        let p = &candidates[k];
        let keep = (no_default_excludes || !is_default_excluded(p.as_str())) && (ext_filter.len()
            == 0 || has_ext(p, ext_filter)) && file_grammar(p.as_str()).is_some();
        if keep {
            kept.push(p.clone());
        }
        assert(texts(kept@) =~= kept_below(candidates@, exts, no_default_excludes, k + 1));
        k += 1;
    }
    sort_paths(kept)
}

/// The supported files among those found in a repository, sorted, with the
/// default exclusions in force.
pub fn find_supported_files_public(candidates: Vec<String>, ext_filter: &[String]) -> (r: Vec<
    String,
>)
    ensures
        sorted_texts(texts(r@)),
        texts(r@).to_multiset() == kept_below(
            candidates@,
            texts(ext_filter@),
            false,
            candidates@.len() as int,
        ).to_multiset(),
{
    select_supported_files(candidates, ext_filter, false)
}

} // verus!
