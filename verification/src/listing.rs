//! The order in which a graph is listed for output: its entities by id,
//! each id once, and its references by their ends and kind, so that the
//! same graph is always written the same way.

use vstd::prelude::*;
use crate::model::{info_index, info_index_below, EntityInfo, EntityRef, RefType};
use crate::text::chars_of;

verus! {

/// `a` comes before `b` when compared character by character from index
/// `i` on, a proper prefix coming first.
pub open spec fn less_from(a: Seq<char>, b: Seq<char>, i: int) -> bool
    decreases a.len() - i,
{
    if i >= a.len() {
        i < b.len()
    } else if i >= b.len() {
        false
    } else if a[i] != b[i] {
        a[i] < b[i]
    } else {
        less_from(a, b, i + 1)
    }
}

/// The lexicographic order of texts by their characters, which for UTF-8
/// text is also the order of their bytes.
pub open spec fn text_less(a: Seq<char>, b: Seq<char>) -> bool {
    less_from(a, b, 0)
}

proof fn lemma_less_irreflexive(a: Seq<char>, i: int)
    ensures
        !less_from(a, a, i),
    decreases a.len() - i,
{
    if i < a.len() {
        lemma_less_irreflexive(a, i + 1);
    }
}

/// Texts that are ordered are different.
pub proof fn lemma_less_differs(a: Seq<char>, b: Seq<char>)
    requires
        text_less(a, b),
    ensures
        a != b,
{
    lemma_less_irreflexive(a, 0);
}

proof fn lemma_less_from_transitive(a: Seq<char>, b: Seq<char>, c: Seq<char>, i: int)
    requires
        less_from(a, b, i),
        less_from(b, c, i),
    ensures
        less_from(a, c, i),
    decreases a.len() - i,
{
    if i < a.len() && i < b.len() && i < c.len() && a[i] == b[i] && b[i] == c[i] {
        lemma_less_from_transitive(a, b, c, i + 1);
    }
}

/// The order of texts is transitive.
pub proof fn lemma_less_transitive(a: Seq<char>, b: Seq<char>, c: Seq<char>)
    requires
        text_less(a, b),
        text_less(b, c),
    ensures
        text_less(a, c),
{
    lemma_less_from_transitive(a, b, c, 0);
}

proof fn lemma_less_from_total(a: Seq<char>, b: Seq<char>, i: int)
    requires
        0 <= i <= a.len(),
        i <= b.len(),
        a.take(i) == b.take(i),
    ensures
        less_from(a, b, i) || less_from(b, a, i) || a == b,
    decreases a.len() - i,
{
    if i == a.len() && i == b.len() {
        assert(a =~= a.take(i));
        assert(b =~= b.take(i));
    } else if i < a.len() && i < b.len() && a[i] == b[i] {
        assert forall|k: int| 0 <= k < i + 1 implies a[k] == b[k] by {
            if k < i {
                assert(a.take(i)[k] == a[k]);
                assert(b.take(i)[k] == b[k]);
            }
        }
        assert(a.take(i + 1) =~= b.take(i + 1));
        lemma_less_from_total(a, b, i + 1);
    }
}

/// Of two different texts, one comes before the other.
pub proof fn lemma_less_total(a: Seq<char>, b: Seq<char>)
    ensures
        text_less(a, b) || text_less(b, a) || a == b,
{
    assert(a.take(0) =~= b.take(0));
    lemma_less_from_total(a, b, 0);
}

/// Whether `a` comes before `b` in the order of texts.
pub fn text_less_than(a: &str, b: &str) -> (r: bool)
    ensures
        r == text_less(a@, b@),
{
    let x = chars_of(a);
    let y = chars_of(b);
    let mut i: usize = 0;
    while i < x.len() && i < y.len() && x[i] == y[i]
        invariant
            x@ == a@,
            y@ == b@,
            i <= x@.len(),
            i <= y@.len(),
            less_from(a@, b@, 0) == less_from(a@, b@, i as int),
        decreases x@.len() - i,
    {
        i += 1;
    }
    if i >= x.len() {
        i < y.len()
    } else if i >= y.len() {
        false
    } else {
        x[i] < y[i]
    }
}

// ---------------------------------------------------------------------------
// Entities

/// The id of the entity at position `j` of a listing.
pub open spec fn id_at(s: Seq<EntityInfo>, order: Seq<usize>, j: int) -> Seq<char> {
    s[order[j] as int].id@
}

/// Some position of the listing holds an entity with id `id`.
pub open spec fn lists_id(s: Seq<EntityInfo>, order: Seq<usize>, id: Seq<char>) -> bool {
    exists|j: int| 0 <= j < order.len() && #[trigger] id_at(s, order, j) == id
}

/// The ids of the listing come in increasing order, so each only once.
pub open spec fn ids_increase(s: Seq<EntityInfo>, order: Seq<usize>) -> bool {
    forall|a: int, b: int|
        0 <= a < b < order.len() ==> text_less(
            #[trigger] id_at(s, order, a),
            #[trigger] id_at(s, order, b),
        )
}

fn entity_slot(s: &[EntityInfo], order: &Vec<usize>, id: &String) -> (r: (usize, bool))
    requires
        forall|j: int| 0 <= j < order@.len() ==> (#[trigger] order@[j]) < s@.len(),
    ensures
        r.0 <= order@.len(),
        forall|a: int| 0 <= a < r.0 ==> text_less(#[trigger] id_at(s@, order@, a), id@),
        r.1 ==> r.0 < order@.len() && id_at(s@, order@, r.0 as int) == id@,
        !r.1 && r.0 < order@.len() ==> text_less(id@, id_at(s@, order@, r.0 as int)),
{
    let mut p: usize = 0;
    while p < order.len()
        invariant
            p <= order@.len(),
            forall|j: int| 0 <= j < order@.len() ==> (#[trigger] order@[j]) < s@.len(),
            forall|a: int| 0 <= a < p ==> text_less(#[trigger] id_at(s@, order@, a), id@),
        decreases order@.len() - p,
    {
        let other = &s[order[p]].id;
        if *other == *id {
            return (p, true);
        }
        if text_less_than(other.as_str(), id.as_str()) {
            p += 1;
        } else {
            proof {
                lemma_less_total(other@, id@);
            }
            return (p, false);
        }
    }
    (p, false)
}

/// The order in which a graph's entities are listed: for each id, the
/// position of the entry that stands for it (the last with that id), by
/// increasing id.
pub fn entity_listing(entities: &[EntityInfo]) -> (r: Vec<usize>)
    ensures
        forall|j: int|
            0 <= j < r@.len() ==> (#[trigger] r@[j]) < entities@.len() && info_index(
                entities@,
                id_at(entities@, r@, j),
            ) == Some(r@[j] as int),
        forall|k: int| 0 <= k < entities@.len() ==> lists_id(entities@, r@, #[trigger] entities@[k].id@),
        ids_increase(entities@, r@),
        is_entity_listing(entities@, r@),
{
    let ghost s = entities@;
    let mut out: Vec<usize> = Vec::new();
    let mut i: usize = 0;
    while i < entities.len()
        invariant
            s == entities@,
            i <= s.len(),
            forall|j: int|
                0 <= j < out@.len() ==> (#[trigger] out@[j]) < i && info_index_below(
                    s,
                    id_at(s, out@, j),
                    i as int,
                ) == Some(out@[j] as int),
            forall|k: int| 0 <= k < i ==> lists_id(s, out@, #[trigger] s[k].id@),
            ids_increase(s, out@),
        decreases s.len() - i,
    {
        let (p, found) = entity_slot(entities, &out, &entities[i].id);
        let ghost before = out@;
        let ghost x = s[i as int].id@;
        if found {
            out.set(p, i);
            proof {
                assert forall|j: int| 0 <= j < out@.len() implies id_at(s, out@, j) == id_at(
                    s,
                    before,
                    j,
                ) by {}
                assert forall|j: int| 0 <= j < out@.len() implies (#[trigger] out@[j]) < i + 1
                    && info_index_below(s, id_at(s, out@, j), i + 1) == Some(out@[j] as int) by {
                    if j != p {
                        if j < p {
                            assert(text_less(id_at(s, before, j), id_at(s, before, p as int)));
                            lemma_less_differs(id_at(s, before, j), x);
                        } else {
                            assert(text_less(id_at(s, before, p as int), id_at(s, before, j)));
                            lemma_less_differs(x, id_at(s, before, j));
                        }
                    }
                }
                assert forall|k: int| 0 <= k < i + 1 implies lists_id(s, out@, #[trigger] s[k].id@) by {
                    if k < i {
                        let w = choose|w: int| 0 <= w < before.len() && #[trigger] id_at(s, before, w) == s[k].id@;
                        assert(id_at(s, out@, w) == s[k].id@);
                    } else {
                        assert(id_at(s, out@, p as int) == s[k].id@);
                    }
                }
            }
        } else {
            out.insert(p, i);
            proof {
                assert forall|j: int| 0 <= j < out@.len() implies #[trigger] id_at(s, out@, j) == if j
                    < p {
                    id_at(s, before, j)
                } else if j == p {
                    x
                } else {
                    id_at(s, before, j - 1)
                } by {}
                assert forall|j: int| 0 <= j < before.len() implies #[trigger] id_at(s, before, j)
                    != x by {
                    if j < p {
                        lemma_less_differs(id_at(s, before, j), x);
                    } else {
                        if j > p {
                            lemma_less_transitive(x, id_at(s, before, p as int), id_at(s, before, j));
                        }
                        lemma_less_differs(x, id_at(s, before, j));
                    }
                }
                assert forall|j: int| 0 <= j < out@.len() implies (#[trigger] out@[j]) < i + 1
                    && info_index_below(s, id_at(s, out@, j), i + 1) == Some(out@[j] as int) by {
                    if j < p {
                        assert(id_at(s, before, j) != x);
                    } else if j > p {
                        assert(id_at(s, before, j - 1) != x);
                    }
                }
                assert forall|k: int| 0 <= k < i + 1 implies lists_id(s, out@, #[trigger] s[k].id@) by {
                    if k < i {
                        let w = choose|w: int| 0 <= w < before.len() && #[trigger] id_at(s, before, w) == s[k].id@;
                        if w < p {
                            assert(id_at(s, out@, w) == s[k].id@);
                        } else {
                            assert(id_at(s, out@, w + 1) == s[k].id@);
                        }
                    } else {
                        assert(id_at(s, out@, p as int) == s[k].id@);
                    }
                }
                assert forall|a: int, b: int| 0 <= a < b < out@.len() implies text_less(
                    #[trigger] id_at(s, out@, a),
                    #[trigger] id_at(s, out@, b),
                ) by {
                    if b < p {
                        assert(text_less(id_at(s, before, a), id_at(s, before, b)));
                    } else if b > p {
                        let yb = id_at(s, before, b - 1);
                        assert(text_less(x, yb)) by {
                            if b - 1 > p {
                                assert(text_less(id_at(s, before, p as int), yb));
                                lemma_less_transitive(x, id_at(s, before, p as int), yb);
                            }
                        }
                        if a < p {
                            lemma_less_transitive(id_at(s, before, a), x, yb);
                        } else if a > p {
                            assert(text_less(id_at(s, before, a - 1), yb));
                        }
                    }
                }
            }
        }
        i += 1;
    }
    out
}

/// What `entity_listing` promises of an order of the entities `s`.
pub open spec fn is_entity_listing(s: Seq<EntityInfo>, order: Seq<usize>) -> bool {
    &&& forall|j: int|
        0 <= j < order.len() ==> (#[trigger] order[j]) < s.len() && info_index(s, id_at(s, order, j))
            == Some(order[j] as int)
    &&& forall|k: int| 0 <= k < s.len() ==> lists_id(s, order, #[trigger] s[k].id@)
    &&& ids_increase(s, order)
}

/// An id at position `j` of one listing lies at the same position of
/// another, where the two agree before `j`.
proof fn lemma_listed_at_same_place(s: Seq<EntityInfo>, r1: Seq<usize>, r2: Seq<usize>, j: int)
    requires
        is_entity_listing(s, r1),
        is_entity_listing(s, r2),
        0 <= j < r1.len(),
        forall|a: int| 0 <= a < j ==> a < r2.len() && #[trigger] r1[a] == r2[a],
    ensures
        j < r2.len() && id_at(s, r2, j) == id_at(s, r1, j),
{
    let x = id_at(s, r1, j);
    assert(lists_id(s, r2, s[r1[j] as int].id@));
    let w = choose|w: int| 0 <= w < r2.len() && #[trigger] id_at(s, r2, w) == x;
    if w < j {
        assert(r1[w] == r2[w]);
        assert(text_less(id_at(s, r1, w), id_at(s, r1, j)));
        lemma_less_differs(id_at(s, r1, w), x);
    } else if w > j {
        let y = id_at(s, r2, j);
        assert(text_less(y, x));
        assert(lists_id(s, r1, s[r2[j] as int].id@));
        let v = choose|v: int| 0 <= v < r1.len() && #[trigger] id_at(s, r1, v) == y;
        if v < j {
            assert(r1[v] == r2[v]);
            assert(text_less(id_at(s, r2, v), id_at(s, r2, j)));
            lemma_less_differs(id_at(s, r2, v), y);
        } else if v > j {
            assert(text_less(x, y));
            lemma_less_transitive(x, y, x);
            lemma_less_differs(x, x);
        }
    }
}

proof fn lemma_listings_agree_below(s: Seq<EntityInfo>, r1: Seq<usize>, r2: Seq<usize>, i: int)
    requires
        is_entity_listing(s, r1),
        is_entity_listing(s, r2),
        0 <= i <= r1.len(),
    ensures
        i <= r2.len(),
        forall|a: int| 0 <= a < i ==> #[trigger] r1[a] == r2[a],
    decreases i,
{
    if i > 0 {
        lemma_listings_agree_below(s, r1, r2, i - 1);
        lemma_listed_at_same_place(s, r1, r2, i - 1);
        assert(r1[i - 1] == r2[i - 1]);
    }
}

/// The listing of a graph's entities is determined by the entities alone:
/// any two orders that keep `entity_listing`'s promise are the same, so the
/// graph is always written out the same way.
pub proof fn entity_listing_is_determined(s: Seq<EntityInfo>, r1: Seq<usize>, r2: Seq<usize>)
    requires
        is_entity_listing(s, r1),
        is_entity_listing(s, r2),
    ensures
        r1 == r2,
{
    lemma_listings_agree_below(s, r1, r2, r1.len() as int);
    lemma_listings_agree_below(s, r2, r1, r2.len() as int);
    assert(r1 =~= r2);
}

// ---------------------------------------------------------------------------
// References

/// The place of a reference kind in the order of their names: `calls`,
/// `imports`, `typeref`.
pub open spec fn ref_rank(t: RefType) -> int {
    match t {
        RefType::Calls => 0,
        RefType::Imports => 1,
        RefType::TypeRef => 2,
    }
}

/// Reference `x` is listed before `y`: by the id it comes from, then the id
/// it goes to, then the name of its kind.
pub open spec fn ref_less(x: EntityRef, y: EntityRef) -> bool {
    ||| text_less(x.from_entity@, y.from_entity@)
    ||| x.from_entity@ == y.from_entity@ && text_less(x.to_entity@, y.to_entity@)
    ||| x.from_entity@ == y.from_entity@ && x.to_entity@ == y.to_entity@ && ref_rank(x.ref_type)
        < ref_rank(y.ref_type)
}

proof fn lemma_ref_less_irreflexive(x: EntityRef)
    ensures
        !ref_less(x, x),
{
    lemma_less_irreflexive(x.from_entity@, 0);
    lemma_less_irreflexive(x.to_entity@, 0);
}

proof fn lemma_ref_less_transitive(x: EntityRef, y: EntityRef, z: EntityRef)
    requires
        ref_less(x, y),
        ref_less(y, z),
    ensures
        ref_less(x, z),
{
    if text_less(x.from_entity@, y.from_entity@) && text_less(y.from_entity@, z.from_entity@) {
        lemma_less_transitive(x.from_entity@, y.from_entity@, z.from_entity@);
    }
    if text_less(x.to_entity@, y.to_entity@) && text_less(y.to_entity@, z.to_entity@) {
        lemma_less_transitive(x.to_entity@, y.to_entity@, z.to_entity@);
    }
}

fn rank_of(t: RefType) -> (r: u8)
    ensures
        r as int == ref_rank(t),
{
    match t {
        RefType::Calls => 0,
        RefType::Imports => 1,
        RefType::TypeRef => 2,
    }
}

/// Whether reference `x` is listed before `y`.
pub fn ref_less_than(x: &EntityRef, y: &EntityRef) -> (r: bool)
    ensures
        r == ref_less(*x, *y),
{
    if text_less_than(x.from_entity.as_str(), y.from_entity.as_str()) {
        true
    } else if x.from_entity == y.from_entity {
        if text_less_than(x.to_entity.as_str(), y.to_entity.as_str()) {
            true
        } else if x.to_entity == y.to_entity {
            rank_of(x.ref_type) < rank_of(y.ref_type)
        } else {
            false
        }
    } else {
        false
    }
}

/// The reference at position `j` of a listing.
pub open spec fn ref_at(s: Seq<EntityRef>, order: Seq<usize>, j: int) -> EntityRef {
    s[order[j] as int]
}

/// Two references with the same ends and kind.
pub open spec fn same_key(x: EntityRef, y: EntityRef) -> bool {
    &&& x.from_entity@ == y.from_entity@
    &&& x.to_entity@ == y.to_entity@
    &&& x.ref_type == y.ref_type
}

/// The reference at position `i` of `s` is listed before that at `j`: it
/// comes first by ends and kind, or it has the same ones and comes first
/// in `s`.
pub open spec fn listed_before(s: Seq<EntityRef>, i: int, j: int) -> bool {
    ref_less(s[i], s[j]) || (same_key(s[i], s[j]) && i < j)
}

proof fn lemma_ref_total(x: EntityRef, y: EntityRef)
    ensures
        ref_less(x, y) || ref_less(y, x) || same_key(x, y),
{
    lemma_less_total(x.from_entity@, y.from_entity@);
    lemma_less_total(x.to_entity@, y.to_entity@);
}

proof fn lemma_listed_before_transitive(s: Seq<EntityRef>, i: int, j: int, k: int)
    requires
        listed_before(s, i, j),
        listed_before(s, j, k),
    ensures
        listed_before(s, i, k),
{
    if ref_less(s[i], s[j]) && ref_less(s[j], s[k]) {
        lemma_ref_less_transitive(s[i], s[j], s[k]);
    }
}

proof fn lemma_listed_before_irreflexive(s: Seq<EntityRef>, i: int)
    ensures
        !listed_before(s, i, i),
{
    lemma_ref_less_irreflexive(s[i]);
}

/// Position `k` occurs in the listing.
pub open spec fn lists_index(order: Seq<usize>, k: int) -> bool {
    exists|j: int| 0 <= j < order.len() && #[trigger] order[j] == k
}

/// What `edge_listing` promises of an order of the references `s`: every
/// position once, each listed before those that follow it.
pub open spec fn is_edge_listing(s: Seq<EntityRef>, order: Seq<usize>) -> bool {
    &&& order.len() == s.len()
    &&& forall|j: int| 0 <= j < order.len() ==> (#[trigger] order[j]) < s.len()
    &&& forall|k: int| 0 <= k < s.len() ==> #[trigger] lists_index(order, k)
    &&& forall|a: int, b: int|
        0 <= a < b < order.len() ==> listed_before(s, #[trigger] order[a] as int, #[trigger] order[b] as int)
}

fn ref_slot(s: &[EntityRef], order: &Vec<usize>, x: &EntityRef) -> (p: usize)
    requires
        forall|j: int| 0 <= j < order@.len() ==> (#[trigger] order@[j]) < s@.len(),
    ensures
        p <= order@.len(),
        forall|a: int| 0 <= a < p ==> !ref_less(*x, #[trigger] ref_at(s@, order@, a)),
        p < order@.len() ==> ref_less(*x, ref_at(s@, order@, p as int)),
{
    let mut p: usize = 0;
    while p < order.len()
        invariant
            p <= order@.len(),
            forall|j: int| 0 <= j < order@.len() ==> (#[trigger] order@[j]) < s@.len(),
            forall|a: int| 0 <= a < p ==> !ref_less(*x, #[trigger] ref_at(s@, order@, a)),
        decreases order@.len() - p,
    {
        if ref_less_than(x, &s[order[p]]) {
            return p;
        }
        p += 1;
    }
    p
}

/// The order in which a graph's references are listed: every position
/// once, by the ids they come from and go to and then their kind; those
/// with the same ends and kind in the order they have in `edges`.
pub fn edge_listing(edges: &[EntityRef]) -> (r: Vec<usize>)
    ensures
        is_edge_listing(edges@, r@),
{
    let ghost s = edges@;
    let mut out: Vec<usize> = Vec::new();
    let mut i: usize = 0;
    while i < edges.len()
        invariant
            s == edges@,
            i <= s.len(),
            out@.len() == i,
            forall|j: int| 0 <= j < out@.len() ==> (#[trigger] out@[j]) < i,
            forall|k: int| 0 <= k < i ==> #[trigger] lists_index(out@, k),
            forall|a: int, b: int|
                0 <= a < b < out@.len() ==> listed_before(s, #[trigger] out@[a] as int, #[trigger] out@[b] as int),
        decreases s.len() - i,
    {
        let p = ref_slot(edges, &out, &edges[i]);
        let ghost before = out@;
        let ghost x = s[i as int];
        out.insert(p, i);
        proof {
            assert forall|j: int| 0 <= j < out@.len() implies #[trigger] out@[j] == if j < p {
                before[j]
            } else if j == p {
                i
            } else {
                before[j - 1]
            } by {}
            assert forall|k: int| 0 <= k < i + 1 implies #[trigger] lists_index(out@, k) by {
                if k < i {
                    assert(lists_index(before, k));
                    let w = choose|w: int| 0 <= w < before.len() && #[trigger] before[w] == k;
                    if w < p {
                        assert(out@[w] == k);
                    } else {
                        assert(out@[w + 1] == k);
                    }
                } else {
                    assert(out@[p as int] == k);
                }
            }
            assert forall|a: int, b: int| 0 <= a < b < out@.len() implies listed_before(
                s,
                #[trigger] out@[a] as int,
                #[trigger] out@[b] as int,
            ) by {
                if b < p {
                    assert(listed_before(s, before[a] as int, before[b] as int));
                } else if b == p {
                    let ya = before[a] as int;
                    assert(!ref_less(x, ref_at(s, before, a)));
                    lemma_ref_total(s[ya], x);
                    assert(ya < i);
                } else if a == p {
                    let yb = before[b - 1] as int;
                    let yp = before[p as int] as int;
                    assert(ref_less(x, ref_at(s, before, p as int)));
                    assert(listed_before(s, i as int, yp));
                    if b - 1 > p {
                        assert(listed_before(s, yp, yb));
                        lemma_listed_before_transitive(s, i as int, yp, yb);
                    }
                } else if a < p {
                    assert(listed_before(s, before[a] as int, before[b - 1] as int));
                } else {
                    assert(listed_before(s, before[a - 1] as int, before[b - 1] as int));
                }
            }
        }
        i += 1;
    }
    out
}

proof fn lemma_edge_at_same_place(s: Seq<EntityRef>, r1: Seq<usize>, r2: Seq<usize>, j: int)
    requires
        is_edge_listing(s, r1),
        is_edge_listing(s, r2),
        0 <= j < r1.len(),
        forall|a: int| 0 <= a < j ==> #[trigger] r1[a] == r2[a],
    ensures
        r2[j] == r1[j],
{
    let x = r1[j] as int;
    assert(lists_index(r2, x));
    let w = choose|w: int| 0 <= w < r2.len() && #[trigger] r2[w] == x;
    if w < j {
        assert(r1[w] == r2[w]);
        assert(listed_before(s, r1[w] as int, r1[j] as int));
        lemma_listed_before_irreflexive(s, x);
    } else if w > j {
        let y = r2[j] as int;
        assert(listed_before(s, r2[j] as int, r2[w] as int));
        assert(lists_index(r1, y));
        let v = choose|v: int| 0 <= v < r1.len() && #[trigger] r1[v] == y;
        if v < j {
            assert(r1[v] == r2[v]);
            assert(listed_before(s, r2[v] as int, r2[j] as int));
            lemma_listed_before_irreflexive(s, y);
        } else if v > j {
            assert(listed_before(s, r1[j] as int, r1[v] as int));
            lemma_listed_before_transitive(s, x, y, x);
            lemma_listed_before_irreflexive(s, x);
        }
    }
}

proof fn lemma_edge_listings_agree_below(s: Seq<EntityRef>, r1: Seq<usize>, r2: Seq<usize>, i: int)
    requires
        is_edge_listing(s, r1),
        is_edge_listing(s, r2),
        0 <= i <= r1.len(),
    ensures
        forall|a: int| 0 <= a < i ==> #[trigger] r1[a] == r2[a],
    decreases i,
{
    if i > 0 {
        lemma_edge_listings_agree_below(s, r1, r2, i - 1);
        lemma_edge_at_same_place(s, r1, r2, i - 1);
    }
}

/// The listing of a graph's references is determined by the references
/// alone: any two orders that keep `edge_listing`'s promise are the same.
pub proof fn edge_listing_is_determined(s: Seq<EntityRef>, r1: Seq<usize>, r2: Seq<usize>)
    requires
        is_edge_listing(s, r1),
        is_edge_listing(s, r2),
    ensures
        r1 == r2,
{
    lemma_edge_listings_agree_below(s, r1, r2, r1.len() as int);
    assert(r1 =~= r2);
}

} // verus!
