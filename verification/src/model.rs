//! The entities and the dependency graph that the analyses read.

use vstd::prelude::*;

verus! {

/// A code entity extracted from a source file.
#[derive(Clone, Debug)]
pub struct SemanticEntity {
    pub id: String,
    pub file_path: String,
    pub entity_type: String,
    pub name: String,
    pub parent_id: Option<String>,
    pub content: String,
    pub content_hash: String,
    pub structural_hash: Option<String>,
    pub start_line: usize,
    pub end_line: usize,
    /// The entity's metadata, serialised as JSON text.
    pub metadata_json: Option<String>,
}

/// The summary of an entity that the graph keeps.
#[derive(Clone, Debug)]
pub struct EntityInfo {
    pub id: String,
    pub name: String,
    pub entity_type: String,
    pub file_path: String,
    pub start_line: usize,
    pub end_line: usize,
    pub parent_id: Option<String>,
}

/// The kind of a reference between two entities.
#[derive(PartialEq, Eq, Structural, Clone, Copy, Debug)]
pub enum RefType {
    Calls,
    TypeRef,
    Imports,
}

/// A reference from one entity to another.
#[derive(Clone, Debug)]
pub struct EntityRef {
    pub from_entity: String,
    pub to_entity: String,
    pub ref_type: RefType,
}

/// Entities, keyed by id, and the references between them.
///
/// Where several entries share an id the last one stands for it, as when
/// the entries are collected into a map.
pub struct EntityGraph {
    pub entities: Vec<EntityInfo>,
    pub edges: Vec<EntityRef>,
}

/// The last index below `n` whose info has id `id`.
pub open spec fn info_index_below(s: Seq<EntityInfo>, id: Seq<char>, n: int) -> Option<int>
    decreases n,
{
    if n <= 0 {
        None
    } else if s[n - 1].id@ == id {
        Some(n - 1)
    } else {
        info_index_below(s, id, n - 1)
    }
}

/// The index of the info that stands for `id`.
pub open spec fn info_index(s: Seq<EntityInfo>, id: Seq<char>) -> Option<int> {
    info_index_below(s, id, s.len() as int)
}

/// The last index below `n` whose entity has id `id`.
pub open spec fn entity_index_below(s: Seq<SemanticEntity>, id: Seq<char>, n: int) -> Option<int>
    decreases n,
{
    if n <= 0 {
        None
    } else if s[n - 1].id@ == id {
        Some(n - 1)
    } else {
        entity_index_below(s, id, n - 1)
    }
}

/// The index of the entity that stands for `id` in a list of entities.
pub open spec fn entity_index(s: Seq<SemanticEntity>, id: Seq<char>) -> Option<int> {
    entity_index_below(s, id, s.len() as int)
}

pub proof fn lemma_info_index_below(s: Seq<EntityInfo>, id: Seq<char>, n: int)
    requires
        n <= s.len(),
    ensures
        info_index_below(s, id, n) matches Some(k) ==> 0 <= k < n && s[k].id@ == id,
    decreases n,
{
    if n > 0 && s[n - 1].id@ != id {
        lemma_info_index_below(s, id, n - 1);
    }
}

pub proof fn lemma_entity_index_below(s: Seq<SemanticEntity>, id: Seq<char>, n: int)
    requires
        n <= s.len(),
    ensures
        entity_index_below(s, id, n) matches Some(k) ==> 0 <= k < n && s[k].id@ == id,
    decreases n,
{
    if n > 0 && s[n - 1].id@ != id {
        lemma_entity_index_below(s, id, n - 1);
    }
}

/// The index of the info that stands for `id`.
pub fn find_info(infos: &Vec<EntityInfo>, id: &String) -> (r: Option<usize>)
    ensures
        r matches Some(k) ==> info_index(infos@, id@) == Some(k as int) && k < infos@.len(),
        r is None ==> info_index(infos@, id@) is None,
{
    let mut n = infos.len();
    while n > 0
        invariant
            n <= infos@.len(),
            info_index(infos@, id@) == info_index_below(infos@, id@, n as int),
        decreases n,
    {
        if infos[n - 1].id == *id {
            return Some(n - 1);
        }
        n -= 1;
    }
    None
}

/// The index of the entity that stands for `id`.
pub fn find_entity(entities: &[SemanticEntity], id: &String) -> (r: Option<usize>)
    ensures
        r matches Some(k) ==> entity_index(entities@, id@) == Some(k as int) && k
            < entities@.len(),
        r is None ==> entity_index(entities@, id@) is None,
{
    let mut n = entities.len();
    while n > 0
        invariant
            n <= entities@.len(),
            entity_index(entities@, id@) == entity_index_below(entities@, id@, n as int),
        decreases n,
    {
        if entities[n - 1].id == *id {
            return Some(n - 1);
        }
        n -= 1;
    }
    None
}

/// The ids of the entities that refer to `id`, one per reference, in the
/// order of the references; references from ids that the graph has no
/// entity for are left out.
pub open spec fn dependents_below(g: EntityGraph, id: Seq<char>, n: int) -> Seq<Seq<char>>
    decreases n,
{
    if n <= 0 {
        seq![]
    } else {
        let e = g.edges@[n - 1];
        dependents_below(g, id, n - 1) + if e.to_entity@ == id && info_index(
            g.entities@,
            e.from_entity@,
        ) is Some {
            seq![e.from_entity@]
        } else {
            seq![]
        }
    }
}

impl EntityGraph {
    /// The ids of the direct dependents of `id`.
    pub open spec fn dependents(self, id: Seq<char>) -> Seq<Seq<char>> {
        dependents_below(self, id, self.edges@.len() as int)
    }

    /// The ids of the entities with a reference to `entity_id`, in the order of
    /// the references.
    pub fn dependent_ids(&self, entity_id: &String) -> (r: Vec<String>)
        ensures
            r@.map_values(|s: String| s@) == self.dependents(entity_id@),
    {
        let mut out: Vec<String> = Vec::new();
        let mut i: usize = 0;
        while i < self.edges.len()
            invariant
                i <= self.edges@.len(),
                out@.map_values(|s: String| s@) == dependents_below(*self, entity_id@, i as int),
            decreases self.edges@.len() - i,
        {
            let e = &self.edges[i];
            let ghost before = out@;
            if e.to_entity == *entity_id {
                if find_info(&self.entities, &e.from_entity).is_some() {
                    out.push(e.from_entity.clone());
                    assert(out@.map_values(|s: String| s@) == before.map_values(|s: String| s@)
                        + seq![e.from_entity@]);
                }
            }
            i += 1;
        }
        out
    }
}


/// `y` refers to `x`, so a change to `x` reaches `y`.
pub open spec fn depends_on(g: EntityGraph, x: Seq<char>, y: Seq<char>) -> bool {
    g.dependents(x).contains(y)
}

/// `p` is a chain of dependents: each element depends on the one before it.
pub open spec fn is_dependent_chain(g: EntityGraph, p: Seq<Seq<char>>) -> bool {
    forall|i: int| 0 <= i < p.len() - 1 ==> depends_on(g, #[trigger] p[i], p[i + 1])
}

/// `to` depends on `from` through one or more references.
pub open spec fn reaches(g: EntityGraph, from: Seq<char>, to: Seq<char>) -> bool {
    exists|p: Seq<Seq<char>>|
        #![trigger is_dependent_chain(g, p), p.last()]
        p.len() >= 2 && p[0] == from && p.last() == to && is_dependent_chain(g, p)
}

/// The ids that a change to `id` reaches, each once, `id` itself excepted.
pub open spec fn is_impact_list(g: EntityGraph, id: Seq<char>, r: Seq<Seq<char>>) -> bool {
    &&& r.no_duplicates()
    &&& forall|k: int| 0 <= k < r.len() ==> #[trigger] r[k] != id && reaches(g, id, r[k])
    &&& forall|y: Seq<char>| reaches(g, id, y) && y != id ==> r.contains(y)
}

pub proof fn lemma_dependents_below_from(g: EntityGraph, id: Seq<char>, n: int, k: int)
    requires
        0 <= k < dependents_below(g, id, n).len(),
        n <= g.edges@.len(),
    ensures
        exists|e: int| 0 <= e < n && g.edges@[e].from_entity@ == dependents_below(g, id, n)[k],
    decreases n,
{
    if n > 0 {
        let prev = dependents_below(g, id, n - 1);
        if k < prev.len() {
            lemma_dependents_below_from(g, id, n - 1, k);
        } else {
            assert(g.edges@[n - 1].from_entity@ == dependents_below(g, id, n)[k]);
        }
    }
}

/// A set that holds the start of a chain and every dependent of its members
/// holds the whole chain.
pub proof fn lemma_closed_holds_chain(
    g: EntityGraph,
    members: Seq<Seq<char>>,
    p: Seq<Seq<char>>,
    i: int,
)
    requires
        p.len() >= 1,
        members.contains(p[0]),
        is_dependent_chain(g, p),
        forall|x: Seq<char>, y: Seq<char>|
            members.contains(x) && #[trigger] depends_on(g, x, y) ==> members.contains(y),
        0 <= i < p.len(),
    ensures
        members.contains(p[i]),
    decreases i,
{
    if i > 0 {
        lemma_closed_holds_chain(g, members, p, i - 1);
        assert(depends_on(g, p[i - 1], p[i]));
    }
}

impl EntityGraph {
    /// The ids that a change to `entity_id` reaches, other than itself, each
    /// once. The walk goes breadth first, but the contract leaves the order
    /// of the list open.
    pub fn impact_ids(&self, entity_id: &String) -> (r: Vec<String>)
        ensures
            is_impact_list(*self, entity_id@, r@.map_values(|s: String| s@)),
    {
        let ghost g = *self;
        let ghost universe = seq![entity_id@] + self.edges@.map_values(
            |e: EntityRef| e.from_entity@,
        );
        let mut queue: Vec<String> = Vec::new();
        queue.push(entity_id.clone());
        let mut result: Vec<String> = Vec::new();
        let ghost mut paths: Seq<Seq<Seq<char>>> = seq![seq![entity_id@]];
        let mut head: usize = 0;
        proof {
            assert(queue@.map_values(|s: String| s@) =~= seq![entity_id@]);
            assert(result@.map_values(|s: String| s@) =~= seq![entity_id@].skip(1));
            assert(universe[0] == entity_id@);
        }
        while head < queue.len()
            invariant
                g == *self,
                universe == seq![entity_id@] + self.edges@.map_values(
                    |e: EntityRef| e.from_entity@,
                ),
                head <= queue@.len(),
                queue@.len() >= 1,
                queue@.map_values(|s: String| s@)[0] == entity_id@,
                queue@.map_values(|s: String| s@).no_duplicates(),
                result@.map_values(|s: String| s@) == queue@.map_values(|s: String| s@).skip(1),
                paths.len() == queue@.len(),
                forall|k: int|
                    0 <= k < paths.len() ==> {
                        &&& (#[trigger] paths[k]).len() >= 1
                        &&& paths[k][0] == entity_id@
                        &&& paths[k].last() == queue@[k]@
                        &&& is_dependent_chain(g, paths[k])
                        &&& (k > 0 ==> paths[k].len() >= 2)
                    },
                forall|k: int|
                    0 <= k < queue@.len() ==> universe.contains(#[trigger] queue@[k]@),
                forall|k: int, y: Seq<char>|
                    0 <= k < head && #[trigger] depends_on(g, queue@[k]@, y) ==> queue@.map_values(
                        |s: String| s@,
                    ).contains(y),
            decreases self.edges@.len() + 1 - head,
        {
            proof {
                let qv = queue@.map_values(|s: String| s@);
                assert forall|x: Seq<char>| qv.contains(x) implies universe.to_set().contains(x) by {
                    let k = choose|k: int| 0 <= k < qv.len() && qv[k] == x;
                    assert(universe.contains(queue@[k]@));
                }
                qv.unique_seq_to_set();
                universe.lemma_cardinality_of_set();
                vstd::set_lib::lemma_len_subset(qv.to_set(), universe.to_set());
            }
            let current = queue[head].clone();
            let deps = self.dependent_ids(&current);
            let ghost cur = head as int;
            let mut j: usize = 0;
            while j < deps.len()
                invariant
                    g == *self,
                    universe == seq![entity_id@] + self.edges@.map_values(
                        |e: EntityRef| e.from_entity@,
                    ),
                    head < queue@.len(),
                    cur == head,
                    current@ == queue@[cur]@,
                    deps@.map_values(|s: String| s@) == g.dependents(current@),
                    j <= deps@.len(),
                    queue@.len() >= 1,
                    queue@.map_values(|s: String| s@)[0] == entity_id@,
                    queue@.map_values(|s: String| s@).no_duplicates(),
                    result@.map_values(|s: String| s@) == queue@.map_values(|s: String| s@).skip(
                        1,
                    ),
                    paths.len() == queue@.len(),
                    forall|k: int|
                        0 <= k < paths.len() ==> {
                            &&& (#[trigger] paths[k]).len() >= 1
                            &&& paths[k][0] == entity_id@
                            &&& paths[k].last() == queue@[k]@
                            &&& is_dependent_chain(g, paths[k])
                            &&& (k > 0 ==> paths[k].len() >= 2)
                        },
                    forall|k: int|
                        0 <= k < queue@.len() ==> universe.contains(#[trigger] queue@[k]@),
                    forall|k: int, y: Seq<char>|
                        0 <= k < head && #[trigger] depends_on(g, queue@[k]@, y)
                            ==> queue@.map_values(|s: String| s@).contains(y),
                    forall|t: int|
                        0 <= t < j ==> queue@.map_values(|s: String| s@).contains(
                            #[trigger] deps@[t]@,
                        ),
                decreases deps@.len() - j,
            {
                let ghost qv0 = queue@.map_values(|s: String| s@);
                let ghost dv = deps@.map_values(|s: String| s@);
                assert(dv[j as int] == deps@[j as int]@);
                let mut seen = false;
                let mut q: usize = 0;
                while q < queue.len()
                    invariant
                        j < deps@.len(),
                        q <= queue@.len(),
                        seen == (exists|t: int| 0 <= t < q && queue@[t]@ == deps@[j as int]@),
                    decreases queue@.len() - q,
                {
                    if queue[q] == deps[j] {
                        seen = true;
                    }
                    q += 1;
                }
                if !seen {
                    let d = deps[j].clone();
                    proof {
                        let p = paths[cur];
                        let np = p.push(d@);
                        assert(depends_on(g, current@, d@)) by {
                            assert(g.dependents(current@)[j as int] == d@);
                        }
                        assert(is_dependent_chain(g, np)) by {
                            assert forall|i: int| 0 <= i < np.len() - 1 implies depends_on(
                                g,
                                #[trigger] np[i],
                                np[i + 1],
                            ) by {
                                if i < p.len() - 1 {
                                    assert(np[i] == p[i] && np[i + 1] == p[i + 1]);
                                } else {
                                    assert(np[i] == current@);
                                }
                            }
                        }
                        paths = paths.push(np);
                        lemma_dependents_below_from(g, current@, g.edges@.len() as int, j as int);
                        let e = choose|e: int|
                            0 <= e < g.edges@.len() && g.edges@[e].from_entity@ == g.dependents(
                                current@,
                            )[j as int];
                        assert(universe[e + 1] == d@);
                        assert forall|t: int| 0 <= t < qv0.len() implies qv0[t] != d@ by {
                            assert(qv0[t] == queue@[t]@);
                        }
                    }
                    let ghost rv0 = result@.map_values(|s: String| s@);
                    queue.push(d.clone());
                    result.push(d);
                    proof {
                        let qv = queue@.map_values(|s: String| s@);
                        assert(qv =~= qv0.push(deps@[j as int]@));
                        assert(result@.map_values(|s: String| s@) =~= rv0.push(deps@[j as int]@));
                        assert(qv.skip(1) =~= qv0.skip(1).push(deps@[j as int]@));
                        assert forall|t: int| 0 <= t <= j implies qv.contains(
                            #[trigger] deps@[t]@,
                        ) by {
                            if t < j {
                                assert(qv0.contains(deps@[t]@));
                                let w = choose|w: int| 0 <= w < qv0.len() && qv0[w] == deps@[t]@;
                                assert(qv[w] == qv0[w]);
                            } else {
                                assert(qv[qv.len() - 1] == deps@[t]@);
                            }
                        }
                        assert forall|k: int, y: Seq<char>|
                            0 <= k < head && #[trigger] depends_on(g, queue@[k]@, y) implies qv.contains(
                            y,
                        ) by {
                            assert(qv0.contains(y));
                            let w = choose|w: int| 0 <= w < qv0.len() && qv0[w] == y;
                            assert(qv[w] == qv0[w]);
                        }
                    }
                } else {
                    proof {
                        let t = choose|t: int| 0 <= t < queue@.len() && queue@[t]@ == deps@[j as int]@;
                        assert(qv0[t] == deps@[j as int]@);
                    }
                }
                j += 1;
            }
            proof {
                let qv = queue@.map_values(|s: String| s@);
                assert forall|k: int, y: Seq<char>|
                    0 <= k < head + 1 && #[trigger] depends_on(g, queue@[k]@, y) implies qv.contains(y) by {
                    if k == head {
                        let dv = deps@.map_values(|s: String| s@);
                        let t = choose|t: int| 0 <= t < dv.len() && dv[t] == y;
                        assert(qv.contains(deps@[t]@));
                    }
                }
            }
            head += 1;
        }
        proof {
            let qv = queue@.map_values(|s: String| s@);
            let rv = result@.map_values(|s: String| s@);
            assert forall|x: Seq<char>, y: Seq<char>|
                qv.contains(x) && #[trigger] depends_on(g, x, y) implies qv.contains(y) by {
                let k = choose|k: int| 0 <= k < qv.len() && qv[k] == x;
                assert(queue@[k]@ == x);
            }
            assert forall|y: Seq<char>| reaches(g, entity_id@, y) && y != entity_id@ implies rv.contains(y) by {
                let p = choose|p: Seq<Seq<char>>|
                    #![trigger is_dependent_chain(g, p), p.last()]
                    p.len() >= 2 && p[0] == entity_id@ && p.last() == y && is_dependent_chain(g, p);
                assert(qv[0] == p[0]);
                lemma_closed_holds_chain(g, qv, p, p.len() - 1);
                let w = choose|w: int| 0 <= w < qv.len() && qv[w] == y;
                assert(w != 0);
                assert(rv[w - 1] == qv[w]);
            }
            assert forall|k: int| 0 <= k < rv.len() implies #[trigger] rv[k] != entity_id@ && reaches(
                g,
                entity_id@,
                rv[k],
            ) by {
                assert(rv[k] == qv[k + 1]);
                assert(qv[k + 1] != qv[0]);
                let p = paths[k + 1];
                assert(p.last() == queue@[k + 1]@);
            }
        }
        result
    }
}

} // verus!
