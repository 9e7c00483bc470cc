//! Arity checks over the dependency graph: calls that pass fewer arguments
//! than a callee requires or more than it accepts.

use vstd::prelude::*;
use crate::calls::{CallArgCount, call_sites_spec, count_call_arg_sites_ts, extract_param_info_ts, param_info_spec};
use crate::model::{
    EntityGraph, EntityRef, RefType, SemanticEntity, entity_index, find_entity, find_info,
    info_index,
};
use crate::params::{ParamInfo, Tally, reports_tally};
use crate::paths::{is_test_or_fixture_path, is_test_path};
use crate::text::same_str;
use crate::verify::{callable_type, is_callable_type, lemma_filter_single};

verus! {

/// A call whose argument count lies outside what its callee accepts.
pub struct ArityMismatch {
    pub caller_entity: String,
    pub callee_entity: String,
    pub expected_min: usize,
    pub expected_max: usize,
    pub actual_args: usize,
    pub file_path: String,
    pub line: usize,
    pub is_variadic: bool,
}

pub struct ArityMismatchView {
    pub caller_entity: Seq<char>,
    pub callee_entity: Seq<char>,
    pub expected_min: nat,
    pub expected_max: nat,
    pub actual_args: nat,
    pub file_path: Seq<char>,
    pub line: nat,
    pub is_variadic: bool,
}

impl View for ArityMismatch {
    type V = ArityMismatchView;

    open spec fn view(&self) -> ArityMismatchView {
        ArityMismatchView {
            caller_entity: self.caller_entity@,
            callee_entity: self.callee_entity@,
            expected_min: self.expected_min as nat,
            expected_max: self.expected_max as nat,
            actual_args: self.actual_args as nat,
            file_path: self.file_path@,
            line: self.line as nat,
            is_variadic: self.is_variadic,
        }
    }
}

pub open spec fn mismatch_views(v: Seq<ArityMismatch>) -> Seq<ArityMismatchView> {
    v.map_values(|m: ArityMismatch| m@)
}

/// Names too common to match calls to one function by name alone.
pub open spec fn is_ambiguous_name(n: Seq<char>) -> bool {
    ||| n == "new"@
    ||| n == "constructor"@
    ||| n == "toString"@
    ||| n == "valueOf"@
    ||| n == "init"@
    ||| n == "__init__"@
    ||| n == "apply"@
    ||| n == "call"@
    ||| n == "bind"@
    ||| n == "get"@
    ||| n == "set"@
    ||| n == "run"@
    ||| n == "execute"@
    ||| n == "create"@
}

fn ambiguous_name(n: &str) -> (r: bool)
    ensures
        r == is_ambiguous_name(n@),
{
    same_str(n, "new") || same_str(n, "constructor") || same_str(n, "toString") || same_str(
        n,
        "valueOf",
    ) || same_str(n, "init") || same_str(n, "__init__") || same_str(n, "apply") || same_str(
        n,
        "call",
    ) || same_str(n, "bind") || same_str(n, "get") || same_str(n, "set") || same_str(n, "run")
        || same_str(n, "execute") || same_str(n, "create")
}

/// How many of the first `n` entities are callables named `name`.
pub open spec fn callables_named_below(all: Seq<SemanticEntity>, name: Seq<char>, n: int) -> nat
    decreases n,
{
    if n <= 0 {
        0
    } else {
        callables_named_below(all, name, n - 1) + if is_callable_type(all[n - 1].entity_type@)
            && all[n - 1].name@ == name {
            1nat
        } else {
            0nat
        }
    }
}

fn count_callables_named(all: &[SemanticEntity], name: &String) -> (r: usize)
    ensures
        r == callables_named_below(all@, name@, all@.len() as int),
{
    let mut n: usize = 0;
    let mut k: usize = 0;
    while k < all.len()
        invariant
            k <= all@.len(),
            n == callables_named_below(all@, name@, k as int),
            n <= k,
        decreases all@.len() - k,
    {
        if callable_type(&all[k].entity_type) && all[k].name == *name {
            n += 1;
        }
        k += 1;
    }
    n
}

/// The parameters reported for a callee: its tally where the most
/// arguments fit in `usize`.
pub open spec fn reported_params(content: Seq<char>, path: Seq<char>) -> Option<Tally> {
    match param_info_spec(content, path) {
        Some(x) => if x.1 <= usize::MAX {
            Some(x)
        } else {
            None
        },
        None => None,
    }
}

/// `a + b`, or `usize::MAX` where that does not fit.
pub open spec fn line_sum(a: usize, b: usize) -> nat {
    if a + b <= usize::MAX {
        (a + b) as nat
    } else {
        usize::MAX as nat
    }
}

/// The mismatches among the call sites `sites[i..]` of `callee` in `caller`.
pub open spec fn site_mismatches(
    sites: Seq<CallArgCount>,
    i: int,
    info: Tally,
    caller: SemanticEntity,
    callee: SemanticEntity,
) -> Seq<ArityMismatchView>
    decreases sites.len() - i,
{
    if i < 0 || i >= sites.len() {
        seq![]
    } else {
        let s = sites[i];
        (if s.actual_args < info.0 || s.actual_args > info.1 {
            seq![
                ArityMismatchView {
                    caller_entity: caller.name@,
                    callee_entity: callee.name@,
                    expected_min: info.0,
                    expected_max: info.1,
                    actual_args: s.actual_args as nat,
                    file_path: caller.file_path@,
                    line: line_sum(caller.start_line, s.line_offset),
                    is_variadic: false,
                },
            ]
        } else {
            seq![]
        }) + site_mismatches(sites, i + 1, info, caller, callee)
    }
}

/// The mismatches of the calls of `callee` in `caller`, against the
/// callee's parameters; none where those are unknown or variadic.
pub open spec fn call_mismatches(caller: SemanticEntity, callee: SemanticEntity) -> Seq<
    ArityMismatchView,
> {
    match reported_params(callee.content@, callee.file_path@) {
        None => seq![],
        Some(info) => if info.2 {
            seq![]
        } else {
            site_mismatches(
                call_sites_spec(caller.content@, callee.name@, caller.file_path@),
                0,
                info,
                caller,
                callee,
            )
        },
    }
}

/// The mismatches that one edge shows: a call into a callable whose name is
/// neither ambiguous nor shared by another callable, where neither the
/// callee's nor the caller's file is a test or fixture.
pub open spec fn edge_mismatches(g: EntityGraph, all: Seq<SemanticEntity>, e: EntityRef) -> Seq<
    ArityMismatchView,
> {
    if e.ref_type != RefType::Calls {
        seq![]
    } else {
        match info_index(g.entities@, e.to_entity@) {
            None => seq![],
            Some(ci) => {
                let info = g.entities@[ci];
                if !is_callable_type(info.entity_type@) || is_ambiguous_name(info.name@)
                    || callables_named_below(all, info.name@, all.len() as int) > 1 || is_test_path(
                    info.file_path@,
                ) {
                    seq![]
                } else {
                    match entity_index(all, e.to_entity@) {
                        None => seq![],
                        Some(ck) => match entity_index(all, e.from_entity@) {
                            None => seq![],
                            Some(rk) => if is_test_path(all[rk].file_path@) {
                                seq![]
                            } else {
                                call_mismatches(all[rk], all[ck])
                            },
                        },
                    }
                }
            },
        }
    }
}

/// The mismatches of the first `n` edges, edge by edge.
pub open spec fn mismatches_below(g: EntityGraph, all: Seq<SemanticEntity>, n: int) -> Seq<
    ArityMismatchView,
>
    decreases n,
{
    if n <= 0 {
        seq![]
    } else {
        mismatches_below(g, all, n - 1) + edge_mismatches(g, all, g.edges@[n - 1])
    }
}

fn append_mismatches(out: &mut Vec<ArityMismatch>, more: Vec<ArityMismatch>)
    ensures
        mismatch_views(final(out)@) == mismatch_views(old(out)@) + mismatch_views(more@),
{
    let mut more = more;
    let ghost m = mismatch_views(more@);
    let ghost o = mismatch_views(out@);
    out.append(&mut more);
    assert(mismatch_views(out@) =~= o + m);
}

/// The mismatches of the calls of `callee` in `caller`.
fn call_mismatches_exec(caller: &SemanticEntity, callee: &SemanticEntity, info: &ParamInfo) -> (r: Vec<
    ArityMismatch,
>)
    ensures
        mismatch_views(r@) == site_mismatches(
            call_sites_spec(caller.content@, callee.name@, caller.file_path@),
            0,
            (info.min_params as nat, info.max_params as nat, info.is_variadic),
            *caller,
            *callee,
        ),
{
    let ghost tally = (info.min_params as nat, info.max_params as nat, info.is_variadic);
    let sites = count_call_arg_sites_ts(
        caller.content.as_str(),
        callee.name.as_str(),
        caller.file_path.as_str(),
    );
    let mut out: Vec<ArityMismatch> = Vec::new();
    let mut i: usize = 0;
    while i < sites.len()
        invariant
            tally == (info.min_params as nat, info.max_params as nat, info.is_variadic),
            i <= sites@.len(),
            site_mismatches(sites@, 0, tally, *caller, *callee) == mismatch_views(out@)
                + site_mismatches(sites@, i as int, tally, *caller, *callee),
        decreases sites@.len() - i,
    {
        let s = sites[i];
        if s.actual_args < info.min_params || s.actual_args > info.max_params {
            let ghost before = mismatch_views(out@);
            out.push(
                ArityMismatch {
                    caller_entity: caller.name.clone(),
                    callee_entity: callee.name.clone(),
                    expected_min: info.min_params,
                    expected_max: info.max_params,
                    actual_args: s.actual_args,
                    file_path: caller.file_path.clone(),
                    line: caller.start_line.saturating_add(s.line_offset),
                    is_variadic: false,
                },
            );
            assert(mismatch_views(out@) =~= before + seq![out@[out@.len() - 1]@]);
        }
        i += 1;
    }
    assert(mismatch_views(out@) + Seq::<ArityMismatchView>::empty() == mismatch_views(out@));
    out
}


/// What is known of each entity's parameters so far: `None` where not yet
/// read, else what reading them gave.
pub open spec fn cache_sound(cache: Seq<Option<Option<ParamInfo>>>, all: Seq<SemanticEntity>) -> bool {
    &&& cache.len() == all.len()
    &&& forall|k: int|
        0 <= k < cache.len() ==> (#[trigger] cache[k] matches Some(x) ==> reports_tally(
            x,
            param_info_spec(all[k].content@, all[k].file_path@),
        ))
}

/// The parameters of entity `k`, read once and then kept.
fn cached_params(
    cache: &mut Vec<Option<Option<ParamInfo>>>,
    all: &[SemanticEntity],
    k: usize,
) -> (r: Option<ParamInfo>)
    requires
        k < all@.len(),
        cache_sound(old(cache)@, all@),
    ensures
        cache_sound(final(cache)@, all@),
        reports_tally(r, param_info_spec(all@[k as int].content@, all@[k as int].file_path@)),
{
    match cache[k] {
        Some(x) => x,
        None => {
            let x = extract_param_info_ts(all[k].content.as_str(), all[k].file_path.as_str());
            cache.set(k, Some(x));
            x
        },
    }
}

fn edge_mismatches_exec(
    graph: &EntityGraph,
    all: &[SemanticEntity],
    e: &EntityRef,
    cache: &mut Vec<Option<Option<ParamInfo>>>,
) -> (r: Vec<ArityMismatch>)
    requires
        cache_sound(old(cache)@, all@),
    ensures
        cache_sound(final(cache)@, all@),
        mismatch_views(r@) == edge_mismatches(*graph, all@, *e),
{
    let none: Vec<ArityMismatch> = Vec::new();
    assert(mismatch_views(none@) =~= Seq::<ArityMismatchView>::empty());
    if e.ref_type != RefType::Calls {
        return none;
    }
    let ci = match find_info(&graph.entities, &e.to_entity) {
        Some(ci) => ci,
        None => return none,
    };
    let info = &graph.entities[ci];
    if !callable_type(&info.entity_type) || ambiguous_name(info.name.as_str()) || count_callables_named(
        all,
        &info.name,
    ) > 1 || is_test_or_fixture_path(info.file_path.as_str()) {
        return none;
    }
    let ck = match find_entity(all, &e.to_entity) {
        Some(ck) => ck,
        None => return none,
    };
    let rk = match find_entity(all, &e.from_entity) {
        Some(rk) => rk,
        None => return none,
    };
    if is_test_or_fixture_path(all[rk].file_path.as_str()) {
        return none;
    }
    let pi = match cached_params(cache, all, ck) {
        Some(pi) => pi,
        None => return none,
    };
    if pi.is_variadic {
        return none;
    }
    call_mismatches_exec(&all[rk], &all[ck], &pi)
}

/// Every call along a `Calls` edge of `graph` whose argument count lies
/// outside what the callee's parameters accept, edge by edge and call by
/// call. Callees that are not callables, that go by an ambiguous name or a
/// name several callables share, that take any number of arguments, or
/// whose parameters cannot be read are skipped, as are callees and callers
/// in test or fixture files.
pub fn find_arity_mismatches(graph: &EntityGraph, all_entities: &[SemanticEntity]) -> (r: Vec<
    ArityMismatch,
>)
    ensures
        mismatch_views(r@) == mismatches_below(*graph, all_entities@, graph.edges@.len() as int),
{
    let mut cache: Vec<Option<Option<ParamInfo>>> = Vec::new();
    let mut k: usize = 0;
    while k < all_entities.len()
        invariant
            k <= all_entities@.len(),
            cache@.len() == k,
            forall|j: int| 0 <= j < k ==> (#[trigger] cache@[j]) is None,
        decreases all_entities@.len() - k,
    {
        cache.push(None);
        k += 1;
    }
    let mut out: Vec<ArityMismatch> = Vec::new();
    let mut i: usize = 0;
    while i < graph.edges.len()
        invariant
            cache_sound(cache@, all_entities@),
            i <= graph.edges@.len(),
            mismatch_views(out@) == mismatches_below(*graph, all_entities@, i as int),
        decreases graph.edges@.len() - i,
    {
        let found = edge_mismatches_exec(graph, all_entities, &graph.edges[i], &mut cache);
        append_mismatches(&mut out, found);
        i += 1;
    }
    out
}


// ---------------------------------------------------------------------------
// Callers broken by a change of signature

/// The last callable among the first `n` entities with id `id`.
pub open spec fn callable_index_below(all: Seq<SemanticEntity>, id: Seq<char>, n: int) -> Option<int>
    decreases n,
{
    if n <= 0 {
        None
    } else if is_callable_type(all[n - 1].entity_type@) && all[n - 1].id@ == id {
        Some(n - 1)
    } else {
        callable_index_below(all, id, n - 1)
    }
}

/// Entity `e` of the new version is a callable whose parameter bounds
/// differ from those of the old callable with its id, both being known.
pub open spec fn signature_changed(old: Seq<SemanticEntity>, e: SemanticEntity) -> bool {
    is_callable_type(e.entity_type@) && match reported_params(e.content@, e.file_path@) {
        None => false,
        Some(ni) => match callable_index_below(old, e.id@, old.len() as int) {
            None => false,
            Some(ok) => match reported_params(old[ok].content@, old[ok].file_path@) {
                None => false,
                Some(oi) => oi.0 != ni.0 || oi.1 != ni.1,
            },
        },
    }
}

/// The ids of the first `n` new entities whose signatures changed.
pub open spec fn changed_ids_below(old: Seq<SemanticEntity>, new: Seq<SemanticEntity>, n: int) -> Seq<
    Seq<char>,
>
    decreases n,
{
    if n <= 0 {
        seq![]
    } else {
        changed_ids_below(old, new, n - 1) + if signature_changed(old, new[n - 1]) {
            seq![new[n - 1].id@]
        } else {
            seq![]
        }
    }
}

/// The mismatches that one edge of the new graph shows: a call into an
/// entity whose signature changed.
pub open spec fn broken_edge(
    old: Seq<SemanticEntity>,
    g: EntityGraph,
    new: Seq<SemanticEntity>,
    e: EntityRef,
) -> Seq<ArityMismatchView> {
    if e.ref_type != RefType::Calls || !changed_ids_below(old, new, new.len() as int).contains(
        e.to_entity@,
    ) {
        seq![]
    } else {
        match entity_index(new, e.to_entity@) {
            None => seq![],
            Some(ck) => match entity_index(new, e.from_entity@) {
                None => seq![],
                Some(rk) => call_mismatches(new[rk], new[ck]),
            },
        }
    }
}

/// The mismatches of the first `n` edges of the new graph.
pub open spec fn broken_below(
    old: Seq<SemanticEntity>,
    g: EntityGraph,
    new: Seq<SemanticEntity>,
    n: int,
) -> Seq<ArityMismatchView>
    decreases n,
{
    if n <= 0 {
        seq![]
    } else {
        broken_below(old, g, new, n - 1) + broken_edge(old, g, new, g.edges@[n - 1])
    }
}

fn find_callable(all: &[SemanticEntity], id: &String) -> (r: Option<usize>)
    ensures
        r matches Some(k) ==> callable_index_below(all@, id@, all@.len() as int) == Some(k as int)
            && k < all@.len(),
        r is None ==> callable_index_below(all@, id@, all@.len() as int) is None,
{
    let mut n = all.len();
    while n > 0
        invariant
            n <= all@.len(),
            callable_index_below(all@, id@, all@.len() as int) == callable_index_below(
                all@,
                id@,
                n as int,
            ),
        decreases n,
    {
        if callable_type(&all[n - 1].entity_type) && all[n - 1].id == *id {
            return Some(n - 1);
        }
        n -= 1;
    }
    None
}

fn reported_exec(content: &str, path: &str) -> (r: Option<ParamInfo>)
    ensures
        match reported_params(content@, path@) {
            None => r is None,
            Some(x) => r matches Some(i) && i.min_params == x.0 && i.max_params == x.1
                && i.is_variadic == x.2,
        },
{
    extract_param_info_ts(content, path)
}

fn changed_exec(old: &[SemanticEntity], e: &SemanticEntity) -> (r: bool)
    ensures
        r == signature_changed(old@, *e),
{
    if !callable_type(&e.entity_type) {
        return false;
    }
    let ni = match reported_exec(e.content.as_str(), e.file_path.as_str()) {
        Some(ni) => ni,
        None => return false,
    };
    let ok = match find_callable(old, &e.id) {
        Some(ok) => ok,
        None => return false,
    };
    match reported_exec(old[ok].content.as_str(), old[ok].file_path.as_str()) {
        None => false,
        Some(oi) => oi.min_params != ni.min_params || oi.max_params != ni.max_params,
    }
}

fn contains_id(ids: &Vec<String>, id: &String) -> (r: bool)
    ensures
        r == ids@.map_values(|s: String| s@).contains(id@),
{
    let ghost v = ids@.map_values(|s: String| s@);
    let mut k: usize = 0;
    while k < ids.len()
        invariant
            v == ids@.map_values(|s: String| s@),
            k <= ids@.len(),
            forall|j: int| 0 <= j < k ==> v[j] != id@,
        decreases ids@.len() - k,
    {
        if ids[k] == *id {
            assert(v[k as int] == id@);
            return true;
        }
        k += 1;
    }
    false
}

/// The calls in the new version that pass a number of arguments outside
/// what their callee now accepts, where the callee is a callable whose
/// parameter bounds differ from those of the old callable with its id. Edge
/// by edge along `Calls` edges of `new_graph`, call by call; callees that
/// take any number of arguments are skipped.
pub fn find_broken_callers(
    old_entities: &[SemanticEntity],
    new_graph: &EntityGraph,
    new_entities: &[SemanticEntity],
) -> (r: Vec<ArityMismatch>)
    ensures
        mismatch_views(r@) == broken_below(
            old_entities@,
            *new_graph,
            new_entities@,
            new_graph.edges@.len() as int,
        ),
{
    let ghost changed_spec = changed_ids_below(old_entities@, new_entities@, new_entities@.len() as int);
    let mut changed: Vec<String> = Vec::new();
    let mut k: usize = 0;
    while k < new_entities.len()
        invariant
            k <= new_entities@.len(),
            changed@.map_values(|s: String| s@) == changed_ids_below(
                old_entities@,
                new_entities@,
                k as int,
            ),
        decreases new_entities@.len() - k,
    {
        let ghost before = changed@.map_values(|s: String| s@);
        if changed_exec(old_entities, &new_entities[k]) {
            changed.push(new_entities[k].id.clone());
        }
        assert(changed@.map_values(|s: String| s@) =~= changed_ids_below(
            old_entities@,
            new_entities@,
            k + 1,
        ));
        k += 1;
    }
    let mut out: Vec<ArityMismatch> = Vec::new();
    let mut i: usize = 0;
    while i < new_graph.edges.len()
        invariant
            changed@.map_values(|s: String| s@) == changed_spec,
            changed_spec == changed_ids_below(
                old_entities@,
                new_entities@,
                new_entities@.len() as int,
            ),
            i <= new_graph.edges@.len(),
            mismatch_views(out@) == broken_below(old_entities@, *new_graph, new_entities@, i as int),
        decreases new_graph.edges@.len() - i,
    {
        let e = &new_graph.edges[i];
        let none: Vec<ArityMismatch> = Vec::new();
        assert(mismatch_views(none@) =~= Seq::<ArityMismatchView>::empty());
        let found = if e.ref_type != RefType::Calls || !contains_id(&changed, &e.to_entity) {
            none
        } else {
            match find_entity(new_entities, &e.to_entity) {
                None => none,
                Some(ck) => match find_entity(new_entities, &e.from_entity) {
                    None => none,
                    Some(rk) => match reported_exec(
                        new_entities[ck].content.as_str(),
                        new_entities[ck].file_path.as_str(),
                    ) {
                        None => none,
                        Some(pi) => if pi.is_variadic {
                            none
                        } else {
                            call_mismatches_exec(&new_entities[rk], &new_entities[ck], &pi)
                        },
                    },
                },
            }
        };
        append_mismatches(&mut out, found);
        i += 1;
    }
    out
}


proof fn lemma_site_mismatches_out_of_range(
    sites: Seq<CallArgCount>,
    i: int,
    info: Tally,
    caller: SemanticEntity,
    callee: SemanticEntity,
)
    ensures
        forall|k: int|
            0 <= k < site_mismatches(sites, i, info, caller, callee).len() ==> ({
                let m = #[trigger] site_mismatches(sites, i, info, caller, callee)[k];
                (m.actual_args < m.expected_min || m.actual_args > m.expected_max) && !m.is_variadic
                    && m.callee_entity == callee.name@ && m.caller_entity == caller.name@
            }),
    decreases sites.len() - i,
{
    if 0 <= i < sites.len() {
        lemma_site_mismatches_out_of_range(sites, i + 1, info, caller, callee);
        let rest = site_mismatches(sites, i + 1, info, caller, callee);
        let all = site_mismatches(sites, i, info, caller, callee);
        assert forall|k: int| 0 <= k < all.len() implies ({
            let m = #[trigger] all[k];
            (m.actual_args < m.expected_min || m.actual_args > m.expected_max) && !m.is_variadic
                && m.callee_entity == callee.name@ && m.caller_entity == caller.name@
        }) by {
            let s = sites[i];
            if s.actual_args < info.0 || s.actual_args > info.1 {
                if k > 0 {
                    assert(all[k] == rest[k - 1]);
                }
            } else {
                assert(all[k] == rest[k]);
            }
        }
    }
}

proof fn lemma_edge_mismatches_out_of_range(g: EntityGraph, all: Seq<SemanticEntity>, e: EntityRef)
    ensures
        forall|k: int|
            0 <= k < edge_mismatches(g, all, e).len() ==> ({
                let m = #[trigger] edge_mismatches(g, all, e)[k];
                (m.actual_args < m.expected_min || m.actual_args > m.expected_max) && !m.is_variadic
            }),
{
    if e.ref_type == RefType::Calls {
        if let Some(ci) = info_index(g.entities@, e.to_entity@) {
            if let Some(ck) = entity_index(all, e.to_entity@) {
                if let Some(rk) = entity_index(all, e.from_entity@) {
                    if let Some(info) = reported_params(all[ck].content@, all[ck].file_path@) {
                        lemma_site_mismatches_out_of_range(
                            call_sites_spec(all[rk].content@, all[ck].name@, all[rk].file_path@),
                            0,
                            info,
                            all[rk],
                            all[ck],
                        );
                    }
                }
            }
        }
    }
}

/// Every reported mismatch is a call whose argument count lies outside
/// the bounds it reports, to a callee that does not take any number of
/// arguments.
pub proof fn mismatches_lie_outside_bounds(g: EntityGraph, all: Seq<SemanticEntity>, n: int)
    ensures
        forall|k: int|
            0 <= k < mismatches_below(g, all, n).len() ==> ({
                let m = #[trigger] mismatches_below(g, all, n)[k];
                (m.actual_args < m.expected_min || m.actual_args > m.expected_max) && !m.is_variadic
            }),
    decreases n,
{
    if n > 0 {
        mismatches_lie_outside_bounds(g, all, n - 1);
        let prev = mismatches_below(g, all, n - 1);
        let here = edge_mismatches(g, all, g.edges@[n - 1]);
        lemma_edge_mismatches_out_of_range(g, all, g.edges@[n - 1]);
        let whole = mismatches_below(g, all, n);
        assert(whole == prev + here);
        assert forall|k: int| 0 <= k < whole.len() implies ({
            let m = #[trigger] whole[k];
            (m.actual_args < m.expected_min || m.actual_args > m.expected_max) && !m.is_variadic
        }) by {
            if k < prev.len() {
                assert(whole[k] == prev[k]);
            } else {
                assert(whole[k] == here[k - prev.len()]);
            }
        }
    }
}

/// The same holds of the callers that a change of signature breaks.
pub proof fn broken_callers_lie_outside_bounds(
    old: Seq<SemanticEntity>,
    g: EntityGraph,
    new: Seq<SemanticEntity>,
    n: int,
)
    ensures
        forall|k: int|
            0 <= k < broken_below(old, g, new, n).len() ==> ({
                let m = #[trigger] broken_below(old, g, new, n)[k];
                (m.actual_args < m.expected_min || m.actual_args > m.expected_max) && !m.is_variadic
            }),
    decreases n,
{
    if n > 0 {
        broken_callers_lie_outside_bounds(old, g, new, n - 1);
        let prev = broken_below(old, g, new, n - 1);
        let e = g.edges@[n - 1];
        let here = broken_edge(old, g, new, e);
        if let Some(ck) = entity_index(new, e.to_entity@) {
            if let Some(rk) = entity_index(new, e.from_entity@) {
                if let Some(info) = reported_params(new[ck].content@, new[ck].file_path@) {
                    lemma_site_mismatches_out_of_range(
                        call_sites_spec(new[rk].content@, new[ck].name@, new[rk].file_path@),
                        0,
                        info,
                        new[rk],
                        new[ck],
                    );
                }
            }
        }
        let whole = broken_below(old, g, new, n);
        assert(whole == prev + here);
        assert forall|k: int| 0 <= k < whole.len() implies ({
            let m = #[trigger] whole[k];
            (m.actual_args < m.expected_min || m.actual_args > m.expected_max) && !m.is_variadic
        }) by {
            if k < prev.len() {
                assert(whole[k] == prev[k]);
            } else {
                assert(whole[k] == here[k - prev.len()]);
            }
        }
    }
}

/// A call site's argument count lies outside the bounds `info`.
pub open spec fn out_of_bounds(info: Tally) -> spec_fn(CallArgCount) -> bool {
    |s: CallArgCount| s.actual_args < info.0 || s.actual_args > info.1
}

proof fn lemma_site_mismatches_are_filtered(
    sites: Seq<CallArgCount>,
    i: int,
    info: Tally,
    caller: SemanticEntity,
    callee: SemanticEntity,
)
    requires
        0 <= i <= sites.len(),
    ensures
        site_mismatches(sites, i, info, caller, callee).map_values(
            |m: ArityMismatchView| (m.actual_args, m.line),
        ) == sites.subrange(i, sites.len() as int).filter(out_of_bounds(info)).map_values(
            |s: CallArgCount| (s.actual_args as nat, line_sum(caller.start_line, s.line_offset)),
        ),
    decreases sites.len() - i,
{
    let pred = out_of_bounds(info);
    let rest = sites.subrange(i, sites.len() as int);
    let f = |m: ArityMismatchView| (m.actual_args, m.line);
    let g = |s: CallArgCount| (s.actual_args as nat, line_sum(caller.start_line, s.line_offset));
    if i == sites.len() {
        assert(rest =~= Seq::<CallArgCount>::empty());
        assert(rest.filter(pred) =~= Seq::<CallArgCount>::empty());
        assert(site_mismatches(sites, i, info, caller, callee).map_values(f) =~= Seq::<(nat, nat)>::empty());
    } else {
        lemma_site_mismatches_are_filtered(sites, i + 1, info, caller, callee);
        let tail = sites.subrange(i + 1, sites.len() as int);
        assert(rest =~= seq![sites[i]] + tail);
        Seq::filter_distributes_over_add(seq![sites[i]], tail, pred);
        lemma_filter_single(sites[i], pred);
        let here = site_mismatches(sites, i, info, caller, callee);
        let later = site_mismatches(sites, i + 1, info, caller, callee);
        if sites[i].actual_args < info.0 || sites[i].actual_args > info.1 {
            assert(pred(sites[i]));
            assert(here.map_values(f) =~= seq![g(sites[i])] + later.map_values(f));
            assert(rest.filter(pred) =~= seq![sites[i]] + tail.filter(pred));
            assert(rest.filter(pred).map_values(g) =~= seq![g(sites[i])] + tail.filter(pred).map_values(g));
        } else {
            assert(!pred(sites[i]));
            assert(here.map_values(f) =~= later.map_values(f));
            assert(rest.filter(pred) =~= tail.filter(pred));
        }
    }
}

proof fn lemma_site_mismatch_fields(
    sites: Seq<CallArgCount>,
    i: int,
    info: Tally,
    caller: SemanticEntity,
    callee: SemanticEntity,
)
    ensures
        forall|m: int|
            0 <= m < site_mismatches(sites, i, info, caller, callee).len() ==> ({
                let x = #[trigger] site_mismatches(sites, i, info, caller, callee)[m];
                x.expected_min == info.0 && x.expected_max == info.1 && x.caller_entity
                    == caller.name@ && x.callee_entity == callee.name@ && x.file_path
                    == caller.file_path@ && !x.is_variadic
            }),
    decreases sites.len() - i,
{
    if 0 <= i < sites.len() {
        lemma_site_mismatch_fields(sites, i + 1, info, caller, callee);
        let rest = site_mismatches(sites, i + 1, info, caller, callee);
        let all = site_mismatches(sites, i, info, caller, callee);
        assert forall|m: int| 0 <= m < all.len() implies ({
            let x = #[trigger] all[m];
            x.expected_min == info.0 && x.expected_max == info.1 && x.caller_entity
                == caller.name@ && x.callee_entity == callee.name@ && x.file_path
                == caller.file_path@ && !x.is_variadic
        }) by {
            let s = sites[i];
            if s.actual_args < info.0 || s.actual_args > info.1 {
                if m > 0 {
                    assert(all[m] == rest[m - 1]);
                }
            } else {
                assert(all[m] == rest[m]);
            }
        }
    }
}

/// Every call of a callee with known, fixed parameter bounds in its
/// caller's text is reported exactly when it passes fewer arguments than
/// the minimum or more than the maximum: the reports give, in the order of
/// the calls, the argument count and line of each such call and of no
/// other.
pub proof fn every_out_of_bounds_call_is_reported(caller: SemanticEntity, callee: SemanticEntity)
    ensures
        reported_params(callee.content@, callee.file_path@) matches Some(info) ==> ({
            let sites = call_sites_spec(caller.content@, callee.name@, caller.file_path@);
            let found = call_mismatches(caller, callee);
            &&& info.2 ==> found.len() == 0
            &&& !info.2 ==> found.map_values(|m: ArityMismatchView| (m.actual_args, m.line))
                == sites.filter(out_of_bounds(info)).map_values(
                |s: CallArgCount| (s.actual_args as nat, line_sum(caller.start_line, s.line_offset)),
            )
            &&& forall|m: int|
                0 <= m < found.len() ==> (#[trigger] found[m]).expected_min == info.0
                    && found[m].expected_max == info.1 && found[m].caller_entity == caller.name@
                    && found[m].callee_entity == callee.name@ && found[m].file_path
                    == caller.file_path@ && !found[m].is_variadic
        }),
        reported_params(callee.content@, callee.file_path@) is None ==> call_mismatches(caller, callee).len() == 0,
{
    if let Some(info) = reported_params(callee.content@, callee.file_path@) {
        if !info.2 {
            let sites = call_sites_spec(caller.content@, callee.name@, caller.file_path@);
            lemma_site_mismatch_fields(sites, 0, info, caller, callee);
            lemma_site_mismatches_are_filtered(sites, 0, info, caller, callee);
            assert(sites.subrange(0, sites.len() as int) =~= sites);
        }
    }
}

proof fn lemma_changed_ids_contain(old: Seq<SemanticEntity>, new: Seq<SemanticEntity>, n: int, k: int)
    requires
        0 <= k < n,
        signature_changed(old, new[k]),
    ensures
        changed_ids_below(old, new, n).contains(new[k].id@),
    decreases n,
{
    if k < n - 1 {
        lemma_changed_ids_contain(old, new, n - 1, k);
        let prev = changed_ids_below(old, new, n - 1);
        let j = choose|j: int| 0 <= j < prev.len() && prev[j] == new[k].id@;
        assert(changed_ids_below(old, new, n)[j] == new[k].id@);
    } else {
        let cur = changed_ids_below(old, new, n);
        assert(cur[cur.len() - 1] == new[k].id@);
    }
}

/// A callable counts as changed exactly when its known parameter bounds in
/// the new version differ from those of the old callable with its id, the
/// minimum or the maximum, in either direction; a changed callable's id is
/// among those whose callers are checked.
pub proof fn changed_bounds_mark_the_callable(old: Seq<SemanticEntity>, new: Seq<SemanticEntity>, k: int)
    requires
        0 <= k < new.len(),
        is_callable_type(new[k].entity_type@),
        reported_params(new[k].content@, new[k].file_path@) is Some,
        callable_index_below(old, new[k].id@, old.len() as int) is Some,
        reported_params(
            old[callable_index_below(old, new[k].id@, old.len() as int).unwrap()].content@,
            old[callable_index_below(old, new[k].id@, old.len() as int).unwrap()].file_path@,
        ) is Some,
    ensures
        ({
            let ni = reported_params(new[k].content@, new[k].file_path@).unwrap();
            let ok = callable_index_below(old, new[k].id@, old.len() as int).unwrap();
            let oi = reported_params(old[ok].content@, old[ok].file_path@).unwrap();
            &&& signature_changed(old, new[k]) <==> (oi.0 != ni.0 || oi.1 != ni.1)
            &&& (oi.0 != ni.0 || oi.1 != ni.1) ==> changed_ids_below(old, new, new.len() as int).contains(
                new[k].id@,
            )
        }),
{
    if signature_changed(old, new[k]) {
        lemma_changed_ids_contain(old, new, new.len() as int, k);
    }
}

/// Where a call edge of the new graph goes into a callable whose parameter
/// bounds changed (grew or shrank), every call in the caller that the new
/// bounds do not admit is reported, with its argument count and line, in
/// the order of the calls, and no other.
pub proof fn changed_signature_reports_out_of_bounds_calls(
    old: Seq<SemanticEntity>,
    g: EntityGraph,
    new: Seq<SemanticEntity>,
    e: EntityRef,
)
    requires
        e.ref_type == RefType::Calls,
        entity_index(new, e.to_entity@) is Some,
        entity_index(new, e.from_entity@) is Some,
        ({
            let callee = new[entity_index(new, e.to_entity@).unwrap()];
            &&& is_callable_type(callee.entity_type@)
            &&& reported_params(callee.content@, callee.file_path@) is Some
            &&& !reported_params(callee.content@, callee.file_path@).unwrap().2
            &&& callable_index_below(old, callee.id@, old.len() as int) is Some
            &&& reported_params(
                old[callable_index_below(old, callee.id@, old.len() as int).unwrap()].content@,
                old[callable_index_below(old, callee.id@, old.len() as int).unwrap()].file_path@,
            ) is Some
            &&& ({
                let ni = reported_params(callee.content@, callee.file_path@).unwrap();
                let ok = callable_index_below(old, callee.id@, old.len() as int).unwrap();
                let oi = reported_params(old[ok].content@, old[ok].file_path@).unwrap();
                oi.0 != ni.0 || oi.1 != ni.1
            })
        }),
    ensures
        ({
            let callee = new[entity_index(new, e.to_entity@).unwrap()];
            let caller = new[entity_index(new, e.from_entity@).unwrap()];
            let ni = reported_params(callee.content@, callee.file_path@).unwrap();
            broken_edge(old, g, new, e).map_values(|m: ArityMismatchView| (m.actual_args, m.line))
                == call_sites_spec(caller.content@, callee.name@, caller.file_path@).filter(
                out_of_bounds(ni),
            ).map_values(
                |s: CallArgCount| (s.actual_args as nat, line_sum(caller.start_line, s.line_offset)),
            )
        }),
{
    let ck = entity_index(new, e.to_entity@).unwrap();
    let rk = entity_index(new, e.from_entity@).unwrap();
    crate::model::lemma_entity_index_below(new, e.to_entity@, new.len() as int);
    crate::model::lemma_entity_index_below(new, e.from_entity@, new.len() as int);
    changed_bounds_mark_the_callable(old, new, ck);
    every_out_of_bounds_call_is_reported(new[rk], new[ck]);
}

} // verus!
