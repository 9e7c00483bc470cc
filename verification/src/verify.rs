//! Contract verification: find callers that pass a callee a number of
//! arguments other than it declares.

use vstd::prelude::*;
use crate::arity::{call_sites, count_all_call_args, extract_param_count, param_count};
use crate::model::{
    EntityGraph, EntityInfo, EntityRef, RefType, SemanticEntity, entity_index, find_entity,
    find_info, info_index,
};

verus! {

/// A call whose argument count differs from the callee's parameter count.
pub struct ContractViolation {
    pub entity_name: String,
    pub file_path: String,
    pub expected_params: usize,
    pub caller_name: String,
    pub caller_file: String,
    pub actual_args: usize,
}

pub struct ContractViolationView {
    pub entity_name: Seq<char>,
    pub file_path: Seq<char>,
    pub expected_params: nat,
    pub caller_name: Seq<char>,
    pub caller_file: Seq<char>,
    pub actual_args: nat,
}

impl View for ContractViolation {
    type V = ContractViolationView;

    open spec fn view(&self) -> ContractViolationView {
        ContractViolationView {
            entity_name: self.entity_name@,
            file_path: self.file_path@,
            expected_params: self.expected_params as nat,
            caller_name: self.caller_name@,
            caller_file: self.caller_file@,
            actual_args: self.actual_args as nat,
        }
    }
}

/// Entity types that take arguments.
pub open spec fn is_callable_type(t: Seq<char>) -> bool {
    t == "function"@ || t == "method"@ || t == "arrow_function"@
}

pub fn callable_type(t: &String) -> (r: bool)
    ensures
        r == is_callable_type(t@),
{
    let f = String::from_str("function");
    let m = String::from_str("method");
    let a = String::from_str("arrow_function");
    *t == f || *t == m || *t == a
}

/// The callee and caller that a call edge names, with their contents, when
/// the edge is a call into a callable entity (of `target_file`, when given)
/// whose info and content, and whose caller's info and content, are known.
pub open spec fn checked_call(
    g: EntityGraph,
    all: Seq<SemanticEntity>,
    target_file: Option<Seq<char>>,
    e: EntityRef,
) -> Option<(EntityInfo, Seq<char>, EntityInfo, Seq<char>)> {
    if e.ref_type != RefType::Calls {
        None
    } else {
        match info_index(g.entities@, e.to_entity@) {
            None => None,
            Some(ci) => {
                let callee = g.entities@[ci];
                if target_file matches Some(tf) && callee.file_path@ != tf {
                    None
                } else if !is_callable_type(callee.entity_type@) {
                    None
                } else {
                    match entity_index(all, e.to_entity@) {
                        None => None,
                        Some(ck) => match info_index(g.entities@, e.from_entity@) {
                            None => None,
                            Some(ri) => match entity_index(all, e.from_entity@) {
                                None => None,
                                Some(rk) => Some(
                                    (callee, all[ck].content@, g.entities@[ri], all[rk].content@),
                                ),
                            },
                        },
                    }
                }
            },
        }
    }
}

/// The violations among call sites `sites[i..]`.
pub open spec fn violations_from(
    sites: Seq<usize>,
    i: int,
    expected: nat,
    callee: EntityInfo,
    caller: EntityInfo,
) -> Seq<ContractViolationView>
    decreases sites.len() - i,
{
    if i < 0 || i >= sites.len() {
        seq![]
    } else {
        (if sites[i] as nat != expected {
            seq![
                ContractViolationView {
                    entity_name: callee.name@,
                    file_path: callee.file_path@,
                    expected_params: expected,
                    caller_name: caller.name@,
                    caller_file: caller.file_path@,
                    actual_args: sites[i] as nat,
                },
            ]
        } else {
            seq![]
        }) + violations_from(sites, i + 1, expected, callee, caller)
    }
}

/// The violations of one edge: every call of the callee in the caller's text
/// whose argument count differs from the parameter count on the callee's
/// first line. Callees whose first line shows no parameters are not checked.
pub open spec fn edge_violations(
    g: EntityGraph,
    all: Seq<SemanticEntity>,
    target_file: Option<Seq<char>>,
    e: EntityRef,
) -> Seq<ContractViolationView> {
    match checked_call(g, all, target_file, e) {
        None => seq![],
        Some((callee, callee_content, caller, caller_content)) => {
            let expected = param_count(callee_content);
            if expected == 0 {
                seq![]
            } else {
                violations_from(call_sites(caller_content, callee.name@), 0, expected, callee, caller)
            }
        },
    }
}

/// The violations of the first `n` edges, edge by edge.
pub open spec fn violations_below(
    g: EntityGraph,
    all: Seq<SemanticEntity>,
    target_file: Option<Seq<char>>,
    n: int,
) -> Seq<ContractViolationView>
    decreases n,
{
    if n <= 0 {
        seq![]
    } else {
        violations_below(g, all, target_file, n - 1) + edge_violations(
            g,
            all,
            target_file,
            g.edges@[n - 1],
        )
    }
}

/// Callees whose calls are counted have a name to search for.
pub open spec fn counted_callees_named(
    g: EntityGraph,
    all: Seq<SemanticEntity>,
    target_file: Option<Seq<char>>,
) -> bool {
    forall|k: int|
        0 <= k < g.edges@.len() ==> (#[trigger] checked_call(g, all, target_file, g.edges@[k])
            matches Some((callee, callee_content, _, _)) ==> (param_count(callee_content) != 0
            ==> callee.name@.len() > 0))
}

pub open spec fn opt_view(o: Option<&str>) -> Option<Seq<char>> {
    match o {
        Some(s) => Some(s@),
        None => None,
    }
}

fn push_all(out: &mut Vec<ContractViolation>, more: Vec<ContractViolation>)
    ensures
        final(out)@.map_values(|v: ContractViolation| v@) == old(out)@.map_values(
            |v: ContractViolation| v@,
        ) + more@.map_values(|v: ContractViolation| v@),
{
    let mut more = more;
    let ghost m = more@.map_values(|v: ContractViolation| v@);
    let ghost o = out@.map_values(|v: ContractViolation| v@);
    out.append(&mut more);
    assert(out@.map_values(|v: ContractViolation| v@) =~= o + m);
}

fn same_file(info: &EntityInfo, target_file: Option<&str>) -> (r: bool)
    ensures
        r == !(opt_view(target_file) matches Some(tf) && info.file_path@ != tf),
{
    match target_file {
        None => true,
        Some(tf) => info.file_path == tf.to_owned(),
    }
}

fn edge_violations_exec(
    graph: &EntityGraph,
    all_entities: &[SemanticEntity],
    target_file: Option<&str>,
    e: &EntityRef,
) -> (r: Vec<ContractViolation>)
    requires
        checked_call(*graph, all_entities@, opt_view(target_file), *e) matches Some(
            (callee, callee_content, _, _),
        ) ==> (param_count(callee_content) != 0 ==> callee.name@.len() > 0),
    ensures
        r@.map_values(|v: ContractViolation| v@) == edge_violations(
            *graph,
            all_entities@,
            opt_view(target_file),
            *e,
        ),
{
    let ghost tf = opt_view(target_file);
    let mut out: Vec<ContractViolation> = Vec::new();
    if e.ref_type != RefType::Calls {
        return out;
    }
    let ci = match find_info(&graph.entities, &e.to_entity) {
        Some(ci) => ci,
        None => return out,
    };
    let callee = &graph.entities[ci];
    if !same_file(callee, target_file) {
        return out;
    }
    if !callable_type(&callee.entity_type) {
        return out;
    }
    let ck = match find_entity(all_entities, &e.to_entity) {
        Some(ck) => ck,
        None => return out,
    };
    let ri = match find_info(&graph.entities, &e.from_entity) {
        Some(ri) => ri,
        None => return out,
    };
    let rk = match find_entity(all_entities, &e.from_entity) {
        Some(rk) => rk,
        None => return out,
    };
    let caller = &graph.entities[ri];
    let expected = extract_param_count(all_entities[ck].content.as_str());
    if expected == 0 {
        return out;
    }
    let sites = count_all_call_args(all_entities[rk].content.as_str(), callee.name.as_str());
    let ghost spec_sites = call_sites(all_entities@[rk as int].content@, callee.name@);
    let mut i: usize = 0;
    while i < sites.len()
        invariant
            sites@ == spec_sites,
            i <= sites@.len(),
            violations_from(spec_sites, 0, expected as nat, *callee, *caller) == out@.map_values(
                |v: ContractViolation| v@,
            ) + violations_from(spec_sites, i as int, expected as nat, *callee, *caller),
        decreases sites@.len() - i,
    {
        let actual = sites[i];
        if actual != expected {
            let ghost before = out@.map_values(|v: ContractViolation| v@);
            out.push(
                ContractViolation {
                    entity_name: callee.name.clone(),
                    file_path: callee.file_path.clone(),
                    expected_params: expected,
                    caller_name: caller.name.clone(),
                    caller_file: caller.file_path.clone(),
                    actual_args: actual,
                },
            );
            assert(out@.map_values(|v: ContractViolation| v@) =~= before + seq![
                out@[out@.len() - 1]@,
            ]);
        }
        i += 1;
    }
    assert(out@.map_values(|v: ContractViolation| v@) + Seq::<ContractViolationView>::empty()
        == out@.map_values(|v: ContractViolation| v@));
    out
}

/// Check every call edge of `graph` against the parameter counts of the
/// callees in `all_entities`: for each call edge, in order, the calls of the
/// callee in the caller's text whose argument counts differ from the count
/// on the callee's first line. With `target_file`, only callees of that file
/// are checked.
pub fn verify_contracts_with_graph(
    graph: &EntityGraph,
    all_entities: &[SemanticEntity],
    target_file: Option<&str>,
) -> (r: Vec<ContractViolation>)
    requires
        counted_callees_named(*graph, all_entities@, opt_view(target_file)),
    ensures
        r@.map_values(|v: ContractViolation| v@) == violations_below(
            *graph,
            all_entities@,
            opt_view(target_file),
            graph.edges@.len() as int,
        ),
{
    let mut violations: Vec<ContractViolation> = Vec::new();
    let mut i: usize = 0;
    while i < graph.edges.len()
        invariant
            counted_callees_named(*graph, all_entities@, opt_view(target_file)),
            i <= graph.edges@.len(),
            violations@.map_values(|v: ContractViolation| v@) == violations_below(
                *graph,
                all_entities@,
                opt_view(target_file),
                i as int,
            ),
        decreases graph.edges@.len() - i,
    {
        let found = edge_violations_exec(graph, all_entities, target_file, &graph.edges[i]);
        push_all(&mut violations, found);
        i += 1;
    }
    violations
}


proof fn lemma_violations_from_differ(
    sites: Seq<usize>,
    i: int,
    expected: nat,
    callee: EntityInfo,
    caller: EntityInfo,
)
    ensures
        forall|k: int|
            0 <= k < violations_from(sites, i, expected, callee, caller).len() ==> ({
                let v = #[trigger] violations_from(sites, i, expected, callee, caller)[k];
                v.actual_args != v.expected_params && v.expected_params == expected
            }),
    decreases sites.len() - i,
{
    if 0 <= i < sites.len() {
        lemma_violations_from_differ(sites, i + 1, expected, callee, caller);
        let rest = violations_from(sites, i + 1, expected, callee, caller);
        let all = violations_from(sites, i, expected, callee, caller);
        assert forall|k: int| 0 <= k < all.len() implies ({
            let v = #[trigger] all[k];
            v.actual_args != v.expected_params && v.expected_params == expected
        }) by {
            if sites[i] as nat != expected {
                if k > 0 {
                    assert(all[k] == rest[k - 1]);
                }
            } else {
                assert(all[k] == rest[k]);
            }
        }
    }
}

/// Every reported violation is a call whose argument count differs from
/// the parameter count it reports, which is never zero.
pub proof fn violations_differ_from_expected(
    g: EntityGraph,
    all: Seq<SemanticEntity>,
    target_file: Option<Seq<char>>,
    n: int,
)
    ensures
        forall|k: int|
            0 <= k < violations_below(g, all, target_file, n).len() ==> ({
                let v = #[trigger] violations_below(g, all, target_file, n)[k];
                v.actual_args != v.expected_params && v.expected_params > 0
            }),
    decreases n,
{
    if n > 0 {
        violations_differ_from_expected(g, all, target_file, n - 1);
        let prev = violations_below(g, all, target_file, n - 1);
        let e = g.edges@[n - 1];
        let here = edge_violations(g, all, target_file, e);
        if let Some((callee, callee_content, caller, caller_content)) = checked_call(g, all, target_file, e) {
            lemma_violations_from_differ(
                call_sites(caller_content, callee.name@),
                0,
                param_count(callee_content),
                callee,
                caller,
            );
        }
        let whole = violations_below(g, all, target_file, n);
        assert forall|k: int| 0 <= k < whole.len() implies ({
            let v = #[trigger] whole[k];
            v.actual_args != v.expected_params && v.expected_params > 0
        }) by {
            if k < prev.len() {
                assert(whole[k] == prev[k]);
            } else {
                assert(whole[k] == here[k - prev.len()]);
            }
        }
    }
}

/// Filtering a one-element sequence keeps the element just where it passes.
pub proof fn lemma_filter_single<A>(x: A, pred: spec_fn(A) -> bool)
    ensures
        seq![x].filter(pred) == if pred(x) {
            seq![x]
        } else {
            Seq::<A>::empty()
        },
{
    reveal_with_fuel(Seq::filter, 2);
    assert(seq![x].drop_last() =~= Seq::<A>::empty());
}

proof fn lemma_violations_are_filtered_sites(
    sites: Seq<usize>,
    i: int,
    expected: nat,
    callee: EntityInfo,
    caller: EntityInfo,
)
    requires
        0 <= i <= sites.len(),
    ensures
        violations_from(sites, i, expected, callee, caller).map_values(
            |v: ContractViolationView| v.actual_args,
        ) == sites.subrange(i, sites.len() as int).filter(|a: usize| a as nat != expected).map_values(
            |a: usize| a as nat,
        ),
    decreases sites.len() - i,
{
    let pred = |a: usize| a as nat != expected;
    let rest = sites.subrange(i, sites.len() as int);
    if i == sites.len() {
        assert(rest =~= Seq::<usize>::empty());
        assert(rest.filter(pred) =~= Seq::<usize>::empty());
        assert(violations_from(sites, i, expected, callee, caller).map_values(
            |v: ContractViolationView| v.actual_args,
        ) =~= Seq::<nat>::empty());
    } else {
        lemma_violations_are_filtered_sites(sites, i + 1, expected, callee, caller);
        let tail = sites.subrange(i + 1, sites.len() as int);
        assert(rest =~= seq![sites[i]] + tail);
        Seq::filter_distributes_over_add(seq![sites[i]], tail, pred);
        lemma_filter_single(sites[i], pred);
        let here = violations_from(sites, i, expected, callee, caller);
        let later = violations_from(sites, i + 1, expected, callee, caller);
        let f = |v: ContractViolationView| v.actual_args;
        let g = |a: usize| a as nat;
        if sites[i] as nat != expected {
            assert(here.map_values(f) =~= seq![sites[i] as nat] + later.map_values(f));
            assert(rest.filter(pred) =~= seq![sites[i]] + tail.filter(pred));
            assert(rest.filter(pred).map_values(g) =~= seq![sites[i] as nat] + tail.filter(pred).map_values(g));
        } else {
            assert(here.map_values(f) =~= later.map_values(f));
            assert(rest.filter(pred) =~= tail.filter(pred));
        }
    }
}

/// Every call of a checked callee in its caller's text whose argument count
/// differs from the callee's parameter count, whether it passes fewer
/// arguments or more, is reported, once and in the order of the calls; no
/// other call is. Each report names the callee and the caller and gives the
/// parameter count. A callee whose first line shows no parameters is not
/// checked.
pub proof fn every_mismatched_call_is_reported(
    g: EntityGraph,
    all: Seq<SemanticEntity>,
    target_file: Option<Seq<char>>,
    e: EntityRef,
)
    ensures
        checked_call(g, all, target_file, e) matches Some((callee, callee_content, caller, caller_content))
            ==> ({
            let expected = param_count(callee_content);
            let sites = call_sites(caller_content, callee.name@);
            let found = edge_violations(g, all, target_file, e);
            &&& expected == 0 ==> found.len() == 0
            &&& expected > 0 ==> found.map_values(|v: ContractViolationView| v.actual_args)
                == sites.filter(|a: usize| a as nat != expected).map_values(|a: usize| a as nat)
            &&& forall|m: int|
                0 <= m < found.len() ==> (#[trigger] found[m]).expected_params == expected
                    && found[m].entity_name == callee.name@ && found[m].file_path == callee.file_path@
                    && found[m].caller_name == caller.name@ && found[m].caller_file
                    == caller.file_path@
        }),
{
    if let Some((callee, callee_content, caller, caller_content)) = checked_call(g, all, target_file, e) {
        let expected = param_count(callee_content);
        let sites = call_sites(caller_content, callee.name@);
        if expected > 0 {
            lemma_violations_are_filtered_sites(sites, 0, expected, callee, caller);
            assert(sites.subrange(0, sites.len() as int) =~= sites);
            lemma_violations_name(sites, 0, expected, callee, caller);
        }
    }
}

proof fn lemma_violations_name(
    sites: Seq<usize>,
    i: int,
    expected: nat,
    callee: EntityInfo,
    caller: EntityInfo,
)
    ensures
        forall|m: int|
            0 <= m < violations_from(sites, i, expected, callee, caller).len() ==> ({
                let v = #[trigger] violations_from(sites, i, expected, callee, caller)[m];
                v.expected_params == expected && v.entity_name == callee.name@ && v.file_path
                    == callee.file_path@ && v.caller_name == caller.name@ && v.caller_file
                    == caller.file_path@
            }),
    decreases sites.len() - i,
{
    if 0 <= i < sites.len() {
        lemma_violations_name(sites, i + 1, expected, callee, caller);
        let rest = violations_from(sites, i + 1, expected, callee, caller);
        let all = violations_from(sites, i, expected, callee, caller);
        assert forall|m: int| 0 <= m < all.len() implies ({
            let v = #[trigger] all[m];
            v.expected_params == expected && v.entity_name == callee.name@ && v.file_path
                == callee.file_path@ && v.caller_name == caller.name@ && v.caller_file
                == caller.file_path@
        }) by {
            if sites[i] as nat != expected {
                if m > 0 {
                    assert(all[m] == rest[m - 1]);
                }
            } else {
                assert(all[m] == rest[m]);
            }
        }
    }
}

} // verus!
