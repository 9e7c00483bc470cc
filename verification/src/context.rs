//! Context budgeting: pack an entity and the entities that depend on it into
//! a token budget. The target comes first (whole, or its signature when the
//! whole does not fit), then direct dependents (whole), then transitive
//! dependents (signature only).

use vstd::prelude::*;
use crate::model::{SemanticEntity, EntityGraph, entity_index, find_entity, is_impact_list};
use crate::text::{chars_of, count_words, first_line, first_line_end, word_count, words_from};

verus! {

/// One entity packed into a context.
pub struct ContextEntry {
    pub entity_id: String,
    pub entity_name: String,
    pub entity_type: String,
    pub file_path: String,
    /// `"target"`, `"direct_dependent"` or `"transitive_dependent"`.
    pub role: String,
    pub content: String,
    pub estimated_tokens: usize,
}

pub struct ContextEntryView {
    pub entity_id: Seq<char>,
    pub entity_name: Seq<char>,
    pub entity_type: Seq<char>,
    pub file_path: Seq<char>,
    pub role: Seq<char>,
    pub content: Seq<char>,
    pub estimated_tokens: nat,
}

impl View for ContextEntry {
    type V = ContextEntryView;

    open spec fn view(&self) -> ContextEntryView {
        ContextEntryView {
            entity_id: self.entity_id@,
            entity_name: self.entity_name@,
            entity_type: self.entity_type@,
            file_path: self.file_path@,
            role: self.role@,
            content: self.content@,
            estimated_tokens: self.estimated_tokens as nat,
        }
    }
}

/// Roughly 1.3 tokens per whitespace-separated word.
pub open spec fn token_estimate(s: Seq<char>) -> nat {
    word_count(s) * 13 / 10
}

pub proof fn lemma_words_bound(s: Seq<char>, i: int, in_word: bool)
    requires
        0 <= i,
    ensures
        words_from(s, i, in_word) <= if i <= s.len() { s.len() - i } else { 0 },
    decreases s.len() - i,
{
    if i < s.len() {
        lemma_words_bound(s, i + 1, !crate::text::is_white_space(s[i]));
    }
}

/// Estimate the token count of `content`: 13 tokens for every 10 words,
/// rounded down.
pub fn estimate_tokens(content: &str) -> (r: usize)
    requires
        content@.len() * 13 <= usize::MAX,
    ensures
        r == token_estimate(content@),
{
    let v = chars_of(content);
    let words = count_words(&v);
    proof {
        lemma_words_bound(v@, 0, false);
    }
    words * 13 / 10
}

/// The first line of `content`, its signature.
pub fn signature_only(content: &str) -> (r: String)
    ensures
        r@ == first_line(content@),
{
    let v = chars_of(content);
    let end = first_line_end(&v);
    content.substring_char(0, end).to_owned()
}

/// The entry of `e` under `role` with `content` as its text.
pub open spec fn entry_of(e: SemanticEntity, role: Seq<char>, content: Seq<char>) -> ContextEntryView {
    ContextEntryView {
        entity_id: e.id@,
        entity_name: e.name@,
        entity_type: e.entity_type@,
        file_path: e.file_path@,
        role,
        content,
        estimated_tokens: token_estimate(content),
    }
}

/// The target's entry, whole when it fits the budget, else its signature;
/// with the tokens it takes.
pub open spec fn target_part(all: Seq<SemanticEntity>, id: Seq<char>, budget: nat) -> (
    Seq<ContextEntryView>,
    nat,
) {
    match entity_index(all, id) {
        None => (seq![], 0),
        Some(k) => {
            let e = all[k];
            if token_estimate(e.content@) <= budget {
                (seq![entry_of(e, "target"@, e.content@)], token_estimate(e.content@))
            } else {
                let sig = first_line(e.content@);
                (seq![entry_of(e, "target"@, sig)], token_estimate(sig))
            }
        },
    }
}

/// Direct dependents `ids[i..]`, whole, each added while it fits; the packing
/// stops once `used` reaches the budget. Returns the entries and the tokens
/// used after them.
pub open spec fn direct_part(
    all: Seq<SemanticEntity>,
    ids: Seq<Seq<char>>,
    i: int,
    budget: nat,
    used: nat,
) -> (Seq<ContextEntryView>, nat)
    decreases ids.len() - i,
{
    if i < 0 || i >= ids.len() || used >= budget {
        (seq![], used)
    } else {
        match entity_index(all, ids[i]) {
            None => direct_part(all, ids, i + 1, budget, used),
            Some(k) => {
                let t = token_estimate(all[k].content@);
                if used + t <= budget {
                    let rest = direct_part(all, ids, i + 1, budget, used + t);
                    (seq![entry_of(all[k], "direct_dependent"@, all[k].content@)] + rest.0, rest.1)
                } else {
                    direct_part(all, ids, i + 1, budget, used)
                }
            },
        }
    }
}

/// Transitive dependents `ids[i..]` that are not direct ones, by signature,
/// each added while it fits; the packing stops once `used` reaches the budget.
pub open spec fn transitive_part(
    all: Seq<SemanticEntity>,
    direct: Seq<Seq<char>>,
    ids: Seq<Seq<char>>,
    i: int,
    budget: nat,
    used: nat,
) -> Seq<ContextEntryView>
    decreases ids.len() - i,
{
    if i < 0 || i >= ids.len() || used >= budget {
        seq![]
    } else if direct.contains(ids[i]) {
        transitive_part(all, direct, ids, i + 1, budget, used)
    } else {
        match entity_index(all, ids[i]) {
            None => transitive_part(all, direct, ids, i + 1, budget, used),
            Some(k) => {
                let sig = first_line(all[k].content@);
                let t = token_estimate(sig);
                if used + t <= budget {
                    seq![entry_of(all[k], "transitive_dependent"@, sig)] + transitive_part(
                        all,
                        direct,
                        ids,
                        i + 1,
                        budget,
                        used + t,
                    )
                } else {
                    transitive_part(all, direct, ids, i + 1, budget, used)
                }
            },
        }
    }
}

/// The whole packing: target, then direct, then transitive dependents.
pub open spec fn context_plan(
    all: Seq<SemanticEntity>,
    id: Seq<char>,
    direct: Seq<Seq<char>>,
    transitive: Seq<Seq<char>>,
    budget: nat,
) -> Seq<ContextEntryView> {
    let t = target_part(all, id, budget);
    let d = direct_part(all, direct, 0, budget, t.1);
    t.0 + d.0 + transitive_part(all, direct, transitive, 0, budget, d.1)
}

/// Every entity's text is short enough for its token estimate to fit a `usize`.
pub open spec fn contents_fit(all: Seq<SemanticEntity>) -> bool {
    forall|k: int| 0 <= k < all.len() ==> #[trigger] all[k].content@.len() * 13 <= usize::MAX
}

pub open spec fn string_views(v: Seq<String>) -> Seq<Seq<char>> {
    v.map_values(|s: String| s@)
}

fn make_entry(e: &SemanticEntity, role: &str, content: String) -> (r: ContextEntry)
    requires
        content@.len() * 13 <= usize::MAX,
    ensures
        r@ == entry_of(*e, role@, content@),
{
    let tokens = estimate_tokens(content.as_str());
    ContextEntry {
        entity_id: e.id.clone(),
        entity_name: e.name.clone(),
        entity_type: e.entity_type.clone(),
        file_path: e.file_path.clone(),
        role: role.to_owned(),
        content,
        estimated_tokens: tokens,
    }
}

fn contains_id(ids: &Vec<String>, id: &String) -> (r: bool)
    ensures
        r == string_views(ids@).contains(id@),
{
    let mut i: usize = 0;
    while i < ids.len()
        invariant
            i <= ids@.len(),
            forall|j: int| 0 <= j < i ==> ids@[j]@ != id@,
        decreases ids@.len() - i,
    {
        if ids[i] == *id {
            assert(string_views(ids@)[i as int] == id@);
            return true;
        }
        i += 1;
    }
    assert forall|j: int| 0 <= j < string_views(ids@).len() implies string_views(ids@)[j]
        != id@ by {
        assert(string_views(ids@)[j] == ids@[j]@);
    }
    false
}

pub proof fn lemma_first_line_len(s: Seq<char>)
    ensures
        first_line(s).len() <= s.len(),
{
    crate::text::lemma_index_of_from(s, '\n', 0);
}

fn push_views(entries: &mut Vec<ContextEntry>, e: ContextEntry)
    ensures
        final(entries)@.map_values(|x: ContextEntry| x@) == old(entries)@.map_values(
            |x: ContextEntry| x@,
        ).push(e@),
{
    entries.push(e);
    assert(final(entries)@.map_values(|x: ContextEntry| x@) =~= old(entries)@.map_values(
        |x: ContextEntry| x@,
    ).push(e@));
}

/// Pack the context of `entity_id` from the direct dependents `direct` and
/// the transitive dependents `transitive`, in their orders, within
/// `token_budget` estimated tokens.
pub fn pack_context(
    entity_id: &String,
    direct: &Vec<String>,
    transitive: &Vec<String>,
    all_entities: &[SemanticEntity],
    token_budget: usize,
) -> (r: Vec<ContextEntry>)
    requires
        contents_fit(all_entities@),
    ensures
        r@.map_values(|x: ContextEntry| x@) == context_plan(
            all_entities@,
            entity_id@,
            string_views(direct@),
            string_views(transitive@),
            token_budget as nat,
        ),
{
    let ghost all = all_entities@;
    let ghost dv = string_views(direct@);
    let ghost tv = string_views(transitive@);
    let ghost budget = token_budget as nat;
    let mut entries: Vec<ContextEntry> = Vec::new();
    let mut tokens_used: usize = 0;

    // The target, whole or by signature.
    match find_entity(all_entities, entity_id) {
        Some(k) => {
            let e = &all_entities[k];
            assert(all[k as int].content@.len() * 13 <= usize::MAX);
            let full = estimate_tokens(e.content.as_str());
            if full <= token_budget {
                let entry = make_entry(e, "target", e.content.clone());
                push_views(&mut entries, entry);
                tokens_used = full;
            } else {
                let sig = signature_only(e.content.as_str());
                proof {
                    lemma_first_line_len(e.content@);
                }
                let entry = make_entry(e, "target", sig);
                tokens_used = entry.estimated_tokens;
                push_views(&mut entries, entry);
            }
        },
        None => {},
    }
    assert(entries@.map_values(|x: ContextEntry| x@) == target_part(all, entity_id@, budget).0);
    assert(tokens_used == target_part(all, entity_id@, budget).1);
    let ghost t = target_part(all, entity_id@, budget);

    // Direct dependents, whole.
    let mut i: usize = 0;
    while i < direct.len()
        invariant
            all == all_entities@,
            contents_fit(all),
            dv == string_views(direct@),
            budget == token_budget as nat,
            i <= direct@.len(),
            direct_part(all, dv, 0, budget, t.1).1 == direct_part(
                all,
                dv,
                i as int,
                budget,
                tokens_used as nat,
            ).1,
            t.0 + direct_part(all, dv, 0, budget, t.1).0 == entries@.map_values(
                |x: ContextEntry| x@,
            ) + direct_part(all, dv, i as int, budget, tokens_used as nat).0,
        ensures
            i >= direct@.len() || tokens_used >= token_budget,
        decreases direct@.len() - i,
    {
        if tokens_used >= token_budget {
            break;
        }
        assert(dv[i as int] == direct@[i as int]@);
        match find_entity(all_entities, &direct[i]) {
            Some(k) => {
                let e = &all_entities[k];
                assert(all[k as int].content@.len() * 13 <= usize::MAX);
                let tokens = estimate_tokens(e.content.as_str());
                if tokens <= token_budget - tokens_used {
                    let entry = make_entry(e, "direct_dependent", e.content.clone());
                    push_views(&mut entries, entry);
                    tokens_used = tokens_used + tokens;
                }
            },
            None => {},
        }
        i += 1;
    }
    let ghost d = direct_part(all, dv, 0, budget, t.1);
    assert(direct_part(all, dv, i as int, budget, tokens_used as nat).0 == Seq::<
        ContextEntryView,
    >::empty());
    assert(d.1 == tokens_used);
    assert(entries@.map_values(|x: ContextEntry| x@) + Seq::<ContextEntryView>::empty()
        == entries@.map_values(|x: ContextEntry| x@));

    // Transitive dependents that are not direct ones, by signature.
    let mut j: usize = 0;
    while j < transitive.len()
        invariant
            all == all_entities@,
            contents_fit(all),
            dv == string_views(direct@),
            tv == string_views(transitive@),
            budget == token_budget as nat,
            j <= transitive@.len(),
            t.0 + d.0 + transitive_part(all, dv, tv, 0, budget, d.1) == entries@.map_values(
                |x: ContextEntry| x@,
            ) + transitive_part(all, dv, tv, j as int, budget, tokens_used as nat),
        ensures
            j >= transitive@.len() || tokens_used >= token_budget,
        decreases transitive@.len() - j,
    {
        if tokens_used >= token_budget {
            break;
        }
        assert(tv[j as int] == transitive@[j as int]@);
        if !contains_id(direct, &transitive[j]) {
            match find_entity(all_entities, &transitive[j]) {
                Some(k) => {
                    let e = &all_entities[k];
                    assert(all[k as int].content@.len() * 13 <= usize::MAX);
                    let sig = signature_only(e.content.as_str());
                    proof {
                        lemma_first_line_len(e.content@);
                    }
                    let tokens = estimate_tokens(sig.as_str());
                    if tokens <= token_budget - tokens_used {
                        let entry = make_entry(e, "transitive_dependent", sig);
                        push_views(&mut entries, entry);
                        tokens_used = tokens_used + tokens;
                    }
                },
                None => {},
            }
        }
        j += 1;
    }
    assert(transitive_part(all, dv, tv, j as int, budget, tokens_used as nat) == Seq::<
        ContextEntryView,
    >::empty());
    assert(entries@.map_values(|x: ContextEntry| x@) + Seq::<ContextEntryView>::empty()
        == entries@.map_values(|x: ContextEntry| x@));
    entries
}


/// Build the context of `entity_id` within `token_budget` estimated tokens:
/// the target, whole if it fits and else its signature; then its direct
/// dependents, whole, in the order of their references; then the other
/// entities that a change to it reaches, by signature, in the order the
/// graph's impact list gives them (an order this contract leaves open). Each
/// dependent is added while it fits, and packing stops once the budget is
/// used up.
pub fn build_context(
    graph: &EntityGraph,
    entity_id: &str,
    all_entities: &[SemanticEntity],
    token_budget: usize,
) -> (r: Vec<ContextEntry>)
    requires
        contents_fit(all_entities@),
    ensures
        exists|transitive: Seq<Seq<char>>|
            is_impact_list(*graph, entity_id@, transitive) && r@.map_values(|x: ContextEntry| x@)
                == context_plan(
                all_entities@,
                entity_id@,
                graph.dependents(entity_id@),
                transitive,
                token_budget as nat,
            ),
{
    let id = entity_id.to_owned();
    let direct = graph.dependent_ids(&id);
    let transitive = graph.impact_ids(&id);
    let r = pack_context(&id, &direct, &transitive, all_entities, token_budget);
    assert(is_impact_list(*graph, entity_id@, string_views(transitive@)));
    r
}


/// The tokens that entries take together.
pub open spec fn tokens_of(es: Seq<ContextEntryView>) -> nat
    decreases es.len(),
{
    if es.len() == 0 {
        0
    } else {
        es[0].estimated_tokens + tokens_of(es.drop_first())
    }
}

pub proof fn lemma_tokens_of_concat(a: Seq<ContextEntryView>, b: Seq<ContextEntryView>)
    ensures
        tokens_of(a + b) == tokens_of(a) + tokens_of(b),
    decreases a.len(),
{
    if a.len() > 0 {
        assert((a + b).drop_first() =~= a.drop_first() + b);
        lemma_tokens_of_concat(a.drop_first(), b);
    } else {
        assert(a + b =~= b);
    }
}

proof fn lemma_tokens_single(e: ContextEntryView)
    ensures
        tokens_of(seq![e]) == e.estimated_tokens,
{
    assert(seq![e].drop_first() =~= Seq::<ContextEntryView>::empty());
    assert(tokens_of(Seq::<ContextEntryView>::empty()) == 0);
}

proof fn lemma_direct_part_budget(
    all: Seq<SemanticEntity>,
    ids: Seq<Seq<char>>,
    i: int,
    budget: nat,
    used: nat,
)
    ensures
        direct_part(all, ids, i, budget, used).1 == used + tokens_of(direct_part(all, ids, i, budget, used).0),
        used <= budget ==> direct_part(all, ids, i, budget, used).1 <= budget,
        used >= budget ==> direct_part(all, ids, i, budget, used).0.len() == 0,
    decreases ids.len() - i,
{
    if i < 0 || i >= ids.len() || used >= budget {
    } else {
        match entity_index(all, ids[i]) {
            None => lemma_direct_part_budget(all, ids, i + 1, budget, used),
            Some(k) => {
                let t = token_estimate(all[k].content@);
                if used + t <= budget {
                    lemma_direct_part_budget(all, ids, i + 1, budget, used + t);
                    let rest = direct_part(all, ids, i + 1, budget, used + t);
                    let head = seq![entry_of(all[k], "direct_dependent"@, all[k].content@)];
                    lemma_tokens_of_concat(head, rest.0);
                    lemma_tokens_single(entry_of(all[k], "direct_dependent"@, all[k].content@));
                } else {
                    lemma_direct_part_budget(all, ids, i + 1, budget, used);
                }
            },
        }
    }
}

proof fn lemma_transitive_part_budget(
    all: Seq<SemanticEntity>,
    direct: Seq<Seq<char>>,
    ids: Seq<Seq<char>>,
    i: int,
    budget: nat,
    used: nat,
)
    ensures
        used <= budget ==> used + tokens_of(transitive_part(all, direct, ids, i, budget, used)) <= budget,
        used >= budget ==> transitive_part(all, direct, ids, i, budget, used).len() == 0,
    decreases ids.len() - i,
{
    if i < 0 || i >= ids.len() || used >= budget {
    } else if direct.contains(ids[i]) {
        lemma_transitive_part_budget(all, direct, ids, i + 1, budget, used);
    } else {
        match entity_index(all, ids[i]) {
            None => lemma_transitive_part_budget(all, direct, ids, i + 1, budget, used),
            Some(k) => {
                let sig = first_line(all[k].content@);
                let t = token_estimate(sig);
                if used + t <= budget {
                    lemma_transitive_part_budget(all, direct, ids, i + 1, budget, used + t);
                    let rest = transitive_part(all, direct, ids, i + 1, budget, used + t);
                    let head = seq![entry_of(all[k], "transitive_dependent"@, sig)];
                    lemma_tokens_of_concat(head, rest);
                    lemma_tokens_single(entry_of(all[k], "transitive_dependent"@, sig));
                } else {
                    lemma_transitive_part_budget(all, direct, ids, i + 1, budget, used);
                }
            },
        }
    }
}

/// The context stays within the token budget; the one exception is a
/// target whose signature alone exceeds the budget, which is then the only
/// entry. A target that exists is always the first entry.
pub proof fn context_respects_budget(
    all: Seq<SemanticEntity>,
    id: Seq<char>,
    direct: Seq<Seq<char>>,
    transitive: Seq<Seq<char>>,
    budget: nat,
)
    ensures
        ({
            let plan = context_plan(all, id, direct, transitive, budget);
            tokens_of(plan) <= budget || (plan.len() == 1 && plan[0].role == "target"@)
        }),
        entity_index(all, id) is Some ==> ({
            let plan = context_plan(all, id, direct, transitive, budget);
            plan.len() > 0 && plan[0].role == "target"@ && plan[0].entity_id == id
        }),
{
    let t = target_part(all, id, budget);
    let d = direct_part(all, direct, 0, budget, t.1);
    let tr = transitive_part(all, direct, transitive, 0, budget, d.1);
    lemma_direct_part_budget(all, direct, 0, budget, t.1);
    lemma_transitive_part_budget(all, direct, transitive, 0, budget, d.1);
    lemma_tokens_of_concat(t.0, d.0);
    lemma_tokens_of_concat(t.0 + d.0, tr);
    assert(tokens_of(t.0) == t.1) by {
        if t.0.len() > 0 {
            lemma_tokens_single(t.0[0]);
            assert(t.0 =~= seq![t.0[0]]);
        }
    }
    if let Some(k) = entity_index(all, id) {
        crate::model::lemma_entity_index_below(all, id, all.len() as int);
        assert((t.0 + d.0 + tr)[0] == t.0[0]);
    }
    if t.1 > budget {
        assert(d.0.len() == 0 && tr.len() == 0);
        assert(t.0 + d.0 + tr =~= t.0);
    }
}

/// Some entry of `es` has role `role` and is the entity `id`.
pub open spec fn has_entry(es: Seq<ContextEntryView>, role: Seq<char>, id: Seq<char>) -> bool {
    exists|m: int| 0 <= m < es.len() && (#[trigger] es[m]).entity_id == id && es[m].role == role
}

proof fn lemma_direct_part_roles(all: Seq<SemanticEntity>, ids: Seq<Seq<char>>, i: int, budget: nat, used: nat)
    ensures
        forall|m: int|
            0 <= m < direct_part(all, ids, i, budget, used).0.len() ==> (#[trigger] direct_part(
                all,
                ids,
                i,
                budget,
                used,
            ).0[m]).role == "direct_dependent"@,
    decreases ids.len() - i,
{
    if i < 0 || i >= ids.len() || used >= budget {
    } else {
        match entity_index(all, ids[i]) {
            None => {
                lemma_direct_part_roles(all, ids, i + 1, budget, used);
                assert(direct_part(all, ids, i, budget, used) == direct_part(all, ids, i + 1, budget, used));
            },
            Some(k) => {
                let t = token_estimate(all[k].content@);
                if used + t <= budget {
                    lemma_direct_part_roles(all, ids, i + 1, budget, used + t);
                    let rest = direct_part(all, ids, i + 1, budget, used + t).0;
                    let d = direct_part(all, ids, i, budget, used).0;
                    let head = entry_of(all[k], "direct_dependent"@, all[k].content@);
                    assert(d == seq![head] + rest);
                    assert forall|m: int| 0 <= m < d.len() implies (#[trigger] d[m]).role
                        == "direct_dependent"@ by {
                        if m == 0 {
                            assert(d[0] == head);
                        } else {
                            assert(d[m] == rest[m - 1]);
                        }
                    }
                } else {
                    lemma_direct_part_roles(all, ids, i + 1, budget, used);
                    assert(direct_part(all, ids, i, budget, used) == direct_part(all, ids, i + 1, budget, used));
                }
            },
        }
    }
}

proof fn lemma_transitive_part_roles(
    all: Seq<SemanticEntity>,
    direct: Seq<Seq<char>>,
    ids: Seq<Seq<char>>,
    i: int,
    budget: nat,
    used: nat,
)
    ensures
        forall|m: int|
            0 <= m < transitive_part(all, direct, ids, i, budget, used).len() ==> (
            #[trigger] transitive_part(all, direct, ids, i, budget, used)[m]).role
                == "transitive_dependent"@,
    decreases ids.len() - i,
{
    if i < 0 || i >= ids.len() || used >= budget {
    } else if direct.contains(ids[i]) {
        lemma_transitive_part_roles(all, direct, ids, i + 1, budget, used);
        assert(transitive_part(all, direct, ids, i, budget, used) == transitive_part(all, direct, ids, i + 1, budget, used));
    } else {
        match entity_index(all, ids[i]) {
            None => {
                lemma_transitive_part_roles(all, direct, ids, i + 1, budget, used);
                assert(transitive_part(all, direct, ids, i, budget, used) == transitive_part(all, direct, ids, i + 1, budget, used));
            },
            Some(k) => {
                let sig = first_line(all[k].content@);
                let t = token_estimate(sig);
                if used + t <= budget {
                    lemma_transitive_part_roles(all, direct, ids, i + 1, budget, used + t);
                    let rest = transitive_part(all, direct, ids, i + 1, budget, used + t);
                    let d = transitive_part(all, direct, ids, i, budget, used);
                    let head = entry_of(all[k], "transitive_dependent"@, sig);
                    assert(d == seq![head] + rest);
                    assert forall|m: int| 0 <= m < d.len() implies (#[trigger] d[m]).role
                        == "transitive_dependent"@ by {
                        if m == 0 {
                            assert(d[0] == head);
                        } else {
                            assert(d[m] == rest[m - 1]);
                        }
                    }
                } else {
                    lemma_transitive_part_roles(all, direct, ids, i + 1, budget, used);
                    assert(transitive_part(all, direct, ids, i, budget, used) == transitive_part(all, direct, ids, i + 1, budget, used));
                }
            },
        }
    }
}

/// Within the direct part packed from `ids[i..]`: a dependent that exists
/// but has no entry would not fit in what the part leaves of the budget,
/// or the part uses the budget up.
proof fn lemma_direct_part_maximal(
    all: Seq<SemanticEntity>,
    ids: Seq<Seq<char>>,
    i: int,
    budget: nat,
    used: nat,
)
    requires
        0 <= i,
    ensures
        forall|j: int|
            i <= j < ids.len() && #[trigger] entity_index(all, ids[j]) is Some && !has_entry(
                direct_part(all, ids, i, budget, used).0,
                "direct_dependent"@,
                ids[j],
            ) ==> direct_part(all, ids, i, budget, used).1 >= budget || direct_part(
                all,
                ids,
                i,
                budget,
                used,
            ).1 + token_estimate(all[entity_index(all, ids[j]).unwrap()].content@) > budget,
    decreases ids.len() - i,
{
    lemma_direct_part_budget(all, ids, i, budget, used);
    let d = direct_part(all, ids, i, budget, used);
    if i >= ids.len() || used >= budget {
    } else {
        match entity_index(all, ids[i]) {
            None => lemma_direct_part_maximal(all, ids, i + 1, budget, used),
            Some(k) => {
                let t = token_estimate(all[k].content@);
                crate::model::lemma_entity_index_below(all, ids[i], all.len() as int);
                if used + t <= budget {
                    lemma_direct_part_maximal(all, ids, i + 1, budget, used + t);
                    let rest = direct_part(all, ids, i + 1, budget, used + t);
                    assert(d.0[0].entity_id == ids[i] && d.0[0].role == "direct_dependent"@);
                    assert forall|j: int|
                        i <= j < ids.len() && #[trigger] entity_index(all, ids[j]) is Some
                            && !has_entry(d.0, "direct_dependent"@, ids[j]) implies d.1 >= budget
                        || d.1 + token_estimate(all[entity_index(all, ids[j]).unwrap()].content@)
                        > budget by {
                        if j == i {
                            assert(has_entry(d.0, "direct_dependent"@, ids[j]));
                        } else {
                            if has_entry(rest.0, "direct_dependent"@, ids[j]) {
                                let m = choose|m: int|
                                    0 <= m < rest.0.len() && (#[trigger] rest.0[m]).entity_id == ids[j]
                                        && rest.0[m].role == "direct_dependent"@;
                                assert(d.0[m + 1] == rest.0[m]);
                            }
                        }
                    }
                } else {
                    lemma_direct_part_maximal(all, ids, i + 1, budget, used);
                }
            },
        }
    }
}

proof fn lemma_filter_keeps_all<A>(s: Seq<A>, pred: spec_fn(A) -> bool)
    requires
        forall|m: int| 0 <= m < s.len() ==> pred(#[trigger] s[m]),
    ensures
        s.filter(pred) == s,
    decreases s.len(),
{
    reveal(Seq::filter);
    if s.len() > 0 {
        assert forall|m: int| 0 <= m < s.drop_last().len() implies pred(#[trigger] s.drop_last()[m]) by {
            assert(s.drop_last()[m] == s[m]);
        }
        lemma_filter_keeps_all(s.drop_last(), pred);
        assert(pred(s[s.len() - 1]));
        assert(s.filter(pred) == s.drop_last().filter(pred).push(s.last()));
        assert(s.drop_last().push(s.last()) =~= s);
    } else {
        assert(s.filter(pred) =~= s);
    }
}

proof fn lemma_filter_keeps_none<A>(s: Seq<A>, pred: spec_fn(A) -> bool)
    requires
        forall|m: int| 0 <= m < s.len() ==> !pred(#[trigger] s[m]),
    ensures
        s.filter(pred) == Seq::<A>::empty(),
    decreases s.len(),
{
    reveal(Seq::filter);
    if s.len() > 0 {
        assert forall|m: int| 0 <= m < s.drop_last().len() implies !pred(#[trigger] s.drop_last()[m]) by {
            assert(s.drop_last()[m] == s[m]);
        }
        lemma_filter_keeps_none(s.drop_last(), pred);
        assert(!pred(s[s.len() - 1]));
        assert(s.filter(pred) == s.drop_last().filter(pred));
    } else {
        assert(s.filter(pred) =~= Seq::<A>::empty());
    }
}

/// The direct dependents are packed greedily, and nothing that fits is
/// left out: a direct dependent that exists but has no entry in the context
/// would not fit in the tokens that the target and the direct dependents
/// leave of the budget, or those use the budget up already. So a dependent
/// too large for what is left never keeps a later one that fits out.
pub proof fn left_out_dependents_do_not_fit(
    all: Seq<SemanticEntity>,
    id: Seq<char>,
    direct: Seq<Seq<char>>,
    transitive: Seq<Seq<char>>,
    budget: nat,
)
    ensures
        ({
            let plan = context_plan(all, id, direct, transitive, budget);
            let used = tokens_of(plan.filter(|e: ContextEntryView| e.role != "transitive_dependent"@));
            forall|j: int|
                0 <= j < direct.len() && #[trigger] entity_index(all, direct[j]) is Some && !has_entry(
                    plan,
                    "direct_dependent"@,
                    direct[j],
                ) ==> used >= budget || used + token_estimate(
                    all[entity_index(all, direct[j]).unwrap()].content@,
                ) > budget
        }),
{
    reveal_strlit("target");
    reveal_strlit("direct_dependent");
    reveal_strlit("transitive_dependent");
    let pred = |e: ContextEntryView| e.role != "transitive_dependent"@;
    let t = target_part(all, id, budget);
    let d = direct_part(all, direct, 0, budget, t.1);
    let tr = transitive_part(all, direct, transitive, 0, budget, d.1);
    let plan = context_plan(all, id, direct, transitive, budget);
    assert(plan == t.0 + d.0 + tr);
    lemma_direct_part_budget(all, direct, 0, budget, t.1);
    lemma_direct_part_maximal(all, direct, 0, budget, t.1);
    lemma_direct_part_roles(all, direct, 0, budget, t.1);
    lemma_transitive_part_roles(all, direct, transitive, 0, budget, d.1);
    assert forall|m: int| 0 <= m < t.0.len() implies pred(#[trigger] t.0[m]) by {
        assert(t.0[m].role == "target"@);
        assert("target"@.len() != "transitive_dependent"@.len());
    }
    assert forall|m: int| 0 <= m < d.0.len() implies pred(#[trigger] d.0[m]) by {
        assert(d.0[m].role == "direct_dependent"@);
        assert("direct_dependent"@.len() != "transitive_dependent"@.len());
    }
    assert forall|m: int| 0 <= m < tr.len() implies !pred(#[trigger] tr[m]) by {
        assert(tr[m].role == "transitive_dependent"@);
    }
    lemma_filter_keeps_all(t.0, pred);
    lemma_filter_keeps_all(d.0, pred);
    lemma_filter_keeps_none(tr, pred);
    Seq::filter_distributes_over_add(t.0 + d.0, tr, pred);
    Seq::filter_distributes_over_add(t.0, d.0, pred);
    assert(plan.filter(pred) =~= t.0 + d.0);
    lemma_tokens_of_concat(t.0, d.0);
    assert(tokens_of(t.0) == t.1) by {
        if t.0.len() > 0 {
            lemma_tokens_single(t.0[0]);
            assert(t.0 =~= seq![t.0[0]]);
        } else {
            assert(t.1 == 0);
        }
    }
    assert forall|j: int|
        0 <= j < direct.len() && #[trigger] entity_index(all, direct[j]) is Some && !has_entry(
            plan,
            "direct_dependent"@,
            direct[j],
        ) implies tokens_of(plan.filter(pred)) >= budget || tokens_of(plan.filter(pred))
        + token_estimate(all[entity_index(all, direct[j]).unwrap()].content@) > budget by {
        if has_entry(d.0, "direct_dependent"@, direct[j]) {
            let m = choose|m: int|
                0 <= m < d.0.len() && (#[trigger] d.0[m]).entity_id == direct[j] && d.0[m].role
                    == "direct_dependent"@;
            assert(plan[t.0.len() + m] == d.0[m]);
        }
    }
}

} // verus!
