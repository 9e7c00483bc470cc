//! The parameters a function declares, read from its syntax tree: how many
//! a call must pass at least and at most, and whether it takes any number.

use vstd::prelude::*;
use crate::arity::{find_occurrence, occurrence_from, occurs_at, lemma_occurrence_from};
use crate::syntax::{
    NodeView, SyntaxNode, count_below, field_child, field_child_pred, find_field_child,
    find_first_named_child, first_from, first_named_child, hangs_from, lemma_count_below,
    named_child_pred, node_text, node_views, text_at,
};
use crate::text::{chars_of, is_white_space, is_white_space_char, same_str};

verus! {

/// The rules by which parameters are counted.
#[derive(PartialEq, Eq, Structural, Clone, Copy, Debug)]
pub enum Lang {
    Python,
    TypeScript,
    JavaScript,
    Rust,
    Go,
}

/// What a function's parameters allow: between `min_params` and
/// `max_params` arguments, or any number at the end where `is_variadic`.
#[derive(Clone, Copy, Debug)]
pub struct ParamInfo {
    pub min_params: usize,
    pub max_params: usize,
    pub is_variadic: bool,
}

/// A running count of parameters: the fewest and the most arguments, and
/// whether a rest parameter was seen.
pub type Tally = (nat, nat, bool);

/// The text of node `j`.
pub open spec fn text_of(t: Seq<NodeView>, src: Seq<char>, j: int) -> Seq<char> {
    node_text(src, t[j])
}

/// The text of node `j`, or empty where there is no node.
pub open spec fn text_or_empty(t: Seq<NodeView>, src: Seq<char>, j: Option<int>) -> Seq<char> {
    match j {
        Some(k) => text_of(t, src, k),
        None => seq![],
    }
}

/// A receiver name of Python: `self` or `cls`.
pub open spec fn is_receiver_name(s: Seq<char>) -> bool {
    s == "self"@ || s == "cls"@
}

/// The name of a Python `typed_parameter`: its `name` field, or else its
/// first named child.
pub open spec fn python_param_name(t: Seq<NodeView>, src: Seq<char>, j: int) -> Seq<char> {
    match field_child(t, j, "name"@) {
        Some(k) => text_of(t, src, k),
        None => text_or_empty(t, src, first_named_child(t, j)),
    }
}

pub open spec fn assignment_child_pred(t: Seq<NodeView>, p: int) -> spec_fn(int) -> bool {
    |j: int| hangs_from(t, j, p) && t[j].named && t[j].kind == "assignment_pattern"@
}

/// A JavaScript or TypeScript parameter with a default value: an assignment
/// pattern itself, one with a `value` field, or one with an assignment
/// pattern among its named children.
pub open spec fn has_default_value(t: Seq<NodeView>, j: int) -> bool {
    ||| t[j].kind == "assignment_pattern"@
    ||| field_child(t, j, "value"@) is Some
    ||| first_from(t.len() as int, assignment_child_pred(t, j), 0) is Some
}

/// The first index in `lo..hi` that does not hold `c`, or `hi`.
pub open spec fn skip_char(s: Seq<char>, c: char, lo: int, hi: int) -> int
    decreases hi - lo,
{
    if lo >= hi {
        hi
    } else if s[lo] == c {
        skip_char(s, c, lo + 1, hi)
    } else {
        lo
    }
}

/// The first index in `lo..hi` that does not hold white space, or `hi`.
pub open spec fn skip_space(s: Seq<char>, lo: int, hi: int) -> int
    decreases hi - lo,
{
    if lo >= hi {
        hi
    } else if is_white_space(s[lo]) {
        skip_space(s, lo + 1, hi)
    } else {
        lo
    }
}

/// `hi` moved back over the white space that ends `s[lo..hi]`.
pub open spec fn back_space(s: Seq<char>, lo: int, hi: int) -> int
    decreases hi - lo,
{
    if hi <= lo {
        lo
    } else if is_white_space(s[hi - 1]) {
        back_space(s, lo, hi - 1)
    } else {
        hi
    }
}

/// A Rust parameter pattern that binds the receiver: `self` once leading
/// `&`s, surrounding white space and a `mut ` prefix are taken off.
pub open spec fn is_self_pattern(s: Seq<char>) -> bool {
    let n = s.len() as int;
    let a = skip_char(s, '&', 0, n);
    let b = skip_space(s, a, n);
    let e = back_space(s, b, n);
    let b2 = if e - b >= 4 && s.subrange(b, b + 4) == "mut "@ {
        b + 4
    } else {
        b
    };
    let b3 = skip_space(s, b2, e);
    let e3 = back_space(s, b3, e);
    s.subrange(b3, e3) == "self"@
}

/// The text of the pattern of a Rust `parameter`.
pub open spec fn rust_pattern(t: Seq<NodeView>, src: Seq<char>, j: int) -> Seq<char> {
    text_or_empty(t, src, field_child(t, j, "pattern"@))
}

/// `s` holds `pat`.
pub open spec fn holds(s: Seq<char>, pat: Seq<char>) -> bool {
    occurrence_from(s, pat, 0) is Some
}

/// A Go parameter declaration of variadic type: its type starts with `...`
/// or its text holds `...`.
pub open spec fn go_variadic(t: Seq<NodeView>, src: Seq<char>, j: int) -> bool {
    occurs_at(text_or_empty(t, src, field_child(t, j, "type"@)), "..."@, 0)
        || holds(text_of(t, src, j), "..."@)
}

pub open spec fn go_identifier_pred(t: Seq<NodeView>, j: int, ty: int) -> spec_fn(int) -> bool {
    |c: int|
        hangs_from(t, c, j) && t[c].named && t[c].kind == "identifier"@ && !(t[c].start
            == t[ty].start && t[c].end == t[ty].end)
}

/// How many parameters a Go parameter declaration declares: one per name,
/// else one per identifier other than the type, else one.
pub open spec fn go_arity(t: Seq<NodeView>, j: int) -> nat {
    let names = count_below(field_child_pred(t, j, "name"@), t.len() as int);
    if names > 0 {
        names
    } else {
        match field_child(t, j, "type"@) {
            None => 1,
            Some(ty) => {
                let ids = count_below(go_identifier_pred(t, j, ty), t.len() as int);
                if ids > 0 {
                    ids
                } else {
                    1
                }
            },
        }
    }
}

/// The tally after the named child `j` of the parameter list.
pub open spec fn param_step(lang: Lang, t: Seq<NodeView>, src: Seq<char>, acc: Tally, j: int) -> Tally {
    let (mn, mx, v) = acc;
    let k = t[j].kind;
    match lang {
        Lang::Python => if k == "identifier"@ {
            if is_receiver_name(text_of(t, src, j)) {
                acc
            } else {
                (mn + 1, mx + 1, v)
            }
        } else if k == "typed_parameter"@ {
            if is_receiver_name(python_param_name(t, src, j)) {
                acc
            } else {
                (mn + 1, mx + 1, v)
            }
        } else if k == "default_parameter"@ || k == "typed_default_parameter"@ {
            (mn, mx + 1, v)
        } else if k == "list_splat_pattern"@ || k == "dictionary_splat_pattern"@ {
            (mn, mx, true)
        } else {
            acc
        },
        Lang::TypeScript => if k == "required_parameter"@ {
            (if has_default_value(t, j) { mn } else { mn + 1 }, mx + 1, v)
        } else if k == "optional_parameter"@ {
            (mn, mx + 1, v)
        } else if k == "rest_pattern"@ {
            (mn, mx, true)
        } else {
            acc
        },
        Lang::JavaScript => if k == "rest_pattern"@ {
            (mn, mx, true)
        } else if k == "identifier"@ || k == "formal_parameter"@ || k == "assignment_pattern"@ {
            (if has_default_value(t, j) { mn } else { mn + 1 }, mx + 1, v)
        } else {
            acc
        },
        Lang::Rust => if k == "parameter"@ && !is_self_pattern(rust_pattern(t, src, j)) {
            (mn + 1, mx + 1, v)
        } else {
            acc
        },
        Lang::Go => if k == "parameter_declaration"@ {
            if go_variadic(t, src, j) {
                (mn, mx, true)
            } else {
                let c = go_arity(t, j);
                (mn + c, mx + c, v)
            }
        } else {
            acc
        },
    }
}

/// The tally over the named children of node `p` below index `n`.
pub open spec fn tally_below(lang: Lang, t: Seq<NodeView>, src: Seq<char>, p: int, n: int) -> Tally
    decreases n,
{
    if n <= 0 {
        (0, 0, false)
    } else {
        let acc = tally_below(lang, t, src, p, n - 1);
        if named_child_pred(t, p)(n - 1) {
            param_step(lang, t, src, acc, n - 1)
        } else {
            acc
        }
    }
}

/// The parameters of the first function-like node of the tree, counted by
/// the rules of `lang`; `None` where there is no such node or it has no
/// `parameters` field.
pub open spec fn param_tally(lang: Lang, t: Seq<NodeView>, src: Seq<char>) -> Option<Tally> {
    match crate::syntax::first_function(t) {
        None => None,
        Some(f) => match field_child(t, f, "parameters"@) {
            None => None,
            Some(p) => Some(tally_below(lang, t, src, p, t.len() as int)),
        },
    }
}

pub proof fn lemma_step_grows(lang: Lang, t: Seq<NodeView>, src: Seq<char>, acc: Tally, j: int)
    ensures
        acc.0 <= param_step(lang, t, src, acc, j).0,
        acc.1 <= param_step(lang, t, src, acc, j).1,
        acc.0 <= acc.1 ==> param_step(lang, t, src, acc, j).0 <= param_step(lang, t, src, acc, j).1,
{
}

pub proof fn lemma_tally_grows(lang: Lang, t: Seq<NodeView>, src: Seq<char>, p: int, n: int, m: int)
    requires
        n <= m,
    ensures
        tally_below(lang, t, src, p, n).1 <= tally_below(lang, t, src, p, m).1,
        tally_below(lang, t, src, p, m).0 <= tally_below(lang, t, src, p, m).1,
    decreases m,
{
    if m > 0 {
        lemma_step_grows(lang, t, src, tally_below(lang, t, src, p, m - 1), m - 1);
        lemma_tally_grows(lang, t, src, p, if n < m { n } else { m - 1 }, m - 1);
    }
}


/// `r` reports the tally `s`: nothing where there is no tally, and where
/// the most arguments do not fit in `usize`.
pub open spec fn reports_tally(r: Option<ParamInfo>, s: Option<Tally>) -> bool {
    match s {
        None => r is None,
        Some(x) => if x.1 <= usize::MAX {
            r matches Some(i) && i.min_params == x.0 && i.max_params == x.1 && i.is_variadic
                == x.2
        } else {
            r is None
        },
    }
}

fn text_of_node<'a>(nodes: &Vec<SyntaxNode>, j: usize, source: &'a str) -> (r: &'a str)
    requires
        j < nodes@.len(),
    ensures
        r@ == text_of(node_views(nodes@), source@, j as int),
{
    text_at(source, nodes[j].start, nodes[j].end)
}

fn text_of_opt<'a>(nodes: &Vec<SyntaxNode>, j: Option<usize>, source: &'a str) -> (r: &'a str)
    requires
        j matches Some(k) ==> k < nodes@.len(),
    ensures
        r@ == text_or_empty(
            node_views(nodes@),
            source@,
            match j {
                Some(k) => Some(k as int),
                None => None,
            },
        ),
{
    proof {
        reveal_strlit("");
    }
    match j {
        Some(k) => text_of_node(nodes, k, source),
        None => "",
    }
}

fn kind_is(n: &SyntaxNode, lit: &str) -> (r: bool)
    ensures
        r == (n@.kind == lit@),
{
    same_str(n.kind.as_str(), lit)
}

fn receiver_name(s: &str) -> (r: bool)
    ensures
        r == is_receiver_name(s@),
{
    same_str(s, "self") || same_str(s, "cls")
}

proof fn lemma_field_child_in_range(t: Seq<NodeView>, p: int, f: Seq<char>)
    ensures
        field_child(t, p, f) matches Some(k) ==> 0 <= k < t.len(),
        first_named_child(t, p) matches Some(k) ==> 0 <= k < t.len(),
{
    crate::syntax::lemma_first_from(t.len() as int, field_child_pred(t, p, f), 0);
    crate::syntax::lemma_first_from(t.len() as int, named_child_pred(t, p), 0);
}

fn python_param_name_exec<'a>(nodes: &Vec<SyntaxNode>, j: usize, source: &'a str) -> (r: &'a str)
    ensures
        r@ == python_param_name(node_views(nodes@), source@, j as int),
{
    proof {
        lemma_field_child_in_range(node_views(nodes@), j as int, "name"@);
    }
    match find_field_child(nodes, j, "name") {
        Some(k) => text_of_node(nodes, k, source),
        None => text_of_opt(nodes, find_first_named_child(nodes, j), source),
    }
}

fn has_default_exec(nodes: &Vec<SyntaxNode>, j: usize) -> (r: bool)
    requires
        j < nodes@.len(),
    ensures
        r == has_default_value(node_views(nodes@), j as int),
{
    let ghost t = node_views(nodes@);
    if kind_is(&nodes[j], "assignment_pattern") {
        return true;
    }
    if find_field_child(nodes, j, "value").is_some() {
        return true;
    }
    let ghost pred = assignment_child_pred(t, j as int);
    let mut c: usize = 0;
    while c < nodes.len()
        invariant
            t == node_views(nodes@),
            pred == assignment_child_pred(t, j as int),
            c <= nodes@.len(),
            first_from(t.len() as int, pred, 0) == first_from(t.len() as int, pred, c as int),
        decreases nodes@.len() - c,
    {
        let hang = match nodes[c].parent {
            Some(q) => q == j,
            None => false,
        };
        if hang && nodes[c].named && kind_is(&nodes[c], "assignment_pattern") {
            return true;
        }
        c += 1;
    }
    false
}

fn skip_char_exec(v: &Vec<char>, c: char, lo: usize, hi: usize) -> (r: usize)
    requires
        lo <= hi <= v@.len(),
    ensures
        r as int == skip_char(v@, c, lo as int, hi as int),
        lo <= r <= hi,
{
    let mut i = lo;
    while i < hi && v[i] == c
        invariant
            lo <= i <= hi <= v@.len(),
            skip_char(v@, c, lo as int, hi as int) == skip_char(v@, c, i as int, hi as int),
        decreases hi - i,
    {
        i += 1;
    }
    i
}

fn skip_space_exec(v: &Vec<char>, lo: usize, hi: usize) -> (r: usize)
    requires
        lo <= hi <= v@.len(),
    ensures
        r as int == skip_space(v@, lo as int, hi as int),
        lo <= r <= hi,
{
    let mut i = lo;
    while i < hi && is_white_space_char(v[i])
        invariant
            lo <= i <= hi <= v@.len(),
            skip_space(v@, lo as int, hi as int) == skip_space(v@, i as int, hi as int),
        decreases hi - i,
    {
        i += 1;
    }
    i
}

fn back_space_exec(v: &Vec<char>, lo: usize, hi: usize) -> (r: usize)
    requires
        lo <= hi <= v@.len(),
    ensures
        r as int == back_space(v@, lo as int, hi as int),
        lo <= r <= hi,
{
    let mut i = hi;
    while i > lo && is_white_space_char(v[i - 1])
        invariant
            lo <= i <= hi <= v@.len(),
            back_space(v@, lo as int, hi as int) == back_space(v@, lo as int, i as int),
        decreases i - lo,
    {
        i -= 1;
    }
    i
}

/// Whether a Rust parameter pattern binds the receiver.
pub fn self_pattern(pat: &str) -> (r: bool)
    ensures
        r == is_self_pattern(pat@),
{
    let v = chars_of(pat);
    let n = v.len();
    let a = skip_char_exec(&v, '&', 0, n);
    let b = skip_space_exec(&v, a, n);
    let e = back_space_exec(&v, b, n);
    let b2 = if e - b >= 4 && crate::paths::range_is(&v, b, b + 4, "mut ") {
        b + 4
    } else {
        b
    };
    let b3 = skip_space_exec(&v, b2, e);
    let e3 = back_space_exec(&v, b3, e);
    crate::paths::range_is(&v, b3, e3, "self")
}

fn text_holds(s: &str, pat: &str) -> (r: bool)
    ensures
        r == holds(s@, pat@),
{
    let v = chars_of(s);
    let w = chars_of(pat);
    find_occurrence(&v, &w, 0).is_some()
}

fn text_starts_with(s: &str, pat: &str) -> (r: bool)
    ensures
        r == occurs_at(s@, pat@, 0),
{
    let v = chars_of(s);
    let w = chars_of(pat);
    if w.len() > v.len() {
        return false;
    }
    crate::paths::range_is(&v, 0, w.len(), pat)
}

fn go_variadic_exec(nodes: &Vec<SyntaxNode>, j: usize, source: &str) -> (r: bool)
    requires
        j < nodes@.len(),
    ensures
        r == go_variadic(node_views(nodes@), source@, j as int),
{
    proof {
        lemma_field_child_in_range(node_views(nodes@), j as int, "type"@);
        reveal_strlit("...");
    }
    let ty = find_field_child(nodes, j, "type");
    let type_text = text_of_opt(nodes, ty, source);
    text_starts_with(type_text, "...") || text_holds(text_of_node(nodes, j, source), "...")
}

/// How many nodes below `n` satisfy `pred`, counted by a scan.
fn count_field_children(nodes: &Vec<SyntaxNode>, j: usize, f: &str) -> (r: usize)
    ensures
        r == count_below(field_child_pred(node_views(nodes@), j as int, f@), nodes@.len() as int),
{
    let ghost t = node_views(nodes@);
    let ghost pred = field_child_pred(t, j as int, f@);
    let mut n: usize = 0;
    let mut c: usize = 0;
    while c < nodes.len()
        invariant
            t == node_views(nodes@),
            pred == field_child_pred(t, j as int, f@),
            c <= nodes@.len(),
            n == count_below(pred, c as int),
        decreases nodes@.len() - c,
    {
        proof {
            lemma_count_below(pred, c as int);
        }
        let hang = match nodes[c].parent {
            Some(q) => q == j,
            None => false,
        };
        if hang && crate::syntax::field_is(&nodes[c], f) {
            n += 1;
        }
        c += 1;
    }
    n
}

fn count_go_identifiers(nodes: &Vec<SyntaxNode>, j: usize, ty: usize) -> (r: usize)
    requires
        ty < nodes@.len(),
    ensures
        r == count_below(go_identifier_pred(node_views(nodes@), j as int, ty as int), nodes@.len() as int),
{
    let ghost t = node_views(nodes@);
    let ghost pred = go_identifier_pred(t, j as int, ty as int);
    let ts = nodes[ty].start;
    let te = nodes[ty].end;
    let mut n: usize = 0;
    let mut c: usize = 0;
    while c < nodes.len()
        invariant
            t == node_views(nodes@),
            pred == go_identifier_pred(t, j as int, ty as int),
            ty < nodes@.len(),
            ts == t[ty as int].start,
            te == t[ty as int].end,
            c <= nodes@.len(),
            n == count_below(pred, c as int),
        decreases nodes@.len() - c,
    {
        proof {
            lemma_count_below(pred, c as int);
        }
        let hang = match nodes[c].parent {
            Some(q) => q == j,
            None => false,
        };
        if hang && nodes[c].named && kind_is(&nodes[c], "identifier") && !(nodes[c].start == ts
            && nodes[c].end == te) {
            n += 1;
        }
        c += 1;
    }
    n
}

fn go_arity_exec(nodes: &Vec<SyntaxNode>, j: usize) -> (r: usize)
    ensures
        r == go_arity(node_views(nodes@), j as int),
{
    proof {
        lemma_field_child_in_range(node_views(nodes@), j as int, "type"@);
    }
    let names = count_field_children(nodes, j, "name");
    if names > 0 {
        return names;
    }
    match find_field_child(nodes, j, "type") {
        None => 1,
        Some(ty) => {
            let ids = count_go_identifiers(nodes, j, ty);
            if ids > 0 {
                ids
            } else {
                1
            }
        },
    }
}


/// The tally after the named child `j`, where it fits in `usize`.
fn step_exec(
    lang: Lang,
    nodes: &Vec<SyntaxNode>,
    source: &str,
    acc: (usize, usize, bool),
    j: usize,
) -> (r: Option<(usize, usize, bool)>)
    requires
        j < nodes@.len(),
        acc.0 <= acc.1,
    ensures
        ({
            let s = param_step(
                lang,
                node_views(nodes@),
                source@,
                (acc.0 as nat, acc.1 as nat, acc.2),
                j as int,
            );
            match r {
                Some(x) => s.1 <= usize::MAX && x.0 == s.0 && x.1 == s.1 && x.2 == s.2,
                None => s.1 > usize::MAX,
            }
        }),
{
    let ghost t = node_views(nodes@);
    let (mn, mx, v) = acc;
    let n = &nodes[j];
    assert(t[j as int] == n@);
    proof {
        reveal_strlit("identifier");
    }
    match lang {
        Lang::Python => {
            if kind_is(n, "identifier") {
                if receiver_name(text_of_node(nodes, j, source)) {
                    Some(acc)
                } else if mx < usize::MAX {
                    Some((mn + 1, mx + 1, v))
                } else {
                    None
                }
            } else if kind_is(n, "typed_parameter") {
                if receiver_name(python_param_name_exec(nodes, j, source)) {
                    Some(acc)
                } else if mx < usize::MAX {
                    Some((mn + 1, mx + 1, v))
                } else {
                    None
                }
            } else if kind_is(n, "default_parameter") || kind_is(n, "typed_default_parameter") {
                if mx < usize::MAX {
                    Some((mn, mx + 1, v))
                } else {
                    None
                }
            } else if kind_is(n, "list_splat_pattern") || kind_is(n, "dictionary_splat_pattern") {
                Some((mn, mx, true))
            } else {
                Some(acc)
            }
        },
        Lang::TypeScript => {
            if kind_is(n, "required_parameter") {
                if mx < usize::MAX {
                    if has_default_exec(nodes, j) {
                        Some((mn, mx + 1, v))
                    } else {
                        Some((mn + 1, mx + 1, v))
                    }
                } else {
                    None
                }
            } else if kind_is(n, "optional_parameter") {
                if mx < usize::MAX {
                    Some((mn, mx + 1, v))
                } else {
                    None
                }
            } else if kind_is(n, "rest_pattern") {
                Some((mn, mx, true))
            } else {
                Some(acc)
            }
        },
        Lang::JavaScript => {
            if kind_is(n, "rest_pattern") {
                Some((mn, mx, true))
            } else if kind_is(n, "identifier") || kind_is(n, "formal_parameter") || kind_is(
                n,
                "assignment_pattern",
            ) {
                if mx < usize::MAX {
                    if has_default_exec(nodes, j) {
                        Some((mn, mx + 1, v))
                    } else {
                        Some((mn + 1, mx + 1, v))
                    }
                } else {
                    None
                }
            } else {
                Some(acc)
            }
        },
        Lang::Rust => {
            if kind_is(n, "parameter") {
                proof {
                    lemma_field_child_in_range(t, j as int, "pattern"@);
                }
                let pat = text_of_opt(nodes, find_field_child(nodes, j, "pattern"), source);
                if self_pattern(pat) {
                    Some(acc)
                } else if mx < usize::MAX {
                    Some((mn + 1, mx + 1, v))
                } else {
                    None
                }
            } else {
                Some(acc)
            }
        },
        Lang::Go => {
            if kind_is(n, "parameter_declaration") {
                if go_variadic_exec(nodes, j, source) {
                    Some((mn, mx, true))
                } else {
                    let c = go_arity_exec(nodes, j);
                    if c <= usize::MAX - mx {
                        Some((mn + c, mx + c, v))
                    } else {
                        None
                    }
                }
            } else {
                Some(acc)
            }
        },
    }
}

/// The parameters of the first function-like node of the tree of `source`,
/// counted by the rules of `lang`.
pub fn param_info_of_nodes(nodes: &Vec<SyntaxNode>, source: &str, lang: Lang) -> (r: Option<
    ParamInfo,
>)
    ensures
        reports_tally(r, param_tally(lang, node_views(nodes@), source@)),
{
    let ghost t = node_views(nodes@);
    let f = match crate::syntax::find_first_function(nodes) {
        Some(f) => f,
        None => return None,
    };
    let p = match find_field_child(nodes, f, "parameters") {
        Some(p) => p,
        None => return None,
    };
    let mut acc: (usize, usize, bool) = (0, 0, false);
    let mut j: usize = 0;
    while j < nodes.len()
        invariant
            t == node_views(nodes@),
            crate::syntax::first_function(t) == Some(f as int),
            field_child(t, f as int, "parameters"@) == Some(p as int),
            j <= nodes@.len(),
            acc.0 <= acc.1,
            tally_below(lang, t, source@, p as int, j as int) == (acc.0 as nat, acc.1 as nat, acc.2),
        decreases nodes@.len() - j,
    {
        let hang = match nodes[j].parent {
            Some(q) => q == p,
            None => false,
        };
        if hang && nodes[j].named {
            match step_exec(lang, nodes, source, acc, j) {
                Some(x) => {
                    acc = x;
                },
                None => {
                    proof {
                        lemma_tally_grows(lang, t, source@, p as int, j + 1, t.len() as int);
                    }
                    return None;
                },
            }
        }
        proof {
            lemma_step_grows(lang, t, source@, (acc.0 as nat, acc.1 as nat, acc.2), j as int);
        }
        j += 1;
    }
    Some(ParamInfo { min_params: acc.0, max_params: acc.1, is_variadic: acc.2 })
}

} // verus!
