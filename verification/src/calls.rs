//! Calls read from syntax trees: the argument count of each call of a
//! function, and the parameters a function declares, by file extension.

use vstd::prelude::*;
use crate::arity::{find_occurrence, occurrence_from, occurs_at};
use crate::params::{
    Lang, ParamInfo, Tally, holds, param_info_of_nodes, param_tally, reports_tally, text_of,
    text_or_empty,
};
use crate::syntax::{
    Grammar, NodeView, SyntaxNode, count_below, field_child, field_child_pred, find_field_child,
    first_from, hangs_from, lemma_count_below, lemma_first_from, named_child_pred, node_text,
    node_views, parse_nodes, reached, reached_flags, syntax_tree, text_at,
};
use crate::text::{chars_of, same_str};

verus! {

// ---------------------------------------------------------------------------
// Languages by file extension

/// The last index below `n` that holds `c`.
pub open spec fn last_index_below(s: Seq<char>, c: char, n: int) -> Option<int>
    decreases n,
{
    if n <= 0 {
        None
    } else if s[n - 1] == c {
        Some(n - 1)
    } else {
        last_index_below(s, c, n - 1)
    }
}

/// The extension of `path`: its text from the last `.` on.
pub open spec fn ext_of(path: Seq<char>) -> Option<Seq<char>> {
    match last_index_below(path, '.', path.len() as int) {
        Some(k) => Some(path.subrange(k, path.len() as int)),
        None => None,
    }
}

/// The grammar that parses files with extension `ext`.
pub open spec fn grammar_of_ext(ext: Seq<char>) -> Option<Grammar> {
    if ext == ".py"@ || ext == ".pyi"@ {
        Some(Grammar::Python)
    } else if ext == ".ts"@ || ext == ".mts"@ || ext == ".cts"@ {
        Some(Grammar::TypeScript)
    } else if ext == ".tsx"@ {
        Some(Grammar::Tsx)
    } else if ext == ".js"@ || ext == ".jsx"@ || ext == ".mjs"@ || ext == ".cjs"@ {
        Some(Grammar::JavaScript)
    } else if ext == ".rs"@ {
        Some(Grammar::Rust)
    } else if ext == ".go"@ {
        Some(Grammar::Go)
    } else {
        None
    }
}

/// The rules by which the parameters of a grammar's functions are counted.
pub open spec fn lang_of(g: Grammar) -> Lang {
    match g {
        Grammar::Python => Lang::Python,
        Grammar::TypeScript => Lang::TypeScript,
        Grammar::Tsx => Lang::TypeScript,
        Grammar::JavaScript => Lang::JavaScript,
        Grammar::Rust => Lang::Rust,
        Grammar::Go => Lang::Go,
    }
}

/// The grammar of the file at `path`, by its extension.
pub open spec fn grammar_of_path(path: Seq<char>) -> Option<Grammar> {
    match ext_of(path) {
        Some(e) => grammar_of_ext(e),
        None => None,
    }
}

pub fn file_grammar(path: &str) -> (r: Option<Grammar>)
    ensures
        r == grammar_of_path(path@),
{
    let v = chars_of(path);
    let mut n = v.len();
    while n > 0 && v[n - 1] != '.'
        invariant
            n <= v@.len(),
            v@ == path@,
            last_index_below(v@, '.', v@.len() as int) == last_index_below(v@, '.', n as int),
        decreases n,
    {
        n -= 1;
    }
    if n == 0 {
        return None;
    }
    let k = n - 1;
    let len = v.len();
    let is = |lit: &str| -> (b: bool)
        ensures
            b == (v@.subrange(k as int, len as int) == lit@),
        { crate::paths::range_is(&v, k, len, lit) };
    proof {
        reveal_strlit(".py");
    }
    if is(".py") || is(".pyi") {
        Some(Grammar::Python)
    } else if is(".ts") || is(".mts") || is(".cts") {
        Some(Grammar::TypeScript)
    } else if is(".tsx") {
        Some(Grammar::Tsx)
    } else if is(".js") || is(".jsx") || is(".mjs") || is(".cjs") {
        Some(Grammar::JavaScript)
    } else if is(".rs") {
        Some(Grammar::Rust)
    } else if is(".go") {
        Some(Grammar::Go)
    } else {
        None
    }
}

/// The name of the language whose rules count the parameters of files with
/// extension `ext`, or `unknown`.
pub open spec fn lang_name_of_ext(ext: Seq<char>) -> Seq<char> {
    match grammar_of_ext(ext) {
        Some(Grammar::Python) => "python"@,
        Some(Grammar::TypeScript) | Some(Grammar::Tsx) => "typescript"@,
        Some(Grammar::JavaScript) => "javascript"@,
        Some(Grammar::Rust) => "rust"@,
        Some(Grammar::Go) => "go"@,
        None => "unknown"@,
    }
}

/// The language of files with extension `ext` (with its dot).
pub fn lang_from_ext(ext: &str) -> (r: &'static str)
    ensures
        r@ == lang_name_of_ext(ext@),
{
    let v = chars_of(ext);
    assert(v@.subrange(0, v@.len() as int) =~= v@);
    let n = v.len();
    let is = |lit: &str| -> (b: bool)
        ensures
            b == (v@.subrange(0, n as int) == lit@),
        { crate::paths::range_is(&v, 0, n, lit) };
    if is(".py") || is(".pyi") {
        "python"
    } else if is(".ts") || is(".tsx") || is(".mts") || is(".cts") {
        "typescript"
    } else if is(".js") || is(".jsx") || is(".mjs") || is(".cjs") {
        "javascript"
    } else if is(".rs") {
        "rust"
    } else if is(".go") {
        "go"
    } else {
        "unknown"
    }
}

fn lang_of_exec(g: Grammar) -> (r: Lang)
    ensures
        r == lang_of(g),
{
    match g {
        Grammar::Python => Lang::Python,
        Grammar::TypeScript => Lang::TypeScript,
        Grammar::Tsx => Lang::TypeScript,
        Grammar::JavaScript => Lang::JavaScript,
        Grammar::Rust => Lang::Rust,
        Grammar::Go => Lang::Go,
    }
}

/// The parameter tally of the first function in `content`, a file at
/// `path`: `None` where the extension names no supported language, the text
/// does not parse, or it holds no function with parameters.
pub open spec fn param_info_spec(content: Seq<char>, path: Seq<char>) -> Option<Tally> {
    match grammar_of_path(path) {
        None => None,
        Some(g) => match syntax_tree(content, g) {
            None => None,
            Some(t) => param_tally(lang_of(g), t, content),
        },
    }
}

/// The parameters that the first function of `content` declares, read from
/// its tree-sitter tree; `content` is code from the file at `file_path`.
pub fn extract_param_info_ts(content: &str, file_path: &str) -> (r: Option<ParamInfo>)
    ensures
        reports_tally(r, param_info_spec(content@, file_path@)),
{
    let g = match file_grammar(file_path) {
        Some(g) => g,
        None => return None,
    };
    let nodes = match parse_nodes(content, g) {
        Some(n) => n,
        None => return None,
    };
    param_info_of_nodes(&nodes, content, lang_of_exec(g))
}


// ---------------------------------------------------------------------------
// Call sites

/// One call of a function: how many arguments it passes, and on which row
/// of the caller's text it starts.
#[derive(PartialEq, Eq, Structural, Clone, Copy, Debug)]
pub struct CallArgCount {
    pub actual_args: usize,
    pub line_offset: usize,
}

/// The last index below `n` where `pat` occurs in `s`.
pub open spec fn last_occurrence_below(s: Seq<char>, pat: Seq<char>, n: int) -> Option<int>
    decreases n,
{
    if n <= 0 {
        None
    } else if occurs_at(s, pat, n - 1) {
        Some(n - 1)
    } else {
        last_occurrence_below(s, pat, n - 1)
    }
}

/// The last piece of `s` split at `sep`, as `rsplit(sep).next()` gives it:
/// the text after the last occurrence of `sep`, or all of `s`.
pub open spec fn last_piece(s: Seq<char>, sep: Seq<char>) -> Seq<char> {
    match last_occurrence_below(s, sep, s.len() as int) {
        Some(k) => s.subrange(k + sep.len(), s.len() as int),
        None => s,
    }
}

/// The name a call goes by, read from its `function` node `f`.
pub open spec fn callee_name_of(t: Seq<NodeView>, src: Seq<char>, f: int) -> Seq<char> {
    let k = t[f].kind;
    if k == "identifier"@ {
        text_of(t, src, f)
    } else if k == "attribute"@ || k == "member_expression"@ || k == "field_expression"@ {
        text_or_empty(
            t,
            src,
            match field_child(t, f, "attribute"@) {
                Some(a) => Some(a),
                None => match field_child(t, f, "property"@) {
                    Some(a) => Some(a),
                    None => field_child(t, f, "field"@),
                },
            },
        )
    } else if k == "selector_expression"@ {
        text_or_empty(t, src, field_child(t, f, "field"@))
    } else if k == "scoped_identifier"@ {
        last_piece(text_of(t, src, f), "::"@)
    } else {
        seq![]
    }
}

pub open spec fn argument_pred(t: Seq<NodeView>, a: int) -> spec_fn(int) -> bool {
    |c: int| hangs_from(t, c, a) && t[c].named && !holds(t[c].kind, "comment"@)
}

/// The call of `name` that node `j` makes, if it is one that the walk from
/// the root visits and it has arguments: a `call` or `call_expression`
/// whose `function` goes by `name`. Its arguments are the named children
/// of its `arguments` node that are not comments.
pub open spec fn site_at(t: Seq<NodeView>, src: Seq<char>, name: Seq<char>, j: int) -> Option<
    CallArgCount,
> {
    if reached(t, j) && (t[j].kind == "call"@ || t[j].kind == "call_expression"@) {
        match field_child(t, j, "function"@) {
            Some(f) => if callee_name_of(t, src, f) == name {
                match field_child(t, j, "arguments"@) {
                    Some(a) => Some(
                        CallArgCount {
                            actual_args: count_below(argument_pred(t, a), t.len() as int) as usize,
                            line_offset: t[j].row,
                        },
                    ),
                    None => None,
                }
            } else {
                None
            },
            None => None,
        }
    } else {
        None
    }
}

/// The calls of `name` among nodes below `n`, in node order.
pub open spec fn sites_below(t: Seq<NodeView>, src: Seq<char>, name: Seq<char>, n: int) -> Seq<
    CallArgCount,
>
    decreases n,
{
    if n <= 0 {
        seq![]
    } else {
        sites_below(t, src, name, n - 1) + match site_at(t, src, name, n - 1) {
            Some(c) => seq![c],
            None => seq![],
        }
    }
}

/// The calls of `name` in the tree, in node order; tree-sitter numbers
/// nodes in document order, so this is the order in which a walk of the
/// tree meets them.
pub open spec fn call_sites_in(t: Seq<NodeView>, src: Seq<char>, name: Seq<char>) -> Seq<
    CallArgCount,
> {
    sites_below(t, src, name, t.len() as int)
}

fn last_piece_exec<'a>(s: &'a str, sep: &str) -> (r: String)
    ensures
        r@ == last_piece(s@, sep@),
{
    let v = chars_of(s);
    let w = chars_of(sep);
    let mut n = v.len();
    while n > 0
        invariant
            v@ == s@,
            w@ == sep@,
            n <= v@.len(),
            last_occurrence_below(v@, w@, v@.len() as int) == last_occurrence_below(
                v@,
                w@,
                n as int,
            ),
        decreases n,
    {
        let k = n - 1;
        if w.len() <= v.len() - k && crate::paths::range_is(&v, k, k + w.len(), sep) {
            let tail = s.substring_char(k + w.len(), v.len());
            return tail.to_owned();
        }
        n -= 1;
    }
    s.to_owned()
}

fn kind_is(n: &SyntaxNode, lit: &str) -> (r: bool)
    ensures
        r == (n@.kind == lit@),
{
    same_str(n.kind.as_str(), lit)
}

proof fn lemma_field_child_range(t: Seq<NodeView>, p: int, f: Seq<char>)
    ensures
        field_child(t, p, f) matches Some(k) ==> 0 <= k < t.len(),
{
    lemma_first_from(t.len() as int, field_child_pred(t, p, f), 0);
}

fn text_of_opt(nodes: &Vec<SyntaxNode>, j: Option<usize>, source: &str) -> (r: String)
    requires
        j matches Some(k) ==> k < nodes@.len(),
    ensures
        r@ == text_or_empty(
            node_views(nodes@),
            source@,
            match j {
                Some(k) => Some(k as int),
                None => None,
            },
        ),
{
    match j {
        Some(k) => text_at(source, nodes[k].start, nodes[k].end).to_owned(),
        None => String::new(),
    }
}

fn callee_name_exec(nodes: &Vec<SyntaxNode>, source: &str, f: usize) -> (r: String)
    requires
        f < nodes@.len(),
    ensures
        r@ == callee_name_of(node_views(nodes@), source@, f as int),
{
    let ghost t = node_views(nodes@);
    let n = &nodes[f];
    assert(t[f as int] == n@);
    proof {
        lemma_field_child_range(t, f as int, "attribute"@);
        lemma_field_child_range(t, f as int, "property"@);
        lemma_field_child_range(t, f as int, "field"@);
    }
    if kind_is(n, "identifier") {
        text_at(source, n.start, n.end).to_owned()
    } else if kind_is(n, "attribute") || kind_is(n, "member_expression") || kind_is(
        n,
        "field_expression",
    ) {
        let a = match find_field_child(nodes, f, "attribute") {
            Some(a) => Some(a),
            None => match find_field_child(nodes, f, "property") {
                Some(a) => Some(a),
                None => find_field_child(nodes, f, "field"),
            },
        };
        text_of_opt(nodes, a, source)
    } else if kind_is(n, "selector_expression") {
        text_of_opt(nodes, find_field_child(nodes, f, "field"), source)
    } else if kind_is(n, "scoped_identifier") {
        last_piece_exec(text_at(source, n.start, n.end), "::")
    } else {
        String::new()
    }
}

fn count_arguments(nodes: &Vec<SyntaxNode>, a: usize) -> (r: usize)
    ensures
        r == count_below(argument_pred(node_views(nodes@), a as int), nodes@.len() as int),
{
    let ghost t = node_views(nodes@);
    let ghost pred = argument_pred(t, a as int);
    let mut n: usize = 0;
    let mut c: usize = 0;
    while c < nodes.len()
        invariant
            t == node_views(nodes@),
            pred == argument_pred(t, a as int),
            c <= nodes@.len(),
            n == count_below(pred, c as int),
        decreases nodes@.len() - c,
    {
        proof {
            lemma_count_below(pred, c as int);
        }
        let hang = match nodes[c].parent {
            Some(q) => q == a,
            None => false,
        };
        if hang && nodes[c].named {
            let kv = chars_of(nodes[c].kind.as_str());
            let cv = chars_of("comment");
            if find_occurrence(&kv, &cv, 0).is_none() {
                n += 1;
            }
        }
        c += 1;
    }
    n
}

/// The calls of `callee_name` in the tree of `source`, in node order.
pub fn find_call_arg_counts(nodes: &Vec<SyntaxNode>, source: &str, callee_name: &str) -> (r: Vec<
    CallArgCount,
>)
    ensures
        r@ == call_sites_in(node_views(nodes@), source@, callee_name@),
{
    let ghost t = node_views(nodes@);
    let flags = reached_flags(nodes);
    let mut out: Vec<CallArgCount> = Vec::new();
    let mut j: usize = 0;
    while j < nodes.len()
        invariant
            t == node_views(nodes@),
            flags@.len() == nodes@.len(),
            forall|k: int| 0 <= k < flags@.len() ==> flags@[k] == reached(t, k),
            j <= nodes@.len(),
            out@ == sites_below(t, source@, callee_name@, j as int),
        decreases nodes@.len() - j,
    {
        let n = &nodes[j];
        assert(t[j as int] == n@);
        let ghost prev = out@;
        if flags[j] && (kind_is(n, "call") || kind_is(n, "call_expression")) {
            proof {
                lemma_field_child_range(t, j as int, "function"@);
                lemma_field_child_range(t, j as int, "arguments"@);
            }
            if let Some(f) = find_field_child(nodes, j, "function") {
                let name = callee_name_exec(nodes, source, f);
                if same_str(name.as_str(), callee_name) {
                    if let Some(a) = find_field_child(nodes, j, "arguments") {
                        let count = count_arguments(nodes, a);
                        proof {
                            lemma_count_below(argument_pred(t, a as int), t.len() as int);
                        }
                        out.push(CallArgCount { actual_args: count, line_offset: n.row });
                    }
                }
            }
        }
        assert(out@ =~= sites_below(t, source@, callee_name@, j + 1));
        j += 1;
    }
    out
}

/// The calls of `name` in `content`, code from the file at `path`; none
/// where the extension names no supported language or the text does not
/// parse.
pub open spec fn call_sites_spec(content: Seq<char>, name: Seq<char>, path: Seq<char>) -> Seq<
    CallArgCount,
> {
    match grammar_of_path(path) {
        None => seq![],
        Some(g) => match syntax_tree(content, g) {
            None => seq![],
            Some(t) => call_sites_in(t, content, name),
        },
    }
}

/// Every call of `callee_name` in `caller_content`, with its argument count
/// and its row, in document order.
pub fn count_call_arg_sites_ts(caller_content: &str, callee_name: &str, file_path: &str) -> (r: Vec<
    CallArgCount,
>)
    ensures
        r@ == call_sites_spec(caller_content@, callee_name@, file_path@),
{
    let g = match file_grammar(file_path) {
        Some(g) => g,
        None => return Vec::new(),
    };
    let nodes = match parse_nodes(caller_content, g) {
        Some(n) => n,
        None => return Vec::new(),
    };
    find_call_arg_counts(&nodes, caller_content, callee_name)
}

/// The argument count of the first call of `callee_name` in
/// `caller_content`.
pub fn count_call_args_ts(caller_content: &str, callee_name: &str, file_path: &str) -> (r: Option<
    usize,
>)
    ensures
        ({
            let s = call_sites_spec(caller_content@, callee_name@, file_path@);
            if s.len() > 0 {
                r == Some(s[0].actual_args)
            } else {
                r is None
            }
        }),
{
    let sites = count_call_arg_sites_ts(caller_content, callee_name, file_path);
    if sites.len() > 0 {
        Some(sites[0].actual_args)
    } else {
        None
    }
}

} // verus!
