//! Syntax trees from tree-sitter, flattened into their nodes, and the
//! queries over them that the arity checks make.

use vstd::prelude::*;
use vstd::utf8::{
    decode_utf8, encode_utf8, encode_utf8_decode_utf8, encode_utf8_valid_utf8, is_char_boundary,
    is_char_boundary_iff_not_is_continuation_byte, is_char_boundary_start_end_of_seq,
    valid_utf8_split,
};
use vstd::string::StringSliceAdditionalSpecFns;
use crate::text::same_str;

verus! {

/// The grammars whose trees the analyses read.
#[derive(PartialEq, Eq, Structural, Clone, Copy, Debug)]
pub enum Grammar {
    Python,
    TypeScript,
    Tsx,
    JavaScript,
    Rust,
    Go,
}

/// One node of a syntax tree. Nodes are numbered as tree-sitter numbers the
/// descendants of the root: the root is node 0, and a node's parent is
/// given by its number.
pub struct SyntaxNode {
    pub kind: String,
    pub named: bool,
    /// The field by which the node hangs from its parent, if any.
    pub field: Option<String>,
    pub parent: Option<usize>,
    /// The node's byte range in the source.
    pub start: usize,
    pub end: usize,
    /// The zero-based row of the node's first byte.
    pub row: usize,
}

/// What a syntax node says, as plain values.
pub struct NodeView {
    pub kind: Seq<char>,
    pub named: bool,
    pub field: Option<Seq<char>>,
    pub parent: Option<usize>,
    pub start: usize,
    pub end: usize,
    pub row: usize,
}

impl View for SyntaxNode {
    type V = NodeView;

    open spec fn view(&self) -> NodeView {
        NodeView {
            kind: self.kind@,
            named: self.named,
            field: match self.field {
                Some(f) => Some(f@),
                None => None,
            },
            parent: self.parent,
            start: self.start,
            end: self.end,
            row: self.row,
        }
    }
}

pub open spec fn node_views(v: Seq<SyntaxNode>) -> Seq<NodeView> {
    v.map_values(|n: SyntaxNode| n@)
}

/// The syntax tree of tree-sitter (`tree_sitter::Tree`), opaque here: what
/// it holds is read node by node.
#[verifier::external_type_specification]
#[verifier::external_body]
pub struct ExTree(tree_sitter::Tree);

/// The nodes of a parsed tree, in tree-sitter's descendant order.
pub uninterp spec fn tree_nodes(tree: tree_sitter::Tree) -> Seq<NodeView>;

/// The nodes of the tree that `grammar` gives `source`, or `None` where
/// tree-sitter returns no tree.
pub uninterp spec fn syntax_tree(source: Seq<char>, grammar: Grammar) -> Option<Seq<NodeView>>;

/// Parses `source` with the tree-sitter grammar `grammar`
/// (`tree_sitter::Parser::parse`). The tree is a function of the source
/// text and the grammar alone; what it holds is named, not stated.
#[verifier::external_body]
fn parse_source(source: &str, grammar: Grammar) -> (r: Option<tree_sitter::Tree>)
    ensures
        match r {
            Some(t) => syntax_tree(source@, grammar) == Some(tree_nodes(t)),
            None => syntax_tree(source@, grammar) is None,
        },
{
    let language: tree_sitter::Language = match grammar {
        Grammar::Python => tree_sitter_python::LANGUAGE,
        Grammar::TypeScript => tree_sitter_typescript::LANGUAGE_TYPESCRIPT,
        Grammar::Tsx => tree_sitter_typescript::LANGUAGE_TSX,
        Grammar::JavaScript => tree_sitter_javascript::LANGUAGE,
        Grammar::Rust => tree_sitter_rust::LANGUAGE,
        Grammar::Go => tree_sitter_go::LANGUAGE,
    }.into();
    let mut parser = tree_sitter::Parser::new();
    let _ = parser.set_language(&language);
    parser.parse(source.as_bytes(), None)
}

/// The number of nodes of `tree` (`Node::descendant_count` of its root,
/// which counts the root too).
#[verifier::external_body]
fn tree_size(tree: &tree_sitter::Tree) -> (n: usize)
    ensures
        n == tree_nodes(*tree).len(),
{
    tree.root_node().descendant_count()
}

/// Node `i` of `tree`: a cursor from the root moved to descendant `i`
/// (`TreeCursor::goto_descendant`), read for the node's kind, whether it is
/// named, its field name, its byte range and start row, and then moved to
/// the parent for the parent's descendant index.
#[verifier::external_body]
fn tree_node(tree: &tree_sitter::Tree, i: usize) -> (r: SyntaxNode)
    requires
        i < tree_nodes(*tree).len(),
    ensures
        r@ == tree_nodes(*tree)[i as int],
{
    let mut c = tree.walk();
    c.goto_descendant(i);
    let n = c.node();
    let field = c.field_name().map(String::from);
    let parent = c.goto_parent().then_some(c.descendant_index());
    SyntaxNode {
        kind: n.kind().to_string(),
        named: n.is_named(),
        field,
        parent,
        start: n.start_byte(),
        end: n.end_byte(),
        row: n.start_position().row,
    }
}

/// The nodes of the tree of `source` under `grammar`.
pub fn parse_nodes(source: &str, grammar: Grammar) -> (r: Option<Vec<SyntaxNode>>)
    ensures
        match r {
            Some(v) => syntax_tree(source@, grammar) == Some(node_views(v@)),
            None => syntax_tree(source@, grammar) is None,
        },
{
    let tree = match parse_source(source, grammar) {
        Some(t) => t,
        None => return None,
    };
    let n = tree_size(&tree);
    let mut out: Vec<SyntaxNode> = Vec::new();
    let mut i: usize = 0;
    while i < n
        invariant
            n == tree_nodes(tree).len(),
            i <= n,
            node_views(out@) == tree_nodes(tree).take(i as int),
        decreases n - i,
    {
        let node = tree_node(&tree, i);
        let ghost prev = node_views(out@);
        out.push(node);
        assert(node_views(out@) =~= prev.push(node@));
        assert(tree_nodes(tree).take(i + 1) =~= tree_nodes(tree).take(i as int).push(
            tree_nodes(tree)[i as int],
        ));
        i += 1;
    }
    assert(tree_nodes(tree).take(n as int) =~= tree_nodes(tree));
    Some(out)
}

/// The text of bytes `start..end` of `source`, as `Node::utf8_text` reads
/// it, or empty where the range does not cut the source at character
/// boundaries.
pub open spec fn source_text(source: Seq<char>, start: int, end: int) -> Seq<char> {
    let b = encode_utf8(source);
    if 0 <= start <= end <= b.len() && is_char_boundary(b, start) && is_char_boundary(b, end) {
        decode_utf8(b.subrange(start, end))
    } else {
        seq![]
    }
}

/// The text of node `n` in `source`.
pub open spec fn node_text(source: Seq<char>, n: NodeView) -> Seq<char> {
    source_text(source, n.start as int, n.end as int)
}

/// The text of bytes `start..end` of `source`.
pub fn text_at(source: &str, start: usize, end: usize) -> (r: &str)
    ensures
        r@ == source_text(source@, start as int, end as int),
{
    let ghost b = source.spec_bytes();
    proof {
        encode_utf8_valid_utf8(source@);
        reveal_strlit("");
    }
    let len = source.as_bytes().len();
    if !(start <= end && end <= len) {
        assert(""@ == Seq::<char>::empty());
        return "";
    }
    let c1 = source.is_char_boundary(start);
    assert(c1 == is_char_boundary(b, start as int));
    let c2 = source.is_char_boundary(end);
    assert(c2 == is_char_boundary(b, end as int));
    if !c1 || !c2 {
        assert(b == encode_utf8(source@));
        assert(!(0 <= start <= end <= b.len() && is_char_boundary(b, start as int)
            && is_char_boundary(b, end as int)));
        assert(""@ == Seq::<char>::empty());
        return "";
    }
    let (head, _) = source.split_at(end);
    proof {
        valid_utf8_split(b, end as int);
        assert(head.spec_bytes() == b.subrange(0, end as int));
        if start < end {
            is_char_boundary_iff_not_is_continuation_byte(b, start as int);
            is_char_boundary_iff_not_is_continuation_byte(head.spec_bytes(), start as int);
        } else {
            is_char_boundary_start_end_of_seq(head.spec_bytes());
        }
    }
    let (_, piece) = head.split_at(start);
    proof {
        assert(piece.spec_bytes() =~= b.subrange(start as int, end as int));
        encode_utf8_decode_utf8(piece@);
    }
    piece
}


// ---------------------------------------------------------------------------
// Queries over the nodes of a tree

/// The first index in `i..n` that satisfies `p`.
pub open spec fn first_from(n: int, p: spec_fn(int) -> bool, i: int) -> Option<int>
    decreases n - i,
{
    if i < 0 || i >= n {
        None
    } else if p(i) {
        Some(i)
    } else {
        first_from(n, p, i + 1)
    }
}

pub proof fn lemma_first_from(n: int, p: spec_fn(int) -> bool, i: int)
    requires
        0 <= i,
    ensures
        first_from(n, p, i) matches Some(k) ==> i <= k < n && p(k) && forall|j: int|
            i <= j < k ==> !#[trigger] p(j),
        first_from(n, p, i) is None ==> forall|j: int| i <= j < n ==> !#[trigger] p(j),
    decreases n - i,
{
    if i < n && !p(i) {
        lemma_first_from(n, p, i + 1);
    }
}

/// How many indices below `n` satisfy `p`.
pub open spec fn count_below(p: spec_fn(int) -> bool, n: int) -> nat
    decreases n,
{
    if n <= 0 {
        0
    } else {
        count_below(p, n - 1) + if p(n - 1) {
            1nat
        } else {
            0nat
        }
    }
}

pub proof fn lemma_count_below(p: spec_fn(int) -> bool, n: int)
    requires
        0 <= n,
    ensures
        count_below(p, n) <= n,
    decreases n,
{
    if n > 0 {
        lemma_count_below(p, n - 1);
    }
}

/// Node `j` hangs from node `p`.
pub open spec fn hangs_from(t: Seq<NodeView>, j: int, p: int) -> bool {
    &&& 0 <= j < t.len()
    &&& t[j].parent matches Some(q)
    &&& q == p
}

/// Node `j` hangs from node `p` by the field `f`.
pub open spec fn field_child_pred(t: Seq<NodeView>, p: int, f: Seq<char>) -> spec_fn(int) -> bool {
    |j: int| hangs_from(t, j, p) && t[j].field == Some(f)
}

/// Node `j` is a named child of node `p`.
pub open spec fn named_child_pred(t: Seq<NodeView>, p: int) -> spec_fn(int) -> bool {
    |j: int| hangs_from(t, j, p) && t[j].named
}

/// `Node::child_by_field_name`: the first child of `p` with field `f`.
pub open spec fn field_child(t: Seq<NodeView>, p: int, f: Seq<char>) -> Option<int> {
    first_from(t.len() as int, field_child_pred(t, p, f), 0)
}

/// `Node::named_child(0)`: the first named child of `p`.
pub open spec fn first_named_child(t: Seq<NodeView>, p: int) -> Option<int> {
    first_from(t.len() as int, named_child_pred(t, p), 0)
}

/// Whether node `n` hangs by the field `f`.
pub fn field_is(n: &SyntaxNode, f: &str) -> (r: bool)
    ensures
        r == (n@.field == Some(f@)),
{
    match &n.field {
        Some(x) => same_str(x.as_str(), f),
        None => false,
    }
}

fn hangs_from_exec(nodes: &Vec<SyntaxNode>, j: usize, p: usize) -> (r: bool)
    requires
        j < nodes@.len(),
    ensures
        r == hangs_from(node_views(nodes@), j as int, p as int),
{
    match nodes[j].parent {
        Some(q) => q == p,
        None => false,
    }
}

/// The first child of node `p` that hangs by field `f`.
pub fn find_field_child(nodes: &Vec<SyntaxNode>, p: usize, f: &str) -> (r: Option<usize>)
    ensures
        r matches Some(k) ==> field_child(node_views(nodes@), p as int, f@) == Some(k as int),
        r is None ==> field_child(node_views(nodes@), p as int, f@) is None,
{
    let ghost t = node_views(nodes@);
    let ghost pred = field_child_pred(t, p as int, f@);
    let mut j: usize = 0;
    while j < nodes.len()
        invariant
            t == node_views(nodes@),
            pred == field_child_pred(t, p as int, f@),
            j <= nodes@.len(),
            first_from(t.len() as int, pred, 0) == first_from(t.len() as int, pred, j as int),
        decreases nodes@.len() - j,
    {
        if hangs_from_exec(nodes, j, p) && field_is(&nodes[j], f) {
            return Some(j);
        }
        j += 1;
    }
    None
}

/// The first named child of node `p`.
pub fn find_first_named_child(nodes: &Vec<SyntaxNode>, p: usize) -> (r: Option<usize>)
    ensures
        r matches Some(k) ==> first_named_child(node_views(nodes@), p as int) == Some(k as int),
        r is None ==> first_named_child(node_views(nodes@), p as int) is None,
{
    let ghost t = node_views(nodes@);
    let ghost pred = named_child_pred(t, p as int);
    let mut j: usize = 0;
    while j < nodes.len()
        invariant
            t == node_views(nodes@),
            pred == named_child_pred(t, p as int),
            j <= nodes@.len(),
            first_from(t.len() as int, pred, 0) == first_from(t.len() as int, pred, j as int),
        decreases nodes@.len() - j,
    {
        if hangs_from_exec(nodes, j, p) && nodes[j].named {
            return Some(j);
        }
        j += 1;
    }
    None
}

/// Node `j` is visited by a walk that starts at the root and descends only
/// into named children: the root, and every named node whose parent comes
/// before it and is visited.
pub open spec fn reached(t: Seq<NodeView>, j: int) -> bool
    decreases j,
{
    if j == 0 {
        t.len() > 0
    } else if 0 < j < t.len() && t[j].named {
        match t[j].parent {
            Some(p) => if p < j {
                reached(t, p as int)
            } else {
                false
            },
            None => false,
        }
    } else {
        false
    }
}

/// Which nodes the walk from the root visits.
pub fn reached_flags(nodes: &Vec<SyntaxNode>) -> (r: Vec<bool>)
    ensures
        r@.len() == nodes@.len(),
        forall|j: int| 0 <= j < r@.len() ==> r@[j] == reached(node_views(nodes@), j),
{
    let ghost t = node_views(nodes@);
    let mut flags: Vec<bool> = Vec::new();
    let mut j: usize = 0;
    while j < nodes.len()
        invariant
            t == node_views(nodes@),
            j <= nodes@.len(),
            flags@.len() == j,
            forall|k: int| 0 <= k < j ==> flags@[k] == reached(t, k),
        decreases nodes@.len() - j,
    {
        let n = &nodes[j];
        assert(t[j as int] == n@);
        let f = if j == 0 {
            true
        } else if !n.named {
            false
        } else {
            match n.parent {
                Some(p) => p < j && flags[p],
                None => false,
            }
        };
        proof {
            if let Some(p) = n.parent {
                if p < j {
                    assert(flags@[p as int] == reached(t, p as int));
                }
            }
            assert(f == reached(t, j as int));
        }
        flags.push(f);
        j += 1;
    }
    flags
}

/// The kinds of function-like nodes.
pub open spec fn is_function_kind(k: Seq<char>) -> bool {
    ||| k == "function_definition"@
    ||| k == "function_item"@
    ||| k == "function_declaration"@
    ||| k == "method_definition"@
    ||| k == "method_declaration"@
    ||| k == "arrow_function"@
}

fn function_kind(k: &str) -> (r: bool)
    ensures
        r == is_function_kind(k@),
{
    same_str(k, "function_definition") || same_str(k, "function_item") || same_str(
        k,
        "function_declaration",
    ) || same_str(k, "method_definition") || same_str(k, "method_declaration") || same_str(
        k,
        "arrow_function",
    )
}

pub open spec fn function_pred(t: Seq<NodeView>) -> spec_fn(int) -> bool {
    |j: int| reached(t, j) && is_function_kind(t[j].kind)
}

/// The first function-like node that the walk from the root visits. Since
/// tree-sitter numbers nodes in document order, parents first, this is
/// the node the worklist search in document order finds first.
pub open spec fn first_function(t: Seq<NodeView>) -> Option<int> {
    first_from(t.len() as int, function_pred(t), 0)
}

pub fn find_first_function(nodes: &Vec<SyntaxNode>) -> (r: Option<usize>)
    ensures
        r matches Some(k) ==> first_function(node_views(nodes@)) == Some(k as int),
        r is None ==> first_function(node_views(nodes@)) is None,
{
    let ghost t = node_views(nodes@);
    let ghost pred = function_pred(t);
    let flags = reached_flags(nodes);
    let mut j: usize = 0;
    while j < nodes.len()
        invariant
            t == node_views(nodes@),
            pred == function_pred(t),
            flags@.len() == nodes@.len(),
            forall|k: int| 0 <= k < flags@.len() ==> flags@[k] == reached(t, k),
            j <= nodes@.len(),
            first_from(t.len() as int, pred, 0) == first_from(t.len() as int, pred, j as int),
        decreases nodes@.len() - j,
    {
        assert(t[j as int] == nodes@[j as int]@);
        if flags[j] && function_kind(nodes[j].kind.as_str()) {
            return Some(j);
        }
        j += 1;
    }
    None
}

} // verus!
