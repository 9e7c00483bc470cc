//! Paths taken apart lexically, as `std::path::Path::components` does on
//! Unix: the root, a leading `.`, and the named pieces between slashes.

use vstd::prelude::*;
use crate::text::{chars_of, index_of_from, lemma_index_of_from, find_char_from};
use crate::paths::range_is;

verus! {

/// The end of the piece of `s` that starts at `i`: the next `'/'`, or the end.
pub open spec fn piece_end(s: Seq<char>, i: int) -> int {
    match index_of_from(s, '/', i) {
        Some(j) => j,
        None => s.len() as int,
    }
}

/// The named pieces of `s` from index `i` on: the text between slashes,
/// without empty pieces and without `.`.
pub open spec fn pieces_from(s: Seq<char>, i: int) -> Seq<Seq<char>>
    decreases s.len() - i,
{
    if i < 0 || i > s.len() {
        seq![]
    } else {
        let j = piece_end(s, i);
        let piece = s.subrange(i, j);
        let kept: Seq<Seq<char>> = if piece.len() > 0 && piece != seq!['.'] {
            seq![piece]
        } else {
            seq![]
        };
        if j < s.len() {
            proof {
                lemma_index_of_from(s, '/', i);
            }
            kept + pieces_from(s, j + 1)
        } else {
            kept
        }
    }
}

/// The root component, written as a lone `/`.
pub open spec fn root_mark() -> Seq<char> {
    seq!['/']
}

/// The current-directory component that a relative path starting with `.`
/// has, written as a lone `.`.
pub open spec fn cur_mark() -> Seq<char> {
    seq!['.']
}

/// The components of `s`: the root if it starts with `/`, else `.` if its
/// first piece is `.`, then its named pieces.
pub open spec fn components(s: Seq<char>) -> Seq<Seq<char>> {
    if s.len() > 0 && s[0] == '/' {
        seq![root_mark()] + pieces_from(s, 1)
    } else if s.len() > 0 && s[0] == '.' && (s.len() == 1 || s[1] == '/') {
        seq![cur_mark()] + pieces_from(s, 0)
    } else {
        pieces_from(s, 0)
    }
}

/// `Path::starts_with`: the components of `base` begin the components of `p`.
pub open spec fn path_starts_with(p: Seq<char>, base: Seq<char>) -> bool {
    let a = components(p);
    let b = components(base);
    b.len() <= a.len() && a.take(b.len() as int) == b
}

/// One step of lexical normalisation, over a root flag and named parts: a
/// root sets the flag, `.` is dropped, `..` removes the last named part
/// (kept at the root, and kept when there is nothing or only `..` to
/// remove), and any other part is appended.
pub open spec fn normalize_step(acc: (bool, Seq<Seq<char>>), c: Seq<char>) -> (bool, Seq<Seq<char>>) {
    let (root, parts) = acc;
    if c == root_mark() {
        (true, parts)
    } else if c == cur_mark() {
        (root, parts)
    } else if c == seq!['.', '.'] {
        if parts.len() == 0 {
            if root {
                (root, parts)
            } else {
                (root, parts.push(c))
            }
        } else if parts.last() == seq!['.', '.'] {
            (root, parts.push(c))
        } else {
            (root, parts.drop_last())
        }
    } else {
        (root, parts.push(c))
    }
}

pub open spec fn normalize_below(cs: Seq<Seq<char>>, n: int) -> (bool, Seq<Seq<char>>)
    decreases n,
{
    if n <= 0 {
        (false, seq![])
    } else {
        normalize_step(normalize_below(cs, n - 1), cs[n - 1])
    }
}

/// Parts joined with `/`.
pub open spec fn join_parts(parts: Seq<Seq<char>>) -> Seq<char>
    decreases parts.len(),
{
    if parts.len() == 0 {
        seq![]
    } else if parts.len() == 1 {
        parts[0]
    } else {
        join_parts(parts.drop_last()) + seq!['/'] + parts.last()
    }
}

/// A root flag and parts written as a path.
pub open spec fn render(root: bool, parts: Seq<Seq<char>>) -> Seq<char> {
    (if root { seq!['/'] } else { seq![] }) + join_parts(parts)
}

/// The lexically normalised form of `s`.
pub open spec fn normalized(s: Seq<char>) -> Seq<char> {
    let cs = components(s);
    let (root, parts) = normalize_below(cs, cs.len() as int);
    render(root, parts)
}

/// One component of a path, as a range of its characters: the root, a
/// leading `.`, or a named piece.
#[derive(Clone, Copy)]
pub struct Component {
    pub kind: u8,
    pub start: usize,
    pub end: usize,
}

pub open spec fn component_text(v: Seq<char>, c: Component) -> Seq<char> {
    if c.kind == 0 {
        root_mark()
    } else if c.kind == 1 {
        cur_mark()
    } else {
        v.subrange(c.start as int, c.end as int)
    }
}

pub open spec fn component_texts(v: Seq<char>, cs: Seq<Component>) -> Seq<Seq<char>> {
    cs.map_values(|c: Component| component_text(v, c))
}

pub open spec fn components_in(v: Seq<char>, cs: Seq<Component>) -> bool {
    forall|k: int|
        0 <= k < cs.len() ==> (#[trigger] cs[k]).kind <= 2 && (cs[k].kind == 2 ==> cs[k].start
            <= cs[k].end <= v.len() && piece_like(v.subrange(cs[k].start as int, cs[k].end as int)))
}

fn piece_end_exec(v: &Vec<char>, i: usize) -> (j: usize)
    requires
        i <= v@.len(),
    ensures
        j as int == piece_end(v@, i as int),
        i <= j <= v@.len(),
{
    proof {
        lemma_index_of_from(v@, '/', i as int);
    }
    match find_char_from(v, '/', i) {
        Some(j) => j,
        None => v.len(),
    }
}

/// The components of the path `v`.
fn parse_components(v: &Vec<char>) -> (r: Vec<Component>)
    ensures
        components_in(v@, r@),
        component_texts(v@, r@) == components(v@),
{
    let mut out: Vec<Component> = Vec::new();
    let mut i: usize;
    if v.len() > 0 && v[0] == '/' {
        out.push(Component { kind: 0, start: 0, end: 0 });
        i = 1;
    } else if v.len() > 0 && v[0] == '.' && (v.len() == 1 || v[1] == '/') {
        out.push(Component { kind: 1, start: 0, end: 0 });
        i = 0;
    } else {
        i = 0;
    }
    let ghost head = component_texts(v@, out@);
    assert(components(v@) == head + pieces_from(v@, i as int));
    loop
        invariant
            i <= v@.len(),
            components_in(v@, out@),
            components(v@) == component_texts(v@, out@) + pieces_from(v@, i as int),
        decreases v@.len() - i,
    {
        let j = piece_end_exec(v, i);
        let ghost before = component_texts(v@, out@);
        let ghost piece = v@.subrange(i as int, j as int);
        let keep = j > i && !(j == i + 1 && v[i] == '.');
        assert(keep == (piece.len() > 0 && piece != seq!['.'])) by {
            if j == i + 1 {
                assert(piece =~= seq![v@[i as int]]);
            }
            if piece =~= seq!['.'] {
                assert(piece[0] == v@[i as int]);
            }
        }
        if keep {
            assert(piece_like(piece)) by {
                lemma_index_of_from(v@, '/', i as int);
            }
            out.push(Component { kind: 2, start: i, end: j });
            assert(component_texts(v@, out@) =~= before + seq![piece]);
        }
        if j == v.len() {
            assert(component_texts(v@, out@) =~= component_texts(v@, out@) + Seq::<
                Seq<char>,
            >::empty());
            return out;
        }
        i = j + 1;
    }
}

/// `Path::starts_with` on text paths: the components of `base` begin those
/// of `path`.
pub fn path_starts_with_exec(path: &str, base: &str) -> (r: bool)
    ensures
        r == path_starts_with(path@, base@),
{
    let pv = chars_of(path);
    let bv = chars_of(base);
    let pc = parse_components(&pv);
    let bc = parse_components(&bv);
    let ghost a = components(path@);
    let ghost b = components(base@);
    if bc.len() > pc.len() {
        return false;
    }
    let mut k: usize = 0;
    while k < bc.len()
        invariant
            pv@ == path@,
            bv@ == base@,
            components_in(pv@, pc@),
            components_in(bv@, bc@),
            component_texts(pv@, pc@) == a,
            component_texts(bv@, bc@) == b,
            a == components(path@),
            b == components(base@),
            bc@.len() <= pc@.len(),
            k <= bc@.len(),
            forall|t: int| 0 <= t < k ==> a[t] == b[t],
        decreases bc@.len() - k,
    {
        let x = &pc[k];
        let y = &bc[k];
        assert(a[k as int] == component_text(pv@, *x));
        assert(b[k as int] == component_text(bv@, *y));
        let same = if x.kind != 2 || y.kind != 2 {
            x.kind == y.kind
        } else {
            same_text(&pv, x.start, x.end, &bv, y.start, y.end)
        };
        if !same {
            assert(a[k as int] != b[k as int]) by {
                lemma_marks_differ(pv@, bv@, *x, *y);
            }
            assert(a.take(b.len() as int)[k as int] != b[k as int]);
            return false;
        }
        proof {
            lemma_marks_differ(pv@, bv@, *x, *y);
        }
        k += 1;
    }
    assert(a.take(b.len() as int) =~= b);
    true
}

/// Texts of components of different kinds differ, and so do marks of
/// different kinds; named pieces are never marks.
proof fn lemma_marks_differ(v: Seq<char>, w: Seq<char>, x: Component, y: Component)
    requires
        x.kind <= 2,
        y.kind <= 2,
        x.kind == 2 ==> x.start <= x.end <= v.len() && piece_like(v.subrange(x.start as int, x.end as int)),
        y.kind == 2 ==> y.start <= y.end <= w.len() && piece_like(w.subrange(y.start as int, y.end as int)),
    ensures
        (x.kind != 2 || y.kind != 2) ==> ((component_text(v, x) == component_text(w, y)) == (x.kind
            == y.kind)),
{
    let tx = component_text(v, x);
    let ty = component_text(w, y);
    assert(root_mark()[0] != cur_mark()[0]);
    if x.kind == 2 && y.kind != 2 && ty == tx {
        assert(ty.len() == 1);
        assert(tx[0] != '/');
        assert(y.kind == 0 ==> ty[0] == '/');
    }
    if y.kind == 2 && x.kind != 2 && ty == tx {
        assert(tx.len() == 1);
        assert(ty[0] != '/');
        assert(x.kind == 0 ==> tx[0] == '/');
    }
}

/// A named piece: not empty, not `.`, and free of `/`.
pub open spec fn piece_like(p: Seq<char>) -> bool {
    p.len() > 0 && p != seq!['.'] && forall|t: int| 0 <= t < p.len() ==> p[t] != '/'
}

fn same_text(v: &Vec<char>, a: usize, b: usize, w: &Vec<char>, c: usize, d: usize) -> (r: bool)
    requires
        a <= b <= v@.len(),
        c <= d <= w@.len(),
    ensures
        r == (v@.subrange(a as int, b as int) == w@.subrange(c as int, d as int)),
{
    if b - a != d - c {
        assert(v@.subrange(a as int, b as int).len() != w@.subrange(c as int, d as int).len());
        return false;
    }
    let mut k: usize = 0;
    while k < b - a
        invariant
            a <= b <= v@.len(),
            c <= d <= w@.len(),
            b - a == d - c,
            k <= b - a,
            forall|t: int|
                0 <= t < k ==> #[trigger] v@.subrange(a as int, b as int)[t] == w@.subrange(
                    c as int,
                    d as int,
                )[t],
        decreases b - a - k,
    {
        if v[a + k] != w[c + k] {
            assert(v@.subrange(a as int, b as int)[k as int] != w@.subrange(c as int, d as int)[k as int]);
            return false;
        }
        k += 1;
    }
    assert(v@.subrange(a as int, b as int) =~= w@.subrange(c as int, d as int));
    true
}


/// The piece `v[c.start..c.end]` is `..`.
fn is_parent_piece(v: &Vec<char>, c: &Component) -> (r: bool)
    requires
        c.start <= c.end <= v@.len(),
    ensures
        r == (v@.subrange(c.start as int, c.end as int) == seq!['.', '.']),
{
    let r = c.end - c.start == 2 && v[c.start] == '.' && v[c.start + 1] == '.';
    proof {
        let p = v@.subrange(c.start as int, c.end as int);
        if p =~= seq!['.', '.'] {
            assert(p[0] == v@[c.start as int] && p[1] == v@[c.start + 1]);
        }
        if r {
            assert(p =~= seq!['.', '.']);
        }
    }
    r
}

/// Parts joined with `/` after an optional root, for the first `n` parts.
proof fn lemma_join_step(parts: Seq<Seq<char>>, n: int)
    requires
        0 <= n < parts.len(),
    ensures
        join_parts(parts.take(n + 1)) == if n == 0 {
            parts[0]
        } else {
            join_parts(parts.take(n)) + seq!['/'] + parts[n]
        },
{
    assert(parts.take(n + 1).drop_last() =~= parts.take(n));
}

/// The path `path` normalised lexically, as `normalize_lexical` in the
/// cache layout does: `.` dropped, `..` folded into the part before it,
/// never above the root, and kept where nothing named precedes it.
pub fn normalize_lexical(path: &str) -> (r: String)
    ensures
        r@ == normalized(path@),
{
    let v = chars_of(path);
    let cs = parse_components(&v);
    let ghost texts = component_texts(v@, cs@);
    let mut root = false;
    let mut parts: Vec<Component> = Vec::new();
    let mut k: usize = 0;
    while k < cs.len()
        invariant
            v@ == path@,
            components_in(v@, cs@),
            texts == component_texts(v@, cs@),
            texts == components(path@),
            k <= cs@.len(),
            components_in(v@, parts@),
            forall|t: int| 0 <= t < parts@.len() ==> (#[trigger] parts@[t]).kind == 2,
            root == normalize_below(texts, k as int).0,
            component_texts(v@, parts@) == normalize_below(texts, k as int).1,
        decreases cs@.len() - k,
    {
        let c = cs[k];
        let ghost before = component_texts(v@, parts@);
        assert(texts[k as int] == component_text(v@, c));
        assert(normalize_below(texts, k + 1) == normalize_step(
            normalize_below(texts, k as int),
            texts[k as int],
        ));
        assert(c == cs@[k as int]);
        assert(root_mark()[0] != cur_mark()[0]);
        if c.kind == 0 {
            root = true;
        } else if c.kind == 1 {
        } else {
            let ghost p = v@.subrange(c.start as int, c.end as int);
            assert(piece_like(p));
            assert(p != root_mark()) by {
                if p == root_mark() {
                    assert(p[0] == '/');
                }
            }
            if is_parent_piece(&v, &c) {
                if parts.len() == 0 {
                    if !root {
                        parts.push(c);
                        assert(component_texts(v@, parts@) =~= before.push(p));
                    }
                } else {
                    let last = parts[parts.len() - 1];
                    assert(before.last() == component_text(v@, last));
                    if is_parent_piece(&v, &last) {
                        parts.push(c);
                        assert(component_texts(v@, parts@) =~= before.push(p));
                    } else {
                        parts.pop();
                        assert(component_texts(v@, parts@) =~= before.drop_last());
                    }
                }
            } else {
                parts.push(c);
                assert(component_texts(v@, parts@) =~= before.push(p));
            }
        }
        k += 1;
    }
    let ghost pt = component_texts(v@, parts@);
    let mut out = String::new();
    if root {
        out.append("/");
    }
    proof {
        reveal_strlit("/");
        assert(pt.take(0) =~= Seq::<Seq<char>>::empty());
    }
    let ghost head: Seq<char> = if root { seq!['/'] } else { seq![] };
    assert(out@ =~= head + join_parts(pt.take(0)));
    let mut i: usize = 0;
    while i < parts.len()
        invariant
            v@ == path@,
            components_in(v@, parts@),
            forall|t: int| 0 <= t < parts@.len() ==> (#[trigger] parts@[t]).kind == 2,
            pt == component_texts(v@, parts@),
            i <= parts@.len(),
            out@ == head + join_parts(pt.take(i as int)),
        decreases parts@.len() - i,
    {
        let c = parts[i];
        assert(pt[i as int] == path@.subrange(c.start as int, c.end as int));
        proof {
            lemma_join_step(pt, i as int);
            reveal_strlit("/");
        }
        if i > 0 {
            out.append("/");
        }
        out.append(path.substring_char(c.start, c.end));
        assert(out@ =~= head + join_parts(pt.take(i + 1)));
        i += 1;
    }
    assert(pt.take(parts@.len() as int) =~= pt);
    out
}

/// Whether a candidate cache directory lies outside the repository: neither
/// its lexical nor its resolved form starts with either form of the
/// repository's path.
pub open spec fn external_to_repo(
    candidate_lexical: Seq<char>,
    candidate_resolved: Seq<char>,
    repo_lexical: Seq<char>,
    repo_resolved: Seq<char>,
) -> bool {
    &&& !path_starts_with(candidate_lexical, repo_lexical)
    &&& !path_starts_with(candidate_lexical, repo_resolved)
    &&& !path_starts_with(candidate_resolved, repo_lexical)
    &&& !path_starts_with(candidate_resolved, repo_resolved)
}

pub fn path_is_external_to_repo(
    candidate_lexical: &str,
    candidate_resolved: &str,
    repo_lexical: &str,
    repo_resolved: &str,
) -> (r: bool)
    ensures
        r == external_to_repo(candidate_lexical@, candidate_resolved@, repo_lexical@, repo_resolved@),
{
    let lexical_is_inside = path_starts_with_exec(candidate_lexical, repo_lexical)
        || path_starts_with_exec(candidate_lexical, repo_resolved);
    let resolved_is_inside = path_starts_with_exec(candidate_resolved, repo_lexical)
        || path_starts_with_exec(candidate_resolved, repo_resolved);
    !lexical_is_inside && !resolved_is_inside
}

/// `PathBuf::join` on Unix text paths: an absolute `part` replaces `base`;
/// otherwise a `/` goes between them unless `base` is empty or already
/// ends with one.
pub open spec fn joined(base: Seq<char>, part: Seq<char>) -> Seq<char> {
    if part.len() > 0 && part[0] == '/' {
        part
    } else if base.len() == 0 || base.last() == '/' {
        base + part
    } else {
        base + seq!['/'] + part
    }
}

pub fn path_join(base: &str, part: &str) -> (r: String)
    ensures
        r@ == joined(base@, part@),
{
    proof {
        reveal_strlit("/");
    }
    let n = base.unicode_len();
    let m = part.unicode_len();
    if m > 0 && part.get_char(0) == '/' {
        return part.to_owned();
    }
    let mut out = base.to_owned();
    if n > 0 && base.get_char(n - 1) != '/' {
        out.append("/");
    }
    out.append(part);
    out
}


/// Component texts written as a path: a leading root as `/`, the rest
/// joined with `/`.
pub open spec fn render_components(cs: Seq<Seq<char>>) -> Seq<char> {
    if cs.len() > 0 && cs[0] == root_mark() {
        render(true, cs.drop_first())
    } else {
        render(false, cs)
    }
}

/// `Path::strip_prefix` on canonical text paths: the components of `path`
/// after those of `base`, where `base` begins `path`.
pub open spec fn stripped(path: Seq<char>, base: Seq<char>) -> Option<Seq<char>> {
    if path_starts_with(path, base) {
        Some(render_components(components(path).skip(components(base).len() as int)))
    } else {
        None
    }
}

/// The components of `path` after those of `base`, where `base` begins
/// `path`, written as a path.
pub fn strip_path_prefix(path: &str, base: &str) -> (r: Option<String>)
    ensures
        match stripped(path@, base@) {
            Some(s) => r matches Some(t) && t@ == s,
            None => r is None,
        },
{
    if !path_starts_with_exec(path, base) {
        return None;
    }
    let pv = chars_of(path);
    let bv = chars_of(base);
    let pc = parse_components(&pv);
    let bc = parse_components(&bv);
    let ghost all = component_texts(pv@, pc@);
    let ghost rest = all.skip(bc@.len() as int);
    assert(bc@.len() == components(base@).len());
    let mut out = String::new();
    let mut i = bc.len();
    proof {
        reveal_strlit("/");
    }
    if i < pc.len() && pc[i].kind == 0 {
        out.append("/");
        i += 1;
    }
    let start = i;
    let ghost root = rest.len() > 0 && rest[0] == root_mark();
    assert(root == (start > bc@.len())) by {
        if rest.len() > 0 {
            assert(rest[0] == all[bc@.len() as int]);
            lemma_marks_differ(pv@, pv@, pc@[bc@.len() as int], Component { kind: 0, start: 0, end: 0 });
        }
    }
    let ghost parts = if root { rest.drop_first() } else { rest };
    assert(parts =~= all.skip(start as int));
    assert(out@ =~= (if root { seq!['/'] } else { Seq::<char>::empty() }) + join_parts(parts.take(0)));
    while i < pc.len()
        invariant
            pv@ == path@,
            components_in(pv@, pc@),
            all == component_texts(pv@, pc@),
            bc@.len() <= start <= i <= pc@.len(),
            parts == all.skip(start as int),
            out@ == (if root { seq!['/'] } else { Seq::<char>::empty() }) + join_parts(
                parts.take(i - start),
            ),
        decreases pc@.len() - i,
    {
        let c = pc[i];
        proof {
            lemma_join_step(parts, i - start);
            reveal_strlit("/");
        }
        if i > start {
            out.append("/");
        }
        let text = component_string(path, c);
        out.append(text.as_str());
        assert(parts[i - start] == all[i as int]);
        assert(out@ =~= (if root { seq!['/'] } else { Seq::<char>::empty() }) + join_parts(
            parts.take(i - start + 1),
        ));
        i += 1;
    }
    assert(parts.take(pc@.len() - start) =~= parts);
    Some(out)
}

/// The text of component `c` of `path`.
fn component_string(path: &str, c: Component) -> (r: String)
    requires
        c.kind <= 2,
        c.kind == 2 ==> c.start <= c.end <= path@.len(),
    ensures
        r@ == component_text(path@, c),
{
    proof {
        reveal_strlit("/");
        reveal_strlit(".");
    }
    if c.kind == 0 {
        String::from_str("/")
    } else if c.kind == 1 {
        String::from_str(".")
    } else {
        path.substring_char(c.start, c.end).to_owned()
    }
}


/// `Path::parent` on text paths: the path without its last component;
/// none for the empty path and for a path that ends in its root.
pub open spec fn parent_of(path: Seq<char>) -> Option<Seq<char>> {
    let cs = components(path);
    if cs.len() == 0 || cs.last() == root_mark() {
        None
    } else {
        Some(render_components(cs.drop_last()))
    }
}

pub fn path_parent(path: &str) -> (r: Option<String>)
    ensures
        match parent_of(path@) {
            Some(p) => r matches Some(q) && q@ == p,
            None => r is None,
        },
{
    let pv = chars_of(path);
    let pc = parse_components(&pv);
    let ghost all = component_texts(pv@, pc@);
    let n = pc.len();
    if n == 0 {
        return None;
    }
    assert(all.last() == component_text(pv@, pc@[n - 1]));
    proof {
        lemma_marks_differ(pv@, pv@, pc@[n - 1], Component { kind: 0, start: 0, end: 0 });
    }
    if pc[n - 1].kind == 0 {
        return None;
    }
    let ghost kept = all.drop_last();
    let mut out = String::new();
    let mut i: usize = 0;
    proof {
        reveal_strlit("/");
    }
    if n - 1 > 0 && pc[0].kind == 0 {
        out.append("/");
        i = 1;
    }
    let start = i;
    let ghost root = kept.len() > 0 && kept[0] == root_mark();
    assert(root == (start == 1)) by {
        if kept.len() > 0 {
            assert(kept[0] == all[0]);
            lemma_marks_differ(pv@, pv@, pc@[0], Component { kind: 0, start: 0, end: 0 });
        }
    }
    let ghost parts = if root { kept.drop_first() } else { kept };
    assert(parts =~= all.subrange(start as int, n - 1));
    assert(out@ =~= (if root { seq!['/'] } else { Seq::<char>::empty() }) + join_parts(parts.take(0)));
    while i < n - 1
        invariant
            pv@ == path@,
            n == pc@.len(),
            components_in(pv@, pc@),
            all == component_texts(pv@, pc@),
            start <= i <= n - 1,
            start <= 1,
            parts == all.subrange(start as int, n - 1),
            out@ == (if root { seq!['/'] } else { Seq::<char>::empty() }) + join_parts(
                parts.take(i - start),
            ),
        decreases n - 1 - i,
    {
        let c = pc[i];
        proof {
            lemma_join_step(parts, i - start);
            reveal_strlit("/");
        }
        if i > start {
            out.append("/");
        }
        let text = component_string(path, c);
        out.append(text.as_str());
        assert(parts[i - start] == all[i as int]);
        assert(out@ =~= (if root { seq!['/'] } else { Seq::<char>::empty() }) + join_parts(
            parts.take(i - start + 1),
        ));
        i += 1;
    }
    assert(parts.take(n - 1 - start) =~= parts);
    Some(out)
}


proof fn lemma_index_of_from_append(s: Seq<char>, t: Seq<char>, c: char, i: int)
    requires
        0 <= i <= s.len(),
    ensures
        index_of_from(s + t, c, i) == match index_of_from(s, c, i) {
            Some(k) => Some(k),
            None => index_of_from(s + t, c, s.len() as int),
        },
    decreases s.len() - i,
{
    if i < s.len() {
        assert((s + t)[i] == s[i]);
        if s[i] != c {
            lemma_index_of_from_append(s, t, c, i + 1);
        }
    }
}

proof fn lemma_pieces_with_dot(s: Seq<char>, i: int)
    requires
        0 <= i <= s.len(),
    ensures
        pieces_from(s + seq!['/', '.'], i) == pieces_from(s, i),
    decreases s.len() - i,
{
    let s2 = s + seq!['/', '.'];
    lemma_index_of_from_append(s, seq!['/', '.'], '/', i);
    lemma_index_of_from(s, '/', i);
    match index_of_from(s, '/', i) {
        Some(j) => {
            assert(s2.subrange(i, j) =~= s.subrange(i, j));
            lemma_pieces_with_dot(s, j + 1);
        },
        None => {
            let n = s.len() as int;
            assert(s2[n] == '/');
            assert(index_of_from(s2, '/', n) == Some(n));
            assert(s2.subrange(i, n) =~= s.subrange(i, n));
            assert(index_of_from(s2, '/', n + 1) is None) by {
                assert(s2[n + 1] == '.');
                assert(index_of_from(s2, '/', n + 2) is None);
            }
            assert(s2.subrange(n + 1, n + 2) =~= seq!['.']);
            assert(pieces_from(s2, n + 1) =~= Seq::<Seq<char>>::empty());
            let piece = s.subrange(i, n);
            let kept: Seq<Seq<char>> = if piece.len() > 0 && piece != seq!['.'] {
                seq![piece]
            } else {
                seq![]
            };
            assert(pieces_from(s2, i) =~= kept + Seq::<Seq<char>>::empty());
        },
    }
}

/// A piece that `joined` adds to a path as one named component: not empty,
/// without `/`, and not `.`.
pub open spec fn is_plain_piece(k: Seq<char>) -> bool {
    &&& k.len() > 0
    &&& k != seq!['.']
    &&& forall|i: int| 0 <= i < k.len() ==> k[i] != '/'
}

proof fn lemma_no_slash_in_piece(s: Seq<char>, k: Seq<char>)
    requires
        is_plain_piece(k),
    ensures
        index_of_from(s + seq!['/'] + k, '/', s.len() + 1int) is None,
        pieces_from(s + seq!['/'] + k, s.len() + 1int) == seq![k],
{
    let s2 = s + seq!['/'] + k;
    let n = s.len() as int;
    lemma_index_of_from(s2, '/', n + 1);
    match index_of_from(s2, '/', n + 1) {
        Some(j) => {
            assert(s2[j] == k[j - n - 1]);
        },
        None => {},
    }
    assert(s2.subrange(n + 1, s2.len() as int) =~= k);
}

proof fn lemma_pieces_then_piece(s: Seq<char>, k: Seq<char>, i: int)
    requires
        is_plain_piece(k),
        0 <= i <= s.len() + 1,
    ensures
        pieces_from(s + seq!['/'] + k, i) == pieces_from(s, i).push(k),
    decreases s.len() + 1 - i,
{
    let s2 = s + seq!['/'] + k;
    let n = s.len() as int;
    lemma_no_slash_in_piece(s, k);
    if i == n + 1 {
        assert(pieces_from(s, i) =~= Seq::<Seq<char>>::empty());
        assert(pieces_from(s, i).push(k) =~= seq![k]);
    } else {
        assert(s2 =~= s + (seq!['/'] + k));
        lemma_index_of_from_append(s, seq!['/'] + k, '/', i);
        lemma_index_of_from(s, '/', i);
        match index_of_from(s, '/', i) {
            Some(j) => {
                assert(s2.subrange(i, j) =~= s.subrange(i, j));
                lemma_pieces_then_piece(s, k, j + 1);
                let piece = s.subrange(i, j);
                let kept: Seq<Seq<char>> = if piece.len() > 0 && piece != seq!['.'] {
                    seq![piece]
                } else {
                    seq![]
                };
                assert(pieces_from(s2, i) == kept + pieces_from(s2, j + 1));
                assert(pieces_from(s, i) == kept + pieces_from(s, j + 1));
                assert(kept + pieces_from(s, j + 1).push(k) =~= (kept + pieces_from(s, j + 1)).push(
                    k,
                ));
            },
            None => {
                assert(s2[n] == '/');
                assert(index_of_from(s2, '/', n) == Some(n));
                assert(s2.subrange(i, n) =~= s.subrange(i, n));
                let piece = s.subrange(i, n);
                let kept: Seq<Seq<char>> = if piece.len() > 0 && piece != seq!['.'] {
                    seq![piece]
                } else {
                    seq![]
                };
                assert(pieces_from(s, i) == kept);
                assert(pieces_from(s2, i) =~= kept + seq![k]);
            },
        }
    }
}

proof fn lemma_pieces_trailing_slash(s: Seq<char>, i: int)
    requires
        0 <= i <= s.len() + 1,
    ensures
        pieces_from(s + seq!['/'], i) == pieces_from(s, i),
    decreases s.len() + 1 - i,
{
    let s2 = s + seq!['/'];
    let n = s.len() as int;
    if i == n + 1 {
        assert(index_of_from(s2, '/', i) is None);
        assert(s2.subrange(i, i) =~= Seq::<char>::empty());
        assert(pieces_from(s2, i) =~= Seq::<Seq<char>>::empty());
        assert(pieces_from(s, i) =~= Seq::<Seq<char>>::empty());
    } else {
        lemma_index_of_from_append(s, seq!['/'], '/', i);
        lemma_index_of_from(s, '/', i);
        match index_of_from(s, '/', i) {
            Some(j) => {
                assert(s2.subrange(i, j) =~= s.subrange(i, j));
                lemma_pieces_trailing_slash(s, j + 1);
            },
            None => {
                assert(s2[n] == '/');
                assert(index_of_from(s2, '/', n) == Some(n));
                assert(s2.subrange(i, n) =~= s.subrange(i, n));
                assert(index_of_from(s2, '/', n + 1) is None);
                assert(s2.subrange(n + 1, n + 1) =~= Seq::<char>::empty());
                assert(pieces_from(s2, n + 1) =~= Seq::<Seq<char>>::empty());
                let piece = s.subrange(i, n);
                let kept: Seq<Seq<char>> = if piece.len() > 0 && piece != seq!['.'] {
                    seq![piece]
                } else {
                    seq![]
                };
                assert(pieces_from(s2, i) =~= kept + Seq::<Seq<char>>::empty());
            },
        }
    }
}

/// Joining a plain piece onto a path adds that piece as the path's last
/// component and changes none of the others.
pub proof fn lemma_components_joined(r: Seq<char>, k: Seq<char>)
    requires
        is_plain_piece(k),
    ensures
        components(joined(r, k)) == components(r).push(k),
{
    let d = joined(r, k);
    assert(k[0] != '/');
    if r.len() == 0 {
        assert(d =~= k);
        lemma_index_of_from(k, '/', 0);
        if let Some(j) = index_of_from(k, '/', 0) {
            assert(k[j] != '/');
        }
        assert(k.subrange(0, k.len() as int) =~= k);
        assert(pieces_from(k, 0) =~= seq![k]);
        if k[0] == '.' && k.len() == 1 {
            assert(k =~= seq!['.']);
        }
        assert(r.subrange(0, 0) =~= Seq::<char>::empty());
        assert(pieces_from(r, 0) =~= Seq::<Seq<char>>::empty());
        assert(components(r) =~= Seq::<Seq<char>>::empty());
        assert(components(d) =~= components(r).push(k));
    } else {
        let s = if r.last() == '/' {
            r.drop_last()
        } else {
            r
        };
        assert(d =~= s + seq!['/'] + k);
        let i0: int = if r[0] == '/' {
            1
        } else {
            0
        };
        lemma_pieces_then_piece(s, k, i0);
        if r.last() == '/' {
            assert(r =~= s + seq!['/']);
            lemma_pieces_trailing_slash(s, i0);
        }
        assert(pieces_from(d, i0) == pieces_from(r, i0).push(k));
        assert(d[0] == r[0]);
        if r.len() > 1 {
            assert(d[1] == r[1]);
        } else if r[0] != '/' {
            assert(d[1] == '/');
        }
        if r[0] == '/' {
            assert(components(d) =~= components(r).push(k));
        } else if r[0] == '.' && (r.len() == 1 || r[1] == '/') {
            assert(components(d) =~= components(r).push(k));
        } else {
            assert(components(d) =~= components(r).push(k));
        }
    }
}

/// Appending `/.` to a non-empty path changes none of its components, so
/// neither its normalised form nor anything keyed by it, such as where a
/// repository's cache lives.
pub proof fn trailing_dot_changes_nothing(p: Seq<char>)
    requires
        p.len() > 0,
    ensures
        components(p + seq!['/', '.']) == components(p),
        normalized(p + seq!['/', '.']) == normalized(p),
{
    let p2 = p + seq!['/', '.'];
    assert(p2[0] == p[0]);
    if p.len() > 1 {
        assert(p2[1] == p[1]);
    } else {
        assert(p2[1] == '/');
    }
    if p[0] == '/' {
        lemma_pieces_with_dot(p, 1);
    } else {
        lemma_pieces_with_dot(p, 0);
    }
}

} // verus!
