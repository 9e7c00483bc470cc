//! Text-based arity analysis: parameter counts read off a signature line and
//! argument counts read off call sites, by bracket matching.

use vstd::prelude::*;
use crate::text::{chars_of, is_blank, index_of_from, first_line, lemma_index_of_from, find_char_from, first_line_end, blank_range};

verus! {

/// The index of the `')'` that closes an already open `'('` in `s[i..]`,
/// where `depth` parentheses opened inside `s[..i]` are still open.
pub open spec fn close_from(s: Seq<char>, i: int, depth: nat) -> Option<int>
    decreases s.len() - i,
{
    if i < 0 || i >= s.len() {
        None
    } else if s[i] == ')' {
        if depth == 0 {
            Some(i)
        } else {
            close_from(s, i + 1, (depth - 1) as nat)
        }
    } else if s[i] == '(' {
        close_from(s, i + 1, depth + 1)
    } else {
        close_from(s, i + 1, depth)
    }
}

/// The index of the first `')'` in `s` that is not matched by a `'('`
/// before it: the end of a parenthesised list whose `'('` came just before `s`.
pub open spec fn matching_close(s: Seq<char>) -> Option<int> {
    close_from(s, 0, 0)
}

pub proof fn lemma_close_from(s: Seq<char>, i: int, depth: nat)
    ensures
        close_from(s, i, depth) matches Some(k) ==> 0 <= i <= k < s.len() && s[k] == ')',
    decreases s.len() - i,
{
    if 0 <= i < s.len() {
        if s[i] == ')' {
            if depth != 0 {
                lemma_close_from(s, i + 1, (depth - 1) as nat);
            }
        } else if s[i] == '(' {
            lemma_close_from(s, i + 1, depth + 1);
        } else {
            lemma_close_from(s, i + 1, depth);
        }
    }
}

/// How a character moves the nesting depth of `()`, `[]`, `{}` and `<>`.
pub open spec fn nesting_delta(c: char) -> int {
    if c == '(' || c == '[' || c == '{' || c == '<' {
        1
    } else if c == ')' || c == ']' || c == '}' || c == '>' {
        -1
    } else {
        0
    }
}

/// The number of commas in `s[i..]` at nesting depth zero, where the
/// brackets of `s[..i]` leave the depth at `depth`.
pub open spec fn commas_from(s: Seq<char>, i: int, depth: int) -> nat
    decreases s.len() - i,
{
    if i < 0 || i >= s.len() {
        0
    } else {
        (if s[i] == ',' && depth == 0 { 1nat } else { 0nat }) + commas_from(
            s,
            i + 1,
            depth + nesting_delta(s[i]),
        )
    }
}

/// The commas of `s` that separate top-level items.
pub open spec fn top_level_commas(s: Seq<char>) -> nat {
    commas_from(s, 0, 0)
}

/// The number of items in a comma-separated list: none when the list is
/// blank, else one more than its top-level commas.
pub open spec fn list_arity(s: Seq<char>) -> nat {
    if is_blank(s) {
        0
    } else {
        top_level_commas(s) + 1
    }
}

/// The parameter count read off the first line of `content`: the arity of
/// the list between its first `'('` and the `')'` matching it; zero when
/// there is no `'('` or no matching `')'`.
pub open spec fn param_count(content: Seq<char>) -> nat {
    let line = first_line(content);
    match index_of_from(line, '(', 0) {
        None => 0,
        Some(open) => {
            let after = line.skip(open + 1);
            match matching_close(after) {
                None => 0,
                Some(close) => list_arity(after.take(close)),
            }
        },
    }
}

/// `name` occurs in `c` at index `p`.
pub open spec fn occurs_at(c: Seq<char>, name: Seq<char>, p: int) -> bool {
    0 <= p && p + name.len() <= c.len() && c.subrange(p, p + name.len()) == name
}

/// The first index at or after `i` where `name` occurs in `c`.
pub open spec fn occurrence_from(c: Seq<char>, name: Seq<char>, i: int) -> Option<int>
    decreases c.len() - i,
{
    if i < 0 || i >= c.len() || i + name.len() > c.len() {
        None
    } else if occurs_at(c, name, i) {
        Some(i)
    } else {
        occurrence_from(c, name, i + 1)
    }
}

pub proof fn lemma_occurrence_from(c: Seq<char>, name: Seq<char>, i: int)
    ensures
        occurrence_from(c, name, i) matches Some(p) ==> i <= p && occurs_at(c, name, p),
    decreases c.len() - i,
{
    if 0 <= i < c.len() && i + name.len() <= c.len() && !occurs_at(c, name, i) {
        lemma_occurrence_from(c, name, i + 1);
    }
}

/// Characters that continue an identifier: an ASCII letter or digit, or `_`.
pub open spec fn is_ident_char(ch: char) -> bool {
    ('a' <= ch && ch <= 'z') || ('A' <= ch && ch <= 'Z') || ('0' <= ch && ch <= '9') || ch == '_'
}

fn ident_char(ch: char) -> (r: bool)
    ensures
        r == is_ident_char(ch),
{
    ('a' <= ch && ch <= 'z') || ('A' <= ch && ch <= 'Z') || ('0' <= ch && ch <= '9') || ch == '_'
}

/// The argument counts of the calls `name(...)` found in `c` from index `i`
/// on, in order. An occurrence of `name` counts as a call when no identifier
/// character precedes it and `'('` follows it at once; its arguments run up to
/// the matching `')'`, and the search goes on after that `')'`. A call whose
/// `'('` is never closed is skipped and the search goes on after its name; any
/// other occurrence is skipped and the search goes on one character later.
pub open spec fn call_sites_from(c: Seq<char>, name: Seq<char>, i: int) -> Seq<usize>
    decreases c.len() - i,
{
    if name.len() == 0 || i < 0 {
        seq![]
    } else {
        match occurrence_from(c, name, i) {
            None => seq![],
            Some(p) => {
                proof {
                    lemma_occurrence_from(c, name, i);
                }
                let after = p + name.len();
                let boundary = p == 0 || !is_ident_char(c[p - 1]);
                if boundary && after < c.len() && c[after] == '(' {
                    let args = c.subrange(after + 1, c.len() as int);
                    match matching_close(args) {
                        Some(k) => {
                            proof {
                                lemma_close_from(args, 0, 0);
                            }
                            seq![list_arity(args.take(k)) as usize] + call_sites_from(
                                c,
                                name,
                                after + 1 + k + 1,
                            )
                        },
                        None => call_sites_from(c, name, after),
                    }
                } else {
                    call_sites_from(c, name, p + 1)
                }
            },
        }
    }
}

/// The argument counts of all calls of `name` in `content`, in order.
pub open spec fn call_sites(content: Seq<char>, name: Seq<char>) -> Seq<usize> {
    call_sites_from(content, name, 0)
}

/// Index of the `')'` that closes the list starting at `v[lo]`, within `v[lo..hi]`.
pub fn find_matching_paren(v: &Vec<char>, lo: usize, hi: usize) -> (r: Option<usize>)
    requires
        lo <= hi <= v@.len(),
    ensures
        r matches Some(k) ==> lo <= k < hi && matching_close(v@.subrange(lo as int, hi as int))
            == Some(k - lo),
        r is None ==> matching_close(v@.subrange(lo as int, hi as int)) is None,
{
    let ghost s = v@.subrange(lo as int, hi as int);
    let mut depth: usize = 0;
    let mut i = lo;
    while i < hi
        invariant
            lo <= i <= hi <= v@.len(),
            s == v@.subrange(lo as int, hi as int),
            depth <= i - lo,
            matching_close(s) == close_from(s, i - lo, depth as nat),
        decreases hi - i,
    {
        assert(s[i - lo] == v@[i as int]);
        let ch = v[i];
        if ch == ')' {
            if depth == 0 {
                return Some(i);
            }
            depth -= 1;
        } else if ch == '(' {
            depth += 1;
        }
        i += 1;
    }
    None
}

/// The number of top-level commas in `v[lo..hi]`.
pub fn count_top_level_commas(v: &Vec<char>, lo: usize, hi: usize) -> (r: usize)
    requires
        lo <= hi <= v@.len(),
    ensures
        r == top_level_commas(v@.subrange(lo as int, hi as int)),
{
    let ghost s = v@.subrange(lo as int, hi as int);
    let mut opens: usize = 0;
    let mut closes: usize = 0;
    let mut count: usize = 0;
    let mut i = lo;
    while i < hi
        invariant
            lo <= i <= hi <= v@.len(),
            s == v@.subrange(lo as int, hi as int),
            opens + closes <= i - lo,
            count <= i - lo,
            top_level_commas(s) == count + commas_from(s, i - lo, opens - closes),
        decreases hi - i,
    {
        assert(s[i - lo] == v@[i as int]);
        let ch = v[i];
        if ch == '(' || ch == '[' || ch == '{' || ch == '<' {
            opens += 1;
        } else if ch == ')' || ch == ']' || ch == '}' || ch == '>' {
            closes += 1;
        } else if ch == ',' && opens == closes {
            count += 1;
        }
        i += 1;
    }
    count
}

/// The arity of the comma-separated list `v[lo..hi]`.
fn list_arity_of(v: &Vec<char>, lo: usize, hi: usize) -> (r: usize)
    requires
        lo <= hi < v@.len(),
    ensures
        r == list_arity(v@.subrange(lo as int, hi as int)),
{
    if blank_range(v, lo, hi) {
        0
    } else {
        let len = v.len();
        let n = count_top_level_commas(v, lo, hi);
        assert(n <= hi - lo) by {
            lemma_commas_bound(v@.subrange(lo as int, hi as int), 0, 0);
        }
        n + 1
    }
}

pub proof fn lemma_commas_bound(s: Seq<char>, i: int, depth: int)
    requires
        0 <= i,
    ensures
        commas_from(s, i, depth) <= if i <= s.len() { s.len() - i } else { 0 },
    decreases s.len() - i,
{
    if i < s.len() {
        lemma_commas_bound(s, i + 1, depth + nesting_delta(s[i]));
    }
}

/// The number of parameters on the first line of a function's text: the
/// items between its first `'('` and the matching `')'`.
pub fn extract_param_count(content: &str) -> (r: usize)
    ensures
        r == param_count(content@),
{
    let v = chars_of(content);
    let end = first_line_end(&v);
    let ghost line = v@.take(end as int);
    let open = match find_char_from(&v, '(', 0) {
        Some(k) if k < end => k,
        _ => {
            proof {
                lemma_index_of_from(v@, '(', 0);
                lemma_index_of_from(line, '(', 0);
                lemma_index_of_prefix(v@, end as int, '(', 0);
            }
            return 0;
        },
    };
    proof {
        lemma_index_of_prefix(v@, end as int, '(', 0);
        assert(line.skip(open + 1) == v@.subrange(open + 1, end as int));
    }
    match find_matching_paren(&v, open + 1, end) {
        None => 0,
        Some(close) => {
            assert(line.skip(open + 1).take(close - (open + 1)) == v@.subrange(
                open + 1,
                close as int,
            ));
            list_arity_of(&v, open + 1, close)
        },
    }
}

/// Searching a prefix finds what searching the whole finds, as long as the
/// find lies in the prefix.
pub proof fn lemma_index_of_prefix(s: Seq<char>, n: int, c: char, i: int)
    requires
        0 <= n <= s.len(),
        0 <= i,
    ensures
        index_of_from(s.take(n), c, i) == (match index_of_from(s, c, i) {
            Some(k) => if k < n {
                Some(k)
            } else {
                None
            },
            None => None,
        }),
    decreases s.len() - i,
{
    if i < s.len() {
        if s[i] != c {
            lemma_index_of_prefix(s, n, c, i + 1);
        }
    }
}

} // verus!

verus! {

fn matches_at(c: &Vec<char>, name: &Vec<char>, p: usize) -> (r: bool)
    requires
        p + name@.len() <= c@.len(),
    ensures
        r == occurs_at(c@, name@, p as int),
{
    let clen = c.len();
    let mut j: usize = 0;
    while j < name.len()
        invariant
            clen == c@.len(),
            p + name@.len() <= c@.len(),
            j <= name@.len(),
            forall|t: int| 0 <= t < j ==> c@[p + t] == name@[t],
        decreases name@.len() - j,
    {
        if c[p + j] != name[j] {
            assert(c@.subrange(p as int, p + name@.len())[j as int] != name@[j as int]);
            return false;
        }
        j += 1;
    }
    assert(c@.subrange(p as int, p + name@.len()) == name@);
    true
}

pub(crate) fn find_occurrence(c: &Vec<char>, name: &Vec<char>, from: usize) -> (r: Option<usize>)
    ensures
        r matches Some(p) ==> occurrence_from(c@, name@, from as int) == Some(p as int),
        r is None ==> occurrence_from(c@, name@, from as int) is None,
{
    let mut i = from;
    while i < c.len() && name.len() <= c.len() - i
        invariant
            from <= i,
            occurrence_from(c@, name@, from as int) == occurrence_from(c@, name@, i as int),
        decreases c@.len() - i,
    {
        if matches_at(c, name, i) {
            return Some(i);
        }
        i += 1;
    }
    None
}

/// The argument counts of every call of `callee_name` in `content`, in the
/// order the calls appear.
pub fn count_all_call_args(content: &str, callee_name: &str) -> (r: Vec<usize>)
    requires
        callee_name@.len() > 0,
    ensures
        r@ == call_sites(content@, callee_name@),
{
    let c = chars_of(content);
    let name = chars_of(callee_name);
    let mut counts: Vec<usize> = Vec::new();
    let mut i: usize = 0;
    loop
        invariant
            name@.len() > 0,
            c@ == content@,
            name@ == callee_name@,
            i <= c@.len(),
            call_sites(c@, name@) == counts@ + call_sites_from(c@, name@, i as int),
        decreases c@.len() - i,
    {
        proof {
            lemma_occurrence_from(c@, name@, i as int);
        }
        match find_occurrence(&c, &name, i) {
            None => {
                assert(counts@ + call_sites_from(c@, name@, i as int) == counts@);
                return counts;
            },
            Some(p) => {
                assert(occurs_at(c@, name@, p as int));
                let clen = c.len();
                let nlen = name.len();
                assert(p + nlen <= clen);
                let after = p + nlen;
                let boundary = p == 0 || !ident_char(c[p - 1]);
                if boundary && after < c.len() && c[after] == '(' {
                    let ghost args = c@.subrange(after + 1, c@.len() as int);
                    match find_matching_paren(&c, after + 1, c.len()) {
                        Some(close) => {
                            proof {
                                lemma_close_from(args, 0, 0);
                                assert(args.take(close - (after + 1)) == c@.subrange(
                                    after + 1,
                                    close as int,
                                ));
                            }
                            let n = list_arity_of(&c, after + 1, close);
                            let ghost rest = call_sites_from(c@, name@, close + 1);
                            counts.push(n);
                            assert(call_sites_from(c@, name@, i as int) == seq![n] + rest);
                            assert(call_sites(c@, name@) == counts@ + rest);
                            i = close + 1;
                        },
                        None => {
                            i = after;
                        },
                    }
                } else {
                    i = p + 1;
                }
            },
        }
    }
}

/// The argument count of the first call of `callee_name` in `content`.
pub fn count_call_args(content: &str, callee_name: &str) -> (r: Option<usize>)
    requires
        callee_name@.len() > 0,
    ensures
        r == (if call_sites(content@, callee_name@).len() > 0 {
            Some(call_sites(content@, callee_name@)[0])
        } else {
            None
        }),
{
    let all = count_all_call_args(content, callee_name);
    if all.len() > 0 {
        Some(all[0])
    } else {
        None
    }
}

} // verus!
