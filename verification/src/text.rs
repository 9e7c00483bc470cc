//! Character-level views of text: lines, whitespace, words and brackets.

use vstd::prelude::*;

verus! {

/// The characters of `s`, in order.
pub fn chars_of(s: &str) -> (r: Vec<char>)
    ensures
        r@ == s@,
{
    let mut out: Vec<char> = Vec::new();
    for c in it: s.chars()
        invariant
            it.seq() == s@,
            out@ == it.seq().take(it.index()),
    {
        out.push(c);
        assert(out@ == it.seq().take(it.index() + 1));
    }
    out
}

/// Unicode `White_Space`, the property that `char::is_whitespace` tests.
pub open spec fn is_white_space(c: char) -> bool {
    ||| c == '\t'
    ||| c == '\n'
    ||| c == '\u{0B}'
    ||| c == '\u{0C}'
    ||| c == '\r'
    ||| c == ' '
    ||| c == '\u{85}'
    ||| c == '\u{A0}'
    ||| c == '\u{1680}'
    ||| ('\u{2000}' <= c && c <= '\u{200A}')
    ||| c == '\u{2028}'
    ||| c == '\u{2029}'
    ||| c == '\u{202F}'
    ||| c == '\u{205F}'
    ||| c == '\u{3000}'
}

pub fn is_white_space_char(c: char) -> (r: bool)
    ensures
        r == is_white_space(c),
{
    c == '\t' || c == '\n' || c == '\u{0B}' || c == '\u{0C}' || c == '\r' || c == ' '
        || c == '\u{85}' || c == '\u{A0}' || c == '\u{1680}' || ('\u{2000}' <= c && c
        <= '\u{200A}') || c == '\u{2028}' || c == '\u{2029}' || c == '\u{202F}' || c
        == '\u{205F}' || c == '\u{3000}'
}

/// Every character of `s` is white space (so `s.trim()` is empty).
pub open spec fn is_blank(s: Seq<char>) -> bool {
    forall|i: int| 0 <= i < s.len() ==> is_white_space(#[trigger] s[i])
}

/// The first index at or after `i` that holds `c`.
pub open spec fn index_of_from(s: Seq<char>, c: char, i: int) -> Option<int>
    decreases s.len() - i,
{
    if i < 0 || i >= s.len() {
        None
    } else if s[i] == c {
        Some(i)
    } else {
        index_of_from(s, c, i + 1)
    }
}

pub proof fn lemma_index_of_from(s: Seq<char>, c: char, i: int)
    ensures
        index_of_from(s, c, i) matches Some(k) ==> 0 <= i <= k < s.len() && s[k] == c && (forall|
            j: int,
        | i <= j < k ==> s[j] != c),
        index_of_from(s, c, i) is None ==> forall|j: int| 0 <= i <= j < s.len() ==> s[j] != c,
    decreases s.len() - i,
{
    if 0 <= i < s.len() && s[i] != c {
        lemma_index_of_from(s, c, i + 1);
    }
}

/// The first line of `s`, as `str::lines` yields it: the text before the
/// first `'\n'` with one `'\r'` in front of that `'\n'` dropped; the whole of
/// `s` when it holds no `'\n'`; and empty for empty `s`.
pub open spec fn first_line(s: Seq<char>) -> Seq<char> {
    match index_of_from(s, '\n', 0) {
        None => s,
        Some(k) => if k > 0 && s[k - 1] == '\r' {
            s.take(k - 1)
        } else {
            s.take(k)
        },
    }
}

/// The number of maximal runs of non-white-space characters in `s[i..]`,
/// where `in_word` says whether `s[i - 1]` ended such a run.
pub open spec fn words_from(s: Seq<char>, i: int, in_word: bool) -> nat
    decreases s.len() - i,
{
    if i < 0 || i >= s.len() {
        0
    } else if is_white_space(s[i]) {
        words_from(s, i + 1, false)
    } else {
        (if in_word { 0nat } else { 1nat }) + words_from(s, i + 1, true)
    }
}

/// How many items `split_whitespace` yields on `s`.
pub open spec fn word_count(s: Seq<char>) -> nat {
    words_from(s, 0, false)
}

/// Index of the first `c` in `v[lo..]`.
pub fn find_char_from(v: &Vec<char>, c: char, lo: usize) -> (r: Option<usize>)
    ensures
        r matches Some(k) ==> index_of_from(v@, c, lo as int) == Some(k as int),
        r is None ==> index_of_from(v@, c, lo as int) is None,
{
    let mut i = lo;
    while i < v.len()
        invariant
            lo <= i,
            index_of_from(v@, c, lo as int) == index_of_from(v@, c, i as int),
        decreases v.len() - i,
    {
        if v[i] == c {
            return Some(i);
        }
        i += 1;
    }
    None
}

/// End (exclusive) of the first line of `v`, in characters.
pub fn first_line_end(v: &Vec<char>) -> (r: usize)
    ensures
        r <= v@.len(),
        first_line(v@) == v@.take(r as int),
{
    proof {
        lemma_index_of_from(v@, '\n', 0);
    }
    match find_char_from(v, '\n', 0) {
        None => {
            assert(v@.take(v@.len() as int) == v@);
            v.len()
        },
        Some(k) => {
            assert(index_of_from(v@, '\n', 0) == Some(k as int));
            if k > 0 && v[k - 1] == '\r' {
                k - 1
            } else {
                k
            }
        },
    }
}

/// The number of whitespace-separated words in `v`.
pub fn count_words(v: &Vec<char>) -> (r: usize)
    ensures
        r == word_count(v@),
{
    let mut i: usize = 0;
    let mut in_word = false;
    let mut n: usize = 0;
    while i < v.len()
        invariant
            i <= v@.len(),
            n <= i,
            word_count(v@) == n + words_from(v@, i as int, in_word),
        decreases v.len() - i,
    {
        if is_white_space_char(v[i]) {
            in_word = false;
        } else {
            if !in_word {
                n += 1;
            }
            in_word = true;
        }
        i += 1;
    }
    n
}

/// Whether every character of `v[lo..hi]` is white space.
pub fn blank_range(v: &Vec<char>, lo: usize, hi: usize) -> (r: bool)
    requires
        lo <= hi <= v@.len(),
    ensures
        r == is_blank(v@.subrange(lo as int, hi as int)),
{
    let mut i = lo;
    while i < hi
        invariant
            lo <= i <= hi <= v@.len(),
            forall|j: int| lo <= j < i ==> is_white_space(v@[j]),
        decreases hi - i,
    {
        if !is_white_space_char(v[i]) {
            assert(!is_white_space(v@.subrange(lo as int, hi as int)[i - lo]));
            return false;
        }
        i += 1;
    }
    assert forall|j: int| 0 <= j < hi - lo implies is_white_space(
        #[trigger] v@.subrange(lo as int, hi as int)[j],
    ) by {
        assert(v@.subrange(lo as int, hi as int)[j] == v@[lo + j]);
    }
    true
}


/// Whether `s` and `t` hold the same characters.
pub fn same_str(s: &str, t: &str) -> (r: bool)
    ensures
        r == (s@ == t@),
{
    s.to_owned() == t.to_owned()
}


/// The text an optional string holds.
pub open spec fn opt_text(o: Option<String>) -> Option<Seq<char>> {
    match o {
        Some(s) => Some(s@),
        None => None,
    }
}

/// A copy of an optional string.
pub fn clone_opt(o: &Option<String>) -> (r: Option<String>)
    ensures
        opt_text(r) == opt_text(*o),
{
    match o {
        Some(s) => Some(s.clone()),
        None => None,
    }
}

/// `s` shortened for a column `max` characters wide: unchanged where it
/// fits, else its first `max - 3` characters (none where `max` is under 3)
/// followed by `...`.
pub open spec fn truncated(s: Seq<char>, max: nat) -> Seq<char> {
    if s.len() <= max {
        s
    } else {
        s.take(if max >= 3 {
            max - 3
        } else {
            0
        }) + "..."@
    }
}

/// `s` shortened for a column `max` characters wide.
pub fn truncate_str(s: &str, max: usize) -> (r: String)
    ensures
        r@ == truncated(s@, max as nat),
{
    let n = s.unicode_len();
    if n <= max {
        s.to_owned()
    } else {
        let keep: usize = if max >= 3 {
            max - 3
        } else {
            0
        };
        let mut out = s.substring_char(0, keep).to_owned();
        out.append("...");
        out
    }
}

} // verus!
