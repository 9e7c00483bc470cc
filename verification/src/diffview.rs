//! The lines that the verbose log shows of a change: a line diff of two
//! versions of an entity, from the `similar` crate.

use vstd::prelude::*;

verus! {

/// What a line of a line diff is: only in the old text, only in the new,
/// or in both.
#[derive(PartialEq, Eq, Structural, Clone, Copy, Debug)]
pub enum LineTag {
    Delete,
    Insert,
    Equal,
}

/// A line of a line diff, with its end-of-line character where it has one.
pub struct DiffLine {
    pub tag: LineTag,
    pub text: String,
}

pub open spec fn diff_line_views(v: Seq<DiffLine>) -> Seq<(LineTag, Seq<char>)> {
    v.map_values(|l: DiffLine| (l.tag, l.text@))
}

/// The line diff of `before` and `after`, change by change.
pub uninterp spec fn line_diff(before: Seq<char>, after: Seq<char>) -> Seq<(LineTag, Seq<char>)>;

/// The changes of `similar::TextDiff::from_lines(before, after)`, each with
/// its tag and its line (`Change::value`), in the order that
/// `iter_all_changes` yields them. The diff is a function of the two texts
/// alone; what it holds is named, not stated.
#[verifier::external_body]
fn diff_lines(before: &str, after: &str) -> (r: Vec<DiffLine>)
    ensures
        diff_line_views(r@) == line_diff(before@, after@),
{
    let mut out = Vec::new();
    for change in similar::TextDiff::from_lines(before, after).iter_all_changes() {
        let tag = match change.tag() {
            similar::ChangeTag::Delete => LineTag::Delete,
            similar::ChangeTag::Insert => LineTag::Insert,
            similar::ChangeTag::Equal => LineTag::Equal,
        };
        out.push(DiffLine { tag, text: change.value().to_string() });
    }
    out
}

/// How a changed line is shown: `- ` or `+ ` before it, and an end of line
/// after it where it has none.
pub open spec fn shown_line(tag: LineTag, text: Seq<char>) -> Seq<char> {
    (if tag == LineTag::Delete {
        "- "@
    } else {
        "+ "@
    }) + text + if text.len() > 0 && text.last() == '\n' {
        Seq::<char>::empty()
    } else {
        "\n"@
    }
}

/// The shown lines of the changes among `d[..n]`: the deleted and inserted
/// ones, in order; unchanged lines are left out.
pub open spec fn shown_below(d: Seq<(LineTag, Seq<char>)>, n: int) -> Seq<(LineTag, Seq<char>)>
    decreases n,
{
    if n <= 0 {
        seq![]
    } else {
        shown_below(d, n - 1) + if d[n - 1].0 == LineTag::Equal {
            seq![]
        } else {
            seq![(d[n - 1].0, shown_line(d[n - 1].0, d[n - 1].1))]
        }
    }
}

/// The changed lines of a line diff `d`, as the verbose log shows them,
/// with their tags: deleted and inserted lines in order, unchanged ones
/// left out.
pub fn shown_changes(d: &[DiffLine]) -> (r: Vec<DiffLine>)
    ensures
        diff_line_views(r@) == shown_below(diff_line_views(d@), d@.len() as int),
{
    let mut out: Vec<DiffLine> = Vec::new();
    let mut i: usize = 0;
    while i < d.len()
        invariant
            i <= d@.len(),
            diff_line_views(out@) == shown_below(diff_line_views(d@), i as int),
        decreases d@.len() - i,
    {
        let l = &d[i];
        assert(diff_line_views(d@)[i as int] == (l.tag, l.text@));
        let ghost before_out = diff_line_views(out@);
        if l.tag != LineTag::Equal {
            proof {
                reveal_strlit("- ");
                reveal_strlit("+ ");
                reveal_strlit("\n");
            }
            let mut s = if l.tag == LineTag::Delete {
                String::from_str("- ")
            } else {
                String::from_str("+ ")
            };
            s.append(l.text.as_str());
            let n = l.text.as_str().unicode_len();
            if n == 0 || l.text.as_str().get_char(n - 1) != '\n' {
                s.append("\n");
            }
            out.push(DiffLine { tag: l.tag, text: s });
            assert(diff_line_views(out@) =~= before_out.push((l.tag, shown_line(l.tag, l.text@))));
        }
        assert(diff_line_views(out@) =~= shown_below(diff_line_views(d@), i + 1));
        i += 1;
    }
    out
}

/// The deleted and inserted lines between `before` and `after`, as the
/// verbose log shows them, with their tags.
pub fn inline_diff(before: &str, after: &str) -> (r: Vec<DiffLine>)
    ensures
        ({
            let d = line_diff(before@, after@);
            diff_line_views(r@) == shown_below(d, d.len() as int)
        }),
{
    let d = diff_lines(before, after);
    shown_changes(d.as_slice())
}

} // verus!
