//! Blame by entity: for each entity of a file, the latest commit that
//! touched one of its lines.

use vstd::prelude::*;
use vstd::string::StringSliceAdditionalSpecFns;
use vstd::utf8::{encode_utf8, is_char_boundary};
use crate::date::{chrono_lite_format, date_of, date_text};
use crate::model::SemanticEntity;
use crate::text::{opt_text};

verus! {

/// Options of the blame command.
pub struct BlameOptions {
    pub cwd: String,
    pub file_path: String,
    pub json: bool,
}

/// What blame says of one line: when its last change was committed (in
/// seconds since the epoch), by whom (where the signature has a name), in
/// which commit, and that commit's summary.
#[derive(Clone)]
pub struct LineBlame {
    pub time: i64,
    pub author: Option<String>,
    pub commit: String,
    pub summary: String,
}

/// The blame of one entity.
pub struct EntityBlame {
    pub name: String,
    pub entity_type: String,
    pub start_line: usize,
    pub end_line: usize,
    pub author: String,
    pub date: String,
    pub commit_sha: String,
    pub summary: String,
}

/// The line among `lines[..n]` whose commit is the latest, the earliest
/// such line where several tie; lines committed at or before the epoch
/// never count.
pub open spec fn latest_below(lines: Seq<Option<LineBlame>>, n: int) -> Option<int>
    decreases n,
{
    if n <= 0 {
        None
    } else {
        let b = latest_below(lines, n - 1);
        let best: int = match b {
            Some(k) => lines[k]->0.time as int,
            None => 0,
        };
        match lines[n - 1] {
            Some(l) => if l.time > best {
                Some(n - 1)
            } else {
                b
            },
            None => b,
        }
    }
}

pub proof fn lemma_latest_below(lines: Seq<Option<LineBlame>>, n: int)
    requires
        n <= lines.len(),
    ensures
        latest_below(lines, n) matches Some(k) ==> 0 <= k < n && lines[k] is Some && lines[k]->0.time
            > 0,
    decreases n,
{
    if n > 0 {
        lemma_latest_below(lines, n - 1);
    }
}

/// The blame of `entity` from the blame of its lines, `lines[k]` being that
/// of line `start_line + k`: the name, author, date, commit and summary of
/// the latest line, or empty text where no line has a commit.
pub open spec fn blames(b: EntityBlame, e: SemanticEntity, lines: Seq<Option<LineBlame>>) -> bool {
    &&& b.name@ == e.name@
    &&& b.entity_type@ == e.entity_type@
    &&& b.start_line == e.start_line
    &&& b.end_line == e.end_line
    &&& match latest_below(lines, lines.len() as int) {
        None => b.author@.len() == 0 && b.date@.len() == 0 && b.commit_sha@.len() == 0
            && b.summary@.len() == 0,
        Some(k) => {
            let l = lines[k]->0;
            &&& b.author@ == match opt_text(l.author) {
                Some(a) => a,
                None => "unknown"@,
            }
            &&& b.date@ == ({
                let (y, m, d) = date_of(l.time as int);
                date_text(y, m, d)
            })
            &&& b.commit_sha@ == l.commit@
            &&& b.summary@ == l.summary@
        },
    }
}

/// The blame of `entity`, given the blame of each of its lines in order.
pub fn blame_entity(entity: &SemanticEntity, lines: &[Option<LineBlame>]) -> (r: EntityBlame)
    ensures
        blames(r, *entity, lines@),
{
    let mut latest: Option<usize> = None;
    let mut latest_time: i64 = 0;
    let mut k: usize = 0;
    while k < lines.len()
        invariant
            k <= lines@.len(),
            match latest {
                Some(j) => latest_below(lines@, k as int) == Some(j as int) && lines@[j as int]
                    is Some && latest_time == lines@[j as int]->0.time,
                None => latest_below(lines@, k as int) is None && latest_time == 0,
            },
        decreases lines@.len() - k,
    {
        if let Some(l) = &lines[k] {
            if l.time > latest_time {
                latest_time = l.time;
                latest = Some(k);
            }
        }
        k += 1;
    }
    proof {
        lemma_latest_below(lines@, lines@.len() as int);
    }
    match latest {
        None => EntityBlame {
            name: entity.name.clone(),
            entity_type: entity.entity_type.clone(),
            start_line: entity.start_line,
            end_line: entity.end_line,
            author: String::new(),
            date: String::new(),
            commit_sha: String::new(),
            summary: String::new(),
        },
        Some(j) => {
            let l = lines[j].as_ref().unwrap();
            let author = match &l.author {
                Some(a) => a.clone(),
                None => String::from_str("unknown"),
            };
            EntityBlame {
                name: entity.name.clone(),
                entity_type: entity.entity_type.clone(),
                start_line: entity.start_line,
                end_line: entity.end_line,
                author,
                date: chrono_lite_format(l.time),
                commit_sha: l.commit.clone(),
                summary: l.summary.clone(),
            }
        },
    }
}

/// What the machine-readable output shows for a value that is empty when
/// nothing is committed: `uncommitted`, else the value.
pub open spec fn or_uncommitted(s: Seq<char>) -> Seq<char> {
    if s.len() == 0 {
        "uncommitted"@
    } else {
        s
    }
}

/// The author the machine-readable output shows.
pub fn json_author(b: &EntityBlame) -> (r: &str)
    ensures
        r@ == or_uncommitted(b.author@),
{
    if b.author.as_str().is_empty() {
        "uncommitted"
    } else {
        b.author.as_str()
    }
}

/// The commit id git gives a line that is not committed yet: all zeros.
pub open spec fn is_null_commit(sha: Seq<char>) -> bool {
    sha.len() > 0 && forall|i: int| 0 <= i < sha.len() ==> sha[i] == '0'
}

/// The commit the machine-readable output shows: none (`null`) where the
/// latest line is not committed yet; `uncommitted` where no line has a
/// commit at all; else the commit id.
pub fn json_commit(b: &EntityBlame) -> (r: Option<&str>)
    ensures
        r is None <==> is_null_commit(b.commit_sha@),
        r matches Some(c) ==> c@ == or_uncommitted(b.commit_sha@),
{
    let sha = b.commit_sha.as_str();
    let n = sha.unicode_len();
    if n == 0 {
        return Some("uncommitted");
    }
    let mut i: usize = 0;
    while i < n
        invariant
            n == sha@.len(),
            n > 0,
            sha@ == b.commit_sha@,
            i <= n,
            forall|k: int| 0 <= k < i ==> sha@[k] == '0',
        decreases n - i,
    {
        if sha.get_char(i) != '0' {
            return Some(sha);
        }
        i += 1;
    }
    None
}

/// The short form of a commit id: `uncommtd` where there is none, else its
/// first eight bytes, or all of it where it is shorter.
pub fn sha_short(sha: &str) -> (r: &str)
    requires
        sha.spec_bytes().len() >= 8 ==> is_char_boundary(sha.spec_bytes(), 8),
    ensures
        sha@.len() == 0 ==> r@ == "uncommtd"@,
        sha@.len() > 0 && sha.spec_bytes().len() < 8 ==> r@ == sha@,
        sha.spec_bytes().len() >= 8 ==> r.spec_bytes() == sha.spec_bytes().subrange(0, 8),
{
    if sha.is_empty() {
        "uncommtd"
    } else if sha.as_bytes().len() >= 8 {
        let (head, _) = sha.split_at(8);
        head
    } else {
        sha
    }
}

/// Entity `i` lies within another entity of another name, on a range of
/// lines that is not the same as its own.
pub open spec fn nested_in_other(rs: Seq<EntityBlame>, i: int) -> bool {
    exists|j: int|
        0 <= j < rs.len() && #[trigger] rs[j].name@ != rs[i].name@ && rs[j].start_line
            <= rs[i].start_line && rs[j].end_line >= rs[i].end_line && !(rs[j].start_line
            == rs[i].start_line && rs[j].end_line == rs[i].end_line)
}

pub fn is_nested(results: &[EntityBlame], i: usize) -> (r: bool)
    requires
        i < results@.len(),
    ensures
        r == nested_in_other(results@, i as int),
{
    let r = &results[i];
    let mut j: usize = 0;
    while j < results.len()
        invariant
            i < results@.len(),
            *r == results@[i as int],
            j <= results@.len(),
            forall|k: int|
                0 <= k < j ==> !(#[trigger] results@[k].name@ != r.name@ && results@[k].start_line
                    <= r.start_line && results@[k].end_line >= r.end_line && !(
                results@[k].start_line == r.start_line && results@[k].end_line == r.end_line)),
        decreases results@.len() - j,
    {
        let o = &results[j];
        if o.name != r.name && o.start_line <= r.start_line && o.end_line >= r.end_line && !(
        o.start_line == r.start_line && o.end_line == r.end_line) {
            return true;
        }
        j += 1;
    }
    false
}

/// The length of the UTF-8 encoding of a text.
pub open spec fn byte_len(s: Seq<char>) -> nat {
    encode_utf8(s).len()
}

/// The widest name and the widest type among the results, in bytes; 10
/// and 8 where there are no results.
pub fn column_widths(results: &[EntityBlame]) -> (r: (usize, usize))
    ensures
        results@.len() == 0 ==> r == (10usize, 8usize),
        results@.len() > 0 ==> (exists|k: int|
            0 <= k < results@.len() && #[trigger] byte_len(results@[k].name@) == r.0),
        results@.len() > 0 ==> (exists|k: int|
            0 <= k < results@.len() && #[trigger] byte_len(results@[k].entity_type@) == r.1),
        forall|k: int|
            0 <= k < results@.len() ==> byte_len((#[trigger] results@[k]).name@) <= r.0
                && byte_len(results@[k].entity_type@) <= r.1,
{
    if results.len() == 0 {
        return (10, 8);
    }
    let mut w_name = results[0].name.as_str().as_bytes().len();
    let mut w_type = results[0].entity_type.as_str().as_bytes().len();
    assert(byte_len(results@[0].name@) == w_name);
    assert(byte_len(results@[0].entity_type@) == w_type);
    let mut k: usize = 1;
    while k < results.len()
        invariant
            1 <= k <= results@.len(),
            exists|j: int| 0 <= j < k && #[trigger] byte_len(results@[j].name@) == w_name,
            exists|j: int|
                0 <= j < k && #[trigger] byte_len(results@[j].entity_type@) == w_type,
            forall|j: int|
                0 <= j < k ==> byte_len((#[trigger] results@[j]).name@) <= w_name
                    && byte_len(results@[j].entity_type@) <= w_type,
        decreases results@.len() - k,
    {
        let n = results[k].name.as_str().as_bytes().len();
        let t = results[k].entity_type.as_str().as_bytes().len();
        assert(byte_len(results@[k as int].name@) == n);
        assert(byte_len(results@[k as int].entity_type@) == t);
        if n > w_name {
            w_name = n;
        }
        if t > w_type {
            w_type = t;
        }
        k += 1;
    }
    (w_name, w_type)
}

} // verus!
