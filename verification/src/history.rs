//! Following one entity through a file's history, commit by commit: when
//! it appeared, changed in logic or only in form, was renamed, moved to
//! another file, deleted, or came back.

use vstd::prelude::*;
use crate::context::signature_only;
use crate::date::{chrono_lite_format, date_of, date_text};
use crate::git::CommitInfo;
use crate::model::SemanticEntity;
use crate::numbers::{parse_i64, parsed_i64};
use crate::text::{clone_opt, first_line, opt_text};
use crate::blame::byte_len;

verus! {

/// How a commit changed the tracked entity.
#[derive(PartialEq, Eq, Structural, Clone, Copy, Debug)]
pub enum EntityChangeType {
    Added,
    ModifiedLogic,
    ModifiedCosmetic,
    Deleted,
    Moved,
    Reappeared,
    Renamed,
}

pub open spec fn change_label(t: EntityChangeType) -> Seq<char> {
    match t {
        EntityChangeType::Added => "added"@,
        EntityChangeType::ModifiedLogic => "modified (logic)"@,
        EntityChangeType::ModifiedCosmetic => "modified (cosmetic)"@,
        EntityChangeType::Deleted => "deleted"@,
        EntityChangeType::Moved => "moved"@,
        EntityChangeType::Reappeared => "reappeared"@,
        EntityChangeType::Renamed => "renamed"@,
    }
}

impl EntityChangeType {
    /// The name of the change as the log shows it.
    pub fn label(&self) -> (r: &'static str)
        ensures
            r@ == change_label(*self),
    {
        match self {
            EntityChangeType::Added => "added",
            EntityChangeType::ModifiedLogic => "modified (logic)",
            EntityChangeType::ModifiedCosmetic => "modified (cosmetic)",
            EntityChangeType::Deleted => "deleted",
            EntityChangeType::Moved => "moved",
            EntityChangeType::Reappeared => "reappeared",
            EntityChangeType::Renamed => "renamed",
        }
    }

    /// Whether the change is one of structure: the entity's first
    /// appearance or a change of its logic.
    pub fn is_structural(&self) -> (r: bool)
        ensures
            r == (*self == EntityChangeType::ModifiedLogic || *self == EntityChangeType::Added),
    {
        match self {
            EntityChangeType::ModifiedLogic | EntityChangeType::Added => true,
            _ => false,
        }
    }
}

/// One line of an entity's history.
pub struct LogEntry {
    pub sha: String,
    pub short_sha: String,
    pub author: String,
    pub date: String,
    pub message: String,
    pub change_type: EntityChangeType,
    pub content: Option<String>,
    pub prev_content: Option<String>,
    pub file_path: Option<String>,
    pub prev_file_path: Option<String>,
}

pub struct LogEntryView {
    pub sha: Seq<char>,
    pub short_sha: Seq<char>,
    pub author: Seq<char>,
    pub date: Seq<char>,
    pub message: Seq<char>,
    pub change_type: EntityChangeType,
    pub content: Option<Seq<char>>,
    pub prev_content: Option<Seq<char>>,
    pub file_path: Option<Seq<char>>,
    pub prev_file_path: Option<Seq<char>>,
}


impl View for LogEntry {
    type V = LogEntryView;

    open spec fn view(&self) -> LogEntryView {
        LogEntryView {
            sha: self.sha@,
            short_sha: self.short_sha@,
            author: self.author@,
            date: self.date@,
            message: self.message@,
            change_type: self.change_type,
            content: opt_text(self.content),
            prev_content: opt_text(self.prev_content),
            file_path: opt_text(self.file_path),
            prev_file_path: opt_text(self.prev_file_path),
        }
    }
}

/// The date a commit's date field stands for: its text read as Unix
/// seconds (zero when it is not a number), as `YYYY-MM-DD`.
pub open spec fn commit_date_text(date: Seq<char>) -> Seq<char> {
    let secs = match parsed_i64(date) {
        Some(v) => v,
        None => 0,
    };
    let (y, m, d) = date_of(secs);
    date_text(y, m, d)
}

/// The history line that `commit` adds.
pub open spec fn entry_of(
    c: CommitInfo,
    change_type: EntityChangeType,
    content: Option<Seq<char>>,
    prev_content: Option<Seq<char>>,
    file_path: Option<Seq<char>>,
    prev_file_path: Option<Seq<char>>,
) -> LogEntryView {
    LogEntryView {
        sha: c.sha@,
        short_sha: c.short_sha@,
        author: c.author@,
        date: commit_date_text(c.date@),
        message: first_line(c.message@),
        change_type,
        content,
        prev_content,
        file_path,
        prev_file_path,
    }
}

fn make_entry(
    c: &CommitInfo,
    change_type: EntityChangeType,
    content: Option<String>,
    prev_content: Option<String>,
    file_path: Option<String>,
    prev_file_path: Option<String>,
) -> (r: LogEntry)
    ensures
        r@ == entry_of(
            *c,
            change_type,
            opt_text(content),
            opt_text(prev_content),
            opt_text(file_path),
            opt_text(prev_file_path),
        ),
{
    let secs = match parse_i64(c.date.as_str()) {
        Some(v) => v,
        None => 0,
    };
    LogEntry {
        sha: c.sha.clone(),
        short_sha: c.short_sha.clone(),
        author: c.author.clone(),
        date: chrono_lite_format(secs),
        message: signature_only(c.message.as_str()),
        change_type,
        content,
        prev_content,
        file_path,
        prev_file_path,
    }
}

/// What the history walk remembers of the tracked entity between commits.
pub struct EntityTracker {
    /// The entity's text at the last commit that had it; none once deleted.
    pub prev_content: Option<String>,
    /// The content hash of that text.
    pub prev_content_hash: Option<String>,
    /// The structural hash of the entity at the last commit that had it.
    pub prev_structural_hash: Option<String>,
    /// The entity's type, from the first commit that had it.
    pub entity_type: String,
    pub found_at_least_once: bool,
    /// The name the entity goes by, which a rename changes.
    pub tracked_name: String,
}

pub struct TrackerView {
    pub prev_content: Option<Seq<char>>,
    pub prev_content_hash: Option<Seq<char>>,
    pub prev_structural_hash: Option<Seq<char>>,
    pub entity_type: Seq<char>,
    pub found_at_least_once: bool,
    pub tracked_name: Seq<char>,
}

impl View for EntityTracker {
    type V = TrackerView;

    open spec fn view(&self) -> TrackerView {
        TrackerView {
            prev_content: opt_text(self.prev_content),
            prev_content_hash: opt_text(self.prev_content_hash),
            prev_structural_hash: opt_text(self.prev_structural_hash),
            entity_type: self.entity_type@,
            found_at_least_once: self.found_at_least_once,
            tracked_name: self.tracked_name@,
        }
    }
}

/// The first index below which no entity of `es[i..]` is named `name`.
pub open spec fn first_named_from(es: Seq<SemanticEntity>, name: Seq<char>, i: int) -> Option<int>
    decreases es.len() - i,
{
    if i < 0 || i >= es.len() {
        None
    } else if es[i].name@ == name {
        Some(i)
    } else {
        first_named_from(es, name, i + 1)
    }
}

/// The first entity of `es` with structural hash `h`, from index `i` on.
pub open spec fn first_with_hash_from(es: Seq<SemanticEntity>, h: Seq<char>, i: int) -> Option<int>
    decreases es.len() - i,
{
    if i < 0 || i >= es.len() {
        None
    } else if opt_text(es[i].structural_hash) == Some(h) {
        Some(i)
    } else {
        first_with_hash_from(es, h, i + 1)
    }
}

pub proof fn lemma_first_named_from(es: Seq<SemanticEntity>, name: Seq<char>, i: int)
    ensures
        first_named_from(es, name, i) matches Some(k) ==> 0 <= i <= k < es.len() && es[k].name@
            == name,
    decreases es.len() - i,
{
    if 0 <= i < es.len() && es[i].name@ != name {
        lemma_first_named_from(es, name, i + 1);
    }
}

pub proof fn lemma_first_with_hash_from(es: Seq<SemanticEntity>, h: Seq<char>, i: int)
    ensures
        first_with_hash_from(es, h, i) matches Some(k) ==> 0 <= i <= k < es.len() && opt_text(
            es[k].structural_hash,
        ) == Some(h),
    decreases es.len() - i,
{
    if 0 <= i < es.len() && opt_text(es[i].structural_hash) != Some(h) {
        lemma_first_with_hash_from(es, h, i + 1);
    }
}

/// The index of the first entity of `es` named `name`.
pub fn find_named(es: &[SemanticEntity], name: &String) -> (r: Option<usize>)
    ensures
        r matches Some(k) ==> first_named_from(es@, name@, 0) == Some(k as int) && k < es@.len(),
        r is None ==> first_named_from(es@, name@, 0) is None,
{
    let mut i: usize = 0;
    while i < es.len()
        invariant
            i <= es@.len(),
            first_named_from(es@, name@, 0) == first_named_from(es@, name@, i as int),
        decreases es@.len() - i,
    {
        if es[i].name == *name {
            return Some(i);
        }
        i += 1;
    }
    None
}

fn same_hash(o: &Option<String>, h: &String) -> (r: bool)
    ensures
        r == (opt_text(*o) == Some(h@)),
{
    match o {
        Some(x) => *x == *h,
        None => false,
    }
}

/// The index of the first entity of `es` with structural hash `h`.
pub fn find_with_hash(es: &[SemanticEntity], h: &String) -> (r: Option<usize>)
    ensures
        r matches Some(k) ==> first_with_hash_from(es@, h@, 0) == Some(k as int) && k < es@.len(),
        r is None ==> first_with_hash_from(es@, h@, 0) is None,
{
    let mut i: usize = 0;
    while i < es.len()
        invariant
            i <= es@.len(),
            first_with_hash_from(es@, h@, 0) == first_with_hash_from(es@, h@, i as int),
        decreases es@.len() - i,
    {
        if same_hash(&es[i].structural_hash, h) {
            return Some(i);
        }
        i += 1;
    }
    None
}

/// The tracked entity as the commit's version of the file has it, by name.
pub open spec fn entity_by_name(t: TrackerView, ents: Option<Seq<SemanticEntity>>) -> Option<
    SemanticEntity,
> {
    match ents {
        Some(es) => match first_named_from(es, t.tracked_name, 0) {
            Some(k) => Some(es[k]),
            None => None,
        },
        None => None,
    }
}

/// An entity of the commit's version of the file with the tracked entity's
/// last structural hash: the entity under a new name.
pub open spec fn entity_by_hash(t: TrackerView, ents: Option<Seq<SemanticEntity>>) -> Option<
    SemanticEntity,
> {
    match (t.prev_structural_hash, ents) {
        (Some(h), Some(es)) => match first_with_hash_from(es, h, 0) {
            Some(k) => Some(es[k]),
            None => None,
        },
        _ => None,
    }
}

/// The tracker after it has seen `e` as the tracked entity.
pub open spec fn seen(t: TrackerView, e: SemanticEntity, name: Seq<char>) -> TrackerView {
    TrackerView {
        prev_content: Some(e.content@),
        prev_content_hash: Some(e.content_hash@),
        prev_structural_hash: opt_text(e.structural_hash),
        entity_type: if t.found_at_least_once {
            t.entity_type
        } else {
            e.entity_type@
        },
        found_at_least_once: true,
        tracked_name: name,
    }
}

/// One commit of the walk, oldest first, given the entities of the file's
/// version at that commit (none when it could not be read): the tracker
/// after it, the history lines it adds, and whether the entity must be
/// looked for in the other files the commit changed.
///
/// Found by name, the entity was added (first sighting), reappeared (after a
/// deletion), changed in logic (its structural hash changed, or either hash
/// is missing), changed only in form (same structural hash, other content),
/// or not changed. Not found by name but found by its last structural hash,
/// it was renamed, and the walk goes on under the new name. Not found at
/// all while it still existed, it is looked for in other files.
pub open spec fn observe(
    t: TrackerView,
    c: CommitInfo,
    file: Seq<char>,
    ents: Option<Seq<SemanticEntity>>,
) -> (TrackerView, Seq<LogEntryView>, bool) {
    match entity_by_name(t, ents) {
        Some(e) => {
            let content = Some(e.content@);
            let lines = if !t.found_at_least_once {
                seq![entry_of(c, EntityChangeType::Added, content, None, Some(file), None)]
            } else if t.prev_content is None {
                seq![entry_of(c, EntityChangeType::Reappeared, content, None, Some(file), None)]
            } else if t.prev_content_hash != Some(e.content_hash@) {
                let structural = match (opt_text(e.structural_hash), t.prev_structural_hash) {
                    (Some(a), Some(b)) => a != b,
                    _ => true,
                };
                let kind = if structural {
                    EntityChangeType::ModifiedLogic
                } else {
                    EntityChangeType::ModifiedCosmetic
                };
                seq![entry_of(c, kind, content, t.prev_content, Some(file), None)]
            } else {
                seq![]
            };
            (seen(t, e, t.tracked_name), lines, false)
        },
        None => match entity_by_hash(t, ents) {
            Some(e) => (
                seen(t, e, e.name@),
                seq![
                    entry_of(
                        c,
                        EntityChangeType::Renamed,
                        Some(e.content@),
                        t.prev_content,
                        Some(file),
                        None,
                    ),
                ],
                false,
            ),
            None => (t, seq![], t.prev_content is Some),
        },
    }
}

/// The outcome of looking for the entity in the other files a commit
/// changed: found in `new_file` as `e`, it moved; not found, it was deleted.
pub open spec fn observe_elsewhere(
    t: TrackerView,
    c: CommitInfo,
    file: Seq<char>,
    found: Option<(Seq<char>, SemanticEntity)>,
) -> (TrackerView, Seq<LogEntryView>) {
    match found {
        Some((new_file, e)) => (
            TrackerView {
                prev_content: Some(e.content@),
                prev_content_hash: Some(e.content_hash@),
                prev_structural_hash: opt_text(e.structural_hash),
                ..t
            },
            seq![
                entry_of(
                    c,
                    EntityChangeType::Moved,
                    Some(e.content@),
                    t.prev_content,
                    Some(new_file),
                    Some(file),
                ),
            ],
        ),
        None => (
            TrackerView {
                prev_content: None,
                prev_content_hash: None,
                prev_structural_hash: None,
                ..t
            },
            seq![entry_of(c, EntityChangeType::Deleted, None, t.prev_content, Some(file), None)],
        ),
    }
}

pub open spec fn entry_views(v: Seq<LogEntry>) -> Seq<LogEntryView> {
    v.map_values(|e: LogEntry| e@)
}

fn push_entry(entries: &mut Vec<LogEntry>, e: LogEntry)
    ensures
        entry_views(final(entries)@) == entry_views(old(entries)@).push(e@),
{
    entries.push(e);
    assert(entry_views(final(entries)@) =~= entry_views(old(entries)@).push(e@));
}


impl EntityTracker {
    /// A tracker for the entity named `entity_name`, not yet seen.
    pub fn new(entity_name: &str) -> (r: EntityTracker)
        ensures
            r@.prev_content is None,
            r@.prev_content_hash is None,
            r@.prev_structural_hash is None,
            r@.entity_type == Seq::<char>::empty(),
            !r@.found_at_least_once,
            r@.tracked_name == entity_name@,
    {
        EntityTracker {
            prev_content: None,
            prev_content_hash: None,
            prev_structural_hash: None,
            entity_type: String::new(),
            found_at_least_once: false,
            tracked_name: entity_name.to_owned(),
        }
    }

    fn see(&mut self, e: &SemanticEntity, rename: bool)
        ensures
            final(self)@ == seen(
                old(self)@,
                *e,
                if rename {
                    e.name@
                } else {
                    old(self)@.tracked_name
                },
            ),
    {
        if !self.found_at_least_once {
            self.entity_type = e.entity_type.clone();
        }
        self.found_at_least_once = true;
        self.prev_content = Some(e.content.clone());
        self.prev_content_hash = Some(e.content_hash.clone());
        self.prev_structural_hash = clone_opt(&e.structural_hash);
        if rename {
            self.tracked_name = e.name.clone();
        }
    }

    /// Take in one commit of the walk: see `observe`. Returns whether the
    /// entity must now be looked for in the other files the commit changed,
    /// after which `observe_elsewhere` takes the result.
    pub fn observe_commit(
        &mut self,
        entries: &mut Vec<LogEntry>,
        commit: &CommitInfo,
        file_path: &str,
        file_entities: Option<&[SemanticEntity]>,
    ) -> (needs_search: bool)
        ensures
            ({
                let ents = match file_entities {
                    Some(es) => Some(es@),
                    None => None,
                };
                let (t, lines, search) = observe(old(self)@, *commit, file_path@, ents);
                &&& final(self)@ == t
                &&& entry_views(final(entries)@) == entry_views(old(entries)@) + lines
                &&& needs_search == search
            }),
    {
        let ghost ents = match file_entities {
            Some(es) => Some(es@),
            None => None,
        };
        let ghost t0 = self@;
        let ghost e0 = entry_views(entries@);
        let file = file_path.to_owned();
        let by_name = match file_entities {
            Some(es) => match find_named(es, &self.tracked_name) {
                Some(k) => {
                    proof {
                        lemma_first_named_from(es@, self.tracked_name@, 0);
                    }
                    Some(&es[k])
                },
                None => None,
            },
            None => None,
        };
        assert(match by_name {
            Some(e) => entity_by_name(t0, ents) == Some(*e),
            None => entity_by_name(t0, ents) is None,
        });
        match by_name {
            Some(e) => {
                if !self.found_at_least_once {
                    let entry = make_entry(
                        commit,
                        EntityChangeType::Added,
                        Some(e.content.clone()),
                        None,
                        Some(file),
                        None,
                    );
                    push_entry(entries, entry);
                } else if self.prev_content.is_none() {
                    let entry = make_entry(
                        commit,
                        EntityChangeType::Reappeared,
                        Some(e.content.clone()),
                        None,
                        Some(file),
                        None,
                    );
                    push_entry(entries, entry);
                } else {
                    let changed = match &self.prev_content_hash {
                        Some(h) => *h != e.content_hash,
                        None => true,
                    };
                    if changed {
                        let structural = match (&e.structural_hash, &self.prev_structural_hash) {
                            (Some(a), Some(b)) => *a != *b,
                            _ => true,
                        };
                        let kind = if structural {
                            EntityChangeType::ModifiedLogic
                        } else {
                            EntityChangeType::ModifiedCosmetic
                        };
                        let entry = make_entry(
                            commit,
                            kind,
                            Some(e.content.clone()),
                            clone_opt(&self.prev_content),
                            Some(file),
                            None,
                        );
                        push_entry(entries, entry);
                    } else {
                        assert(entry_views(entries@) + Seq::<LogEntryView>::empty()
                            == entry_views(entries@));
                    }
                }
                self.see(e, false);
                false
            },
            None => {
                let by_hash = match (&self.prev_structural_hash, file_entities) {
                    (Some(h), Some(es)) => match find_with_hash(es, h) {
                        Some(k) => {
                            proof {
                                lemma_first_with_hash_from(es@, h@, 0);
                            }
                            Some(&es[k])
                        },
                        None => None,
                    },
                    _ => None,
                };
                assert(match by_hash {
                    Some(e) => entity_by_hash(t0, ents) == Some(*e),
                    None => entity_by_hash(t0, ents) is None,
                });
                match by_hash {
                    Some(e) => {
                        let entry = make_entry(
                            commit,
                            EntityChangeType::Renamed,
                            Some(e.content.clone()),
                            clone_opt(&self.prev_content),
                            Some(file),
                            None,
                        );
                        push_entry(entries, entry);
                        self.see(e, true);
                        false
                    },
                    None => {
                        assert(entry_views(entries@) + Seq::<LogEntryView>::empty()
                            == entry_views(entries@));
                        self.prev_content.is_some()
                    },
                }
            },
        }
    }

    /// Take in the outcome of looking for the entity in the other files the
    /// commit changed: `found` holds the file it was found in and the entity
    /// there.
    pub fn observe_elsewhere(
        &mut self,
        entries: &mut Vec<LogEntry>,
        commit: &CommitInfo,
        file_path: &str,
        found: Option<(&str, &SemanticEntity)>,
    )
        ensures
            ({
                let f = match found {
                    Some((p, e)) => Some((p@, *e)),
                    None => None,
                };
                let (t, lines) = observe_elsewhere(old(self)@, *commit, file_path@, f);
                &&& final(self)@ == t
                &&& entry_views(final(entries)@) == entry_views(old(entries)@) + lines
            }),
    {
        match found {
            Some((new_file, e)) => {
                let entry = make_entry(
                    commit,
                    EntityChangeType::Moved,
                    Some(e.content.clone()),
                    clone_opt(&self.prev_content),
                    Some(new_file.to_owned()),
                    Some(file_path.to_owned()),
                );
                push_entry(entries, entry);
                self.prev_content = Some(e.content.clone());
                self.prev_content_hash = Some(e.content_hash.clone());
                self.prev_structural_hash = clone_opt(&e.structural_hash);
            },
            None => {
                let prev = self.prev_content.take();
                let entry = make_entry(
                    commit,
                    EntityChangeType::Deleted,
                    None,
                    prev,
                    Some(file_path.to_owned()),
                    None,
                );
                push_entry(entries, entry);
                self.prev_content_hash = None;
                self.prev_structural_hash = None;
            },
        }
    }
}


/// A file that a commit changed, with the entities of its version at that
/// commit; none when it could not be read.
pub struct ChangedFile {
    pub file_path: String,
    pub entities: Option<Vec<SemanticEntity>>,
}

/// The first changed file from `f` on, other than `exclude`, that has an
/// entity named `name`, with the first such entity.
pub open spec fn named_in_files_from(
    cs: Seq<ChangedFile>,
    name: Seq<char>,
    exclude: Seq<char>,
    f: int,
) -> Option<(int, int)>
    decreases cs.len() - f,
{
    if f < 0 || f >= cs.len() {
        None
    } else if cs[f].file_path@ != exclude && (cs[f].entities matches Some(es) && first_named_from(
        es@,
        name,
        0,
    ) is Some) {
        Some((f, first_named_from(cs[f].entities.unwrap()@, name, 0).unwrap()))
    } else {
        named_in_files_from(cs, name, exclude, f + 1)
    }
}

/// The first changed file from `f` on, other than `exclude`, that has an
/// entity with structural hash `h`, with the first such entity.
pub open spec fn hashed_in_files_from(
    cs: Seq<ChangedFile>,
    h: Seq<char>,
    exclude: Seq<char>,
    f: int,
) -> Option<(int, int)>
    decreases cs.len() - f,
{
    if f < 0 || f >= cs.len() {
        None
    } else if cs[f].file_path@ != exclude && (cs[f].entities matches Some(es) && first_with_hash_from(
        es@,
        h,
        0,
    ) is Some) {
        Some((f, first_with_hash_from(cs[f].entities.unwrap()@, h, 0).unwrap()))
    } else {
        hashed_in_files_from(cs, h, exclude, f + 1)
    }
}

/// Where the entity went: first by name in the changed files, in their
/// order; failing that, by its last structural hash, which finds it under a
/// new name.
pub open spec fn cross_file_match(
    cs: Seq<ChangedFile>,
    name: Seq<char>,
    prev_hash: Option<Seq<char>>,
    exclude: Seq<char>,
) -> Option<(int, int)> {
    match named_in_files_from(cs, name, exclude, 0) {
        Some(x) => Some(x),
        None => match prev_hash {
            None => None,
            Some(h) => hashed_in_files_from(cs, h, exclude, 0),
        },
    }
}

pub open spec fn opt_str_view(o: Option<&str>) -> Option<Seq<char>> {
    match o {
        Some(s) => Some(s@),
        None => None,
    }
}

/// Search the other files a commit changed for the entity: returns the index
/// of the file and the index of the entity in it.
pub fn search_entity_cross_file(
    changed_files: &[ChangedFile],
    entity_name: &str,
    prev_structural_hash: Option<&str>,
    exclude_file: &str,
) -> (r: Option<(usize, usize)>)
    ensures
        r matches Some((f, k)) ==> cross_file_match(
            changed_files@,
            entity_name@,
            opt_str_view(prev_structural_hash),
            exclude_file@,
        ) == Some((f as int, k as int)) && f < changed_files@.len() && (changed_files@[f as int].entities
            matches Some(es) && k < es@.len()),
        r is None ==> cross_file_match(
            changed_files@,
            entity_name@,
            opt_str_view(prev_structural_hash),
            exclude_file@,
        ) is None,
{
    let name = entity_name.to_owned();
    let exclude = exclude_file.to_owned();
    let mut f: usize = 0;
    while f < changed_files.len()
        invariant
            name@ == entity_name@,
            exclude@ == exclude_file@,
            f <= changed_files@.len(),
            named_in_files_from(changed_files@, name@, exclude@, 0) == named_in_files_from(
                changed_files@,
                name@,
                exclude@,
                f as int,
            ),
        decreases changed_files@.len() - f,
    {
        let cf = &changed_files[f];
        if cf.file_path != exclude {
            if let Some(es) = &cf.entities {
                if let Some(k) = find_named(es.as_slice(), &name) {
                    return Some((f, k));
                }
            }
        }
        f += 1;
    }
    let h = match prev_structural_hash {
        Some(h) => h.to_owned(),
        None => return None,
    };
    let mut f: usize = 0;
    while f < changed_files.len()
        invariant
            h@ == opt_str_view(prev_structural_hash)->0,
            prev_structural_hash is Some,
            named_in_files_from(changed_files@, entity_name@, exclude_file@, 0) is None,
            exclude@ == exclude_file@,
            f <= changed_files@.len(),
            hashed_in_files_from(changed_files@, h@, exclude@, 0) == hashed_in_files_from(
                changed_files@,
                h@,
                exclude@,
                f as int,
            ),
        decreases changed_files@.len() - f,
    {
        let cf = &changed_files[f];
        if cf.file_path != exclude {
            if let Some(es) = &cf.entities {
                if let Some(k) = find_with_hash(es.as_slice(), &h) {
                    return Some((f, k));
                }
            }
        }
        f += 1;
    }
    None
}

/// The date of the first history line, or nothing.
pub fn first_seen(entries: &[LogEntry]) -> (r: String)
    ensures
        r@ == if entries@.len() > 0 { entries@[0].date@ } else { Seq::<char>::empty() },
{
    if entries.len() > 0 {
        entries[0].date.clone()
    } else {
        String::new()
    }
}

/// The file of the last history line that names one, else `default`.
pub open spec fn last_file_below(entries: Seq<LogEntry>, n: int, default: Seq<char>) -> Seq<char>
    decreases n,
{
    if n <= 0 {
        default
    } else {
        match entries[n - 1].file_path {
            Some(p) => p@,
            None => last_file_below(entries, n - 1, default),
        }
    }
}

/// The file the entity was last seen in.
pub fn display_file(entries: &[LogEntry], default: &str) -> (r: String)
    ensures
        r@ == last_file_below(entries@, entries@.len() as int, default@),
{
    let mut n = entries.len();
    while n > 0
        invariant
            n <= entries@.len(),
            last_file_below(entries@, entries@.len() as int, default@) == last_file_below(
                entries@,
                n as int,
                default@,
            ),
        decreases n,
    {
        if let Some(p) = &entries[n - 1].file_path {
            return p.clone();
        }
        n -= 1;
    }
    default.to_owned()
}

/// The file the entity left in its first move between files.
pub open spec fn moved_from_from(entries: Seq<LogEntry>, i: int) -> Option<Seq<char>>
    decreases entries.len() - i,
{
    if i < 0 || i >= entries.len() {
        None
    } else if entries[i].change_type == EntityChangeType::Moved && entries[i].prev_file_path is Some {
        opt_text(entries[i].prev_file_path)
    } else {
        moved_from_from(entries, i + 1)
    }
}

/// The file the entity was in before it first moved to another file.
pub fn was_file(entries: &[LogEntry]) -> (r: Option<String>)
    ensures
        opt_text(r) == moved_from_from(entries@, 0),
{
    let mut i: usize = 0;
    while i < entries.len()
        invariant
            i <= entries@.len(),
            moved_from_from(entries@, 0) == moved_from_from(entries@, i as int),
        decreases entries@.len() - i,
    {
        let e = &entries[i];
        if e.change_type == EntityChangeType::Moved {
            if let Some(p) = &e.prev_file_path {
                return Some(p.clone());
            }
        }
        i += 1;
    }
    None
}

/// Where an entity name was found among the supported files.
pub enum FindResult {
    Found(String),
    Ambiguous(Vec<String>),
    NotFound,
}

/// Classify the files an entity name was found in: none, exactly one, or
/// several.
pub fn classify_found_files(found_in: Vec<String>) -> (r: FindResult)
    ensures
        found_in@.len() == 0 ==> r is NotFound,
        found_in@.len() == 1 ==> (r matches FindResult::Found(f) && f == found_in@[0]),
        found_in@.len() > 1 ==> (r matches FindResult::Ambiguous(fs) && fs@ == found_in@),
{
    let mut found_in = found_in;
    if found_in.len() == 0 {
        FindResult::NotFound
    } else if found_in.len() == 1 {
        FindResult::Found(found_in.remove(0))
    } else {
        FindResult::Ambiguous(found_in)
    }
}


/// The widest author and the widest change label among the entries, in
/// bytes; 6 and 10 where there are no entries.
pub fn log_column_widths(entries: &[LogEntry]) -> (r: (usize, usize))
    ensures
        entries@.len() == 0 ==> r == (6usize, 10usize),
        entries@.len() > 0 ==> (exists|k: int|
            0 <= k < entries@.len() && #[trigger] byte_len(entries@[k].author@) == r.0),
        entries@.len() > 0 ==> (exists|k: int|
            0 <= k < entries@.len() && #[trigger] byte_len(change_label(entries@[k].change_type)) == r.1),
        forall|k: int|
            0 <= k < entries@.len() ==> byte_len((#[trigger] entries@[k]).author@) <= r.0
                && byte_len(change_label(entries@[k].change_type)) <= r.1,
{
    if entries.len() == 0 {
        return (6, 10);
    }
    let mut w_author = entries[0].author.as_str().as_bytes().len();
    let mut w_change = entries[0].change_type.label().as_bytes().len();
    assert(byte_len(entries@[0].author@) == w_author);
    assert(byte_len(change_label(entries@[0].change_type)) == w_change);
    let mut k: usize = 1;
    while k < entries.len()
        invariant
            1 <= k <= entries@.len(),
            exists|j: int| 0 <= j < k && #[trigger] byte_len(entries@[j].author@) == w_author,
            exists|j: int|
                0 <= j < k && #[trigger] byte_len(change_label(entries@[j].change_type)) == w_change,
            forall|j: int|
                0 <= j < k ==> byte_len((#[trigger] entries@[j]).author@) <= w_author
                    && byte_len(change_label(entries@[j].change_type)) <= w_change,
        decreases entries@.len() - k,
    {
        let a = entries[k].author.as_str().as_bytes().len();
        let c = entries[k].change_type.label().as_bytes().len();
        assert(byte_len(entries@[k as int].author@) == a);
        assert(byte_len(change_label(entries@[k as int].change_type)) == c);
        if a > w_author {
            w_author = a;
        }
        if c > w_change {
            w_change = c;
        }
        k += 1;
    }
    (w_author, w_change)
}


/// Before the entity has been seen, a commit adds at most one line to its
/// history, and that line says it was added; nothing is searched for.
pub proof fn first_sighting_is_added(
    t: TrackerView,
    c: CommitInfo,
    file: Seq<char>,
    ents: Option<Seq<SemanticEntity>>,
)
    requires
        !t.found_at_least_once,
        t.prev_content is None,
        t.prev_structural_hash is None,
    ensures
        ({
            let (t2, lines, search) = observe(t, c, file, ents);
            &&& lines.len() <= 1
            &&& lines.len() == 1 ==> lines[0].change_type == EntityChangeType::Added
            &&& !search
            &&& (lines.len() == 1) == t2.found_at_least_once
        }),
{
}

/// A commit in which the entity is found by name with the content hash it
/// had before adds nothing to its history; once seen, it stays seen.
pub proof fn unchanged_entity_adds_no_line(
    t: TrackerView,
    c: CommitInfo,
    file: Seq<char>,
    ents: Option<Seq<SemanticEntity>>,
)
    requires
        t.found_at_least_once,
        entity_by_name(t, ents) matches Some(e) && t.prev_content is Some && t.prev_content_hash
            == Some(e.content_hash@),
    ensures
        observe(t, c, file, ents).1.len() == 0,
        observe(t, c, file, ents).0.found_at_least_once,
        observe(t, c, file, ents).0.tracked_name == t.tracked_name,
{
}

/// One commit of the walk as it reaches the tracker: the commit, the path
/// of the file at it, the entities of that version of the file (none when it
/// could not be read), and what looking in the other files the commit
/// changed found, used only where the commit calls for that search.
pub struct WalkStep {
    pub commit: CommitInfo,
    pub file: Seq<char>,
    pub ents: Option<Seq<SemanticEntity>>,
    pub found: Option<(Seq<char>, SemanticEntity)>,
}

/// The tracker after one commit of the walk and the history lines it adds:
/// `observe`, then `observe_elsewhere` where the commit calls for a search.
pub open spec fn walk_step(t: TrackerView, s: WalkStep) -> (TrackerView, Seq<LogEntryView>) {
    let (t1, lines, search) = observe(t, s.commit, s.file, s.ents);
    if search {
        let (t2, more) = observe_elsewhere(t1, s.commit, s.file, s.found);
        (t2, lines + more)
    } else {
        (t1, lines)
    }
}

/// The tracker after a run of commits, oldest first, and the history lines
/// the run adds, in order.
pub open spec fn walk_run(t: TrackerView, steps: Seq<WalkStep>) -> (TrackerView, Seq<LogEntryView>)
    decreases steps.len(),
{
    if steps.len() == 0 {
        (t, seq![])
    } else {
        let (t1, lines) = walk_step(t, steps[0]);
        let (t2, more) = walk_run(t1, steps.drop_first());
        (t2, lines + more)
    }
}

/// A tracker that has not seen its entity yet.
pub open spec fn is_fresh(t: TrackerView) -> bool {
    &&& !t.found_at_least_once
    &&& t.prev_content is None
    &&& t.prev_structural_hash is None
}

/// Each commit adds at most one line to the history. Once the entity has
/// been seen, the tracker stays aware of it and no later line says it was
/// added; before that, a commit either leaves the tracker as it was and adds
/// nothing, or sees the entity and adds the one line that says it was added.
pub proof fn a_commit_adds_at_most_one_line(t: TrackerView, s: WalkStep)
    ensures
        walk_step(t, s).1.len() <= 1,
        t.found_at_least_once ==> walk_step(t, s).0.found_at_least_once && forall|i: int|
            0 <= i < walk_step(t, s).1.len() ==> (#[trigger] walk_step(t, s).1[i]).change_type
                != EntityChangeType::Added,
        is_fresh(t) ==> {
            ||| walk_step(t, s).1.len() == 0 && walk_step(t, s).0 == t
            ||| walk_step(t, s).1.len() == 1 && walk_step(t, s).1[0].change_type
                == EntityChangeType::Added && walk_step(t, s).0.found_at_least_once
        },
{
    let (t1, lines, search) = observe(t, s.commit, s.file, s.ents);
    if search {
        assert(lines.len() == 0);
        let (t2, more) = observe_elsewhere(t1, s.commit, s.file, s.found);
        assert(lines + more =~= more);
    }
}

proof fn lemma_walk_run_len(t: TrackerView, steps: Seq<WalkStep>)
    ensures
        walk_run(t, steps).1.len() <= steps.len(),
        t.found_at_least_once ==> forall|i: int|
            0 <= i < walk_run(t, steps).1.len() ==> (#[trigger] walk_run(t, steps).1[i]).change_type
                != EntityChangeType::Added,
    decreases steps.len(),
{
    if steps.len() > 0 {
        a_commit_adds_at_most_one_line(t, steps[0]);
        let (t1, lines) = walk_step(t, steps[0]);
        lemma_walk_run_len(t1, steps.drop_first());
        let more = walk_run(t1, steps.drop_first()).1;
        if t.found_at_least_once {
            assert forall|i: int| 0 <= i < (lines + more).len() implies (#[trigger] (lines
                + more)[i]).change_type != EntityChangeType::Added by {
                if i >= lines.len() {
                    assert((lines + more)[i] == more[i - lines.len()]);
                }
            }
        }
    }
}

/// Over a whole walk from a tracker that has not seen its entity, the
/// history has at most one line per commit, its first line says the entity
/// was added, and no other line says so.
pub proof fn history_opens_with_added(t: TrackerView, steps: Seq<WalkStep>)
    requires
        is_fresh(t),
    ensures
        walk_run(t, steps).1.len() <= steps.len(),
        walk_run(t, steps).1.len() > 0 ==> walk_run(t, steps).1[0].change_type
            == EntityChangeType::Added,
        forall|i: int|
            0 < i < walk_run(t, steps).1.len() ==> (#[trigger] walk_run(t, steps).1[i]).change_type
                != EntityChangeType::Added,
    decreases steps.len(),
{
    lemma_walk_run_len(t, steps);
    if steps.len() > 0 {
        a_commit_adds_at_most_one_line(t, steps[0]);
        let (t1, lines) = walk_step(t, steps[0]);
        let rest = steps.drop_first();
        lemma_walk_run_len(t1, rest);
        let more = walk_run(t1, rest).1;
        if lines.len() == 0 {
            history_opens_with_added(t1, rest);
            assert(lines + more =~= more);
        } else {
            assert forall|i: int| 0 < i < (lines + more).len() implies (#[trigger] (lines
                + more)[i]).change_type != EntityChangeType::Added by {
                assert((lines + more)[i] == more[i - 1]);
            }
        }
    }
}

} // verus!
