//! The steps of the commands that alternate between the file system, git
//! and the library: what to do next, given what has happened.

use vstd::prelude::*;
use crate::lexical::{components, joined, path_join, path_starts_with_exec, stripped, strip_path_prefix};

verus! {

/// Options of the graph command.
pub struct GraphOptions {
    pub cwd: String,
    pub json: bool,
    pub file_exts: Vec<String>,
    pub no_cache: bool,
    pub no_default_excludes: bool,
}

/// Options of the log command.
pub struct LogOptions {
    pub cwd: String,
    pub entity_name: String,
    pub file_path: Option<String>,
    pub limit: usize,
    pub json: bool,
    pub verbose: bool,
}

/// What has happened so far while getting the graph of a repository.
#[derive(PartialEq, Eq, Structural, Clone, Copy, Debug)]
pub enum GraphStage {
    Start,
    /// The cache was opened, or could not be.
    CacheOpened { ok: bool },
    /// A full load of the cache was tried.
    CacheLoaded { hit: bool },
    /// A partial load of the cache was tried.
    PartialLoaded { hit: bool },
    IncrementalBuilt,
    IncrementalSaved,
    FullBuilt,
    /// The cache was opened again to save a full build, or could not be.
    CacheReopened { ok: bool },
    FullSaved,
}

/// What to do next while getting the graph of a repository.
#[derive(PartialEq, Eq, Structural, Clone, Copy, Debug)]
pub enum GraphAction {
    OpenCache,
    LoadCache,
    LoadPartial,
    BuildIncremental,
    SaveIncremental,
    BuildFull,
    ReopenCache,
    SaveFull,
    /// Return what the full load gave.
    ReturnCached,
    /// Return what was built.
    ReturnBuilt,
}

/// The order in which the graph is got: a full cache hit, else an
/// incremental rebuild of the stale files, else a full rebuild that is then
/// saved; with `no_cache`, a full rebuild that touches no cache. A failed
/// save does not change the result.
pub open spec fn graph_next(no_cache: bool, stage: GraphStage) -> GraphAction {
    match stage {
        GraphStage::Start => if no_cache {
            GraphAction::BuildFull
        } else {
            GraphAction::OpenCache
        },
        GraphStage::CacheOpened { ok } => if ok {
            GraphAction::LoadCache
        } else {
            GraphAction::BuildFull
        },
        GraphStage::CacheLoaded { hit } => if hit {
            GraphAction::ReturnCached
        } else {
            GraphAction::LoadPartial
        },
        GraphStage::PartialLoaded { hit } => if hit {
            GraphAction::BuildIncremental
        } else {
            GraphAction::BuildFull
        },
        GraphStage::IncrementalBuilt => GraphAction::SaveIncremental,
        GraphStage::IncrementalSaved => GraphAction::ReturnBuilt,
        GraphStage::FullBuilt => if no_cache {
            GraphAction::ReturnBuilt
        } else {
            GraphAction::ReopenCache
        },
        GraphStage::CacheReopened { ok } => if ok {
            GraphAction::SaveFull
        } else {
            GraphAction::ReturnBuilt
        },
        GraphStage::FullSaved => GraphAction::ReturnBuilt,
    }
}

/// The next step of getting the graph of a repository.
pub fn next_graph_action(no_cache: bool, stage: GraphStage) -> (r: GraphAction)
    ensures
        r == graph_next(no_cache, stage),
{
    match stage {
        GraphStage::Start => if no_cache {
            GraphAction::BuildFull
        } else {
            GraphAction::OpenCache
        },
        GraphStage::CacheOpened { ok } => if ok {
            GraphAction::LoadCache
        } else {
            GraphAction::BuildFull
        },
        GraphStage::CacheLoaded { hit } => if hit {
            GraphAction::ReturnCached
        } else {
            GraphAction::LoadPartial
        },
        GraphStage::PartialLoaded { hit } => if hit {
            GraphAction::BuildIncremental
        } else {
            GraphAction::BuildFull
        },
        GraphStage::IncrementalBuilt => GraphAction::SaveIncremental,
        GraphStage::IncrementalSaved => GraphAction::ReturnBuilt,
        GraphStage::FullBuilt => if no_cache {
            GraphAction::ReturnBuilt
        } else {
            GraphAction::ReopenCache
        },
        GraphStage::CacheReopened { ok } => if ok {
            GraphAction::SaveFull
        } else {
            GraphAction::ReturnBuilt
        },
        GraphStage::FullSaved => GraphAction::ReturnBuilt,
    }
}

/// The actions that read or write the cache.
pub open spec fn touches_cache(a: GraphAction) -> bool {
    ||| a == GraphAction::OpenCache
    ||| a == GraphAction::LoadCache
    ||| a == GraphAction::LoadPartial
    ||| a == GraphAction::SaveIncremental
    ||| a == GraphAction::ReopenCache
    ||| a == GraphAction::SaveFull
}

/// The stage that an action leads to, given what the action found.
pub open spec fn stage_after(a: GraphAction, found: bool) -> GraphStage {
    match a {
        GraphAction::OpenCache => GraphStage::CacheOpened { ok: found },
        GraphAction::LoadCache => GraphStage::CacheLoaded { hit: found },
        GraphAction::LoadPartial => GraphStage::PartialLoaded { hit: found },
        GraphAction::BuildIncremental => GraphStage::IncrementalBuilt,
        GraphAction::SaveIncremental => GraphStage::IncrementalSaved,
        GraphAction::BuildFull => GraphStage::FullBuilt,
        GraphAction::ReopenCache => GraphStage::CacheReopened { ok: found },
        GraphAction::SaveFull => GraphStage::FullSaved,
        GraphAction::ReturnCached => GraphStage::Start,
        GraphAction::ReturnBuilt => GraphStage::Start,
    }
}

/// With the cache switched off, getting the graph builds it in full and
/// returns it without touching the cache, whatever the steps find.
pub proof fn no_cache_never_touches_cache(found: bool)
    ensures
        graph_next(true, GraphStage::Start) == GraphAction::BuildFull,
        graph_next(true, stage_after(GraphAction::BuildFull, found)) == GraphAction::ReturnBuilt,
        !touches_cache(graph_next(true, GraphStage::Start)),
{
}

/// The position of a stage in the order in which getting the graph passes
/// through them.
pub open spec fn stage_rank(s: GraphStage) -> nat {
    match s {
        GraphStage::Start => 0,
        GraphStage::CacheOpened { .. } => 1,
        GraphStage::CacheLoaded { .. } => 2,
        GraphStage::PartialLoaded { .. } => 3,
        GraphStage::IncrementalBuilt => 4,
        GraphStage::IncrementalSaved => 5,
        GraphStage::FullBuilt => 6,
        GraphStage::CacheReopened { .. } => 7,
        GraphStage::FullSaved => 8,
    }
}

/// Getting the graph ends: every step either returns or leads to a stage
/// later in the order, so at most nine steps are taken.
pub proof fn graph_steps_progress(no_cache: bool, s: GraphStage, found: bool)
    ensures
        ({
            let a = graph_next(no_cache, s);
            a == GraphAction::ReturnCached || a == GraphAction::ReturnBuilt || stage_rank(
                stage_after(a, found),
            ) > stage_rank(s)
        }),
{
}

/// The path of a file for git: where the working directory lies below the
/// repository root, the file's path below the root; else the path as given.
/// Both directories are canonical.
pub open spec fn git_path(cwd: Seq<char>, repo: Seq<char>, file: Seq<char>) -> Seq<char> {
    if components(cwd) == components(repo) {
        file
    } else {
        match stripped(cwd, repo) {
            Some(prefix) => joined(prefix, file),
            None => joined(seq![], file),
        }
    }
}

fn same_components(a: &str, b: &str) -> (r: bool)
    ensures
        r == (components(a@) == components(b@)),
{
    let x = path_starts_with_exec(a, b);
    let y = path_starts_with_exec(b, a);
    proof {
        if x && y {
            assert(components(a@).take(components(b@).len() as int) == components(b@));
            assert(components(b@).take(components(a@).len() as int) == components(a@));
            assert(components(a@) =~= components(b@));
        }
        if components(a@) == components(b@) {
            assert(components(a@).take(components(b@).len() as int) =~= components(b@));
        }
    }
    x && y
}

/// The path of `file_path` for git, given the canonical working directory
/// and repository root.
pub fn git_relative_path(abs_cwd: &str, abs_repo: &str, file_path: &str) -> (r: String)
    ensures
        r@ == git_path(abs_cwd@, abs_repo@, file_path@),
{
    if same_components(abs_cwd, abs_repo) {
        return file_path.to_owned();
    }
    match strip_path_prefix(abs_cwd, abs_repo) {
        Some(prefix) => path_join(prefix.as_str(), file_path),
        None => {
            proof {
                reveal_strlit("");
            }
            path_join("", file_path)
        },
    }
}

} // verus!
