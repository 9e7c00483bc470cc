//! Parameters of the tools that the MCP server offers.

use vstd::prelude::*;

verus! {

/// Parameters of the entity listing tool.
pub struct EntitiesParams {
    /// Optional path to a file or directory. If omitted, defaults to '.'.
    pub path: Option<String>,
}

impl EntitiesParams {
    /// The path asked for; an empty path counts as none.
    pub fn path(&self) -> (r: Option<&str>)
        ensures
            r matches Some(p) ==> self.path matches Some(q) && p@ == q@ && q@.len() > 0,
            r is None ==> (self.path matches Some(q) ==> q@.len() == 0),
    {
        match &self.path {
            Some(p) => {
                let s = p.as_str();
                if s.is_empty() {
                    None
                } else {
                    Some(s)
                }
            },
            None => None,
        }
    }
}

/// Parameters of the diff tool.
pub struct DiffParams {
    /// Base ref to compare from (branch, tag, or commit hash). If omitted,
    /// shows working-tree changes.
    pub base_ref: Option<String>,
    /// Target ref to compare to. Defaults to HEAD.
    pub target_ref: Option<String>,
    /// Diff only this file.
    pub file_path: Option<String>,
}

/// Parameters of the blame tool.
pub struct BlameParams {
    /// Path to the file (relative to the repository root or absolute).
    pub file_path: String,
}

/// Parameters of the impact analysis tool.
pub struct ImpactAnalysisParams {
    /// Path to the file containing the entity.
    pub file_path: String,
    /// Name of the entity to analyze impact for.
    pub entity_name: String,
    /// Analysis mode: 'all' (default), 'deps', 'dependents' or 'tests'.
    pub mode: Option<String>,
}

/// Parameters of the history tool.
pub struct LogParams {
    /// Name of the entity to trace history for.
    pub entity_name: String,
    /// Path to the file containing the entity. If omitted, auto-detects.
    pub file_path: Option<String>,
    /// Maximum number of commits to analyze. Defaults to 50.
    pub limit: Option<usize>,
}

/// Parameters of the context tool.
pub struct ContextParams {
    /// Path to the file containing the entity.
    pub file_path: String,
    /// Name of the target entity.
    pub entity_name: String,
    /// Maximum token budget. Defaults to 8000.
    pub token_budget: Option<usize>,
}

} // verus!
