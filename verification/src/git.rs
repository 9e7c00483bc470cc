//! What the git layer hands the analyses: diff scopes, changed files and
//! commits.

use vstd::prelude::*;

verus! {

/// Which changes a diff covers.
pub enum DiffScope {
    Working,
    Staged,
    Commit { sha: String },
    Range { from: String, to: String },
    /// Compare a ref's tree to the working directory (like `git diff <ref>`).
    RefToWorking { refspec: String },
}

/// How a file changed.
#[derive(PartialEq, Eq, Structural, Clone, Copy, Debug)]
pub enum FileStatus {
    Added,
    Modified,
    Deleted,
    Renamed,
}

/// One changed file, with its contents before and after the change.
pub struct FileChange {
    pub file_path: String,
    pub status: FileStatus,
    pub old_file_path: Option<String>,
    pub before_content: Option<String>,
    pub after_content: Option<String>,
}

/// A commit.
pub struct CommitInfo {
    pub sha: String,
    pub short_sha: String,
    pub author: String,
    pub date: String,
    pub message: String,
}

/// A commit together with the file path that was active at that commit, so
/// that a file can be followed across renames.
pub struct FileCommitInfo {
    pub commit: CommitInfo,
    pub file_path: String,
}

} // verus!
