//! Working-tree status, diffs and commits as the version-control front end
//! reports them.
use vstd::prelude::*;

verus! {

#[derive(Debug, Clone, Copy, PartialEq, Eq, Structural)]
pub enum FileStatus {
    Modified,
    Staged,
    Untracked,
    Deleted,
    Renamed,
    StagedModified,
    Ignored,
    Conflicted,
}

/// One changed path and how it changed.
#[derive(Debug, Clone)]
pub struct StatusEntry {
    pub path: String,
    pub status: FileStatus,
}

/// The changes of a working tree, grouped by kind.
#[derive(Debug, Clone)]
pub struct RepoStatus {
    pub staged: Vec<StatusEntry>,
    pub modified: Vec<StatusEntry>,
    pub untracked: Vec<StatusEntry>,
    pub deleted: Vec<StatusEntry>,
    pub conflicted: Vec<StatusEntry>,
}

impl RepoStatus {
    /// Number of changes of every kind together.
    pub open spec fn change_count(&self) -> nat {
        self.staged@.len() + self.modified@.len() + self.untracked@.len() + self.deleted@.len()
            + self.conflicted@.len()
    }

    /// Whether there is any change.
    pub fn has_changes(&self) -> (r: bool)
        ensures
            r == (self.change_count() > 0),
    {
        self.staged.len() > 0 || self.modified.len() > 0 || self.untracked.len() > 0
            || self.deleted.len() > 0 || self.conflicted.len() > 0
    }

    /// Number of changes of every kind together.
    pub fn total_changes(&self) -> (r: usize)
        requires
            self.change_count() <= usize::MAX,
        ensures
            r == self.change_count(),
    {
        self.staged.len() + self.modified.len() + self.untracked.len() + self.deleted.len()
            + self.conflicted.len()
    }
}

/// One line of a diff hunk.
#[derive(Debug, Clone)]
pub struct DiffLine {
    pub origin: char,
    pub content: String,
    pub old_lineno: Option<u32>,
    pub new_lineno: Option<u32>,
}

/// A block of changed lines.
#[derive(Debug, Clone)]
pub struct DiffHunk {
    pub old_start: u32,
    pub old_lines: u32,
    pub new_start: u32,
    pub new_lines: u32,
    pub lines: Vec<DiffLine>,
}

/// The changes of one file.
#[derive(Debug, Clone)]
pub struct FileDiff {
    pub old_path: Option<String>,
    pub new_path: Option<String>,
    pub hunks: Vec<DiffHunk>,
    pub is_binary: bool,
}

/// A commit.
#[derive(Debug, Clone)]
pub struct CommitInfo {
    pub id: String,
    pub short_id: String,
    pub message: String,
    pub author: String,
    pub email: String,
    pub timestamp: i64,
}

/// How far the current branch is from its remote.
#[derive(Debug, Clone, Copy, PartialEq, Eq, Structural)]
pub struct RemoteStatus {
    pub ahead: usize,
    pub behind: usize,
    pub has_remote: bool,
}

} // verus!
