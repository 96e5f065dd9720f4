//! The records that the git commands are read into.

use vstd::prelude::*;

verus! {

/// States for a file having been changed. Paths are those that git reports, relative to the root
/// of the work tree.
#[derive(Clone, Debug, PartialEq, Eq)]
pub enum FileChange {
    /// Not tracked by the VCS.
    Untracked { path: String },
    /// File has been modified.
    Modified { path: String },
    /// File modification is in conflict with a different update.
    Conflict { path: String },
    /// File has been deleted.
    Deleted { path: String },
    /// File has been renamed.
    Renamed { from_path: String, to_path: String },
}

/// A [`FileChange`] with its paths as character sequences.
pub enum Change {
    Untracked { path: Seq<char> },
    Modified { path: Seq<char> },
    Conflict { path: Seq<char> },
    Deleted { path: Seq<char> },
    Renamed { from_path: Seq<char>, to_path: Seq<char> },
}

impl Change {
    /// The path at which the change is found: the new one for a rename.
    pub open spec fn at(self) -> Seq<char> {
        match self {
            Change::Untracked { path } => path,
            Change::Modified { path } => path,
            Change::Conflict { path } => path,
            Change::Deleted { path } => path,
            Change::Renamed { to_path, .. } => to_path,
        }
    }
}

impl View for FileChange {
    type V = Change;

    open spec fn view(&self) -> Change {
        match *self {
            FileChange::Untracked { path } => Change::Untracked { path: path@ },
            FileChange::Modified { path } => Change::Modified { path: path@ },
            FileChange::Conflict { path } => Change::Conflict { path: path@ },
            FileChange::Deleted { path } => Change::Deleted { path: path@ },
            FileChange::Renamed { from_path, to_path } => Change::Renamed {
                from_path: from_path@,
                to_path: to_path@,
            },
        }
    }
}

impl FileChange {
    /// The path of the file after the change.
    pub fn path(&self) -> (r: &str)
        ensures
            r@ == self@.at(),
    {
        match self {
            FileChange::Untracked { path } => path.as_str(),
            FileChange::Modified { path } => path.as_str(),
            FileChange::Conflict { path } => path.as_str(),
            FileChange::Deleted { path } => path.as_str(),
            FileChange::Renamed { to_path, .. } => to_path.as_str(),
        }
    }
}

/// A file change with staged/unstaged status information.
#[derive(Clone, Debug, PartialEq, Eq)]
pub struct StatusEntry {
    /// The file change (path and type of change).
    pub change: FileChange,
    /// Whether this change is staged (in the index).
    pub staged: bool,
    /// Number of additions, if known.
    pub additions: Option<usize>,
    /// Number of deletions, if known.
    pub deletions: Option<usize>,
    /// Whether git takes the file for a binary one.
    pub is_binary: bool,
}

/// A [`StatusEntry`] with its paths as character sequences.
pub struct Entry {
    pub change: Change,
    pub staged: bool,
    pub additions: Option<usize>,
    pub deletions: Option<usize>,
    pub is_binary: bool,
}

impl View for StatusEntry {
    type V = Entry;

    open spec fn view(&self) -> Entry {
        Entry {
            change: self.change@,
            staged: self.staged,
            additions: self.additions,
            deletions: self.deletions,
            is_binary: self.is_binary,
        }
    }
}

/// An entry of which no line counts are known.
pub open spec fn plain_entry(change: Change, staged: bool) -> Entry {
    Entry { change, staged, additions: None, deletions: None, is_binary: false }
}

/// The entries behind a vector of status entries.
pub open spec fn entries(v: Seq<StatusEntry>) -> Seq<Entry> {
    v.map_values(|e: StatusEntry| e@)
}

impl StatusEntry {
    /// Records the line counts that were asked for this entry: additions, deletions and whether
    /// the file is binary. Without an answer the entry has no counts.
    pub fn set_stats(&mut self, stats: Option<(usize, usize, bool)>)
        ensures
            final(self).change == old(self).change,
            final(self).staged == old(self).staged,
            match stats {
                Some((adds, dels, binary)) => {
                    &&& final(self).additions == Some(adds)
                    &&& final(self).deletions == Some(dels)
                    &&& final(self).is_binary == binary
                },
                None => {
                    &&& final(self).additions is None
                    &&& final(self).deletions is None
                    &&& !final(self).is_binary
                },
            },
    {
        match stats {
            Some((adds, dels, binary)) => {
                self.additions = Some(adds);
                self.deletions = Some(dels);
                self.is_binary = binary;
            },
            None => {
                self.additions = None;
                self.deletions = None;
                self.is_binary = false;
            },
        }
    }
}

/// A single git log entry (commit).
#[derive(Clone, Debug, PartialEq, Eq)]
pub struct LogEntry {
    /// Full commit hash (40 chars).
    pub hash: String,
    /// Short commit hash (7 chars).
    pub short_hash: String,
    /// Commit subject (first line of message).
    pub subject: String,
    /// Author name.
    pub author: String,
    /// Date in short format (YYYY-MM-DD).
    pub date: String,
    /// Relative date (e.g., "2 hours ago").
    pub relative_date: String,
}

/// A single line of git blame output.
#[derive(Clone, Debug, PartialEq, Eq)]
pub struct BlameLine {
    /// Full commit hash.
    pub hash: String,
    /// Short commit hash (7 chars).
    pub short_hash: String,
    /// Author name.
    pub author: String,
    /// Date in short format (YYYY-MM-DD), in UTC.
    pub date: String,
    /// Relative date (e.g., "2 hours ago").
    pub relative_date: String,
    /// Line number in the current file (1-indexed).
    pub line_no: usize,
    /// Line content.
    pub content: String,
    /// Whether this is a boundary commit (root of the file's history).
    pub is_boundary: bool,
}

/// A single stash.
#[derive(Clone, Debug, PartialEq, Eq)]
pub struct StashEntry {
    /// The name of the stash (e.g., `stash@{0}`).
    pub index: String,
    /// The message it was made with.
    pub message: String,
    /// Relative date (e.g., "2 hours ago").
    pub relative_date: String,
}

/// A change is found at its path, and a renamed file at the path that it has now. Before its lines
/// are counted an entry has no counts.
pub proof fn law_changes_are_found_at_their_path(p: Seq<char>, q: Seq<char>, staged: bool)
    ensures
        (Change::Untracked { path: p }).at() == p,
        (Change::Modified { path: p }).at() == p,
        (Change::Conflict { path: p }).at() == p,
        (Change::Deleted { path: p }).at() == p,
        (Change::Renamed { from_path: p, to_path: q }).at() == q,
        ({
            let e = plain_entry(Change::Modified { path: p }, staged);
            &&& e.change == Change::Modified { path: p }
            &&& e.staged == staged
            &&& e.additions is None
            &&& e.deletions is None
            &&& !e.is_binary
        }),
{
}

} // verus!
