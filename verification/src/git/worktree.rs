//! Decisions on what the repository holds: changes in the work tree, kinds of tree entries and
//! the name of the current head.

use vstd::prelude::*;

use crate::git::status;
use crate::git::status::FileChange;
use crate::text;
use crate::text::{chars_of, extend_str, string_between, string_of};

verus! {

broadcast use vstd::string::group_string_axioms;

/// How a tracked file differs from the index.
#[derive(Debug, Clone, Copy, PartialEq, Eq, Structural)]
pub enum EntryState {
    /// An unresolved merge.
    Conflict,
    /// The file is gone.
    Removed,
    /// The content or the mode changed.
    Modification,
    /// Marked with `git add --intent-to-add`. Such files still show up as new.
    IntentToAdd,
    /// Any other difference.
    Other,
}

/// An item of the comparison between the index and the work tree. Paths are relative to the root
/// of the work tree.
pub enum WorktreeItem {
    /// A tracked file.
    Modification { path: String, state: EntryState },
    /// An entry of a directory.
    DirectoryEntry { path: String, untracked: bool },
    /// A file that moved.
    Rewrite { from_path: String, to_path: String },
}

/// The change that an item stands for, if it is one to report.
pub open spec fn item_change(item: WorktreeItem) -> Option<status::Change> {
    match item {
        WorktreeItem::Modification { path, state } => match state {
            EntryState::Conflict => Some(status::Change::Conflict { path: path@ }),
            EntryState::Removed => Some(status::Change::Deleted { path: path@ }),
            EntryState::Modification => Some(status::Change::Modified { path: path@ }),
            EntryState::IntentToAdd => Some(status::Change::Untracked { path: path@ }),
            EntryState::Other => None,
        },
        WorktreeItem::DirectoryEntry { path, untracked } => if untracked {
            Some(status::Change::Untracked { path: path@ })
        } else {
            None
        },
        WorktreeItem::Rewrite { from_path, to_path } => Some(
            status::Change::Renamed { from_path: from_path@, to_path: to_path@ },
        ),
    }
}

/// The change that an item stands for, if it is one to report.
pub fn worktree_change(item: WorktreeItem) -> (r: Option<FileChange>)
    ensures
        match r {
            Some(change) => item_change(item) == Some(change@),
            None => item_change(item) is None,
        },
{
    match item {
        WorktreeItem::Modification { path, state } => match state {
            EntryState::Conflict => Some(FileChange::Conflict { path }),
            EntryState::Removed => Some(FileChange::Deleted { path }),
            EntryState::Modification => Some(FileChange::Modified { path }),
            EntryState::IntentToAdd => Some(FileChange::Untracked { path }),
            EntryState::Other => None,
        },
        WorktreeItem::DirectoryEntry { path, untracked } => {
            if untracked {
                Some(FileChange::Untracked { path })
            } else {
                None
            }
        },
        WorktreeItem::Rewrite { from_path, to_path } => Some(
            FileChange::Renamed { from_path, to_path },
        ),
    }
}

/// What the comparison produced next.
pub enum StatusEvent {
    /// An item could not be read.
    Failed,
    /// An item.
    Item(WorktreeItem),
}

/// What is to be done with it.
pub enum StatusAction {
    /// Hand the error on. The comparison goes on whatever the answer.
    ReportError,
    /// Hand the change on. The answer says whether the comparison goes on.
    Report(FileChange),
    /// Nothing; the comparison goes on.
    Skip,
}

/// What to do with the next event of the comparison.
pub fn status_action(event: StatusEvent) -> (r: StatusAction)
    ensures
        match (event, r) {
            (StatusEvent::Failed, StatusAction::ReportError) => true,
            (StatusEvent::Item(item), StatusAction::Report(change)) => item_change(item) == Some(
                change@,
            ),
            (StatusEvent::Item(item), StatusAction::Skip) => item_change(item) is None,
            _ => false,
        },
{
    match event {
        StatusEvent::Failed => StatusAction::ReportError,
        StatusEvent::Item(item) => match worktree_change(item) {
            Some(change) => StatusAction::Report(change),
            None => StatusAction::Skip,
        },
    }
}

/// Whether the comparison goes on after an action, given the answer of the one it was reported
/// to: only a reported change can end it.
pub fn status_goes_on(reported_change: bool, answer: bool) -> (r: bool)
    ensures
        r == (!reported_change || answer),
{
    !reported_change || answer
}

/// What a tree entry holds.
#[derive(Debug, Clone, Copy, PartialEq, Eq, Structural)]
pub enum TreeEntryKind {
    Tree,
    Blob,
    BlobExecutable,
    Link,
    Commit,
}

/// Whether the entry is a file, plain or executable.
pub open spec fn is_file_kind(kind: TreeEntryKind) -> bool {
    kind == TreeEntryKind::Blob || kind == TreeEntryKind::BlobExecutable
}

/// The name of the kind.
pub open spec fn kind_name(kind: TreeEntryKind) -> Seq<char> {
    match kind {
        TreeEntryKind::Tree => "Tree"@,
        TreeEntryKind::Blob => "Blob"@,
        TreeEntryKind::BlobExecutable => "BlobExecutable"@,
        TreeEntryKind::Link => "Link"@,
        TreeEntryKind::Commit => "Commit"@,
    }
}

/// Accepts the tree entry found at `path` if it is a file. Of anything else there is no content
/// to compare with.
pub fn require_file(kind: TreeEntryKind, path: &str) -> (r: Result<(), String>)
    ensures
        r is Ok <==> is_file_kind(kind),
        r matches Err(message) ==> message@ == "entry at "@ + path@ + " is not a file but a "@
            + kind_name(kind),
{
    let name = match kind {
        TreeEntryKind::Blob | TreeEntryKind::BlobExecutable => {
            return Ok(());
        },
        TreeEntryKind::Tree => "Tree",
        TreeEntryKind::Link => "Link",
        TreeEntryKind::Commit => "Commit",
    };
    let mut t = chars_of("entry at ");
    extend_str(&mut t, path);
    extend_str(&mut t, " is not a file but a ");
    extend_str(&mut t, name);
    Err(string_of(&t))
}

/// What `gix::refs::FullName` makes of a reference name: its short form, or nothing where the name
/// is not valid.
pub uninterp spec fn short_reference(name: Seq<char>) -> Option<Seq<char>>;

/// `gix::refs::FullName::try_from`, and `FullName::shorten` where the name is valid: the name
/// without a well-known prefix. Of a valid branch name that is what follows `refs/heads/`.
#[verifier::external_body]
fn shorten_reference(name: &str) -> (r: Option<String>)
    ensures
        text::opt_string(r) == short_reference(name@),
        r is Some && text::has_prefix(name@, "refs/heads/"@) ==> r->0@ == name@.skip(
            "refs/heads/"@.len() as int,
        ),
{
    let name = gix::refs::FullName::try_from(name).ok()?;
    Some(name.shorten().to_string())
}

/// The name shown for a head: the short name of its reference, else, where the head is detached,
/// the first eight digits of the commit.
pub open spec fn shown_head(short: Option<Seq<char>>, commit: Seq<char>) -> Seq<char> {
    match short {
        Some(name) => name,
        None => if commit.len() >= 8 {
            commit.take(8)
        } else {
            commit
        },
    }
}

/// The name shown for a head with the short name `short`, or for a detached one at `commit`.
pub fn head_label(short: Option<String>, commit: &str) -> (r: String)
    ensures
        r@ == shown_head(text::opt_string(short), commit@),
{
    match short {
        Some(name) => name,
        None => {
            let t = chars_of(commit);
            let n: usize = if t.len() >= 8 {
                8
            } else {
                t.len()
            };
            let r = string_between(&t, 0, n);
            proof {
                assert(r@ =~= shown_head(None, commit@));
            }
            r
        },
    }
}

/// The name shown for the head `reference`, or for a detached one at `commit`. Nothing where the
/// reference does not have a valid name.
pub fn current_head_name(reference: Option<&str>, commit: &str) -> (r: Option<String>)
    ensures
        match reference {
            Some(name) => text::opt_string(r) == short_reference(name@),
            None => text::opt_string(r) == Some(shown_head(None, commit@)),
        },
        reference is Some && text::has_prefix(reference->0@, "refs/heads/"@) && r is Some
            ==> r->0@ == reference->0@.skip("refs/heads/"@.len() as int),
{
    match reference {
        Some(name) => match shorten_reference(name) {
            Some(short) => Some(head_label(Some(short), commit)),
            None => None,
        },
        None => Some(head_label(None, commit)),
    }
}

/// What is reported of the work tree: each kind of difference as the change that it is, at the path
/// of the file; of a file that moved, both paths. Files of directories are reported where they are
/// not tracked.
pub proof fn law_differences_are_reported(path: String, other: String, state: EntryState)
    ensures
        item_change(WorktreeItem::Modification { path, state: EntryState::Conflict }) == Some(
            status::Change::Conflict { path: path@ },
        ),
        item_change(WorktreeItem::Modification { path, state: EntryState::Removed }) == Some(
            status::Change::Deleted { path: path@ },
        ),
        item_change(WorktreeItem::Modification { path, state: EntryState::Modification }) == Some(
            status::Change::Modified { path: path@ },
        ),
        item_change(WorktreeItem::Modification { path, state: EntryState::IntentToAdd })
            == item_change(WorktreeItem::DirectoryEntry { path, untracked: true }),
        item_change(WorktreeItem::DirectoryEntry { path, untracked: true }) == Some(
            status::Change::Untracked { path: path@ },
        ),
        item_change(WorktreeItem::DirectoryEntry { path, untracked: false }) is None,
        item_change(WorktreeItem::Modification { path, state: EntryState::Other }) is None,
        item_change(WorktreeItem::Rewrite { from_path: path, to_path: other }) == Some(
            status::Change::Renamed { from_path: path@, to_path: other@ },
        ),
        item_change(WorktreeItem::Modification { path, state }) matches Some(change) ==> change.at()
            == path@,
{
}

/// A detached head is shown by the start of its commit: eight characters of it, or all of a shorter
/// one. Any other is shown by its name.
pub proof fn law_detached_head_is_shown_by_its_commit(name: Seq<char>, commit: Seq<char>, rest: Seq<char>)
    ensures
        shown_head(Some(name), commit) == name,
        commit.len() == 8 ==> shown_head(None, commit + rest) == commit,
        commit.len() < 8 ==> shown_head(None, commit) == commit,
{
    if commit.len() == 8 {
        assert((commit + rest).take(8) =~= commit);
    }
}

/// Only plain and executable files have content to compare with.
pub proof fn law_only_files_have_content(kind: TreeEntryKind)
    ensures
        is_file_kind(kind) <==> !(kind is Tree) && !(kind is Link) && !(kind is Commit),
        kind is Tree ==> kind_name(kind) == "Tree"@,
        kind is Link ==> kind_name(kind) == "Link"@,
        kind is Commit ==> kind_name(kind) == "Commit"@,
{
}

/// The kinds of tree entries go by their names.
pub proof fn law_kinds_have_their_names()
    ensures
        kind_name(TreeEntryKind::Tree) == "Tree"@,
        kind_name(TreeEntryKind::Blob) == "Blob"@,
        kind_name(TreeEntryKind::BlobExecutable) == "BlobExecutable"@,
        kind_name(TreeEntryKind::Link) == "Link"@,
        kind_name(TreeEntryKind::Commit) == "Commit"@,
{
}

} // verus!
