//! The history of a repository as git prints it.

use helix_agent::git::blame::{blame_ages_fit, parse_blame};
use helix_agent::git::date::short_date_text;
use helix_agent::git::history::{
    compute_relative_time, parse_commit_files, parse_log, parse_stash_files, parse_stash_list,
};
use helix_agent::git::status::FileChange;
use helix_agent::git::worktree::{
    current_head_name, head_label, require_file, status_action, status_goes_on, worktree_change,
    EntryState, StatusAction, StatusEvent, TreeEntryKind, WorktreeItem,
};

#[test]
fn log_entries() {
    let entries = parse_log(
        "aaaa\0aa\0Subject\0Ann\x002024-01-02\x002 days ago\n\nshort\0line\n\
         bbbb\0bb\0Other\0Bob\x002024-01-01\x003 days\0 ago\n",
    );
    assert_eq!(entries.len(), 2);
    assert_eq!(entries[0].hash, "aaaa");
    assert_eq!(entries[0].short_hash, "aa");
    assert_eq!(entries[0].subject, "Subject");
    assert_eq!(entries[0].author, "Ann");
    assert_eq!(entries[0].date, "2024-01-02");
    assert_eq!(entries[0].relative_date, "2 days ago");
    assert_eq!(entries[1].relative_date, "3 days\0 ago");
}

#[test]
fn stash_entries() {
    let entries = parse_stash_list("stash@{0}\0On main: wip\x005 minutes ago\nbroken\n");
    assert_eq!(entries.len(), 1);
    assert_eq!(entries[0].index, "stash@{0}");
    assert_eq!(entries[0].message, "On main: wip");
    assert_eq!(entries[0].relative_date, "5 minutes ago");
}

#[test]
fn files_of_a_commit() {
    let files = parse_commit_files(
        "1\t2\ta.txt\n-\t-\tb.png\n\nodd line\n3\t0\tc.txt\n",
        "M\ta.txt\nA\tb.png\n",
    );
    assert_eq!(
        files,
        vec![
            ("M".to_string(), "a.txt".to_string(), 1, 2),
            ("A".to_string(), "b.png".to_string(), 0, 0),
            ("M".to_string(), "c.txt".to_string(), 3, 0),
        ]
    );
}

#[test]
fn files_of_a_stash_count_as_modified() {
    let files = parse_stash_files("4\t1\tsrc/lib.rs\n");
    assert_eq!(files, vec![("M".to_string(), "src/lib.rs".to_string(), 4, 1)]);
}

#[test]
fn relative_times() {
    assert_eq!(compute_relative_time(-5), "just now");
    assert_eq!(compute_relative_time(59), "just now");
    assert_eq!(compute_relative_time(60), "1 min ago");
    assert_eq!(compute_relative_time(3599), "59 min ago");
    assert_eq!(compute_relative_time(3600), "1 hours ago");
    assert_eq!(compute_relative_time(86400), "1 days ago");
    assert_eq!(compute_relative_time(604_800), "1 weeks ago");
    assert_eq!(compute_relative_time(2_592_000), "1 months ago");
    assert_eq!(compute_relative_time(31_536_000), "1 years ago");
    assert_eq!(compute_relative_time(3 * 31_536_000), "3 years ago");
}

#[test]
fn dates() {
    let date = |secs: i64| short_date_text(secs).into_iter().collect::<String>();
    assert_eq!(date(0), "1970-01-01");
    assert_eq!(date(86_399), "1970-01-01");
    assert_eq!(date(86_400), "1970-01-02");
    assert_eq!(date(-1), "1969-12-31");
    assert_eq!(date(951_782_400), "2000-02-29");
    assert_eq!(date(1_700_000_000), "2023-11-14");
    assert_eq!(date(-62_135_596_800), "0001-01-01");
}

const BLAME: &str = "\
aaaaaaaaaaaaaaaaaaaaaaaaaaaaaaaaaaaaaaaa 1 1 2
author Ann
author-mail <ann@example.com>
author-time 1700000000
author-tz +0000
committer Ann
summary First
boundary
filename f.txt
\tline one
aaaaaaaaaaaaaaaaaaaaaaaaaaaaaaaaaaaaaaaa 2 2
\tline two
bbbbbbbbbbbbbbbbbbbbbbbbbbbbbbbbbbbbbbbb 3 3 1
author Bob
author-time 1700003600
summary Second
filename f.txt
\t\tindented
";

#[test]
fn blame_has_one_entry_for_each_content_line() {
    let lines = parse_blame(BLAME, 1_700_007_200);
    assert_eq!(lines.len(), 3);
    assert_eq!(lines[0].hash, "a".repeat(40));
    assert_eq!(lines[0].short_hash, "aaaaaaa");
    assert_eq!(lines[0].author, "Ann");
    assert_eq!(lines[0].date, "2023-11-14");
    assert_eq!(lines[0].relative_date, "2 hours ago");
    assert_eq!(lines[0].line_no, 1);
    assert_eq!(lines[0].content, "line one");
    assert!(lines[0].is_boundary);
    assert_eq!(lines[1].line_no, 2);
    assert_eq!(lines[1].content, "line two");
    assert!(lines[1].is_boundary);
    assert_eq!(lines[1].date, "2023-11-14");
    assert_eq!(lines[1].author, "Ann");
    assert_eq!(lines[2].author, "Bob");
    assert_eq!(lines[2].relative_date, "1 hours ago");
    assert_eq!(lines[2].content, "\tindented");
    assert!(!lines[2].is_boundary);
}

#[test]
fn commit_that_comes_back_keeps_its_details() {
    let lines = parse_blame(
        "aaaaaaa1 1 1 1\nauthor Alice\n\tx\nbbbbbbb2 2 2 1\nauthor Bob\n\ty\naaaaaaa1 3 3 1\n\tz\n",
        0,
    );
    let authors: Vec<&str> = lines.iter().map(|l| l.author.as_str()).collect();
    assert_eq!(authors, vec!["Alice", "Bob", "Alice"]);
    assert_eq!(lines[2].line_no, 3);
    let lines = parse_blame(
        "a1 1 1 1\nauthor Ann\nauthor-time 86400\nboundary\n\tx\nb2 2 2 1\n\ty\na1 3 3 1\n\tz\n",
        90_000,
    );
    assert_eq!((lines[1].author.as_str(), lines[1].date.as_str()), ("", ""));
    assert!(!lines[1].is_boundary);
    assert_eq!((lines[2].author.as_str(), lines[2].date.as_str()), ("Ann", "1970-01-02"));
    assert_eq!(lines[2].relative_date, "1 hours ago");
    assert!(lines[2].is_boundary);
}

#[test]
fn ages_that_cannot_be_told() {
    assert!(blame_ages_fit(BLAME, 0));
    assert!(!blame_ages_fit("author-time -9223372036854775808\n", 1));
    assert!(blame_ages_fit("author-time nonsense\n", i64::MAX));
}

#[test]
fn changes_in_the_work_tree() {
    let change = |state: EntryState| {
        worktree_change(WorktreeItem::Modification { path: "f".to_string(), state })
    };
    assert_eq!(change(EntryState::Conflict), Some(FileChange::Conflict { path: "f".to_string() }));
    assert_eq!(change(EntryState::Removed), Some(FileChange::Deleted { path: "f".to_string() }));
    assert_eq!(
        change(EntryState::Modification),
        Some(FileChange::Modified { path: "f".to_string() })
    );
    assert_eq!(
        change(EntryState::IntentToAdd),
        Some(FileChange::Untracked { path: "f".to_string() })
    );
    assert_eq!(change(EntryState::Other), None);
    let entry = |untracked: bool| {
        worktree_change(WorktreeItem::DirectoryEntry { path: "d".to_string(), untracked })
    };
    assert_eq!(entry(true), Some(FileChange::Untracked { path: "d".to_string() }));
    assert_eq!(entry(false), None);
    let moved = WorktreeItem::Rewrite { from_path: "a".to_string(), to_path: "b".to_string() };
    let moved = worktree_change(moved).unwrap();
    assert_eq!(moved.path(), "b");
}

#[test]
fn only_a_reported_change_ends_the_comparison() {
    assert!(matches!(status_action(StatusEvent::Failed), StatusAction::ReportError));
    let item = WorktreeItem::DirectoryEntry { path: "d".to_string(), untracked: false };
    assert!(matches!(status_action(StatusEvent::Item(item)), StatusAction::Skip));
    let item = WorktreeItem::DirectoryEntry { path: "d".to_string(), untracked: true };
    assert!(matches!(status_action(StatusEvent::Item(item)), StatusAction::Report(_)));
    assert!(status_goes_on(false, false));
    assert!(status_goes_on(true, true));
    assert!(!status_goes_on(true, false));
}

#[test]
fn only_files_have_a_base() {
    assert_eq!(require_file(TreeEntryKind::Blob, "f"), Ok(()));
    assert_eq!(require_file(TreeEntryKind::BlobExecutable, "f"), Ok(()));
    assert_eq!(
        require_file(TreeEntryKind::Tree, "d"),
        Err("entry at d is not a file but a Tree".to_string())
    );
    assert_eq!(
        require_file(TreeEntryKind::Link, "l"),
        Err("entry at l is not a file but a Link".to_string())
    );
    assert_eq!(
        require_file(TreeEntryKind::Commit, "s"),
        Err("entry at s is not a file but a Commit".to_string())
    );
}

#[test]
fn head_names() {
    assert_eq!(current_head_name(Some("refs/heads/main"), ""), Some("main".to_string()));
    assert_eq!(current_head_name(Some("refs/heads/fix/it"), ""), Some("fix/it".to_string()));
    assert_eq!(current_head_name(Some("refs/heads/a b"), ""), None);
    assert_eq!(
        current_head_name(None, "0123456789abcdef"),
        Some("01234567".to_string())
    );
    assert_eq!(head_label(Some("main".to_string()), "0123456789"), "main");
    assert_eq!(head_label(None, "0123"), "0123");
}
