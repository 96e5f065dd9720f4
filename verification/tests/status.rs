//! Status lines as git prints them.

use helix_agent::git::command::{GitCommand, Judgement};
use helix_agent::git::history::{parse_diff_stats, StatsError};
use helix_agent::git::porcelain::{parse_status_porcelain, status_lines_cut_cleanly};
use helix_agent::git::status::{FileChange, StatusEntry};

fn find_entry<'a>(entries: &'a [StatusEntry], path_suffix: &str) -> Option<&'a StatusEntry> {
    entries.iter().find(|e| e.change.path().ends_with(path_suffix))
}

/// Staged modification (`M  file.txt`) → staged=true, Modified
#[test]
fn status_porcelain_staged_modification() {
    let entries = parse_status_porcelain("M  file.txt\n");
    assert_eq!(entries.len(), 1, "Should have exactly one entry");
    let entry = &entries[0];
    assert!(entry.staged, "Entry should be staged");
    assert!(
        matches!(entry.change, FileChange::Modified { .. }),
        "Entry should be Modified variant"
    );
    assert!(entry.change.path().ends_with("file.txt"));
}

/// Unstaged modification (` M file.txt`) → staged=false, Modified
#[test]
fn status_porcelain_unstaged_modification() {
    let entries = parse_status_porcelain(" M file.txt\n");
    assert_eq!(entries.len(), 1, "Should have exactly one entry");
    let entry = &entries[0];
    assert!(!entry.staged, "Entry should be unstaged");
    assert!(
        matches!(entry.change, FileChange::Modified { .. }),
        "Entry should be Modified variant"
    );
}

/// Dual staged/unstaged (`MM file.txt`) → TWO entries
#[test]
fn status_porcelain_dual_staged_unstaged() {
    let entries = parse_status_porcelain("MM file.txt\n");
    assert_eq!(entries.len(), 2, "Should have two entries for MM state");
    let staged_count = entries.iter().filter(|e| e.staged).count();
    let unstaged_count = entries.iter().filter(|e| !e.staged).count();
    assert_eq!(staged_count, 1, "Should have one staged entry");
    assert_eq!(unstaged_count, 1, "Should have one unstaged entry");
    for entry in &entries {
        assert!(
            matches!(entry.change, FileChange::Modified { .. }),
            "Both entries should be Modified variant"
        );
    }
}

/// Staged new file (`A  new_file.txt`) → staged=true, Modified
#[test]
fn status_porcelain_staged_new_file() {
    let entries = parse_status_porcelain("A  new_file.txt\n");
    let entry = find_entry(&entries, "new_file.txt").expect("Should find new_file.txt");
    assert!(entry.staged, "New file should be staged");
    assert!(
        matches!(entry.change, FileChange::Modified { .. }),
        "Added file should be treated as Modified"
    );
}

/// Untracked file (`?? untracked.txt`) → staged=false, Untracked
#[test]
fn status_porcelain_untracked_file() {
    let entries = parse_status_porcelain("?? untracked.txt\n");
    let entry = find_entry(&entries, "untracked.txt").expect("Should find untracked.txt");
    assert!(!entry.staged, "Untracked file should not be staged");
    assert!(
        matches!(entry.change, FileChange::Untracked { .. }),
        "Entry should be Untracked variant"
    );
}

/// Staged deleted file (`D  to_delete.txt`) → staged=true, Deleted
#[test]
fn status_porcelain_staged_deleted_file() {
    let entries = parse_status_porcelain("D  to_delete.txt\n");
    assert_eq!(entries.len(), 1, "Should have exactly one entry");
    let entry = &entries[0];
    assert!(entry.staged, "Deleted file should be staged");
    assert!(
        matches!(entry.change, FileChange::Deleted { .. }),
        "Entry should be Deleted variant"
    );
}

/// Renamed file (`R  old_name.txt -> new_name.txt`) → staged=true, Renamed
#[test]
fn status_porcelain_renamed_file() {
    let entries = parse_status_porcelain("R  old_name.txt -> new_name.txt\n");
    let entry = entries
        .iter()
        .find(|e| matches!(e.change, FileChange::Renamed { .. }))
        .expect("Should have a Renamed entry");
    assert!(entry.staged, "Renamed file should be staged");
    match &entry.change {
        FileChange::Renamed { from_path, to_path } => {
            assert!(from_path.ends_with("old_name.txt"), "from_path should be old_name.txt");
            assert!(to_path.ends_with("new_name.txt"), "to_path should be new_name.txt");
        }
        _ => panic!("Expected Renamed variant"),
    }
}

/// Conflict state (`UU conflict.txt`) → Conflict
#[test]
fn status_porcelain_conflict_uu() {
    let entries = parse_status_porcelain("UU conflict.txt\n");
    let entry = find_entry(&entries, "conflict.txt").expect("Should find conflict.txt");
    assert!(
        matches!(entry.change, FileChange::Conflict { .. }),
        "Entry should be Conflict variant for UU state"
    );
}

/// Quoted path with spaces
#[test]
fn status_porcelain_quoted_path_spaces() {
    let entries = parse_status_porcelain("?? \"file with spaces.txt\"\n");
    let entry = find_entry(&entries, "file with spaces.txt").expect("Should find file with spaces");
    assert!(
        matches!(entry.change, FileChange::Untracked { .. }),
        "Entry should be Untracked"
    );
}

/// Escaped tab in filename
#[test]
fn status_porcelain_escaped_tab() {
    let entries = parse_status_porcelain("?? \"file\\ttab.txt\"\n");
    let entry = find_entry(&entries, "file\ttab.txt").expect("Should find file with tab in name");
    assert!(
        matches!(entry.change, FileChange::Untracked { .. }),
        "Entry should be Untracked"
    );
    assert!(entry.change.path().contains('\t'), "Path should contain actual tab character");
    assert!(!entry.change.path().contains("\\t"), "Path should not contain escaped \\t");
}

/// Empty repo (no changes) → empty vec
#[test]
fn status_porcelain_empty_repo() {
    let entries = parse_status_porcelain("");
    assert!(entries.is_empty(), "Empty repo should have no entries");
}

/// Multiple files with mixed states
#[test]
fn status_porcelain_multiple_files() {
    let entries = parse_status_porcelain("M  file1.txt\n M file2.txt\n?? file3.txt\n");
    assert_eq!(entries.len(), 3, "Should have three entries");
    let entry1 = find_entry(&entries, "file1.txt").expect("Should find file1");
    assert!(entry1.staged);
    assert!(matches!(entry1.change, FileChange::Modified { .. }));
    let entry2 = find_entry(&entries, "file2.txt").expect("Should find file2");
    assert!(!entry2.staged);
    assert!(matches!(entry2.change, FileChange::Modified { .. }));
    let entry3 = find_entry(&entries, "file3.txt").expect("Should find file3");
    assert!(!entry3.staged);
    assert!(matches!(entry3.change, FileChange::Untracked { .. }));
}

/// A directory that is no repository: git fails, and so does the status.
#[test]
fn adversarial_status_non_git_dir() {
    let stderr = b"fatal: not a git repository (or any of the parent directories): .git\n";
    let result = GitCommand::Status.outcome(false, stderr, Vec::new());
    assert!(result.is_err(), "Should fail for non-git directory");
    assert_eq!(
        result.unwrap_err(),
        "git status --porcelain=v1 failed: fatal: not a git repository (or any of the parent directories): .git\n"
    );
}

/// File with a leading dash
#[test]
fn adversarial_real_file_leading_dash() {
    let entries = parse_status_porcelain("?? -dangerous.txt\n");
    assert!(find_entry(&entries, "-dangerous.txt").is_some(), "Should find file with leading dash");
}

/// File with newlines in its name
#[test]
fn adversarial_real_file_newline_in_name() {
    let entries = parse_status_porcelain("?? \"file\\nwith\\nnewlines.txt\"\n");
    assert!(
        find_entry(&entries, "file\nwith\nnewlines.txt").is_some(),
        "Should find file with newlines"
    );
}

/// File with a backslash in its name
#[test]
fn adversarial_real_file_backslash_in_name() {
    let entries = parse_status_porcelain("?? \"file\\\\backslash.txt\"\n");
    assert!(
        find_entry(&entries, "file\\backslash.txt").is_some(),
        "Should find file with backslash"
    );
}

#[test]
fn every_unmerged_pair_of_codes_is_a_conflict() {
    for codes in ["UU", "UA", "UD", "AU", "DU", "AA", "DD"] {
        let entries = parse_status_porcelain(&format!("{} f\n", codes));
        assert_eq!(entries.len(), 1, "{}", codes);
        assert_eq!(entries[0].change, FileChange::Conflict { path: "f".to_string() });
        assert!(entries[0].staged);
    }
}

#[test]
fn move_in_the_work_tree_keeps_the_staged_path() {
    let entries = parse_status_porcelain("MR old.txt -> new.txt\n");
    assert_eq!(entries.len(), 2);
    assert!(entries[0].staged);
    assert_eq!(entries[0].change, FileChange::Modified { path: "old.txt".to_string() });
    assert!(!entries[1].staged);
    assert_eq!(
        entries[1].change,
        FileChange::Renamed { from_path: "old.txt".to_string(), to_path: "new.txt".to_string() }
    );
}

#[test]
fn copies_are_reported_as_renames() {
    let entries = parse_status_porcelain("C  a -> b\n");
    assert_eq!(
        entries[0].change,
        FileChange::Renamed { from_path: "a".to_string(), to_path: "b".to_string() }
    );
}

#[test]
fn lines_without_a_status_are_passed_over() {
    assert!(parse_status_porcelain("M\n!! ignored\nR  only_one\n").is_empty());
}

#[test]
fn status_lines_are_cut_between_characters() {
    assert!(status_lines_cut_cleanly("M  é\n"));
    assert!(status_lines_cut_cleanly("é\n"));
    assert!(!status_lines_cut_cleanly("M日x\n"));
}

#[test]
fn stats_are_recorded() {
    let mut entries = parse_status_porcelain("M  file.txt\n");
    let stats = parse_diff_stats("3\t1\tfile.txt\n").unwrap();
    assert_eq!(stats, Some((3, 1, false)));
    entries[0].set_stats(stats);
    assert_eq!(entries[0].additions, Some(3));
    assert_eq!(entries[0].deletions, Some(1));
    assert!(!entries[0].is_binary);
    entries[0].set_stats(None);
    assert_eq!(entries[0].additions, None);
    assert_eq!(entries[0].deletions, None);
}

#[test]
fn stats_of_binary_files_and_faults() {
    assert_eq!(parse_diff_stats(""), Ok(None));
    assert_eq!(parse_diff_stats("3\n"), Ok(None));
    assert_eq!(parse_diff_stats("-\t-\timage.png\n"), Ok(Some((0, 0, true))));
    assert_eq!(parse_diff_stats("x\t1\tf\n"), Err(StatsError::Additions));
    assert_eq!(parse_diff_stats("1\tx\tf\n"), Err(StatsError::Deletions));
    assert_eq!(StatsError::Additions.message(), "failed to parse additions count");
    assert_eq!(StatsError::Deletions.message(), "failed to parse deletions count");
}

#[test]
fn git_arguments() {
    let args = |c: GitCommand| c.args().join(" ");
    assert_eq!(args(GitCommand::Add), "add");
    assert_eq!(args(GitCommand::ResetHead), "reset HEAD");
    assert_eq!(args(GitCommand::Status), "status --porcelain=v1");
    assert_eq!(args(GitCommand::ShowStaged { path: "a/b".to_string() }), "show :a/b");
    assert_eq!(args(GitCommand::DiffStats { staged: true }), "diff --numstat --cached HEAD --");
    assert_eq!(args(GitCommand::DiffStats { staged: false }), "diff --numstat --");
    assert_eq!(
        args(GitCommand::Log { limit: 50, of_file: true }),
        "log --format=%H%x00%h%x00%s%x00%an%x00%ad%x00%ar --date=short -n50 --"
    );
    assert_eq!(
        args(GitCommand::ShowFile { revision: "HEAD".to_string(), path: "f".to_string() }),
        "show HEAD:f"
    );
    assert_eq!(
        args(GitCommand::CommitFileDiff { hash: "abc".to_string(), path: "f".to_string() }),
        "diff abc~1 abc -- f"
    );
    assert_eq!(
        args(GitCommand::StashPush { message: Some("wip".to_string()) }),
        "stash push -m wip"
    );
    assert_eq!(args(GitCommand::StashPush { message: None }), "stash push");
    assert_eq!(
        args(GitCommand::StashFileDiff { index: "stash@{0}".to_string(), path: "f".to_string() }),
        "stash show -p stash@{0} -- f"
    );
}

#[test]
fn failures_name_the_command() {
    match GitCommand::Add.judge(false, "boom") {
        Judgement::Failed(message) => assert_eq!(message, "git add failed: boom"),
        _ => panic!("expected a failure"),
    }
    match GitCommand::ApplyCachedReverse.judge(false, "  boom\n") {
        Judgement::Failed(message) => assert_eq!(message, "git apply --cached -R failed: boom"),
        _ => panic!("expected a failure"),
    }
    assert!(matches!(GitCommand::Commit.judge(true, "noise"), Judgement::Output));
}

#[test]
fn absent_file_has_no_content() {
    let show = GitCommand::ShowFile { revision: "HEAD".to_string(), path: "f".to_string() };
    let absent = b"fatal: path 'f' does not exist in 'HEAD'\n";
    assert_eq!(show.outcome(false, absent, b"x".to_vec()), Ok(Vec::new()));
    let on_disk = b"fatal: path 'f' exists on disk, but not in 'HEAD'\n";
    assert_eq!(show.outcome(false, on_disk, Vec::new()), Ok(Vec::new()));
    assert!(show.outcome(false, b"fatal: bad revision", Vec::new()).is_err());
    assert_eq!(show.outcome(true, b"", b"text".to_vec()), Ok(b"text".to_vec()));
}

#[test]
fn status_letters_are_optional() {
    let command = GitCommand::CommitNameStatus { hash: "abc".to_string() };
    assert_eq!(command.outcome(false, b"boom", b"out".to_vec()), Ok(b"out".to_vec()));
}

#[test]
fn complaints_need_not_be_utf8() {
    let result = GitCommand::Add.outcome(false, b"a\xffb", Vec::new());
    assert_eq!(result, Err("git add failed: a\u{fffd}b".to_string()));
}

#[test]
fn output_as_text() {
    let log = GitCommand::Log { limit: 1, of_file: false };
    assert_eq!(log.outcome_text(true, b"", b"a\xffb"), Ok("a\u{fffd}b".to_string()));
    assert_eq!(log.outcome_text(true, b"noise", "\u{e9}".as_bytes()), Ok("\u{e9}".to_string()));
    assert_eq!(
        GitCommand::Add.outcome_text(false, b"boom", b"out"),
        Err("git add failed: boom".to_string())
    );
    let show = GitCommand::ShowFile { revision: "HEAD".to_string(), path: "f".to_string() };
    let absent = b"fatal: path 'f' does not exist in 'HEAD'\n";
    assert_eq!(show.outcome_text(false, absent, b"x"), Ok(String::new()));
}
