//! The git commands that the library reads or changes a repository with: their arguments, and
//! what their exit means.

use vstd::prelude::*;

use crate::bytes;
use crate::bytes::lossy_text;
use crate::lines;
use crate::lines::trim;
use crate::number;
use crate::number::decimal_text;
use crate::text;
use crate::text::{chars_of, extend_str, find_text, string_of};

verus! {

broadcast use vstd::string::group_string_axioms;

/// A run of git. Where the command works on a path of the file system, or on the paths that
/// limit it, the path is not among the arguments here: it follows them.
pub enum GitCommand {
    /// Stage a file. The path follows.
    Add,
    /// Unstage a file. The path follows.
    ResetHead,
    /// The staged content of a file, by its path in the work tree.
    ShowStaged { path: String },
    /// Take back a patch, read from standard input, in the work tree.
    ApplyReverse,
    /// Apply a patch, read from standard input, to the index.
    ApplyCached,
    /// Take back a patch, read from standard input, in the index.
    ApplyCachedReverse,
    /// Commit what is staged, with the message read from standard input.
    Commit,
    /// The status of the work tree.
    Status,
    /// Line counts of a file. The path follows.
    DiffStats { staged: bool },
    /// The log. Where it is limited to a file, the path follows.
    Log { limit: u64, of_file: bool },
    /// A commit with the summary of what it changed.
    ShowCommit { hash: String },
    /// Line counts of the files that a commit changed.
    CommitNumstat { hash: String },
    /// Status letters of the files that a commit changed.
    CommitNameStatus { hash: String },
    /// A file as it was at a revision.
    ShowFile { revision: String, path: String },
    /// What a commit changed in a file.
    CommitFileDiff { hash: String, path: String },
    /// The blame of a file. The path in the work tree follows.
    Blame,
    /// All stash entries.
    StashList,
    /// What a stash entry changed.
    StashShow { index: String },
    /// Move the changes to a new stash entry.
    StashPush { message: Option<String> },
    /// Apply a stash entry and remove it.
    StashPop { index: String },
    /// Apply a stash entry.
    StashApply { index: String },
    /// Remove a stash entry.
    StashDrop { index: String },
    /// Line counts of the files that a stash entry changed.
    StashNumstat { index: String },
    /// What a stash entry changed in a file.
    StashFileDiff { index: String, path: String },
}

/// How the fields of a log entry are printed: with NUL bytes between them.
pub const LOG_FORMAT: &'static str = "--format=%H%x00%h%x00%s%x00%an%x00%ad%x00%ar";

/// How the fields of a stash entry are printed.
pub const STASH_FORMAT: &'static str = "--format=%gd%x00%s%x00%cr";

/// How the head of a commit is printed.
pub const COMMIT_FORMAT: &'static str = "--format=%H%n%s%n%an <%ae>%n%ad%n";

fn push_arg(v: &mut Vec<String>, arg: &str)
    ensures
        text::strings(final(v)@) == text::strings(old(v)@).push(arg@),
{
    let t = chars_of(arg);
    let s = string_of(&t);
    proof {
        text::lemma_strings_push(v@, s);
    }
    v.push(s);
}

fn push_joined(v: &mut Vec<String>, a: &str, b: &str, c: &str)
    ensures
        text::strings(final(v)@) == text::strings(old(v)@).push(a@ + b@ + c@),
{
    let mut t = chars_of(a);
    extend_str(&mut t, b);
    extend_str(&mut t, c);
    let s = string_of(&t);
    proof {
        text::lemma_strings_push(v@, s);
    }
    v.push(s);
}

impl GitCommand {
    /// The arguments.
    pub open spec fn words(&self) -> Seq<Seq<char>> {
        match self {
            GitCommand::Add => seq!["add"@],
            GitCommand::ResetHead => seq!["reset"@, "HEAD"@],
            GitCommand::ShowStaged { path } => seq!["show"@, ":"@ + path@],
            GitCommand::ApplyReverse => seq!["apply"@, "-R"@, "--"@, "-"@],
            GitCommand::ApplyCached => seq!["apply"@, "--cached"@, "--"@, "-"@],
            GitCommand::ApplyCachedReverse => seq!["apply"@, "--cached"@, "-R"@, "--"@, "-"@],
            GitCommand::Commit => seq!["commit"@, "--file=-"@],
            GitCommand::Status => seq!["status"@, "--porcelain=v1"@],
            GitCommand::DiffStats { staged } => if *staged {
                seq!["diff"@, "--numstat"@, "--cached"@, "HEAD"@, "--"@]
            } else {
                seq!["diff"@, "--numstat"@, "--"@]
            },
            GitCommand::Log { limit, of_file } => {
                let all = seq![
                    "log"@,
                    LOG_FORMAT@,
                    "--date=short"@,
                    "-n"@ + number::decimal(*limit as nat),
                ];
                if *of_file {
                    all.push("--"@)
                } else {
                    all
                }
            },
            GitCommand::ShowCommit { hash } => seq![
                "show"@,
                "--stat"@,
                COMMIT_FORMAT@,
                "--date=short"@,
                hash@,
            ],
            GitCommand::CommitNumstat { hash } => seq![
                "diff-tree"@,
                "--no-commit-id"@,
                "-r"@,
                "--numstat"@,
                hash@,
            ],
            GitCommand::CommitNameStatus { hash } => seq![
                "diff-tree"@,
                "--no-commit-id"@,
                "-r"@,
                "--name-status"@,
                hash@,
            ],
            GitCommand::ShowFile { revision, path } => seq!["show"@, revision@ + ":"@ + path@],
            GitCommand::CommitFileDiff { hash, path } => seq![
                "diff"@,
                hash@ + "~1"@,
                hash@,
                "--"@,
                path@,
            ],
            GitCommand::Blame => seq!["blame"@, "--porcelain"@],
            GitCommand::StashList => seq!["stash"@, "list"@, STASH_FORMAT@],
            GitCommand::StashShow { index } => seq!["stash"@, "show"@, "-p"@, index@],
            GitCommand::StashPush { message } => match message {
                Some(m) => seq!["stash"@, "push"@, "-m"@, m@],
                None => seq!["stash"@, "push"@],
            },
            GitCommand::StashPop { index } => seq!["stash"@, "pop"@, index@],
            GitCommand::StashApply { index } => seq!["stash"@, "apply"@, index@],
            GitCommand::StashDrop { index } => seq!["stash"@, "drop"@, index@],
            GitCommand::StashNumstat { index } => seq!["stash"@, "show"@, "--numstat"@, index@],
            GitCommand::StashFileDiff { index, path } => seq![
                "stash"@,
                "show"@,
                "-p"@,
                index@,
                "--"@,
                path@,
            ],
        }
    }

    /// The arguments to run git with.
    pub fn args(&self) -> (r: Vec<String>)
        ensures
            text::strings(r@) == self.words(),
    {
        let mut v: Vec<String> = Vec::new();
        proof {
            assert(text::strings(v@) =~= Seq::<Seq<char>>::empty());
        }
        match self {
            GitCommand::Add => {
                push_arg(&mut v, "add");
            },
            GitCommand::ResetHead => {
                push_arg(&mut v, "reset");
                push_arg(&mut v, "HEAD");
            },
            GitCommand::ShowStaged { path } => {
                push_arg(&mut v, "show");
                push_joined(&mut v, ":", path.as_str(), "");
                proof {
                    reveal_strlit("");
                    assert(":"@ + path@ + ""@ =~= ":"@ + path@);
                }
            },
            GitCommand::ApplyReverse => {
                push_arg(&mut v, "apply");
                push_arg(&mut v, "-R");
                push_arg(&mut v, "--");
                push_arg(&mut v, "-");
            },
            GitCommand::ApplyCached => {
                push_arg(&mut v, "apply");
                push_arg(&mut v, "--cached");
                push_arg(&mut v, "--");
                push_arg(&mut v, "-");
            },
            GitCommand::ApplyCachedReverse => {
                push_arg(&mut v, "apply");
                push_arg(&mut v, "--cached");
                push_arg(&mut v, "-R");
                push_arg(&mut v, "--");
                push_arg(&mut v, "-");
            },
            GitCommand::Commit => {
                push_arg(&mut v, "commit");
                push_arg(&mut v, "--file=-");
            },
            GitCommand::Status => {
                push_arg(&mut v, "status");
                push_arg(&mut v, "--porcelain=v1");
            },
            GitCommand::DiffStats { staged } => {
                push_arg(&mut v, "diff");
                push_arg(&mut v, "--numstat");
                if *staged {
                    push_arg(&mut v, "--cached");
                    push_arg(&mut v, "HEAD");
                }
                push_arg(&mut v, "--");
            },
            GitCommand::Log { limit, of_file } => {
                push_arg(&mut v, "log");
                push_arg(&mut v, LOG_FORMAT);
                push_arg(&mut v, "--date=short");
                let n = decimal_text(*limit);
                let n = string_of(&n);
                push_joined(&mut v, "-n", n.as_str(), "");
                proof {
                    reveal_strlit("");
                    assert("-n"@ + n@ + ""@ =~= "-n"@ + n@);
                }
                if *of_file {
                    push_arg(&mut v, "--");
                }
            },
            GitCommand::ShowCommit { hash } => {
                push_arg(&mut v, "show");
                push_arg(&mut v, "--stat");
                push_arg(&mut v, COMMIT_FORMAT);
                push_arg(&mut v, "--date=short");
                push_arg(&mut v, hash.as_str());
            },
            GitCommand::CommitNumstat { hash } => {
                push_arg(&mut v, "diff-tree");
                push_arg(&mut v, "--no-commit-id");
                push_arg(&mut v, "-r");
                push_arg(&mut v, "--numstat");
                push_arg(&mut v, hash.as_str());
            },
            GitCommand::CommitNameStatus { hash } => {
                push_arg(&mut v, "diff-tree");
                push_arg(&mut v, "--no-commit-id");
                push_arg(&mut v, "-r");
                push_arg(&mut v, "--name-status");
                push_arg(&mut v, hash.as_str());
            },
            GitCommand::ShowFile { revision, path } => {
                push_arg(&mut v, "show");
                push_joined(&mut v, revision.as_str(), ":", path.as_str());
            },
            GitCommand::CommitFileDiff { hash, path } => {
                push_arg(&mut v, "diff");
                push_joined(&mut v, hash.as_str(), "~1", "");
                proof {
                    reveal_strlit("");
                    assert(hash@ + "~1"@ + ""@ =~= hash@ + "~1"@);
                }
                push_arg(&mut v, hash.as_str());
                push_arg(&mut v, "--");
                push_arg(&mut v, path.as_str());
            },
            GitCommand::Blame => {
                push_arg(&mut v, "blame");
                push_arg(&mut v, "--porcelain");
            },
            GitCommand::StashList => {
                push_arg(&mut v, "stash");
                push_arg(&mut v, "list");
                push_arg(&mut v, STASH_FORMAT);
            },
            GitCommand::StashShow { index } => {
                push_arg(&mut v, "stash");
                push_arg(&mut v, "show");
                push_arg(&mut v, "-p");
                push_arg(&mut v, index.as_str());
            },
            GitCommand::StashPush { message } => {
                push_arg(&mut v, "stash");
                push_arg(&mut v, "push");
                match message {
                    Some(m) => {
                        push_arg(&mut v, "-m");
                        push_arg(&mut v, m.as_str());
                    },
                    None => {},
                }
            },
            GitCommand::StashPop { index } => {
                push_arg(&mut v, "stash");
                push_arg(&mut v, "pop");
                push_arg(&mut v, index.as_str());
            },
            GitCommand::StashApply { index } => {
                push_arg(&mut v, "stash");
                push_arg(&mut v, "apply");
                push_arg(&mut v, index.as_str());
            },
            GitCommand::StashDrop { index } => {
                push_arg(&mut v, "stash");
                push_arg(&mut v, "drop");
                push_arg(&mut v, index.as_str());
            },
            GitCommand::StashNumstat { index } => {
                push_arg(&mut v, "stash");
                push_arg(&mut v, "show");
                push_arg(&mut v, "--numstat");
                push_arg(&mut v, index.as_str());
            },
            GitCommand::StashFileDiff { index, path } => {
                push_arg(&mut v, "stash");
                push_arg(&mut v, "show");
                push_arg(&mut v, "-p");
                push_arg(&mut v, index.as_str());
                push_arg(&mut v, "--");
                push_arg(&mut v, path.as_str());
            },
        }
        proof {
            assert(text::strings(v@) =~= self.words());
        }
        v
    }

    /// What the command is called where it fails.
    pub open spec fn called(&self) -> Seq<char> {
        match self {
            GitCommand::Add => "git add"@,
            GitCommand::ResetHead => "git reset"@,
            GitCommand::ShowStaged { .. } => "git show"@,
            GitCommand::ApplyReverse => "git apply -R"@,
            GitCommand::ApplyCached => "git apply --cached"@,
            GitCommand::ApplyCachedReverse => "git apply --cached -R"@,
            GitCommand::Commit => "git commit"@,
            GitCommand::Status => "git status --porcelain=v1"@,
            GitCommand::DiffStats { .. } => "git diff --numstat"@,
            GitCommand::Log { .. } => "git log"@,
            GitCommand::ShowCommit { .. } => "git show"@,
            GitCommand::CommitNumstat { .. } => "git diff-tree"@,
            GitCommand::CommitNameStatus { .. } => "git diff-tree"@,
            GitCommand::ShowFile { .. } => "git show"@,
            GitCommand::CommitFileDiff { .. } => "git diff"@,
            GitCommand::Blame => "git blame"@,
            GitCommand::StashList => "git stash list"@,
            GitCommand::StashShow { .. } => "git stash show"@,
            GitCommand::StashPush { .. } => "git stash push"@,
            GitCommand::StashPop { .. } => "git stash pop"@,
            GitCommand::StashApply { .. } => "git stash apply"@,
            GitCommand::StashDrop { .. } => "git stash drop"@,
            GitCommand::StashNumstat { .. } => "git stash show"@,
            GitCommand::StashFileDiff { .. } => "git stash show"@,
        }
    }

    /// What the command is called where it fails.
    pub fn name(&self) -> (r: &'static str)
        ensures
            r@ == self.called(),
    {
        match self {
            GitCommand::Add => "git add",
            GitCommand::ResetHead => "git reset",
            GitCommand::ShowStaged { .. } => "git show",
            GitCommand::ApplyReverse => "git apply -R",
            GitCommand::ApplyCached => "git apply --cached",
            GitCommand::ApplyCachedReverse => "git apply --cached -R",
            GitCommand::Commit => "git commit",
            GitCommand::Status => "git status --porcelain=v1",
            GitCommand::DiffStats { .. } => "git diff --numstat",
            GitCommand::Log { .. } => "git log",
            GitCommand::ShowCommit { .. } => "git show",
            GitCommand::CommitNumstat { .. } => "git diff-tree",
            GitCommand::CommitNameStatus { .. } => "git diff-tree",
            GitCommand::ShowFile { .. } => "git show",
            GitCommand::CommitFileDiff { .. } => "git diff",
            GitCommand::Blame => "git blame",
            GitCommand::StashList => "git stash list",
            GitCommand::StashShow { .. } => "git stash show",
            GitCommand::StashPush { .. } => "git stash push",
            GitCommand::StashPop { .. } => "git stash pop",
            GitCommand::StashApply { .. } => "git stash apply",
            GitCommand::StashDrop { .. } => "git stash drop",
            GitCommand::StashNumstat { .. } => "git stash show",
            GitCommand::StashFileDiff { .. } => "git stash show",
        }
    }

    /// What comes of a run of the command that printed `complaint` as its error output, and of
    /// which `success` says how it ended. Without an error, the output counts, unless it is the
    /// content of a file that the revision does not hold, which is empty.
    pub open spec fn verdict(&self, success: bool, complaint: Seq<char>) -> Verdict {
        if success || self is CommitNameStatus {
            Verdict::Output
        } else if self is ShowFile && says_file_is_absent(complaint) {
            Verdict::Nothing
        } else if self is ApplyCachedReverse {
            Verdict::Failed(self.called() + " failed: "@ + lines::trim_of(complaint))
        } else {
            Verdict::Failed(self.called() + " failed: "@ + complaint)
        }
    }

    /// Judges a run of the command by its exit, error output and output.
    pub fn outcome(&self, success: bool, stderr: &[u8], stdout: Vec<u8>) -> (r: Result<
        Vec<u8>,
        String,
    >)
        ensures
            match self.verdict(success, bytes::utf8_lossy(stderr@)) {
                Verdict::Output => r == Ok::<Vec<u8>, String>(stdout),
                Verdict::Nothing => r is Ok && r->Ok_0@ == Seq::<u8>::empty(),
                Verdict::Failed(message) => r is Err && r->Err_0@ == message,
            },
    {
        let complaint = lossy_text(stderr);
        match self.judge(success, complaint.as_str()) {
            Judgement::Output => Ok(stdout),
            Judgement::Nothing => Ok(Vec::new()),
            Judgement::Failed(message) => Err(message),
        }
    }

    /// Judges a run of the command whose output is text: as `outcome`, with the output decoded.
    /// What is not UTF-8 in it is replaced.
    pub fn outcome_text(&self, success: bool, stderr: &[u8], stdout: &[u8]) -> (r: Result<
        String,
        String,
    >)
        ensures
            match self.verdict(success, bytes::utf8_lossy(stderr@)) {
                Verdict::Output => r is Ok && r->Ok_0@ == bytes::utf8_lossy(stdout@),
                Verdict::Nothing => r is Ok && r->Ok_0@ == Seq::<char>::empty(),
                Verdict::Failed(message) => r is Err && r->Err_0@ == message,
            },
            r matches Ok(output) ==> self.verdict(success, bytes::utf8_lossy(stderr@)) is Output
                && vstd::utf8::valid_utf8(stdout@) ==> output@ == vstd::utf8::decode_utf8(stdout@),
    {
        let complaint = lossy_text(stderr);
        match self.judge(success, complaint.as_str()) {
            Judgement::Output => Ok(lossy_text(stdout)),
            Judgement::Nothing => {
                let r = String::new();
                proof {
                    assert(r@ =~= Seq::<char>::empty());
                }
                Ok(r)
            },
            Judgement::Failed(message) => Err(message),
        }
    }

    /// Judges a run of the command by its exit and the text of its error output.
    pub fn judge(&self, success: bool, complaint: &str) -> (r: Judgement)
        ensures
            r@ == self.verdict(success, complaint@),
    {
        if success {
            return Judgement::Output;
        }
        match self {
            GitCommand::CommitNameStatus { .. } => {
                return Judgement::Output;
            },
            GitCommand::ShowFile { .. } => {
                if file_is_absent(complaint) {
                    return Judgement::Nothing;
                }
            },
            _ => {},
        }
        let mut t = chars_of(self.name());
        extend_str(&mut t, " failed: ");
        match self {
            GitCommand::ApplyCachedReverse => {
                let c = chars_of(complaint);
                let c = trim(&c);
                text::extend(&mut t, &c);
            },
            _ => {
                extend_str(&mut t, complaint);
            },
        }
        Judgement::Failed(string_of(&t))
    }
}

/// What comes of a run of a command.
pub enum Judgement {
    /// What the command printed.
    Output,
    /// Nothing, as if the command had printed nothing.
    Nothing,
    /// A failure, with a message.
    Failed(String),
}

/// What comes of a run of a command, with its text as a character sequence.
pub enum Verdict {
    Output,
    Nothing,
    Failed(Seq<char>),
}

impl View for Judgement {
    type V = Verdict;

    open spec fn view(&self) -> Verdict {
        match self {
            Judgement::Output => Verdict::Output,
            Judgement::Nothing => Verdict::Nothing,
            Judgement::Failed(message) => Verdict::Failed(message@),
        }
    }
}

/// Whether git complains that a revision does not hold the file.
pub open spec fn says_file_is_absent(complaint: Seq<char>) -> bool {
    ||| text::first_match(complaint, "' does not exist in '"@) is Some
    ||| text::first_match(complaint, "' exists on disk, but not in '"@) is Some
}

fn file_is_absent(complaint: &str) -> (r: bool)
    ensures
        r == says_file_is_absent(complaint@),
{
    let t = chars_of(complaint);
    let missing = chars_of("' does not exist in '");
    let on_disk = chars_of("' exists on disk, but not in '");
    proof {
        assert(t@.skip(0) =~= t@);
    }
    find_text(&t, 0, &missing).is_some() || find_text(&t, 0, &on_disk).is_some()
}

/// A run that succeeds is never turned into a failure, and a failure carries the name of the
/// command in front.
pub proof fn law_failures_name_the_command(command: GitCommand, success: bool, complaint: Seq<char>)
    ensures
        success ==> command.verdict(success, complaint) == Verdict::Output,
        command.verdict(success, complaint) matches Verdict::Failed(message) ==> !success
            && text::has_prefix(message, command.called() + " failed: "@),
{
    let head = command.called() + " failed: "@;
    match command.verdict(success, complaint) {
        Verdict::Failed(message) => {
            assert(message.take(head.len() as int) =~= head);
        },
        _ => {},
    }
}

/// The commands that change the index or the work tree by a patch: `--cached` is given where the
/// index is changed, `-R` where the patch is taken back, and the patch is read from standard input.
pub proof fn law_patches_are_applied_where_they_belong(command: GitCommand)
    requires
        command is ApplyReverse || command is ApplyCached || command is ApplyCachedReverse,
    ensures
        command.words().first() == "apply"@,
        command.words().last() == "-"@,
        command.words()[command.words().len() - 2] == "--"@,
        command is ApplyReverse ==> command.words() == seq!["apply"@, "-R"@, "--"@, "-"@],
        command is ApplyCached ==> command.words() == seq!["apply"@, "--cached"@, "--"@, "-"@],
        command is ApplyCachedReverse ==> command.words() == seq![
            "apply"@,
            "--cached"@,
            "-R"@,
            "--"@,
            "-"@,
        ],
{
}

/// The commands that work on one stash entry name what to do with it and, behind that, the entry.
pub proof fn law_stash_commands_name_the_entry(index: String, path: String, message: String)
    ensures
        (GitCommand::StashPop { index }).words() == seq!["stash"@, "pop"@, index@],
        (GitCommand::StashApply { index }).words() == seq!["stash"@, "apply"@, index@],
        (GitCommand::StashDrop { index }).words() == seq!["stash"@, "drop"@, index@],
        (GitCommand::StashShow { index }).words() == seq!["stash"@, "show"@, "-p"@, index@],
        (GitCommand::StashNumstat { index }).words() == seq![
            "stash"@,
            "show"@,
            "--numstat"@,
            index@,
        ],
        (GitCommand::StashFileDiff { index, path }).words() == (GitCommand::StashShow {
            index,
        }).words() + seq!["--"@, path@],
        (GitCommand::StashPush { message: Some(message) }).words() == (GitCommand::StashPush {
            message: None,
        }).words() + seq!["-m"@, message@],
        (GitCommand::StashPush { message: None }).words() == seq!["stash"@, "push"@],
{
    assert((GitCommand::StashFileDiff { index, path }).words() =~= (GitCommand::StashShow {
        index,
    }).words() + seq!["--"@, path@]);
    assert((GitCommand::StashPush { message: Some(message) }).words() =~= (GitCommand::StashPush {
        message: None,
    }).words() + seq!["-m"@, message@]);
}

/// The commands that look something up ask for just that: the revision and the path of a file, the
/// commit whose files or changes are wanted, and as many log entries as the limit says. A commit is
/// compared with the one before it.
pub proof fn law_lookups_ask_for_their_object(hash: String, path: String, limit: u64, staged: bool)
    ensures
        (GitCommand::ShowFile { revision: hash, path }).words() == seq![
            "show"@,
            hash@ + seq![':'] + path@,
        ],
        (GitCommand::ShowStaged { path }).words() == seq!["show"@, seq![':'] + path@],
        (GitCommand::CommitFileDiff { hash, path }).words() == seq![
            "diff"@,
            hash@ + seq!['~', '1'],
            hash@,
            "--"@,
            path@,
        ],
        (GitCommand::CommitNumstat { hash }).words().last() == hash@,
        (GitCommand::CommitNumstat { hash }).words().contains("--numstat"@),
        (GitCommand::CommitNameStatus { hash }).words().last() == hash@,
        (GitCommand::CommitNameStatus { hash }).words().contains("--name-status"@),
        (GitCommand::ShowCommit { hash }).words().first() == "show"@,
        (GitCommand::ShowCommit { hash }).words().last() == hash@,
        (GitCommand::Log { limit, of_file: false }).words() == seq![
            "log"@,
            "--format=%H%x00%h%x00%s%x00%an%x00%ad%x00%ar"@,
            "--date=short"@,
            seq!['-', 'n'] + number::decimal(limit as nat),
        ],
        (GitCommand::Log { limit, of_file: true }).words() == (GitCommand::Log {
            limit,
            of_file: false,
        }).words().push("--"@),
        GitCommand::StashList.words() == seq!["stash"@, "list"@, "--format=%gd%x00%s%x00%cr"@],
        GitCommand::Blame.words() == seq!["blame"@, "--porcelain"@],
        GitCommand::Status.words() == seq!["status"@, "--porcelain=v1"@],
        GitCommand::Add.words() == seq!["add"@],
        GitCommand::ResetHead.words() == seq!["reset"@, "HEAD"@],
        GitCommand::Commit.words() == seq!["commit"@, "--file=-"@],
        (GitCommand::DiffStats { staged }).words().contains("--numstat"@),
        (GitCommand::DiffStats { staged }).words().last() == "--"@,
        (GitCommand::DiffStats { staged }).words().contains("--cached"@) <==> staged,
{
    reveal_strlit(":");
    reveal_strlit("~1");
    reveal_strlit("-n");
    reveal_strlit("--cached");
    reveal_strlit("--numstat");
    reveal_strlit("diff");
    reveal_strlit("--");
    assert(":"@ =~= seq![':']);
    assert("~1"@ =~= seq!['~', '1']);
    assert("-n"@ =~= seq!['-', 'n']);
    let numstat = (GitCommand::CommitNumstat { hash }).words();
    let names = (GitCommand::CommitNameStatus { hash }).words();
    let stats = (GitCommand::DiffStats { staged }).words();
    assert(numstat[3] == "--numstat"@);
    assert(names[3] == "--name-status"@);
    assert(stats[1] == "--numstat"@);
    assert("--cached"@.len() != "--numstat"@.len());
    assert("--cached"@.len() != "diff"@.len());
    assert("--cached"@.len() != "--"@.len());
    if staged {
        assert(stats[2] == "--cached"@);
    }
}

/// What comes of a run that failed: the name of the command and what it complained of. A file that
/// the revision does not hold has no content, which is no failure; and without its letters a commit
/// still has its files.
pub proof fn law_failed_runs(command: GitCommand, a: Seq<char>, b: Seq<char>, mark: Seq<char>)
    requires
        mark == "' does not exist in '"@ || mark == "' exists on disk, but not in '"@,
    ensures
        command is ShowFile ==> command.verdict(false, a + mark + b) == Verdict::Nothing,
        command is CommitNameStatus ==> command.verdict(false, a) == Verdict::Output,
        !(command is ShowFile) && !(command is CommitNameStatus) && !(command is ApplyCachedReverse)
            ==> command.verdict(false, a) == Verdict::Failed(command.called() + " failed: "@ + a),
        command is ApplyCachedReverse ==> command.verdict(false, a) == Verdict::Failed(
            command.called() + " failed: "@ + lines::trim_of(a),
        ),
        command.verdict(true, a) == Verdict::Output,
{
    let s = a + mark + b;
    let n = a.len() as int;
    text::lemma_first_match(s, mark);
    assert(s.skip(n).take(mark.len() as int) =~= mark);
    assert(text::has_prefix(s.skip(n), mark));
}

/// A failed command is called by what it is run with.
pub proof fn law_commands_are_called_by_name(
    hash: String,
    path: String,
    message: Option<String>,
    limit: u64,
    flag: bool,
)
    ensures
        GitCommand::Add.called() == "git add"@,
        GitCommand::ResetHead.called() == "git reset"@,
        GitCommand::Commit.called() == "git commit"@,
        GitCommand::Status.called() == "git status --porcelain=v1"@,
        GitCommand::Blame.called() == "git blame"@,
        GitCommand::ApplyReverse.called() == "git apply -R"@,
        GitCommand::ApplyCached.called() == "git apply --cached"@,
        GitCommand::ApplyCachedReverse.called() == "git apply --cached -R"@,
        (GitCommand::DiffStats { staged: flag }).called() == "git diff --numstat"@,
        (GitCommand::Log { limit, of_file: flag }).called() == "git log"@,
        (GitCommand::ShowStaged { path }).called() == "git show"@,
        (GitCommand::ShowCommit { hash }).called() == "git show"@,
        (GitCommand::ShowFile { revision: hash, path }).called() == "git show"@,
        (GitCommand::CommitNumstat { hash }).called() == "git diff-tree"@,
        (GitCommand::CommitNameStatus { hash }).called() == "git diff-tree"@,
        (GitCommand::CommitFileDiff { hash, path }).called() == "git diff"@,
        GitCommand::StashList.called() == "git stash list"@,
        (GitCommand::StashPush { message }).called() == "git stash push"@,
        (GitCommand::StashPop { index: hash }).called() == "git stash pop"@,
        (GitCommand::StashApply { index: hash }).called() == "git stash apply"@,
        (GitCommand::StashDrop { index: hash }).called() == "git stash drop"@,
        (GitCommand::StashShow { index: hash }).called() == "git stash show"@,
        (GitCommand::StashNumstat { index: hash }).called() == "git stash show"@,
        (GitCommand::StashFileDiff { index: hash, path }).called() == "git stash show"@,
{
}

/// The files of a commit and its head are asked for with all that is read from them: the counts or
/// the letters of each file, all files of the tree and nothing of the commit itself.
pub proof fn law_commits_are_asked_for_their_files(hash: String)
    ensures
        (GitCommand::ShowCommit { hash }).words() == seq![
            "show"@,
            "--stat"@,
            "--format=%H%n%s%n%an <%ae>%n%ad%n"@,
            "--date=short"@,
            hash@,
        ],
        (GitCommand::CommitNumstat { hash }).words() == seq![
            "diff-tree"@,
            "--no-commit-id"@,
            "-r"@,
            "--numstat"@,
            hash@,
        ],
        (GitCommand::CommitNameStatus { hash }).words() == seq![
            "diff-tree"@,
            "--no-commit-id"@,
            "-r"@,
            "--name-status"@,
            hash@,
        ],
        (GitCommand::DiffStats { staged: true }).words() == seq![
            "diff"@,
            "--numstat"@,
            "--cached"@,
            "HEAD"@,
            "--"@,
        ],
        (GitCommand::DiffStats { staged: false }).words() == seq!["diff"@, "--numstat"@, "--"@],
{
}

} // verus!
