//! The output of `git log`, `git stash list` and the commands that count changed lines.

use vstd::prelude::*;

use crate::git::status::{LogEntry, StashEntry};
use crate::lines;
use crate::lines::{split_all_fields, split_fields, split_lines};
use crate::number;
use crate::number::{decimal_i64_text, parse_usize};
use crate::text;
use crate::text::{chars_of, extend_str, same, string_of};

verus! {

broadcast use vstd::string::group_string_axioms;

// ---------------------------------------------------------------------------------------------
// Records with NUL separators
// ---------------------------------------------------------------------------------------------

/// The lines that hold `n` fields at the separator NUL, each as its fields. The last field takes
/// what is left of its line; empty lines and lines with fewer fields are passed over.
pub open spec fn records(ls: Seq<Seq<char>>, n: nat) -> Seq<Seq<Seq<char>>>
    decreases ls.len(),
{
    if ls.len() == 0 {
        Seq::empty()
    } else {
        let parts = lines::fields(ls[0], '\0', n);
        let rest = records(ls.skip(1), n);
        if ls[0].len() == 0 || parts.len() < n {
            rest
        } else {
            seq![parts] + rest
        }
    }
}

/// There are never more fields than were asked for.
pub proof fn lemma_fields_len(s: Seq<char>, c: char, n: nat)
    ensures
        lines::fields(s, c, n).len() <= n,
        n > 0 ==> lines::fields(s, c, n).len() > 0,
    decreases n,
{
    let k = text::first_at(s, c);
    if n > 1 && k < s.len() {
        lemma_fields_len(s.skip(k + 1), c, (n - 1) as nat);
    }
}

/// Reads the lines of `stdout` as records of `n` fields.
fn read_records(stdout: &str, n: usize) -> (r: Vec<Vec<Vec<char>>>)
    ensures
        r@.map_values(|row: Vec<Vec<char>>| text::texts(row@)) == records(
            lines::lines(stdout@),
            n as nat,
        ),
        forall|i: int| 0 <= i < r@.len() ==> (#[trigger] r@[i])@.len() == n,
{
    let t = chars_of(stdout);
    let ls = split_lines(&t);
    let ghost all = lines::lines(stdout@);
    let ghost row_of = |row: Vec<Vec<char>>| text::texts(row@);
    let mut out: Vec<Vec<Vec<char>>> = Vec::new();
    let mut i: usize = 0;
    proof {
        assert(all.skip(0) =~= all);
        assert(out@.map_values(row_of) + records(all, n as nat) =~= records(all, n as nat));
    }
    while i < ls.len()
        invariant
            i <= ls@.len(),
            text::texts(ls@) == all,
            row_of == (|row: Vec<Vec<char>>| text::texts(row@)),
            out@.map_values(row_of) + records(all.skip(i as int), n as nat) == records(
                all,
                n as nat,
            ),
            forall|k: int| 0 <= k < out@.len() ==> (#[trigger] out@[k])@.len() == n,
        decreases ls@.len() - i,
    {
        let line = &ls[i];
        proof {
            assert(all[i as int] == line@);
            assert(all.skip(i as int)[0] == all[i as int]);
            assert(all.skip(i as int).skip(1) =~= all.skip(i + 1));
            lemma_fields_len(line@, '\0', n as nat);
        }
        if line.len() > 0 {
            let parts = split_fields(line, '\0', n);
            if parts.len() == n {
                let ghost before = out@;
                proof {
                    assert(text::texts(parts@).len() == parts@.len());
                }
                out.push(parts);
                proof {
                    assert(out@.map_values(row_of) =~= before.map_values(row_of).push(row_of(parts)));
                    assert(out@.map_values(row_of) + records(all.skip(i + 1), n as nat)
                        =~= before.map_values(row_of) + (seq![row_of(parts)] + records(
                        all.skip(i + 1),
                        n as nat,
                    )));
                }
            } else {
                proof {
                    assert(text::texts(parts@).len() == parts@.len());
                }
            }
        }
        i = i + 1;
    }
    proof {
        assert(all.skip(i as int) =~= Seq::<Seq<char>>::empty());
        assert(out@.map_values(row_of) + Seq::<Seq<Seq<char>>>::empty() =~= out@.map_values(row_of));
    }
    out
}

/// The fields of a log entry, in the order in which they are printed.
pub open spec fn log_fields(e: LogEntry) -> Seq<Seq<char>> {
    seq![e.hash@, e.short_hash@, e.subject@, e.author@, e.date@, e.relative_date@]
}

/// Reads log entries printed as `hash NUL short hash NUL subject NUL author NUL date NUL relative
/// date`, one to a line. Malformed lines are passed over.
pub fn parse_log(stdout: &str) -> (r: Vec<LogEntry>)
    ensures
        r@.map_values(|e: LogEntry| log_fields(e)) == records(lines::lines(stdout@), 6),
{
    let rows = read_records(stdout, 6);
    let ghost want = records(lines::lines(stdout@), 6);
    let ghost row_of = |row: Vec<Vec<char>>| text::texts(row@);
    let ghost fields_of = |e: LogEntry| log_fields(e);
    let mut out: Vec<LogEntry> = Vec::new();
    let mut i: usize = 0;
    while i < rows.len()
        invariant
            i <= rows@.len(),
            out@.len() == i,
            row_of == (|row: Vec<Vec<char>>| text::texts(row@)),
            rows@.map_values(row_of) == want,
            forall|k: int| 0 <= k < rows@.len() ==> (#[trigger] rows@[k])@.len() == 6,
            forall|k: int| 0 <= k < i ==> log_fields(#[trigger] out@[k]) == want[k],
        decreases rows@.len() - i,
    {
        let row = &rows[i];
        proof {
            assert(rows@[i as int]@.len() == 6);
        }
        let entry = LogEntry {
            hash: string_of(&row[0]),
            short_hash: string_of(&row[1]),
            subject: string_of(&row[2]),
            author: string_of(&row[3]),
            date: string_of(&row[4]),
            relative_date: string_of(&row[5]),
        };
        proof {
            assert(want[i as int] == row_of(rows@[i as int]));
            assert(log_fields(entry) =~= text::texts(row@));
        }
        out.push(entry);
        i = i + 1;
    }
    proof {
        assert(out@.map_values(fields_of) =~= want);
    }
    out
}

/// The fields of a stash entry, in the order in which they are printed.
pub open spec fn stash_fields(e: StashEntry) -> Seq<Seq<char>> {
    seq![e.index@, e.message@, e.relative_date@]
}

/// Reads stash entries printed as `index NUL message NUL relative date`, one to a line. Malformed
/// lines are passed over.
pub fn parse_stash_list(stdout: &str) -> (r: Vec<StashEntry>)
    ensures
        r@.map_values(|e: StashEntry| stash_fields(e)) == records(lines::lines(stdout@), 3),
{
    let rows = read_records(stdout, 3);
    let ghost want = records(lines::lines(stdout@), 3);
    let ghost row_of = |row: Vec<Vec<char>>| text::texts(row@);
    let ghost fields_of = |e: StashEntry| stash_fields(e);
    let mut out: Vec<StashEntry> = Vec::new();
    let mut i: usize = 0;
    while i < rows.len()
        invariant
            i <= rows@.len(),
            out@.len() == i,
            row_of == (|row: Vec<Vec<char>>| text::texts(row@)),
            rows@.map_values(row_of) == want,
            forall|k: int| 0 <= k < rows@.len() ==> (#[trigger] rows@[k])@.len() == 3,
            forall|k: int| 0 <= k < i ==> stash_fields(#[trigger] out@[k]) == want[k],
        decreases rows@.len() - i,
    {
        let row = &rows[i];
        proof {
            assert(rows@[i as int]@.len() == 3);
        }
        let entry = StashEntry {
            index: string_of(&row[0]),
            message: string_of(&row[1]),
            relative_date: string_of(&row[2]),
        };
        proof {
            assert(want[i as int] == row_of(rows@[i as int]));
            assert(stash_fields(entry) =~= text::texts(row@));
        }
        out.push(entry);
        i = i + 1;
    }
    proof {
        assert(out@.map_values(fields_of) =~= want);
    }
    out
}

// ---------------------------------------------------------------------------------------------
// Line counts
// ---------------------------------------------------------------------------------------------

/// A count in the output of `git diff --numstat` that is not a number.
#[derive(Debug, Clone, Copy, PartialEq, Eq, Structural)]
pub enum StatsError {
    /// The number of added lines.
    Additions,
    /// The number of deleted lines.
    Deletions,
}

impl StatsError {
    /// The error as text.
    pub fn message(&self) -> (r: &'static str)
        ensures
            r@ == (match *self {
                StatsError::Additions => "failed to parse additions count"@,
                StatsError::Deletions => "failed to parse deletions count"@,
            }),
    {
        match self {
            StatsError::Additions => "failed to parse additions count",
            StatsError::Deletions => "failed to parse deletions count",
        }
    }
}

/// The counts on a line `additions TAB deletions TAB filename`: additions, deletions and whether
/// the file is binary, which is what a `-` in place of a count means. A line with fewer than two
/// fields has none.
pub open spec fn line_stats(line: Seq<char>) -> Result<Option<(usize, usize, bool)>, StatsError> {
    let parts = lines::all_fields(line, '\t');
    if line.len() == 0 || parts.len() < 2 {
        Ok(None)
    } else if parts[0] == seq!['-'] || parts[1] == seq!['-'] {
        Ok(Some((0, 0, true)))
    } else {
        match (number::usize_of(parts[0]), number::usize_of(parts[1])) {
            (Some(adds), Some(dels)) => Ok(Some((adds, dels, false))),
            (None, _) => Err(StatsError::Additions),
            (_, None) => Err(StatsError::Deletions),
        }
    }
}

/// Reads the output of `git diff --numstat` for one file. No output means that nothing changed.
pub fn parse_diff_stats(stdout: &str) -> (r: Result<Option<(usize, usize, bool)>, StatsError>)
    ensures
        r == (if lines::lines(stdout@).len() == 0 {
            Ok(None)
        } else {
            line_stats(lines::lines(stdout@)[0])
        }),
{
    let t = chars_of(stdout);
    let ls = split_lines(&t);
    proof {
        assert(text::texts(ls@).len() == ls@.len());
    }
    if ls.len() == 0 {
        return Ok(None);
    }
    let line = &ls[0];
    proof {
        assert(text::texts(ls@)[0] == line@);
    }
    if line.len() == 0 {
        return Ok(None);
    }
    let parts = split_all_fields(line, '\t');
    proof {
        assert(text::texts(parts@).len() == parts@.len());
    }
    if parts.len() < 2 {
        return Ok(None);
    }
    let dash: Vec<char> = vec!['-'];
    proof {
        assert(dash@ =~= seq!['-']);
        assert(text::texts(parts@)[0] == parts@[0]@);
        assert(text::texts(parts@)[1] == parts@[1]@);
    }
    if same(&parts[0], &dash) || same(&parts[1], &dash) {
        return Ok(Some((0, 0, true)));
    }
    match parse_usize(&parts[0]) {
        None => Err(StatsError::Additions),
        Some(adds) => match parse_usize(&parts[1]) {
            None => Err(StatsError::Deletions),
            Some(dels) => Ok(Some((adds, dels, false))),
        },
    }
}

// ---------------------------------------------------------------------------------------------
// Changed files
// ---------------------------------------------------------------------------------------------

/// A changed file: status, path, additions and deletions.
pub type ChangedFile = (String, String, usize, usize);

/// A changed file with its texts as character sequences.
pub open spec fn changed_file(f: ChangedFile) -> (Seq<char>, Seq<char>, usize, usize) {
    (f.0@, f.1@, f.2, f.3)
}

/// The number that `s` writes, or zero where it writes none.
pub open spec fn count_of(s: Seq<char>) -> usize {
    match number::usize_of(s) {
        Some(n) => n,
        None => 0,
    }
}

/// The status that `git diff-tree --name-status` printed last for `path`.
pub open spec fn printed_status(ls: Seq<Seq<char>>, path: Seq<char>) -> Option<Seq<char>>
    decreases ls.len(),
{
    if ls.len() == 0 {
        None
    } else {
        let parts = lines::fields(ls.last(), '\t', 2);
        if ls.last().len() > 0 && parts.len() >= 2 && parts[1] == path {
            Some(parts[0])
        } else {
            printed_status(ls.drop_last(), path)
        }
    }
}

/// The status of `path`: the one printed for it, else `M` for modified.
pub open spec fn status_of(ls: Seq<Seq<char>>, path: Seq<char>) -> Seq<char> {
    match printed_status(ls, path) {
        Some(s) => s,
        None => seq!['M'],
    }
}

/// The changed files in `numstat`, lines of the form `additions TAB deletions TAB path`, each with
/// the status that `statuses` gives it. Other lines are passed over; a count that is no number
/// is zero.
pub open spec fn changed_files(numstat: Seq<Seq<char>>, statuses: Seq<Seq<char>>) -> Seq<
    (Seq<char>, Seq<char>, usize, usize),
>
    decreases numstat.len(),
{
    if numstat.len() == 0 {
        Seq::empty()
    } else {
        let parts = lines::all_fields(numstat[0], '\t');
        let rest = changed_files(numstat.skip(1), statuses);
        if numstat[0].len() == 0 || parts.len() < 3 {
            rest
        } else {
            seq![
                (status_of(statuses, parts[2]), parts[2], count_of(parts[0]), count_of(parts[1])),
            ] + rest
        }
    }
}

/// The status that the lines `ls` give `path`.
fn find_status(ls: &Vec<Vec<char>>, path: &Vec<char>) -> (r: Vec<char>)
    ensures
        r@ == status_of(text::texts(ls@), path@),
{
    let ghost all = text::texts(ls@);
    let mut n: usize = ls.len();
    proof {
        assert(all.take(n as int) =~= all);
    }
    while n > 0
        invariant
            n <= ls@.len(),
            all == text::texts(ls@),
            printed_status(all.take(n as int), path@) == printed_status(all, path@),
        decreases n,
    {
        let line = &ls[n - 1];
        proof {
            assert(all.take(n as int).last() == line@);
            assert(all.take(n as int).drop_last() =~= all.take(n - 1));
        }
        if line.len() > 0 {
            let mut parts = split_fields(line, '\t', 2);
            proof {
                assert(text::texts(parts@).len() == parts@.len());
                lemma_fields_len(line@, '\t', 2);
            }
            if parts.len() >= 2 {
                proof {
                    assert(text::texts(parts@)[0] == parts@[0]@);
                    assert(text::texts(parts@)[1] == parts@[1]@);
                }
                if same(&parts[1], path) {
                    return parts.swap_remove(0);
                }
            }
        }
        n = n - 1;
    }
    let r: Vec<char> = vec!['M'];
    proof {
        assert(all.take(0) =~= Seq::<Seq<char>>::empty());
        assert(r@ =~= seq!['M']);
    }
    r
}

fn count_text(t: &Vec<char>) -> (r: usize)
    ensures
        r == count_of(t@),
{
    match parse_usize(t) {
        Some(n) => n,
        None => 0,
    }
}

/// Reads the files that a commit changed from what `git diff-tree --numstat` and
/// `git diff-tree --name-status` printed for it.
pub fn parse_commit_files(numstat: &str, name_status: &str) -> (r: Vec<ChangedFile>)
    ensures
        r@.map_values(|f: ChangedFile| changed_file(f)) == changed_files(
            lines::lines(numstat@),
            lines::lines(name_status@),
        ),
{
    let t = chars_of(numstat);
    let ls = split_lines(&t);
    let u = chars_of(name_status);
    let statuses = split_lines(&u);
    let ghost all = lines::lines(numstat@);
    let ghost named = lines::lines(name_status@);
    let ghost file_of = |f: ChangedFile| changed_file(f);
    let mut out: Vec<ChangedFile> = Vec::new();
    let mut i: usize = 0;
    proof {
        assert(all.skip(0) =~= all);
        assert(out@.map_values(file_of) + changed_files(all, named) =~= changed_files(all, named));
    }
    while i < ls.len()
        invariant
            i <= ls@.len(),
            text::texts(ls@) == all,
            text::texts(statuses@) == named,
            file_of == (|f: ChangedFile| changed_file(f)),
            out@.map_values(file_of) + changed_files(all.skip(i as int), named) == changed_files(
                all,
                named,
            ),
        decreases ls@.len() - i,
    {
        let line = &ls[i];
        proof {
            assert(all[i as int] == line@);
            assert(all.skip(i as int)[0] == all[i as int]);
            assert(all.skip(i as int).skip(1) =~= all.skip(i + 1));
        }
        if line.len() > 0 {
            let parts = split_all_fields(line, '\t');
            proof {
                assert(text::texts(parts@).len() == parts@.len());
            }
            if parts.len() >= 3 {
                proof {
                    assert(text::texts(parts@)[0] == parts@[0]@);
                    assert(text::texts(parts@)[1] == parts@[1]@);
                    assert(text::texts(parts@)[2] == parts@[2]@);
                }
                let status = find_status(&statuses, &parts[2]);
                let file: ChangedFile = (
                    string_of(&status),
                    string_of(&parts[2]),
                    count_text(&parts[0]),
                    count_text(&parts[1]),
                );
                let ghost before = out@;
                out.push(file);
                proof {
                    assert(out@.map_values(file_of) =~= before.map_values(file_of).push(
                        file_of(file),
                    ));
                    assert(out@.map_values(file_of) + changed_files(all.skip(i + 1), named)
                        =~= before.map_values(file_of) + (seq![file_of(file)] + changed_files(
                        all.skip(i + 1),
                        named,
                    )));
                }
            }
        }
        i = i + 1;
    }
    proof {
        assert(all.skip(i as int) =~= Seq::<Seq<char>>::empty());
        assert(out@.map_values(file_of) + changed_files(all.skip(i as int), named)
            =~= out@.map_values(file_of));
    }
    out
}

/// Reads the files that a stash changed from what `git stash show --numstat` printed for it. That
/// output names no status: every file counts as modified.
pub fn parse_stash_files(numstat: &str) -> (r: Vec<ChangedFile>)
    ensures
        r@.map_values(|f: ChangedFile| changed_file(f)) == changed_files(
            lines::lines(numstat@),
            Seq::empty(),
        ),
        forall|i: int| 0 <= i < r@.len() ==> (#[trigger] r@[i]).0@ == seq!['M'],
{
    let r = parse_commit_files(numstat, "");
    proof {
        reveal_strlit("");
        assert(lines::lines(""@) =~= Seq::<Seq<char>>::empty());
        lemma_unnamed_status(lines::lines(numstat@));
        let want = changed_files(lines::lines(numstat@), Seq::empty());
        let file_of = |f: ChangedFile| changed_file(f);
        assert forall|i: int| 0 <= i < r@.len() implies (#[trigger] r@[i]).0@ == seq!['M'] by {
            assert(r@.map_values(file_of)[i] == want[i]);
        }
    }
    r
}

proof fn lemma_unnamed_status(numstat: Seq<Seq<char>>)
    ensures
        forall|i: int|
            0 <= i < changed_files(numstat, Seq::empty()).len() ==> (#[trigger] changed_files(
                numstat,
                Seq::empty(),
            )[i]).0 == seq!['M'],
    decreases numstat.len(),
{
    if numstat.len() > 0 {
        lemma_unnamed_status(numstat.skip(1));
        let all = changed_files(numstat, Seq::empty());
        let rest = changed_files(numstat.skip(1), Seq::empty());
        assert forall|i: int| 0 <= i < all.len() implies (#[trigger] all[i]).0 == seq!['M'] by {
            if all.len() == rest.len() {
                assert(all[i] == rest[i]);
            } else if i > 0 {
                assert(all[i] == rest[i - 1]);
            }
        }
    }
}

// ---------------------------------------------------------------------------------------------
// Relative times
// ---------------------------------------------------------------------------------------------

/// A duration in seconds as a human reads it: in the largest unit that it fills at least once.
pub open spec fn relative_time(secs: int) -> Seq<char> {
    if secs < 60 {
        "just now"@
    } else if secs < 3600 {
        number::decimal_int(secs / 60) + " min ago"@
    } else if secs < 86400 {
        number::decimal_int(secs / 3600) + " hours ago"@
    } else if secs < 604_800 {
        number::decimal_int(secs / 86400) + " days ago"@
    } else if secs < 2_592_000 {
        number::decimal_int(secs / 604_800) + " weeks ago"@
    } else if secs < 31_536_000 {
        number::decimal_int(secs / 2_592_000) + " months ago"@
    } else {
        number::decimal_int(secs / 31_536_000) + " years ago"@
    }
}

fn counted(n: i64, unit: &str) -> (r: String)
    ensures
        r@ == number::decimal_int(n as int) + unit@,
{
    let mut t = decimal_i64_text(n);
    extend_str(&mut t, unit);
    string_of(&t)
}

/// Convert a duration in seconds to a human-readable relative time string.
pub fn compute_relative_time(diff_secs: i64) -> (r: String)
    ensures
        r@ == relative_time(diff_secs as int),
{
    if diff_secs < 60 {
        let t = chars_of("just now");
        string_of(&t)
    } else if diff_secs < 3600 {
        counted(diff_secs / 60, " min ago")
    } else if diff_secs < 86400 {
        counted(diff_secs / 3600, " hours ago")
    } else if diff_secs < 604_800 {
        counted(diff_secs / 86400, " days ago")
    } else if diff_secs < 2_592_000 {
        counted(diff_secs / 604_800, " weeks ago")
    } else if diff_secs < 31_536_000 {
        counted(diff_secs / 2_592_000, " months ago")
    } else {
        counted(diff_secs / 31_536_000, " years ago")
    }
}

// ---------------------------------------------------------------------------------------------
// Laws
// ---------------------------------------------------------------------------------------------

/// Whether the text can stand in a field: it holds no separator of fields, and no end of a line.
pub open spec fn is_field(s: Seq<char>, separator: char) -> bool {
    forall|i: int|
        0 <= i < s.len() ==> #[trigger] s[i] != separator && s[i] != '\n' && s[i] != '\r'
}

/// A log entry as git prints it.
pub open spec fn written_log(e: LogEntry) -> Seq<char> {
    e.hash@ + seq!['\0'] + (e.short_hash@ + seq!['\0'] + (e.subject@ + seq!['\0'] + (e.author@
        + seq!['\0'] + (e.date@ + seq!['\0'] + e.relative_date@))))
}

/// A stash entry as git prints it.
pub open spec fn written_stash(e: StashEntry) -> Seq<char> {
    e.index@ + seq!['\0'] + (e.message@ + seq!['\0'] + e.relative_date@)
}

proof fn lemma_field_then(a: Seq<char>, rest: Seq<char>, limit: nat)
    requires
        is_field(a, '\0'),
        limit >= 2,
    ensures
        lines::fields(a + seq!['\0'] + rest, '\0', limit) == seq![a] + lines::fields(
            rest,
            '\0',
            (limit - 1) as nat,
        ),
{
    lines::law_fields_end_at_the_separator(a, '\0', rest, limit);
}

proof fn lemma_one_record(line: Seq<char>, rest: Seq<char>, n: nat)
    requires
        forall|i: int| 0 <= i < line.len() ==> line[i] != '\n' && line[i] != '\r',
    ensures
        records(lines::lines(line + seq!['\n'] + rest), n) == (if line.len() == 0 || lines::fields(
            line,
            '\0',
            n,
        ).len() < n {
            records(lines::lines(rest), n)
        } else {
            seq![lines::fields(line, '\0', n)] + records(lines::lines(rest), n)
        }),
{
    lines::law_line_ends(line, rest);
    assert((seq![line] + lines::lines(rest)).skip(1) =~= lines::lines(rest));
}

/// A log entry that git prints on a line is read with each of its fields in place, before the
/// entries of the lines that follow; a line with fewer fields is passed over.
pub proof fn law_log_reads_back(e: LogEntry, rest: Seq<char>)
    requires
        is_field(e.hash@, '\0'),
        is_field(e.short_hash@, '\0'),
        is_field(e.subject@, '\0'),
        is_field(e.author@, '\0'),
        is_field(e.date@, '\0'),
        is_field(e.relative_date@, '\0'),
    ensures
        records(lines::lines(written_log(e) + seq!['\n'] + rest), 6) == seq![log_fields(e)]
            + records(lines::lines(rest), 6),
        records(lines::lines(e.hash@ + seq!['\n'] + rest), 6) == records(lines::lines(rest), 6),
{
    let line = written_log(e);
    let s5 = e.relative_date@;
    let s4 = e.date@ + seq!['\0'] + s5;
    let s3 = e.author@ + seq!['\0'] + s4;
    let s2 = e.subject@ + seq!['\0'] + s3;
    let s1 = e.short_hash@ + seq!['\0'] + s2;
    lemma_field_then(e.hash@, s1, 6);
    lemma_field_then(e.short_hash@, s2, 5);
    lemma_field_then(e.subject@, s3, 4);
    lemma_field_then(e.author@, s4, 3);
    lemma_field_then(e.date@, s5, 2);
    lines::law_fields_end_at_the_separator(e.hash@, '\0', s5, 2);
    assert(lines::fields(line, '\0', 6) =~= log_fields(e));
    assert forall|i: int| 0 <= i < line.len() implies line[i] != '\n' && line[i] != '\r' by {
        let n0 = e.hash@.len() as int;
        let n1 = n0 + 1 + e.short_hash@.len();
        let n2 = n1 + 1 + e.subject@.len();
        let n3 = n2 + 1 + e.author@.len();
        let n4 = n3 + 1 + e.date@.len();
        if i < n0 {
            assert(line[i] == e.hash@[i]);
        } else if n0 < i < n1 {
            assert(line[i] == e.short_hash@[i - n0 - 1]);
        } else if n1 < i < n2 {
            assert(line[i] == e.subject@[i - n1 - 1]);
        } else if n2 < i < n3 {
            assert(line[i] == e.author@[i - n2 - 1]);
        } else if n3 < i < n4 {
            assert(line[i] == e.date@[i - n3 - 1]);
        } else if n4 < i {
            assert(line[i] == e.relative_date@[i - n4 - 1]);
        } else {
            assert(line[i] == '\0');
        }
    }
    lemma_one_record(line, rest, 6);
    lines::law_fields_end_at_the_separator(e.hash@, '\0', rest, 6);
    lemma_one_record(e.hash@, rest, 6);
}

/// A stash that git prints on a line is read with each of its fields in place, before the stashes
/// of the lines that follow.
pub proof fn law_stash_list_reads_back(e: StashEntry, rest: Seq<char>)
    requires
        is_field(e.index@, '\0'),
        is_field(e.message@, '\0'),
        is_field(e.relative_date@, '\0'),
    ensures
        records(lines::lines(written_stash(e) + seq!['\n'] + rest), 3) == seq![stash_fields(e)]
            + records(lines::lines(rest), 3),
        records(lines::lines(e.index@ + seq!['\n'] + rest), 3) == records(lines::lines(rest), 3),
{
    let line = written_stash(e);
    let s1 = e.message@ + seq!['\0'] + e.relative_date@;
    lemma_field_then(e.index@, s1, 3);
    lemma_field_then(e.message@, e.relative_date@, 2);
    lines::law_fields_end_at_the_separator(e.index@, '\0', e.relative_date@, 2);
    assert(lines::fields(line, '\0', 3) =~= stash_fields(e));
    assert forall|i: int| 0 <= i < line.len() implies line[i] != '\n' && line[i] != '\r' by {
        let n0 = e.index@.len() as int;
        let n1 = n0 + 1 + e.message@.len();
        if i < n0 {
            assert(line[i] == e.index@[i]);
        } else if n0 < i < n1 {
            assert(line[i] == e.message@[i - n0 - 1]);
        } else if n1 < i {
            assert(line[i] == e.relative_date@[i - n1 - 1]);
        } else {
            assert(line[i] == '\0');
        }
    }
    lemma_one_record(line, rest, 3);
    lines::law_fields_end_at_the_separator(e.index@, '\0', rest, 3);
    lemma_one_record(e.index@, rest, 3);
}

/// The line that git prints with the counts of a file.
pub open spec fn written_counts(adds: Seq<char>, dels: Seq<char>, path: Seq<char>) -> Seq<char> {
    adds + seq!['\t'] + (dels + seq!['\t'] + path)
}

proof fn lemma_count_fields(adds: Seq<char>, dels: Seq<char>, path: Seq<char>)
    requires
        is_field(adds, '\t'),
        is_field(dels, '\t'),
        is_field(path, '\t'),
    ensures
        lines::all_fields(written_counts(adds, dels, path), '\t') == seq![adds, dels, path],
{
    lines::law_fields_end_at_the_separator(adds, '\t', dels + seq!['\t'] + path, 2);
    lines::law_fields_end_at_the_separator(dels, '\t', path, 2);
    lines::law_fields_end_at_the_separator(path, '\t', path, 2);
    assert(seq![adds] + (seq![dels] + seq![path]) =~= seq![adds, dels, path]);
}

proof fn lemma_decimal_field(n: usize)
    ensures
        is_field(number::decimal(n as nat), '\t'),
        number::decimal(n as nat) != seq!['-'],
        number::usize_of(number::decimal(n as nat)) == Some(n),
{
    let s = number::decimal(n as nat);
    number::law_decimal_round_trip(n);
    number::lemma_decimal(n as nat);
    assert forall|i: int| 0 <= i < s.len() implies #[trigger] s[i] != '\t' && s[i] != '\n' && s[i]
        != '\r' by {
        assert(number::is_digit(s[i]));
    }
    assert(number::is_digit(s[0]));
}

/// The counts that git prints of a file are read back; a dash marks a binary file; a count that is
/// neither is an error that names it, the additions first.
pub proof fn law_counts_read_back(adds: usize, dels: usize, path: Seq<char>, other: Seq<char>)
    requires
        is_field(path, '\t'),
        is_field(other, '\t'),
        number::usize_of(other) is None,
        other != seq!['-'],
    ensures
        ({
            let a = number::decimal(adds as nat);
            let d = number::decimal(dels as nat);
            let dash = seq!['-'];
            &&& line_stats(written_counts(a, d, path)) == Ok::<_, StatsError>(
                Some((adds, dels, false)),
            )
            &&& line_stats(written_counts(dash, dash, path)) == Ok::<_, StatsError>(
                Some((0usize, 0usize, true)),
            )
            &&& line_stats(written_counts(other, d, path)) == Err::<
                Option<(usize, usize, bool)>,
                StatsError,
            >(StatsError::Additions)
            &&& line_stats(written_counts(a, other, path)) == Err::<
                Option<(usize, usize, bool)>,
                StatsError,
            >(StatsError::Deletions)
        }),
        line_stats(path) == Ok::<Option<(usize, usize, bool)>, StatsError>(None),
{
    let a = number::decimal(adds as nat);
    let d = number::decimal(dels as nat);
    let dash = seq!['-'];
    lemma_decimal_field(adds);
    lemma_decimal_field(dels);
    lemma_count_fields(a, d, path);
    lemma_count_fields(dash, dash, path);
    lemma_count_fields(other, d, path);
    lemma_count_fields(a, other, path);
    lines::law_fields_end_at_the_separator(path, '\t', path, 2);
}

/// A file whose counts git prints is among the changed files, with these counts and its status,
/// before the files of the lines that follow. A binary file counts no lines.
pub proof fn law_changed_files_have_their_counts(
    adds: usize,
    dels: usize,
    path: Seq<char>,
    rest: Seq<Seq<char>>,
    statuses: Seq<Seq<char>>,
)
    requires
        is_field(path, '\t'),
    ensures
        ({
            let a = number::decimal(adds as nat);
            let d = number::decimal(dels as nat);
            let dash = seq!['-'];
            &&& changed_files(seq![written_counts(a, d, path)] + rest, statuses) == seq![
                (status_of(statuses, path), path, adds, dels),
            ] + changed_files(rest, statuses)
            &&& changed_files(seq![written_counts(dash, dash, path)] + rest, statuses) == seq![
                (status_of(statuses, path), path, 0usize, 0usize),
            ] + changed_files(rest, statuses)
        }),
        changed_files(seq![path] + rest, statuses) == changed_files(rest, statuses),
        changed_files(Seq::empty(), statuses).len() == 0,
{
    let a = number::decimal(adds as nat);
    let d = number::decimal(dels as nat);
    let dash = seq!['-'];
    lemma_decimal_field(adds);
    lemma_decimal_field(dels);
    lemma_count_fields(a, d, path);
    lemma_count_fields(dash, dash, path);
    number::law_other_texts_are_no_numbers(dash, 0);
    assert((seq![written_counts(a, d, path)] + rest).skip(1) =~= rest);
    assert((seq![written_counts(dash, dash, path)] + rest).skip(1) =~= rest);
    assert((seq![path] + rest).skip(1) =~= rest);
    lines::law_fields_end_at_the_separator(path, '\t', path, 2);
}

/// A file has the status that git printed last for its path; what is printed for other paths does
/// not matter, and a file of which none is printed counts as modified.
pub proof fn law_status_is_the_one_printed(
    ls: Seq<Seq<char>>,
    status: Seq<char>,
    path: Seq<char>,
    other: Seq<char>,
)
    requires
        is_field(status, '\t'),
        other != path,
    ensures
        status_of(ls.push(status + seq!['\t'] + path), path) == status,
        status_of(ls.push(status + seq!['\t'] + other), path) == status_of(ls, path),
        status_of(Seq::empty(), path) == seq!['M'],
{
    lines::law_fields_end_at_the_separator(status, '\t', path, 2);
    lines::law_fields_end_at_the_separator(status, '\t', other, 2);
    assert(ls.push(status + seq!['\t'] + path).drop_last() =~= ls);
    assert(ls.push(status + seq!['\t'] + other).drop_last() =~= ls);
}

/// How long ago something was is told in the largest unit that fits: minutes, hours, days, weeks
/// of seven days, months of thirty days and years of 365 days. What is left over does not count.
pub proof fn law_ages_are_told_in_units(n: int, left: int)
    requires
        n >= 1,
        left >= 0,
    ensures
        left < 60 ==> relative_time(left) == "just now"@,
        left < 60 && n < 60 ==> relative_time(60 * n + left) == number::decimal_int(n)
            + " min ago"@,
        left < 3600 && n < 24 ==> relative_time(3600 * n + left) == number::decimal_int(n)
            + " hours ago"@,
        left < 86400 && n < 7 ==> relative_time(86400 * n + left) == number::decimal_int(n)
            + " days ago"@,
        left < 604800 && 604800 * n + left < 30 * 86400 ==> relative_time(604800 * n + left)
            == number::decimal_int(n) + " weeks ago"@,
        left < 30 * 86400 && 30 * 86400 * n + left < 365 * 86400 ==> relative_time(
            30 * 86400 * n + left,
        ) == number::decimal_int(n) + " months ago"@,
        left < 365 * 86400 ==> relative_time(365 * 86400 * n + left) == number::decimal_int(n)
            + " years ago"@,
{
    assert(30 * 86400 * n == 2_592_000 * n);
    assert(365 * 86400 * n == 31_536_000 * n);
    if left < 2_592_000 {
        assert((2_592_000 * n + left) / 2_592_000 == n);
    }
    if left < 31_536_000 {
        assert((31_536_000 * n + left) / 31_536_000 == n);
    }
}

} // verus!
