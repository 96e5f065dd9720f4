//! The output of `git status --porcelain=v1`.

use vstd::prelude::*;

use crate::bytes;
use crate::bytes::{bytes_between, char_index};
use crate::git::status;
use crate::git::status::{FileChange, StatusEntry};
use crate::lines;
use crate::lines::split_lines;
use crate::text;
use crate::text::{chars_of, find_text, piece, string_of};

verus! {

broadcast use vstd::string::group_string_axioms;

// ---------------------------------------------------------------------------------------------
// Quoted paths
// ---------------------------------------------------------------------------------------------

/// The character that a backslash before `c` stands for.
pub open spec fn escaped(c: char) -> Option<char> {
    if c == 'n' {
        Some('\n')
    } else if c == 't' {
        Some('\t')
    } else if c == 'r' {
        Some('\r')
    } else if c == '"' || c == '\\' {
        Some(c)
    } else {
        None
    }
}

/// `s` with each escape replaced by the character it stands for. A backslash that starts no known
/// escape stays.
pub open spec fn unescape(s: Seq<char>) -> Seq<char>
    decreases s.len(),
{
    if s.len() == 0 {
        s
    } else if s[0] == '\\' && s.len() > 1 && escaped(s[1]) is Some {
        seq![escaped(s[1])->0] + unescape(s.skip(2))
    } else {
        seq![s[0]] + unescape(s.skip(1))
    }
}

/// The path that git reports as `s`: a text in double quotes is unescaped, any other is the path.
pub open spec fn unquoted(s: Seq<char>) -> Seq<char> {
    if s.len() >= 2 && s[0] == '"' && s.last() == '"' {
        unescape(s.subrange(1, s.len() - 1))
    } else {
        s
    }
}

/// The letter behind the backslash in the escape of `c`, for the characters that are escaped.
pub open spec fn escape_letter(c: char) -> Option<char> {
    if c == '\n' {
        Some('n')
    } else if c == '\t' {
        Some('t')
    } else if c == '\r' {
        Some('r')
    } else if c == '"' || c == '\\' {
        Some(c)
    } else {
        None
    }
}

/// `s` with its special characters written as escapes.
pub open spec fn escape(s: Seq<char>) -> Seq<char>
    decreases s.len(),
{
    if s.len() == 0 {
        s
    } else {
        let head = match escape_letter(s[0]) {
            Some(c) => seq!['\\', c],
            None => seq![s[0]],
        };
        head + escape(s.skip(1))
    }
}

/// `s` as git quotes it: escaped, in double quotes.
pub open spec fn quoted(s: Seq<char>) -> Seq<char> {
    seq!['"'] + escape(s) + seq!['"']
}

proof fn lemma_unescape_escape(s: Seq<char>)
    ensures
        unescape(escape(s)) == s,
    decreases s.len(),
{
    if s.len() > 0 {
        lemma_unescape_escape(s.skip(1));
        let e = escape(s);
        match escape_letter(s[0]) {
            Some(c) => {
                assert(e[0] == '\\' && e[1] == c);
                assert(escaped(c) == Some(s[0]));
                assert(e.skip(2) =~= escape(s.skip(1)));
            },
            None => {
                assert(e[0] == s[0] && s[0] != '\\');
                assert(e.skip(1) =~= escape(s.skip(1)));
            },
        }
        assert(unescape(e) =~= seq![s[0]] + s.skip(1));
        assert(seq![s[0]] + s.skip(1) =~= s);
    }
}

/// A path that git quotes comes back as it was, whatever characters it holds.
pub proof fn law_unquote_undoes_quoting(path: Seq<char>)
    ensures
        unquoted(quoted(path)) == path,
{
    let q = quoted(path);
    assert(q.subrange(1, q.len() - 1) =~= escape(path));
    lemma_unescape_escape(path);
}

/// A text that does not both start and end with a double quote is a path as it stands.
pub proof fn law_unquoted_path_is_kept(s: Seq<char>)
    requires
        s.len() < 2 || s[0] != '"' || s.last() != '"',
    ensures
        unquoted(s) == s,
{
}

/// Unquote a path from git porcelain v1 format.
///
/// Git quotes paths containing special characters using C-style escaping with surrounding double
/// quotes.
pub fn unquote_porcelain_path(s: &str) -> (r: String)
    ensures
        r@ == unquoted(s@),
{
    let t = chars_of(s);
    let u = unquote_chars(&t);
    string_of(&u)
}

/// [`unquote_porcelain_path`] on characters.
fn unquote_chars(t: &Vec<char>) -> (r: Vec<char>)
    ensures
        r@ == unquoted(t@),
{
    let n: usize = t.len();
    if !(n >= 2 && t[0] == '"' && t[n - 1] == '"') {
        let r = piece(t, 0, n);
        proof {
            assert(r@ =~= t@);
        }
        return r;
    }
    let inner = piece(t, 1, n - 1);
    let mut out: Vec<char> = Vec::new();
    let mut i: usize = 0;
    proof {
        assert(inner@.skip(0) =~= inner@);
        assert(out@ + unescape(inner@) =~= unescape(inner@));
    }
    while i < inner.len()
        invariant
            i <= inner@.len(),
            out@ + unescape(inner@.skip(i as int)) == unescape(inner@),
        decreases inner@.len() - i,
    {
        let c: char = inner[i];
        let ghost rest = inner@.skip(i as int);
        let ghost before = out@;
        proof {
            assert(rest[0] == c);
            assert(rest.skip(1) =~= inner@.skip(i + 1));
        }
        if c == '\\' && i + 1 < inner.len() {
            let next: char = inner[i + 1];
            proof {
                assert(rest[1] == next);
                assert(rest.skip(2) =~= inner@.skip(i + 2));
            }
            let replacement: Option<char> = match next {
                'n' => Some('\n'),
                't' => Some('\t'),
                'r' => Some('\r'),
                '"' => Some('"'),
                '\\' => Some('\\'),
                _ => None,
            };
            match replacement {
                Some(d) => {
                    out.push(d);
                    proof {
                        assert(out@ + unescape(inner@.skip(i + 2)) =~= before + (seq![d] + unescape(
                            inner@.skip(i + 2),
                        )));
                    }
                    i = i + 2;
                },
                None => {
                    out.push(c);
                    proof {
                        assert(out@ + unescape(inner@.skip(i + 1)) =~= before + (seq![c] + unescape(
                            inner@.skip(i + 1),
                        )));
                    }
                    i = i + 1;
                },
            }
        } else {
            out.push(c);
            proof {
                assert(out@ + unescape(inner@.skip(i + 1)) =~= before + (seq![c] + unescape(
                    inner@.skip(i + 1),
                )));
            }
            i = i + 1;
        }
    }
    proof {
        assert(inner@.skip(i as int) =~= Seq::<char>::empty());
        assert(out@ + Seq::<char>::empty() =~= out@);
    }
    out
}

// ---------------------------------------------------------------------------------------------
// Status lines
// ---------------------------------------------------------------------------------------------

/// What separates the old path from the new one in a rename.
pub open spec fn arrow() -> Seq<char> {
    seq![' ', '-', '>', ' ']
}

/// Whether a status line can be cut behind its two codes and the blank: it is too short to have a
/// path, or its first three bytes are whole characters.
pub open spec fn cuts_cleanly(line: Seq<char>) -> bool {
    bytes::byte_len(line) < 3 || bytes::chars_before(line, 3) is Some
}

/// Whether one of the two codes announces a rename or a copy.
pub open spec fn is_move(x: char, y: char) -> bool {
    x == 'R' || y == 'R' || x == 'C' || y == 'C'
}

/// Whether the two codes together stand for an unmerged file.
pub open spec fn is_conflict(x: char, y: char) -> bool {
    ||| (x == 'U' && (y == 'U' || y == 'A' || y == 'D'))
    ||| (y == 'U' && (x == 'A' || x == 'D'))
    ||| (x == 'A' && y == 'A')
    ||| (x == 'D' && y == 'D')
}

/// The change that one status code reports of `path`. A file that was added counts as modified, a
/// copy as a rename; other codes report nothing.
pub open spec fn change_for(code: char, path: Seq<char>, from: Option<Seq<char>>) -> Option<
    status::Change,
> {
    if code == 'M' || code == 'A' {
        Some(status::Change::Modified { path })
    } else if code == 'D' {
        Some(status::Change::Deleted { path })
    } else if code == 'R' || code == 'C' {
        Some(
            status::Change::Renamed {
                from_path: match from {
                    Some(old) => old,
                    None => Seq::empty(),
                },
                to_path: path,
            },
        )
    } else {
        None
    }
}

/// The entry for one of the two codes.
pub open spec fn side_entries(
    code: char,
    path: Seq<char>,
    from: Option<Seq<char>>,
    staged: bool,
) -> Seq<status::Entry> {
    match change_for(code, path, from) {
        Some(change) => seq![status::plain_entry(change, staged)],
        None => Seq::empty(),
    }
}

/// The entries of a file whose codes are `x` for the index and `y` for the work tree. Where the
/// move happened in the work tree, the index still has the file at its old path.
pub open spec fn code_entries(
    x: char,
    y: char,
    path: Seq<char>,
    from: Option<Seq<char>>,
) -> Seq<status::Entry> {
    if x == '?' && y == '?' {
        seq![status::plain_entry(status::Change::Untracked { path }, false)]
    } else if is_conflict(x, y) {
        seq![status::plain_entry(status::Change::Conflict { path }, true)]
    } else {
        let staged_path = if (y == 'R' || y == 'C') && from is Some {
            from->0
        } else {
            path
        };
        side_entries(x, staged_path, from, true) + side_entries(y, path, from, false)
    }
}

/// The entries of one status line: `XY PATH` or `XY OLD_PATH -> NEW_PATH`. A line that is too
/// short, or a move without both paths, has none.
pub open spec fn line_entries(line: Seq<char>) -> Seq<status::Entry> {
    match bytes::chars_before(line, 3) {
        None => Seq::empty(),
        Some(k) => {
            let x = line[0];
            let y = if line.len() > 1 {
                line[1]
            } else {
                ' '
            };
            let paths = line.skip(k);
            if is_move(x, y) {
                match text::first_match(paths, arrow()) {
                    Some(i) => code_entries(
                        x,
                        y,
                        unquoted(paths.skip(i + 4)),
                        Some(unquoted(paths.take(i))),
                    ),
                    None => Seq::empty(),
                }
            } else {
                code_entries(x, y, unquoted(paths), None)
            }
        },
    }
}

/// The entries of all status lines, in order.
pub open spec fn status_entries(ls: Seq<Seq<char>>) -> Seq<status::Entry>
    decreases ls.len(),
{
    if ls.len() == 0 {
        Seq::empty()
    } else {
        line_entries(ls[0]) + status_entries(ls.skip(1))
    }
}

/// A file appears at most twice: once with what is staged of it and, behind that, once with what
/// is not.
pub proof fn law_file_appears_once_for_each_side(line: Seq<char>)
    ensures
        line_entries(line).len() <= 2,
        line_entries(line).len() == 2 ==> line_entries(line)[0].staged && !line_entries(
            line,
        )[1].staged,
{
}

/// Of a move that the work tree made, the staged change is reported at the old path and the
/// unstaged one at the new path.
pub proof fn law_worktree_move_keeps_staged_path(x: char, y: char, new: Seq<char>, old_path: Seq<char>)
    requires
        x == 'M' || x == 'A' || x == 'D',
        y == 'R' || y == 'C',
    ensures
        code_entries(x, y, new, Some(old_path)).len() == 2,
        code_entries(x, y, new, Some(old_path))[0].change.at() == old_path,
        code_entries(x, y, new, Some(old_path))[1].change == (status::Change::Renamed {
            from_path: old_path,
            to_path: new,
        }),
{
}

proof fn lemma_entries_push(v: Seq<StatusEntry>, e: StatusEntry)
    ensures
        status::entries(v.push(e)) == status::entries(v).push(e@),
{
    assert(status::entries(v.push(e)) =~= status::entries(v).push(e@));
}

/// Appends an entry without line counts.
fn push_entry(out: &mut Vec<StatusEntry>, change: FileChange, staged: bool)
    ensures
        status::entries(final(out)@) == status::entries(old(out)@).push(
            status::plain_entry(change@, staged),
        ),
{
    let e = StatusEntry { change, staged, additions: None, deletions: None, is_binary: false };
    proof {
        lemma_entries_push(out@, e);
    }
    out.push(e);
}

/// Appends the entry for one of the two codes, where it reports a change.
fn push_side(
    out: &mut Vec<StatusEntry>,
    code: char,
    path: &Vec<char>,
    from: &Option<Vec<char>>,
    staged: bool,
)
    ensures
        status::entries(final(out)@) == status::entries(old(out)@) + side_entries(
            code,
            path@,
            text::opt_text(*from),
            staged,
        ),
{
    let ghost before = status::entries(out@);
    let change: Option<FileChange> = match code {
        'M' | 'A' => Some(FileChange::Modified { path: string_of(path) }),
        'D' => Some(FileChange::Deleted { path: string_of(path) }),
        'R' | 'C' => {
            let from_path: String = match from {
                Some(f) => string_of(f),
                None => String::new(),
            };
            Some(FileChange::Renamed { from_path, to_path: string_of(path) })
        },
        _ => None,
    };
    match change {
        Some(c) => {
            push_entry(out, c, staged);
            proof {
                assert(before.push(status::plain_entry(c@, staged)) =~= before + seq![
                    status::plain_entry(c@, staged),
                ]);
            }
        },
        None => {
            proof {
                assert(before + Seq::<status::Entry>::empty() =~= before);
            }
        },
    }
}

/// Appends the entries of a file with the codes `x` and `y`.
fn push_codes(out: &mut Vec<StatusEntry>, x: char, y: char, path: &Vec<char>, from: &Option<Vec<char>>)
    ensures
        status::entries(final(out)@) == status::entries(old(out)@) + code_entries(
            x,
            y,
            path@,
            text::opt_text(*from),
        ),
{
    let ghost before = status::entries(out@);
    let ghost f = text::opt_text(*from);
    if x == '?' && y == '?' {
        push_entry(out, FileChange::Untracked { path: string_of(path) }, false);
        proof {
            assert(status::entries(out@) =~= before + code_entries(x, y, path@, f));
        }
        return;
    }
    let conflict: bool = (x == 'U' && (y == 'U' || y == 'A' || y == 'D')) || (y == 'U' && (x == 'A'
        || x == 'D')) || (x == 'A' && y == 'A') || (x == 'D' && y == 'D');
    if conflict {
        push_entry(out, FileChange::Conflict { path: string_of(path) }, true);
        proof {
            assert(status::entries(out@) =~= before + code_entries(x, y, path@, f));
        }
        return;
    }
    let in_worktree: bool = y == 'R' || y == 'C';
    match from {
        Some(old_path) if in_worktree => {
            push_side(out, x, old_path, from, true);
        },
        _ => {
            push_side(out, x, path, from, true);
        },
    }
    push_side(out, y, path, from, false);
    proof {
        assert(status::entries(out@) =~= before + code_entries(x, y, path@, f));
    }
}

/// Appends the entries of one status line.
fn push_line(out: &mut Vec<StatusEntry>, line: &Vec<char>)
    requires
        cuts_cleanly(line@),
    ensures
        status::entries(final(out)@) == status::entries(old(out)@) + line_entries(line@),
{
    let ghost before = status::entries(out@);
    let k = match char_index(line, 3) {
        Some(k) => k,
        None => {
            proof {
                assert(before + Seq::<status::Entry>::empty() =~= before);
            }
            return;
        },
    };
    proof {
        bytes::lemma_chars_before(line@, 3);
        bytes::lemma_byte_len_bounds(line@.take(k as int));
    }
    let x: char = line[0];
    let y: char = if line.len() > 1 { line[1] } else { ' ' };
    let paths = piece(line, k, line.len());
    proof {
        assert(paths@ =~= line@.skip(k as int));
        assert(paths@.skip(0) =~= paths@);
    }
    if x == 'R' || y == 'R' || x == 'C' || y == 'C' {
        let separator: Vec<char> = vec![' ', '-', '>', ' '];
        proof {
            assert(separator@ =~= arrow());
        }
        match find_text(&paths, 0, &separator) {
            Some(i) => {
                let left = piece(&paths, 0, i);
                let right = piece(&paths, i + 4, paths.len());
                proof {
                    assert(left@ =~= paths@.take(i as int));
                    assert(right@ =~= paths@.skip(i + 4));
                }
                let old_path = unquote_chars(&left);
                let path = unquote_chars(&right);
                push_codes(out, x, y, &path, &Some(old_path));
            },
            None => {
                proof {
                    assert(before + Seq::<status::Entry>::empty() =~= before);
                }
            },
        }
    } else {
        let path = unquote_chars(&paths);
        push_codes(out, x, y, &path, &None);
    }
}

/// Whether [`parse_status_porcelain`] accepts `stdout`.
pub fn status_lines_cut_cleanly(stdout: &str) -> (r: bool)
    ensures
        r == (forall|i: int|
            0 <= i < lines::lines(stdout@).len() ==> cuts_cleanly(
                #[trigger] lines::lines(stdout@)[i],
            )),
{
    let t = chars_of(stdout);
    let ls = split_lines(&t);
    let ghost all = lines::lines(stdout@);
    let mut i: usize = 0;
    while i < ls.len()
        invariant
            i <= ls@.len(),
            text::texts(ls@) == all,
            all == lines::lines(stdout@),
            forall|j: int| 0 <= j < i ==> cuts_cleanly(#[trigger] all[j]),
        decreases ls@.len() - i,
    {
        let line = &ls[i];
        proof {
            assert(all[i as int] == line@);
            bytes::lemma_chars_before(line@, 3);
            bytes::lemma_byte_len_bounds(line@);
            assert(line@.take(line@.len() as int) =~= line@);
        }
        if char_index(line, 3).is_none() {
            if line.len() >= 3 {
                return false;
            }
            let n = bytes_between(line, 0, line.len());
            proof {
                assert(line@.subrange(0, line@.len() as int) =~= line@);
            }
            if n >= 3 {
                return false;
            }
        }
        i = i + 1;
    }
    true
}

/// Reads the output of `git status --porcelain=v1`: `XY PATH` lines where X is the staged (index)
/// status and Y the unstaged (work tree) status.
pub fn parse_status_porcelain(stdout: &str) -> (r: Vec<StatusEntry>)
    requires
        forall|i: int|
            0 <= i < lines::lines(stdout@).len() ==> cuts_cleanly(
                #[trigger] lines::lines(stdout@)[i],
            ),
    ensures
        status::entries(r@) == status_entries(lines::lines(stdout@)),
{
    let t = chars_of(stdout);
    let ls = split_lines(&t);
    let ghost all = lines::lines(stdout@);
    let mut out: Vec<StatusEntry> = Vec::new();
    let mut i: usize = 0;
    proof {
        assert(all.skip(0) =~= all);
        assert(status::entries(out@) + status_entries(all) =~= status_entries(all));
    }
    while i < ls.len()
        invariant
            i <= ls@.len(),
            text::texts(ls@) == all,
            forall|j: int| 0 <= j < all.len() ==> cuts_cleanly(#[trigger] all[j]),
            status::entries(out@) + status_entries(all.skip(i as int)) == status_entries(all),
        decreases ls@.len() - i,
    {
        let ghost before = status::entries(out@);
        proof {
            assert(all[i as int] == ls@[i as int]@);
            assert(all.skip(i as int)[0] == all[i as int]);
            assert(all.skip(i as int).skip(1) =~= all.skip(i + 1));
        }
        push_line(&mut out, &ls[i]);
        proof {
            assert(status::entries(out@) + status_entries(all.skip(i + 1)) =~= before + (
            line_entries(all[i as int]) + status_entries(all.skip(i + 1))));
        }
        i = i + 1;
    }
    proof {
        assert(all.skip(i as int) =~= Seq::<Seq<char>>::empty());
        assert(status::entries(out@) + Seq::<status::Entry>::empty() =~= status::entries(out@));
    }
    out
}

// ---------------------------------------------------------------------------------------------
// Laws of status lines
// ---------------------------------------------------------------------------------------------

/// A status line: the code of the index, the code of the work tree, a blank and what is said of
/// paths.
pub open spec fn written_line(x: char, y: char, paths: Seq<char>) -> Seq<char> {
    seq![x, y, ' '] + paths
}

/// Whether `w` is a way to write the path: as it is, where that does not look quoted, or quoted.
pub open spec fn writes_path(w: Seq<char>, path: Seq<char>) -> bool {
    ||| w == quoted(path)
    ||| w == path && !(path.len() >= 2 && path[0] == '"' && path.last() == '"')
}

/// An entry without line counts.
pub open spec fn bare(change: status::Change, staged: bool) -> status::Entry {
    status::Entry { change, staged, additions: None, deletions: None, is_binary: false }
}

proof fn lemma_written_line(x: char, y: char, paths: Seq<char>)
    requires
        x as u32 <= 0x7f,
        y as u32 <= 0x7f,
    ensures
        bytes::chars_before(written_line(x, y, paths), 3) == Some(3int),
        written_line(x, y, paths).skip(3) == paths,
        written_line(x, y, paths)[0] == x,
        written_line(x, y, paths)[1] == y,
{
    let line = written_line(x, y, paths);
    let none = Seq::<char>::empty();
    bytes::lemma_byte_len_push(none, x);
    bytes::lemma_byte_len_push(none.push(x), y);
    bytes::lemma_byte_len_push(none.push(x).push(y), ' ');
    bytes::lemma_char_bytes(x);
    bytes::lemma_char_bytes(y);
    bytes::lemma_char_bytes(' ');
    assert(line.take(3) =~= none.push(x).push(y).push(' '));
    bytes::lemma_chars_before_take(line, 3);
    assert(line.skip(3) =~= paths);
}

proof fn lemma_writes_path(w: Seq<char>, path: Seq<char>)
    requires
        writes_path(w, path),
    ensures
        unquoted(w) == path,
{
    if w == quoted(path) {
        law_unquote_undoes_quoting(path);
    }
}

proof fn lemma_line_codes(x: char, y: char, w: Seq<char>, path: Seq<char>)
    requires
        x as u32 <= 0x7f,
        y as u32 <= 0x7f,
        !is_move(x, y),
        writes_path(w, path),
    ensures
        line_entries(written_line(x, y, w)) == code_entries(x, y, path, None),
{
    lemma_written_line(x, y, w);
    lemma_writes_path(w, path);
}

proof fn lemma_move_codes(
    x: char,
    y: char,
    paths: Seq<char>,
    n: int,
    old_path: Seq<char>,
    new_path: Seq<char>,
)
    requires
        x as u32 <= 0x7f,
        y as u32 <= 0x7f,
        is_move(x, y),
        text::first_match(paths, arrow()) == Some(n),
        unquoted(paths.take(n)) == old_path,
        unquoted(paths.skip(n + 4)) == new_path,
    ensures
        line_entries(written_line(x, y, paths)) == code_entries(x, y, new_path, Some(old_path)),
{
    lemma_written_line(x, y, paths);
}

proof fn lemma_single_code(code: char, path: Seq<char>)
    requires
        code == 'M' || code == 'A' || code == 'D',
    ensures
        ({
            let change = if code == 'D' {
                status::Change::Deleted { path }
            } else {
                status::Change::Modified { path }
            };
            &&& code_entries(code, ' ', path, None) == seq![bare(change, true)]
            &&& code_entries(' ', code, path, None) == seq![bare(change, false)]
        }),
{
    let change = if code == 'D' {
        status::Change::Deleted { path }
    } else {
        status::Change::Modified { path }
    };
    assert(code_entries(code, ' ', path, None) =~= seq![bare(change, true)]);
    assert(code_entries(' ', code, path, None) =~= seq![bare(change, false)]);
}

proof fn lemma_two_codes(x: char, y: char, path: Seq<char>)
    requires
        x == 'M' || x == 'A' || x == 'D',
        y == 'M' || y == 'A' || y == 'D',
        x == y ==> x == 'M',
    ensures
        code_entries(x, y, path, None) == code_entries(x, ' ', path, None) + code_entries(
            ' ',
            y,
            path,
            None,
        ),
        code_entries(x, y, path, None).len() == 2,
{
    lemma_single_code(x, path);
    lemma_single_code(y, path);
    assert(code_entries(x, y, path, None) =~= code_entries(x, ' ', path, None) + code_entries(
        ' ',
        y,
        path,
        None,
    ));
}

proof fn lemma_moved_codes(code: char, old_path: Seq<char>, new_path: Seq<char>)
    requires
        code == 'R' || code == 'C',
    ensures
        ({
            let moved = status::Change::Renamed { from_path: old_path, to_path: new_path };
            &&& code_entries(code, ' ', new_path, Some(old_path)) == seq![bare(moved, true)]
            &&& code_entries(' ', code, new_path, Some(old_path)) == seq![bare(moved, false)]
            &&& code_entries(code, 'M', new_path, Some(old_path)) == seq![
                bare(moved, true),
                bare(status::Change::Modified { path: new_path }, false),
            ]
            &&& code_entries(code, 'D', new_path, Some(old_path)) == seq![
                bare(moved, true),
                bare(status::Change::Deleted { path: new_path }, false),
            ]
        }),
{
    let moved = status::Change::Renamed { from_path: old_path, to_path: new_path };
    assert(code_entries(code, ' ', new_path, Some(old_path)) =~= seq![bare(moved, true)]);
    assert(code_entries(' ', code, new_path, Some(old_path)) =~= seq![bare(moved, false)]);
    assert(code_entries(code, 'M', new_path, Some(old_path)) =~= seq![
        bare(moved, true),
        bare(status::Change::Modified { path: new_path }, false),
    ]);
    assert(code_entries(code, 'D', new_path, Some(old_path)) =~= seq![
        bare(moved, true),
        bare(status::Change::Deleted { path: new_path }, false),
    ]);
}

/// One of the codes M, A and D beside a blank gives one entry of its kind: staged where it is the
/// first, not staged where it is the second.
#[verifier::spinoff_prover]
pub proof fn law_one_code_gives_one_entry(code: char, w: Seq<char>, path: Seq<char>)
    requires
        code == 'M' || code == 'A' || code == 'D',
        writes_path(w, path),
    ensures
        ({
            let change = if code == 'D' {
                status::Change::Deleted { path }
            } else {
                status::Change::Modified { path }
            };
            &&& line_entries(written_line(code, ' ', w)) == seq![bare(change, true)]
            &&& line_entries(written_line(' ', code, w)) == seq![bare(change, false)]
        }),
{
    lemma_line_codes(code, ' ', w, path);
    lemma_line_codes(' ', code, w, path);
    lemma_single_code(code, path);
}

/// Two of the codes that are no conflict give two entries, that of the index before that of the
/// work tree: what each of them gives beside a blank.
#[verifier::spinoff_prover]
pub proof fn law_two_codes_give_two_entries(x: char, y: char, w: Seq<char>, path: Seq<char>)
    requires
        x == 'M' || x == 'A' || x == 'D',
        y == 'M' || y == 'A' || y == 'D',
        x == y ==> x == 'M',
        writes_path(w, path),
    ensures
        line_entries(written_line(x, y, w)) == line_entries(written_line(x, ' ', w))
            + line_entries(written_line(' ', y, w)),
        line_entries(written_line(x, y, w)).len() == 2,
{
    lemma_line_codes(x, y, w, path);
    lemma_line_codes(x, ' ', w, path);
    lemma_line_codes(' ', y, w, path);
    lemma_two_codes(x, y, path);
}

/// Two question marks give one entry for a file that is not tracked; the seven pairs of codes for
/// unmerged files give one entry for a conflict.
pub proof fn law_untracked_and_unmerged_files(x: char, y: char, w: Seq<char>, path: Seq<char>)
    requires
        writes_path(w, path),
    ensures
        line_entries(written_line('?', '?', w)) == seq![
            bare(status::Change::Untracked { path }, false),
        ],
        (x, y) == ('U', 'U') || (x, y) == ('A', 'A') || (x, y) == ('D', 'D') || (x, y) == ('A', 'U')
            || (x, y) == ('U', 'A') || (x, y) == ('D', 'U') || (x, y) == ('U', 'D')
            ==> line_entries(written_line(x, y, w)) == seq![
            bare(status::Change::Conflict { path }, true),
        ],
{
    lemma_written_line('?', '?', w);
    lemma_writes_path(w, path);
    if x as u32 <= 0x7f && y as u32 <= 0x7f {
        lemma_written_line(x, y, w);
    }
}

/// A code that says nothing of the file gives no entry: the blank, the mark of an ignored file, and
/// any other but the ones for modified, added, deleted, moved and unmerged files.
pub proof fn law_other_codes_give_nothing(x: char, y: char, paths: Seq<char>)
    requires
        x as u32 <= 0x7f,
        y as u32 <= 0x7f,
        x != 'M' && x != 'A' && x != 'D' && x != 'R' && x != 'C' && x != 'U',
        y != 'M' && y != 'A' && y != 'D' && y != 'R' && y != 'C' && y != 'U',
        x != '?' || y != '?',
    ensures
        line_entries(written_line(x, y, paths)).len() == 0,
{
    lemma_written_line(x, y, paths);
}

/// Of a file that was renamed or copied there is one entry with both paths, on the side of the
/// code; a change of the moved file in the work tree is a second entry, at the new path.
#[verifier::spinoff_prover]
pub proof fn law_moves_have_both_paths(
    code: char,
    w_old: Seq<char>,
    old_path: Seq<char>,
    w_new: Seq<char>,
    new_path: Seq<char>,
    mark: Seq<char>,
)
    requires
        code == 'R' || code == 'C',
        mark == seq![' ', '-', '>', ' '],
        writes_path(w_old, old_path),
        writes_path(w_new, new_path),
        forall|j: int|
            0 <= j < w_old.len() ==> !text::has_prefix(#[trigger] (w_old + mark).skip(j), mark),
    ensures
        ({
            let paths = w_old + mark + w_new;
            let moved = status::Change::Renamed { from_path: old_path, to_path: new_path };
            &&& line_entries(written_line(code, ' ', paths)) == seq![bare(moved, true)]
            &&& line_entries(written_line(' ', code, paths)) == seq![bare(moved, false)]
            &&& line_entries(written_line(code, 'M', paths)) == seq![
                bare(moved, true),
                bare(status::Change::Modified { path: new_path }, false),
            ]
            &&& line_entries(written_line(code, 'D', paths)) == seq![
                bare(moved, true),
                bare(status::Change::Deleted { path: new_path }, false),
            ]
        }),
{
    let paths = w_old + mark + w_new;
    let n = w_old.len() as int;
    lemma_writes_path(w_old, old_path);
    lemma_writes_path(w_new, new_path);
    text::lemma_first_match(paths, mark);
    assert(paths.skip(n).take(4) =~= mark);
    assert(text::has_prefix(paths.skip(n), mark));
    let found = text::first_match(paths, mark);
    assert(found == Some(n)) by {
        match found {
            Some(i) => {
                if i > n {
                    assert(!text::has_prefix(paths.skip(n), mark));
                }
                if i < n {
                    assert(paths.skip(i).take(4) =~= (w_old + mark).skip(i).take(4));
                    assert(text::has_prefix((w_old + mark).skip(i), mark));
                }
            },
            None => {
                assert(!text::has_prefix(paths.skip(n), mark));
            },
        }
    }
    assert(paths.skip(n + 4) =~= w_new);
    assert(paths.take(n) =~= w_old);
    assert(arrow() =~= mark);
    lemma_move_codes(code, ' ', paths, n, old_path, new_path);
    lemma_move_codes(' ', code, paths, n, old_path, new_path);
    lemma_move_codes(code, 'M', paths, n, old_path, new_path);
    lemma_move_codes(code, 'D', paths, n, old_path, new_path);
    lemma_moved_codes(code, old_path, new_path);
}

/// The files are listed in the order in which they are printed, each line by itself.
pub proof fn law_lines_are_read_in_order(line: Seq<char>, rest: Seq<char>)
    requires
        forall|i: int| 0 <= i < line.len() ==> line[i] != '\n' && line[i] != '\r',
    ensures
        status_entries(lines::lines(line + seq!['\n'] + rest)) == line_entries(line)
            + status_entries(lines::lines(rest)),
        status_entries(lines::lines(Seq::<char>::empty())).len() == 0,
{
    lines::law_line_ends(line, rest);
    assert((seq![line] + lines::lines(rest)).skip(1) =~= lines::lines(rest));
}

/// Between quotes, a backslash with one of five characters behind it stands for one character; the
/// text before it, and what follows, are read by themselves.
pub proof fn law_escapes_stand_for_characters(a: Seq<char>, b: Seq<char>)
    requires
        forall|i: int| 0 <= i < a.len() ==> a[i] != '\\',
    ensures
        ({
            let end = seq!['"'];
            let rest = unquoted(end + b + end);
            &&& unquoted(end + a + end) == a
            &&& unquoted(end + a + seq!['\\', 'n'] + b + end) == a + seq!['\n'] + rest
            &&& unquoted(end + a + seq!['\\', 't'] + b + end) == a + seq!['\t'] + rest
            &&& unquoted(end + a + seq!['\\', 'r'] + b + end) == a + seq!['\r'] + rest
            &&& unquoted(end + a + seq!['\\', '"'] + b + end) == a + seq!['"'] + rest
            &&& unquoted(end + a + seq!['\\', '\\'] + b + end) == a + seq!['\\'] + rest
        }),
{
    let end = seq!['"'];
    let none = Seq::<char>::empty();
    lemma_unescape_after(a, none);
    assert(a + none =~= a);
    assert(a + unescape(none) =~= a);
    assert((end + a + end).subrange(1, a.len() as int + 1) =~= a);
    assert((end + b + end).subrange(1, b.len() as int + 1) =~= b);
    lemma_escape_between(a, 'n', '\n', b);
    lemma_escape_between(a, 't', '\t', b);
    lemma_escape_between(a, 'r', '\r', b);
    lemma_escape_between(a, '"', '"', b);
    lemma_escape_between(a, '\\', '\\', b);
}

proof fn lemma_unescape_after(a: Seq<char>, b: Seq<char>)
    requires
        forall|i: int| 0 <= i < a.len() ==> a[i] != '\\',
    ensures
        unescape(a + b) == a + unescape(b),
    decreases a.len(),
{
    if a.len() == 0 {
        assert(a + b =~= b);
        assert(a + unescape(b) =~= unescape(b));
    } else {
        let s = a + b;
        assert(s[0] == a[0]);
        assert(s.skip(1) =~= a.skip(1) + b);
        lemma_unescape_after(a.skip(1), b);
        assert(unescape(s) =~= a + unescape(b));
    }
}

proof fn lemma_escape_between(a: Seq<char>, letter: char, c: char, b: Seq<char>)
    requires
        forall|i: int| 0 <= i < a.len() ==> a[i] != '\\',
        escaped(letter) == Some(c),
    ensures
        unquoted(seq!['"'] + a + seq!['\\', letter] + b + seq!['"']) == a + seq![c] + unescape(b),
{
    let s = seq!['"'] + a + seq!['\\', letter] + b + seq!['"'];
    let tail = seq!['\\', letter] + b;
    assert(s.subrange(1, s.len() - 1) =~= a + tail);
    lemma_unescape_after(a, tail);
    assert(tail.skip(2) =~= b);
    assert(unescape(tail) =~= seq![c] + unescape(b));
    assert(a + (seq![c] + unescape(b)) =~= a + seq![c] + unescape(b));
}

/// What git prints of a file can be cut behind its codes.
pub proof fn law_printed_lines_cut_cleanly(x: char, y: char, paths: Seq<char>)
    requires
        x as u32 <= 0x7f,
        y as u32 <= 0x7f,
    ensures
        cuts_cleanly(written_line(x, y, paths)),
        cuts_cleanly(Seq::empty()),
{
    lemma_written_line(x, y, paths);
    bytes::lemma_byte_len_bounds(Seq::<char>::empty());
}

} // verus!
