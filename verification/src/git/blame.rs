//! The output of `git blame --porcelain`.

use vstd::prelude::*;

use crate::git::date;
use crate::git::date::short_date_text;
use crate::git::history;
use crate::git::history::compute_relative_time;
use crate::git::status::BlameLine;
use crate::lines;
use crate::lines::{split_lines, split_words, trim};
use crate::number;
use crate::number::{parse_i64, parse_usize};
use crate::text;
use crate::text::{chars_of, piece, starts_with, string_between, string_of};

verus! {

broadcast use vstd::string::group_string_axioms;

/// What the header lines read so far say of the lines that follow them.
pub struct Commit {
    pub hash: Seq<char>,
    pub author: Seq<char>,
    pub date: Seq<char>,
    pub relative_date: Seq<char>,
    pub line_no: usize,
    pub is_boundary: bool,
}

/// What is the same for all lines of a commit.
pub struct Details {
    pub author: Seq<char>,
    pub date: Seq<char>,
    pub relative_date: Seq<char>,
    pub is_boundary: bool,
}

impl Commit {
    /// What is the same for all lines of the commit.
    pub open spec fn details(self) -> Details {
        Details {
            author: self.author,
            date: self.date,
            relative_date: self.relative_date,
            is_boundary: self.is_boundary,
        }
    }

    /// The commit with other details.
    pub open spec fn described(self, d: Details) -> Commit {
        Commit {
            author: d.author,
            date: d.date,
            relative_date: d.relative_date,
            is_boundary: d.is_boundary,
            ..self
        }
    }

    /// Whether a line has named the commit.
    pub open spec fn is_named(self) -> bool {
        self.hash.len() > 0
    }
}

/// A blamed line with its texts as character sequences.
pub struct Blamed {
    pub commit: Commit,
    pub short_hash: Seq<char>,
    pub content: Seq<char>,
}

impl View for BlameLine {
    type V = Blamed;

    open spec fn view(&self) -> Blamed {
        Blamed {
            commit: Commit {
                hash: self.hash@,
                author: self.author@,
                date: self.date@,
                relative_date: self.relative_date@,
                line_no: self.line_no,
                is_boundary: self.is_boundary,
            },
            short_hash: self.short_hash@,
            content: self.content@,
        }
    }
}

/// The blamed lines behind a vector.
pub open spec fn blamed(v: Seq<BlameLine>) -> Seq<Blamed> {
    v.map_values(|l: BlameLine| l@)
}

/// Before any header line.
pub open spec fn no_commit() -> Commit {
    Commit {
        hash: Seq::empty(),
        author: Seq::empty(),
        date: Seq::empty(),
        relative_date: Seq::empty(),
        line_no: 0,
        is_boundary: false,
    }
}

/// Whether the line holds file content, which a tab in front marks.
pub open spec fn is_content(line: Seq<char>) -> bool {
    line.len() > 0 && line[0] == '\t'
}

/// The time that an `author-time` line gives.
pub open spec fn author_time(line: Seq<char>) -> Option<i64> {
    if text::has_prefix(line, "author-time "@) {
        number::i64_of(lines::trim_of(line.skip("author-time "@.len() as int)))
    } else {
        None
    }
}

/// Whether the line starts with the name of a header.
pub open spec fn is_header(line: Seq<char>) -> bool {
    ||| text::has_prefix(line, "author-"@)
    ||| text::has_prefix(line, "committer"@)
    ||| text::has_prefix(line, "summary "@)
    ||| text::has_prefix(line, "previous "@)
    ||| text::has_prefix(line, "filename "@)
}

/// The commit that a line names: the one before, or another of which nothing is said yet.
pub open spec fn turned_to(commit: Commit, hash: Seq<char>) -> Commit {
    if hash == commit.hash {
        commit
    } else {
        Commit { hash, line_no: commit.line_no, ..no_commit() }
    }
}

/// The commit after a line that is not content. `now` is the present, in seconds as `author-time`
/// counts them.
pub open spec fn after_header(commit: Commit, line: Seq<char>, now: i64) -> Commit {
    let words = lines::words(line);
    if text::has_prefix(line, "author "@) {
        Commit { author: line.skip("author "@.len() as int), ..commit }
    } else if text::has_prefix(line, "author-time "@) {
        match author_time(line) {
            Some(time) => Commit {
                date: date::short_date(time as int),
                relative_date: history::relative_time(now - time),
                ..commit
            },
            None => commit,
        }
    } else if line == "boundary"@ {
        Commit { is_boundary: true, ..commit }
    } else if !is_header(line) && words.len() >= 3 {
        Commit {
            line_no: match number::usize_of(words[2]) {
                Some(n) => n,
                None => commit.line_no,
            },
            ..turned_to(commit, words[0])
        }
    } else {
        commit
    }
}

/// The first seven characters of a hash, or all of a shorter one.
pub open spec fn short_hash(hash: Seq<char>) -> Seq<char> {
    if hash.len() >= 7 {
        hash.take(7)
    } else {
        hash
    }
}

/// The commit of a content line: git prints the details of a commit only the first time that the
/// commit appears, so what is known of it counts.
pub open spec fn known_as(commit: Commit, known: Map<Seq<char>, Details>) -> Commit {
    if commit.is_named() && known.dom().contains(commit.hash) {
        commit.described(known[commit.hash])
    } else {
        commit
    }
}

/// What is known after a content line of the commit.
pub open spec fn learned(commit: Commit, known: Map<Seq<char>, Details>) -> Map<
    Seq<char>,
    Details,
> {
    if commit.is_named() && !known.dom().contains(commit.hash) {
        known.insert(commit.hash, commit.details())
    } else {
        known
    }
}

/// The blamed lines that `ls` gives after headers that left `commit`, with `known` details of the
/// commits that came before, by hash.
pub open spec fn blame_lines(
    commit: Commit,
    known: Map<Seq<char>, Details>,
    ls: Seq<Seq<char>>,
    now: i64,
) -> Seq<Blamed>
    decreases ls.len(),
{
    if ls.len() == 0 {
        Seq::empty()
    } else if is_content(ls[0]) {
        seq![
            Blamed {
                commit: known_as(commit, known),
                short_hash: short_hash(commit.hash),
                content: ls[0].skip(1),
            },
        ] + blame_lines(commit, learned(commit, known), ls.skip(1), now)
    } else {
        blame_lines(after_header(commit, ls[0], now), known, ls.skip(1), now)
    }
}

/// Whether the age of the line's commit can be told: the time between its `author-time` and now
/// is a number of seconds within the range of `i64`.
pub open spec fn age_fits(line: Seq<char>, now: i64) -> bool {
    match author_time(line) {
        Some(time) => i64::MIN <= now - time <= i64::MAX,
        None => true,
    }
}

/// Every content line gives one blamed line, in order, and no other line gives any.
pub proof fn law_one_entry_for_each_content_line(
    commit: Commit,
    known: Map<Seq<char>, Details>,
    ls: Seq<Seq<char>>,
    now: i64,
)
    ensures
        blame_lines(commit, known, ls, now).map_values(|b: Blamed| b.content) == ls.filter(
            |l: Seq<char>| is_content(l),
        ).map_values(|l: Seq<char>| l.skip(1)),
    decreases ls.len(),
{
    let keep = |l: Seq<char>| is_content(l);
    let cut = |l: Seq<char>| l.skip(1);
    let content = |b: Blamed| b.content;
    if ls.len() == 0 {
        assert(ls.filter(keep) =~= Seq::<Seq<char>>::empty()) by {
            reveal(Seq::filter);
        }
        assert(blame_lines(commit, known, ls, now).map_values(content) =~= ls.filter(
            keep,
        ).map_values(cut));
    } else {
        let rest = ls.skip(1);
        assert(ls =~= seq![ls[0]] + rest);
        Seq::filter_distributes_over_add(seq![ls[0]], rest, keep);
        assert(seq![ls[0]].filter(keep) =~= if keep(ls[0]) {
            seq![ls[0]]
        } else {
            Seq::<Seq<char>>::empty()
        }) by {
            reveal_with_fuel(Seq::filter, 2);
            assert(seq![ls[0]].drop_last() =~= Seq::<Seq<char>>::empty());
        }
        if is_content(ls[0]) {
            let more = learned(commit, known);
            law_one_entry_for_each_content_line(commit, more, rest, now);
            let tail = blame_lines(commit, more, rest, now);
            assert(blame_lines(commit, known, ls, now).map_values(content) =~= seq![ls[0].skip(1)]
                + tail.map_values(content));
            assert(ls.filter(keep).map_values(cut) =~= seq![ls[0].skip(1)] + rest.filter(
                keep,
            ).map_values(cut));
        } else {
            law_one_entry_for_each_content_line(after_header(commit, ls[0], now), known, rest, now);
            assert(ls.filter(keep) =~= rest.filter(keep));
        }
    }
}

/// Whether a line has the details that are known of its commit.
spec fn agrees(b: Blamed, known: Map<Seq<char>, Details>) -> bool {
    b.commit.is_named() && known.dom().contains(b.commit.hash) ==> b.commit.details()
        == known[b.commit.hash]
}

proof fn lemma_known_details(
    commit: Commit,
    known: Map<Seq<char>, Details>,
    ls: Seq<Seq<char>>,
    now: i64,
)
    ensures
        forall|i: int|
            0 <= i < blame_lines(commit, known, ls, now).len() ==> agrees(
                #[trigger] blame_lines(commit, known, ls, now)[i],
                known,
            ),
    decreases ls.len(),
{
    if ls.len() > 0 {
        let all = blame_lines(commit, known, ls, now);
        if is_content(ls[0]) {
            let more = learned(commit, known);
            let rest = blame_lines(commit, more, ls.skip(1), now);
            lemma_known_details(commit, more, ls.skip(1), now);
            assert forall|i: int| 0 <= i < all.len() implies agrees(#[trigger] all[i], known) by {
                if i > 0 {
                    assert(all[i] == rest[i - 1]);
                    assert(agrees(rest[i - 1], more));
                }
            }
        } else {
            let rest = blame_lines(after_header(commit, ls[0], now), known, ls.skip(1), now);
            lemma_known_details(after_header(commit, ls[0], now), known, ls.skip(1), now);
            assert(all == rest);
        }
    }
}

/// Two lines of one commit have the same author, the same dates and the same boundary flag, also
/// where lines of another commit stand between them.
pub proof fn law_lines_of_a_commit_agree(
    commit: Commit,
    known: Map<Seq<char>, Details>,
    ls: Seq<Seq<char>>,
    now: i64,
    i: int,
    j: int,
)
    requires
        0 <= i < j < blame_lines(commit, known, ls, now).len(),
        blame_lines(commit, known, ls, now)[i].commit.is_named(),
        blame_lines(commit, known, ls, now)[i].commit.hash == blame_lines(
            commit,
            known,
            ls,
            now,
        )[j].commit.hash,
    ensures
        blame_lines(commit, known, ls, now)[i].commit.details() == blame_lines(
            commit,
            known,
            ls,
            now,
        )[j].commit.details(),
    decreases ls.len(),
{
    let all = blame_lines(commit, known, ls, now);
    if is_content(ls[0]) {
        let more = learned(commit, known);
        let rest = blame_lines(commit, more, ls.skip(1), now);
        assert(all[j] == rest[j - 1]);
        if i > 0 {
            assert(all[i] == rest[i - 1]);
            law_lines_of_a_commit_agree(commit, more, ls.skip(1), now, i - 1, j - 1);
        } else {
            lemma_known_details(commit, more, ls.skip(1), now);
            assert(more.dom().contains(commit.hash));
            assert(agrees(rest[j - 1], more));
        }
    } else {
        law_lines_of_a_commit_agree(
            after_header(commit, ls[0], now),
            known,
            ls.skip(1),
            now,
            i,
            j,
        );
    }
}

/// The details of a commit that came before, as the parser keeps them.
struct KnownCommit {
    hash: Vec<char>,
    author: Vec<char>,
    date: Vec<char>,
    relative_date: String,
    is_boundary: bool,
}

impl KnownCommit {
    spec fn details(&self) -> Details {
        Details {
            author: self.author@,
            date: self.date@,
            relative_date: self.relative_date@,
            is_boundary: self.is_boundary,
        }
    }
}

/// The details by hash.
spec fn known_map(v: Seq<KnownCommit>) -> Map<Seq<char>, Details>
    decreases v.len(),
{
    if v.len() == 0 {
        Map::empty()
    } else {
        known_map(v.drop_last()).insert(v.last().hash@, v.last().details())
    }
}

fn find_known(v: &Vec<KnownCommit>, hash: &Vec<char>) -> (r: Option<usize>)
    ensures
        match r {
            Some(i) => i < v@.len() && known_map(v@).dom().contains(hash@)
                && known_map(v@)[hash@] == v@[i as int].details(),
            None => !known_map(v@).dom().contains(hash@),
        },
{
    let mut n: usize = v.len();
    proof {
        assert(v@.take(n as int) =~= v@);
    }
    while n > 0
        invariant
            n <= v@.len(),
            known_map(v@.take(n as int)).dom().contains(hash@) == known_map(v@).dom().contains(
                hash@,
            ),
            known_map(v@.take(n as int)).dom().contains(hash@) ==> known_map(
                v@.take(n as int),
            )[hash@] == known_map(v@)[hash@],
        decreases n,
    {
        proof {
            assert(v@.take(n as int).drop_last() =~= v@.take(n - 1));
            assert(v@.take(n as int).last() == v@[n - 1]);
        }
        if text::same(&v[n - 1].hash, hash) {
            return Some(n - 1);
        }
        n = n - 1;
    }
    proof {
        assert(v@.take(0) =~= Seq::<KnownCommit>::empty());
    }
    None
}

/// The commit that the header lines describe, as the parser keeps it.
struct Block {
    hash: Vec<char>,
    author: Vec<char>,
    date: Vec<char>,
    relative_date: String,
    line_no: usize,
    is_boundary: bool,
}

impl View for Block {
    type V = Commit;

    closed spec fn view(&self) -> Commit {
        Commit {
            hash: self.hash@,
            author: self.author@,
            date: self.date@,
            relative_date: self.relative_date@,
            line_no: self.line_no,
            is_boundary: self.is_boundary,
        }
    }
}

fn read_author_time(line: &Vec<char>) -> (r: Option<i64>)
    requires
        text::has_prefix(line@, "author-time "@),
    ensures
        r == author_time(line@),
{
    let name = chars_of("author-time ");
    let rest = piece(line, name.len(), line.len());
    proof {
        assert(rest@ =~= line@.skip("author-time "@.len() as int));
    }
    let value = trim(&rest);
    parse_i64(&value)
}

fn read_header(block: &mut Block, line: &Vec<char>, now: i64)
    requires
        age_fits(line@, now),
    ensures
        final(block)@ == after_header(old(block)@, line@, now),
{
    if starts_with(line, "author ") {
        let name = chars_of("author ");
        block.author = piece(line, name.len(), line.len());
        proof {
            assert(block.author@ =~= line@.skip("author "@.len() as int));
        }
    } else if starts_with(line, "author-time ") {
        match read_author_time(line) {
            Some(time) => {
                block.date = short_date_text(time);
                block.relative_date = compute_relative_time(now - time);
            },
            None => {},
        }
    } else {
        let boundary = chars_of("boundary");
        if text::same(line, &boundary) {
            block.is_boundary = true;
        } else if !starts_with(line, "author-") && !starts_with(line, "committer") && !starts_with(
            line,
            "summary ",
        ) && !starts_with(line, "previous ") && !starts_with(line, "filename ") {
            let words = split_words(line);
            proof {
                assert(text::texts(words@).len() == words@.len());
            }
            if words.len() >= 3 {
                proof {
                    assert(text::texts(words@)[0] == words@[0]@);
                    assert(text::texts(words@)[2] == words@[2]@);
                }
                if !text::same(&words[0], &block.hash) {
                    block.hash = piece(&words[0], 0, words[0].len());
                    block.author = Vec::new();
                    block.date = Vec::new();
                    block.relative_date = String::new();
                    block.is_boundary = false;
                    proof {
                        assert(block.hash@ =~= words@[0]@);
                        assert(block.author@ =~= Seq::<char>::empty());
                        assert(block.date@ =~= Seq::<char>::empty());
                        assert(block.relative_date@ =~= Seq::<char>::empty());
                    }
                }
                match parse_usize(&words[2]) {
                    Some(n) => {
                        block.line_no = n;
                    },
                    None => {},
                }
            }
        }
    }
}

fn copy_text(t: &Vec<char>) -> (r: Vec<char>)
    ensures
        r@ == t@,
{
    let r = piece(t, 0, t.len());
    proof {
        assert(r@ =~= t@);
    }
    r
}

fn read_content(block: &Block, known: &mut Vec<KnownCommit>, line: &Vec<char>) -> (r: BlameLine)
    requires
        is_content(line@),
    ensures
        r@ == (Blamed {
            commit: known_as(block@, known_map(old(known)@)),
            short_hash: short_hash(block.hash@),
            content: line@.skip(1),
        }),
        known_map(final(known)@) == learned(block@, known_map(old(known)@)),
{
    let short = if block.hash.len() >= 7 {
        string_between(&block.hash, 0, 7)
    } else {
        string_of(&block.hash)
    };
    let content = string_between(line, 1, line.len());
    proof {
        if block.hash@.len() >= 7 {
            assert(short@ =~= block.hash@.take(7));
        }
        assert(content@ =~= line@.skip(1));
    }
    let hash = string_of(&block.hash);
    if block.hash.len() > 0 {
        match find_known(known, &block.hash) {
            Some(i) => {
                let k = &known[i];
                return BlameLine {
                    hash,
                    short_hash: short,
                    author: string_of(&k.author),
                    date: string_of(&k.date),
                    relative_date: k.relative_date.clone(),
                    line_no: block.line_no,
                    content,
                    is_boundary: k.is_boundary,
                };
            },
            None => {
                let ghost before = known@;
                known.push(
                    KnownCommit {
                        hash: copy_text(&block.hash),
                        author: copy_text(&block.author),
                        date: copy_text(&block.date),
                        relative_date: block.relative_date.clone(),
                        is_boundary: block.is_boundary,
                    },
                );
                proof {
                    assert(known@.drop_last() =~= before);
                }
            },
        }
    }
    BlameLine {
        hash,
        short_hash: short,
        author: string_of(&block.author),
        date: string_of(&block.date),
        relative_date: block.relative_date.clone(),
        line_no: block.line_no,
        content,
        is_boundary: block.is_boundary,
    }
}

/// Whether the age of every commit in the output can be told at the time `now`.
pub fn blame_ages_fit(stdout: &str, now: i64) -> (r: bool)
    ensures
        r == (forall|i: int|
            0 <= i < lines::lines(stdout@).len() ==> age_fits(
                #[trigger] lines::lines(stdout@)[i],
                now,
            )),
{
    let t = chars_of(stdout);
    let ls = split_lines(&t);
    let ghost all = lines::lines(stdout@);
    let mut i: usize = 0;
    while i < ls.len()
        invariant
            i <= ls@.len(),
            text::texts(ls@) == all,
            all == lines::lines(stdout@),
            forall|k: int| 0 <= k < i ==> age_fits(#[trigger] all[k], now),
        decreases ls@.len() - i,
    {
        let line = &ls[i];
        proof {
            assert(all[i as int] == line@);
        }
        if starts_with(line, "author-time ") {
            match read_author_time(line) {
                Some(time) => {
                    let age: i128 = now as i128 - time as i128;
                    if age < i64::MIN as i128 || age > i64::MAX as i128 {
                        return false;
                    }
                },
                None => {},
            }
        }
        i = i + 1;
    }
    true
}

/// Reads the output of `git blame --porcelain`: blocks of header lines, each closed by a content
/// line with a tab in front. Each line has the details of the commit that it names, which are
/// printed only the first time that the commit appears. `now` is the present, in seconds after
/// 1970-01-01 00:00 UTC.
pub fn parse_blame(stdout: &str, now: i64) -> (r: Vec<BlameLine>)
    requires
        forall|i: int|
            0 <= i < lines::lines(stdout@).len() ==> age_fits(
                #[trigger] lines::lines(stdout@)[i],
                now,
            ),
    ensures
        blamed(r@) == blame_lines(
            no_commit(),
            Map::empty(),
            lines::lines(stdout@),
            now,
        ),
{
    let t = chars_of(stdout);
    let ls = split_lines(&t);
    let ghost all = lines::lines(stdout@);
    let ghost want = blame_lines(no_commit(), Map::empty(), all, now);
    let mut out: Vec<BlameLine> = Vec::new();
    let mut known: Vec<KnownCommit> = Vec::new();
    let mut block = Block {
        hash: Vec::new(),
        author: Vec::new(),
        date: Vec::new(),
        relative_date: String::new(),
        line_no: 0,
        is_boundary: false,
    };
    let mut i: usize = 0;
    proof {
        assert(block@.hash =~= Seq::<char>::empty());
        assert(block@.author =~= Seq::<char>::empty());
        assert(block@.date =~= Seq::<char>::empty());
        assert(block@.relative_date =~= Seq::<char>::empty());
        assert(all.skip(0) =~= all);
        assert(known_map(known@) =~= Map::<Seq<char>, Details>::empty());
        assert(blamed(out@) + want =~= want);
    }
    while i < ls.len()
        invariant
            i <= ls@.len(),
            text::texts(ls@) == all,
            forall|k: int| 0 <= k < all.len() ==> age_fits(#[trigger] all[k], now),
            blamed(out@) + blame_lines(block@, known_map(known@), all.skip(i as int), now) == want,
        decreases ls@.len() - i,
    {
        let line = &ls[i];
        proof {
            assert(all[i as int] == line@);
            assert(all.skip(i as int)[0] == all[i as int]);
            assert(all.skip(i as int).skip(1) =~= all.skip(i + 1));
        }
        if line.len() > 0 && line[0] == '\t' {
            let entry = read_content(&block, &mut known, line);
            let ghost before = out@;
            out.push(entry);
            proof {
                assert(blamed(out@) =~= blamed(before).push(entry@));
                let rest = blame_lines(block@, known_map(known@), all.skip(i + 1), now);
                assert(blamed(out@) + rest =~= blamed(before) + (seq![entry@] + rest));
            }
        } else {
            read_header(&mut block, line, now);
        }
        i = i + 1;
    }
    proof {
        assert(all.skip(i as int) =~= Seq::<Seq<char>>::empty());
        assert(blamed(out@) + Seq::<Blamed>::empty() =~= blamed(out@));
    }
    out
}

// ---------------------------------------------------------------------------------------------
// Laws of whole files
// ---------------------------------------------------------------------------------------------

/// What git prints of a commit the first time that the commit appears.
pub struct PrintedDetails {
    pub author: Seq<char>,
    pub mail: Seq<char>,
    pub time: i64,
    pub tz: Seq<char>,
    pub committer: Seq<char>,
    pub summary: Seq<char>,
    pub boundary: bool,
    pub file: Seq<char>,
}

/// What git prints of a line of the file: its commit, the line it was there, how many lines of the
/// commit follow each other from here, the details and the content.
pub struct PrintedLine {
    pub hash: Seq<char>,
    pub original: usize,
    pub group: Option<usize>,
    pub details: Option<PrintedDetails>,
    pub content: Seq<char>,
}

/// Whether the text is a hash: hexadecimal digits.
pub open spec fn is_hash(s: Seq<char>) -> bool {
    s.len() > 0 && forall|i: int|
        0 <= i < s.len() ==> '0' <= #[trigger] s[i] <= '9' || 'a' <= s[i] <= 'f'
}

/// The line that names a commit: its hash, the line in the commit and the line in the file, and
/// how many lines follow each other, where that is said.
pub open spec fn written_commit(hash: Seq<char>, original: usize, line: usize, group: Option<usize>) -> Seq<
    char,
> {
    hash + seq![' '] + (number::decimal(original as nat) + seq![' '] + (match group {
        Some(n) => number::decimal(line as nat) + seq![' '] + number::decimal(n as nat),
        None => number::decimal(line as nat),
    }))
}

/// The header lines with the details of a commit.
pub open spec fn written_details(d: PrintedDetails) -> Seq<Seq<char>> {
    seq![
        "author "@ + d.author,
        "author-mail "@ + d.mail,
        "author-time "@ + number::decimal_int(d.time as int),
        "author-tz "@ + d.tz,
        "committer "@ + d.committer,
        "committer-mail "@ + d.mail,
        "committer-time "@ + d.committer,
        "committer-tz "@ + d.tz,
        "summary "@ + d.summary,
        if d.boundary {
            "boundary"@
        } else {
            "previous "@ + d.file
        },
        "filename "@ + d.file,
    ]
}

/// The lines that git prints for lines of a file, which start with line number `first`.
pub open spec fn written_file(printed: Seq<PrintedLine>, first: int) -> Seq<Seq<char>>
    decreases printed.len(),
{
    if printed.len() == 0 {
        Seq::empty()
    } else {
        let p = printed[0];
        seq![written_commit(p.hash, p.original, first as usize, p.group)] + (match p.details {
            Some(d) => written_details(d),
            None => Seq::empty(),
        }) + seq![seq!['\t'] + p.content] + written_file(printed.skip(1), first + 1)
    }
}

proof fn lemma_prefix_differs(s: Seq<char>, p: Seq<char>, k: int)
    requires
        0 <= k < p.len(),
        k < s.len() ==> s[k] != p[k],
    ensures
        !text::has_prefix(s, p),
{
    if text::has_prefix(s, p) {
        assert(s.take(p.len() as int)[k] == s[k]);
    }
}

proof fn lemma_has_prefix(p: Seq<char>, s: Seq<char>)
    ensures
        text::has_prefix(p + s, p),
        (p + s).skip(p.len() as int) == s,
{
    assert((p + s).take(p.len() as int) =~= p);
    assert((p + s).skip(p.len() as int) =~= s);
}

proof fn lemma_names()
    ensures
        "author "@ == seq!['a', 'u', 't', 'h', 'o', 'r', ' '],
        "author-"@ == seq!['a', 'u', 't', 'h', 'o', 'r', '-'],
        "author-mail "@ == seq!['a', 'u', 't', 'h', 'o', 'r', '-', 'm', 'a', 'i', 'l', ' '],
        "author-time "@ == seq!['a', 'u', 't', 'h', 'o', 'r', '-', 't', 'i', 'm', 'e', ' '],
        "author-tz "@ == seq!['a', 'u', 't', 'h', 'o', 'r', '-', 't', 'z', ' '],
        "committer"@ == seq!['c', 'o', 'm', 'm', 'i', 't', 't', 'e', 'r'],
        "boundary"@ == seq!['b', 'o', 'u', 'n', 'd', 'a', 'r', 'y'],
        "summary "@ == seq!['s', 'u', 'm', 'm', 'a', 'r', 'y', ' '],
        "previous "@ == seq!['p', 'r', 'e', 'v', 'i', 'o', 'u', 's', ' '],
        "filename "@ == seq!['f', 'i', 'l', 'e', 'n', 'a', 'm', 'e', ' '],
{
    reveal_strlit("author ");
    reveal_strlit("author-");
    reveal_strlit("author-mail ");
    reveal_strlit("author-time ");
    reveal_strlit("author-tz ");
    reveal_strlit("committer");
    reveal_strlit("boundary");
    reveal_strlit("summary ");
    reveal_strlit("previous ");
    reveal_strlit("filename ");
}

/// A line that no header starts with keeps the commit or names another.
proof fn lemma_no_name(line: Seq<char>, k: int)
    requires
        0 <= k < line.len(),
        k <= 1,
        k == 0 ==> line[0] != 'a' && line[0] != 'c' && line[0] != 'b' && line[0] != 's' && line[0] != 'p'
            && line[0] != 'f',
        k == 1 ==> line[1] != 'u' && line[1] != 'o' && line[1] != 'r' && line[1] != 'i',
    ensures
        !text::has_prefix(line, "author "@),
        !text::has_prefix(line, "author-time "@),
        line != "boundary"@,
        !is_header(line),
{
    lemma_names();
    lemma_prefix_differs(line, "author "@, k);
    lemma_prefix_differs(line, "author-"@, k);
    lemma_prefix_differs(line, "author-time "@, k);
    lemma_prefix_differs(line, "committer"@, k);
    lemma_prefix_differs(line, "summary "@, k);
    lemma_prefix_differs(line, "previous "@, k);
    lemma_prefix_differs(line, "filename "@, k);
}

proof fn lemma_digits_are_words(n: nat)
    ensures
        number::decimal(n).len() > 0,
        forall|i: int|
            0 <= i < number::decimal(n).len() ==> !lines::is_white(#[trigger] number::decimal(n)[i]),
{
    number::lemma_decimal(n);
    assert forall|i: int| 0 <= i < number::decimal(n).len() implies !lines::is_white(
        #[trigger] number::decimal(n)[i],
    ) by {
        assert(number::is_digit(number::decimal(n)[i]));
    }
}

/// The line that names a commit gives its hash and the line of the file.
proof fn lemma_commit_line(
    commit: Commit,
    hash: Seq<char>,
    original: usize,
    line: usize,
    group: Option<usize>,
    now: i64,
)
    requires
        is_hash(hash),
    ensures
        !is_content(written_commit(hash, original, line, group)),
        after_header(commit, written_commit(hash, original, line, group), now) == (Commit {
            line_no: line,
            ..turned_to(commit, hash)
        }),
{
    let h = written_commit(hash, original, line, group);
    let a = number::decimal(original as nat);
    let b = number::decimal(line as nat);
    lemma_digits_are_words(original as nat);
    lemma_digits_are_words(line as nat);
    assert forall|i: int| 0 <= i < hash.len() implies !lines::is_white(#[trigger] hash[i]) by {
        assert('0' <= hash[i] <= '9' || 'a' <= hash[i] <= 'f');
    }
    let tail = match group {
        Some(n) => b + seq![' '] + number::decimal(n as nat),
        None => b,
    };
    lines::law_words_are_cut_at_blanks(hash, a + seq![' '] + tail);
    lines::law_words_are_cut_at_blanks(a, tail);
    match group {
        Some(n) => {
            lemma_digits_are_words(n as nat);
            lines::law_words_are_cut_at_blanks(b, number::decimal(n as nat));
        },
        None => {
            lines::law_words_are_cut_at_blanks(b, b);
        },
    }
    let ws = lines::words(h);
    assert(ws[0] == hash);
    assert(ws[2] == b);
    assert(ws.len() >= 3);
    number::law_decimal_round_trip(line);
    assert(h[0] == hash[0]);
    assert('0' <= hash[0] <= '9' || 'a' <= hash[0] <= 'f');
    if hash.len() > 1 {
        assert('0' <= hash[1] <= '9' || 'a' <= hash[1] <= 'f');
        assert(h[1] == hash[1]);
    } else {
        assert(h[1] == ' ');
    }
    lemma_no_name(h, 1);
}

/// A header with a name that tells nothing that is kept changes nothing.
proof fn lemma_passed_over(commit: Commit, line: Seq<char>, now: i64)
    requires
        is_header(line),
        line.len() > 7,
        line[0] != 'a' || line[6] == '-',
        line[0] != 'b',
        line[0] == 'a' && line[6] == '-' ==> line[7] != 't' || line[8] != 'i' && line.len() > 8,
    ensures
        after_header(commit, line, now) == commit,
{
    lemma_names();
    lemma_prefix_differs(line, "author "@, if line[0] != 'a' {
        0
    } else {
        6
    });
    lemma_prefix_differs(line, "author-time "@, if line[0] != 'a' {
        0
    } else if line[7] != 't' {
        7
    } else {
        8
    });
}

spec fn after_headers(commit: Commit, ls: Seq<Seq<char>>, now: i64) -> Commit
    decreases ls.len(),
{
    if ls.len() == 0 {
        commit
    } else {
        after_headers(after_header(commit, ls[0], now), ls.skip(1), now)
    }
}

proof fn lemma_headers(
    commit: Commit,
    known: Map<Seq<char>, Details>,
    ls: Seq<Seq<char>>,
    rest: Seq<Seq<char>>,
    now: i64,
)
    requires
        forall|i: int| 0 <= i < ls.len() ==> !is_content(#[trigger] ls[i]),
    ensures
        blame_lines(commit, known, ls + rest, now) == blame_lines(
            after_headers(commit, ls, now),
            known,
            rest,
            now,
        ),
    decreases ls.len(),
{
    if ls.len() == 0 {
        assert(ls + rest =~= rest);
    } else {
        assert((ls + rest)[0] == ls[0]);
        assert((ls + rest).skip(1) =~= ls.skip(1) + rest);
        assert(!is_content(ls[0]));
        assert forall|i: int| 0 <= i < ls.skip(1).len() implies !is_content(
            #[trigger] ls.skip(1)[i],
        ) by {
            assert(!is_content(ls[i + 1]));
        }
        lemma_headers(after_header(commit, ls[0], now), known, ls.skip(1), rest, now);
    }
}

/// The details that are printed of a commit of which nothing was said.
spec fn told(d: PrintedDetails, now: i64) -> Details {
    Details {
        author: d.author,
        date: date::short_date(d.time as int),
        relative_date: history::relative_time(now - d.time),
        is_boundary: d.boundary,
    }
}

proof fn lemma_time_line(t: i64)
    ensures
        author_time("author-time "@ + number::decimal_int(t as int)) == Some(t),
{
    let s = number::decimal_int(t as int);
    let none = Seq::<char>::empty();
    lemma_has_prefix("author-time "@, s);
    number::law_signed_decimal_round_trip(t);
    let m = if t < 0 {
        (-t) as nat
    } else {
        t as nat
    };
    lemma_digits_are_words(m);
    assert(!lines::is_white('-'));
    assert(s.last() == number::decimal(m).last());
    assert(!lines::is_white(number::decimal(m)[number::decimal(m).len() - 1]));
    assert(!lines::is_white(number::decimal(m)[0]));
    lines::law_trimming_takes_white_ends(none, s, none);
    assert(none + s + none =~= s);
}

#[verifier::rlimit(40)]
proof fn lemma_details(commit: Commit, d: PrintedDetails, now: i64)
    ensures
        forall|i: int|
            0 <= i < written_details(d).len() ==> !is_content(#[trigger] written_details(d)[i]),
        after_headers(commit, written_details(d), now) == (Commit {
            author: d.author,
            date: date::short_date(d.time as int),
            relative_date: history::relative_time(now - d.time),
            is_boundary: commit.is_boundary || d.boundary,
            ..commit
        }),
{
    lemma_names();
    reveal_strlit("committer ");
    reveal_strlit("committer-mail ");
    reveal_strlit("committer-time ");
    reveal_strlit("committer-tz ");
    let ls = written_details(d);
    let none = Seq::<char>::empty();
    lemma_has_prefix("author "@, d.author);
    let c0 = after_header(commit, ls[0], now);
    assert(c0 == (Commit { author: d.author, ..commit }));
    assert(text::has_prefix(ls[1], "author-"@)) by {
        assert(ls[1].take(7) =~= "author-"@);
    }
    lemma_passed_over(c0, ls[1], now);
    lemma_time_line(d.time);
    lemma_has_prefix("author-time "@, number::decimal_int(d.time as int));
    lemma_prefix_differs(ls[2], "author "@, 6);
    let c2 = after_header(c0, ls[2], now);
    assert(text::has_prefix(ls[3], "author-"@)) by {
        assert(ls[3].take(7) =~= "author-"@);
    }
    lemma_passed_over(c2, ls[3], now);
    assert(text::has_prefix(ls[4], "committer"@)) by {
        assert(ls[4].take(9) =~= "committer"@);
    }
    lemma_passed_over(c2, ls[4], now);
    assert(text::has_prefix(ls[5], "committer"@)) by {
        assert(ls[5].take(9) =~= "committer"@);
    }
    lemma_passed_over(c2, ls[5], now);
    assert(text::has_prefix(ls[6], "committer"@)) by {
        assert(ls[6].take(9) =~= "committer"@);
    }
    lemma_passed_over(c2, ls[6], now);
    assert(text::has_prefix(ls[7], "committer"@)) by {
        assert(ls[7].take(9) =~= "committer"@);
    }
    lemma_passed_over(c2, ls[7], now);
    lemma_has_prefix("summary "@, d.summary);
    lemma_passed_over(c2, ls[8], now);
    let c9 = after_header(c2, ls[9], now);
    if d.boundary {
        lemma_prefix_differs(ls[9], "author "@, 0);
        lemma_prefix_differs(ls[9], "author-time "@, 0);
    } else {
        lemma_has_prefix("previous "@, d.file);
        lemma_passed_over(c2, ls[9], now);
    }
    lemma_has_prefix("filename "@, d.file);
    lemma_passed_over(c9, ls[10], now);
    lemma_after_eleven(commit, ls, now);
    assert(ls[0][0] == 'a' && ls[1][0] == 'a' && ls[2][0] == 'a' && ls[3][0] == 'a');
    assert(ls[4][0] == 'c' && ls[5][0] == 'c' && ls[6][0] == 'c' && ls[7][0] == 'c');
    assert(ls[8][0] == 's' && ls[10][0] == 'f');
    assert(ls[9][0] == 'b' || ls[9][0] == 'p');
}

proof fn lemma_after_eleven(commit: Commit, ls: Seq<Seq<char>>, now: i64)
    requires
        ls.len() == 11,
    ensures
        after_headers(commit, ls, now) == ({
            let c = after_header(commit, ls[0], now);
            let c = after_header(c, ls[1], now);
            let c = after_header(c, ls[2], now);
            let c = after_header(c, ls[3], now);
            let c = after_header(c, ls[4], now);
            let c = after_header(c, ls[5], now);
            let c = after_header(c, ls[6], now);
            let c = after_header(c, ls[7], now);
            let c = after_header(c, ls[8], now);
            let c = after_header(c, ls[9], now);
            after_header(c, ls[10], now)
        }),
{
    lemma_after_push(commit, ls, now);
    lemma_after_push(commit, ls.take(10), now);
    lemma_after_push(commit, ls.take(10).take(9), now);
    lemma_after_push(commit, ls.take(10).take(9).take(8), now);
    assert(ls.take(10).take(9).take(8).take(7) =~= ls.take(7));
    lemma_after_push(commit, ls.take(7), now);
    lemma_after_push(commit, ls.take(7).take(6), now);
    lemma_after_push(commit, ls.take(7).take(6).take(5), now);
    lemma_after_push(commit, ls.take(7).take(6).take(5).take(4), now);
    lemma_after_push(commit, ls.take(7).take(6).take(5).take(4).take(3), now);
    assert(ls.take(7).take(6).take(5).take(4).take(3).take(2) =~= ls.take(2));
    lemma_after_push(commit, ls.take(2), now);
    lemma_after_push(commit, ls.take(2).take(1), now);
    assert(ls.take(2).take(1).take(0) =~= Seq::<Seq<char>>::empty());
}

proof fn lemma_after_push(commit: Commit, ls: Seq<Seq<char>>, now: i64)
    requires
        ls.len() > 0,
    ensures
        after_headers(commit, ls, now) == after_header(
            after_headers(commit, ls.take(ls.len() - 1), now),
            ls[ls.len() - 1],
            now,
        ),
    decreases ls.len(),
{
    let head = ls.take(ls.len() - 1);
    if ls.len() == 1 {
        assert(ls.skip(1) =~= Seq::<Seq<char>>::empty());
        assert(head =~= Seq::<Seq<char>>::empty());
        reveal_with_fuel(after_headers, 2);
    } else {
        lemma_after_push(after_header(commit, ls[0], now), ls.skip(1), now);
        assert(ls.skip(1).take(ls.len() - 2) =~= head.skip(1));
    }
}

/// The commit that a printed line leaves.
spec fn after_printed(commit: Commit, p: PrintedLine, line: usize, now: i64) -> Commit {
    let c = Commit { line_no: line, ..turned_to(commit, p.hash) };
    match p.details {
        Some(d) => Commit {
            author: d.author,
            date: date::short_date(d.time as int),
            relative_date: history::relative_time(now - d.time),
            is_boundary: c.is_boundary || d.boundary,
            ..c
        },
        None => c,
    }
}

proof fn lemma_printed_line(
    commit: Commit,
    known: Map<Seq<char>, Details>,
    printed: Seq<PrintedLine>,
    first: int,
    now: i64,
)
    requires
        printed.len() > 0,
        is_hash(printed[0].hash),
        0 <= first <= usize::MAX,
    ensures
        ({
            let c = after_printed(commit, printed[0], first as usize, now);
            blame_lines(commit, known, written_file(printed, first), now) == seq![
                Blamed {
                    commit: known_as(c, known),
                    short_hash: short_hash(c.hash),
                    content: printed[0].content,
                },
            ] + blame_lines(
                c,
                learned(c, known),
                written_file(printed.skip(1), first + 1),
                now,
            )
        }),
{
    let p = printed[0];
    let line = first as usize;
    let named = written_commit(p.hash, p.original, line, p.group);
    let ds = match p.details {
        Some(d) => written_details(d),
        None => Seq::<Seq<char>>::empty(),
    };
    let content = seq!['\t'] + p.content;
    let rest = written_file(printed.skip(1), first + 1);
    let all = written_file(printed, first);
    lemma_commit_line(commit, p.hash, p.original, line, p.group, now);
    let c1 = after_header(commit, named, now);
    let tail = ds + (seq![content] + rest);
    assert(all =~= seq![named] + tail);
    assert(all.skip(1) =~= tail);
    match p.details {
        Some(d) => {
            lemma_details(c1, d, now);
        },
        None => {},
    }
    lemma_headers(c1, known, ds, seq![content] + rest, now);
    assert((seq![content] + rest).skip(1) =~= rest);
    assert(content.skip(1) =~= p.content);
}

/// Whether the lines that git prints of a file name their commits by hashes, and fit.
pub open spec fn is_printed(printed: Seq<PrintedLine>, first: int) -> bool {
    &&& 0 <= first
    &&& first + printed.len() <= usize::MAX
    &&& forall|k: int| 0 <= k < printed.len() ==> is_hash((#[trigger] printed[k]).hash)
}

proof fn lemma_is_printed(printed: Seq<PrintedLine>, first: int)
    requires
        is_printed(printed, first),
        printed.len() > 0,
    ensures
        is_hash(printed[0].hash),
        is_printed(printed.skip(1), first + 1),
{
    let rest = printed.skip(1);
    assert forall|k: int| 0 <= k < rest.len() implies is_hash((#[trigger] rest[k]).hash) by {
        assert(is_hash(printed[k + 1].hash));
    }
}

/// Of the lines that git prints for a file from line `first` on, each gives one blamed line, with
/// its commit, its content and the line number that it has in the file, whatever line it was in its
/// commit.
pub proof fn law_lines_are_numbered_as_in_the_file(
    commit: Commit,
    known: Map<Seq<char>, Details>,
    printed: Seq<PrintedLine>,
    first: int,
    now: i64,
    i: int,
)
    requires
        is_printed(printed, first),
        0 <= i < printed.len(),
    ensures
        ({
            let got = blame_lines(commit, known, written_file(printed, first), now);
            &&& got.len() == printed.len()
            &&& got[i].commit.line_no == first + i
            &&& got[i].commit.hash == printed[i].hash
            &&& got[i].content == printed[i].content
            &&& printed[i].hash.len() >= 7 ==> got[i].short_hash == printed[i].hash.take(7)
        }),
    decreases printed.len(),
{
    lemma_is_printed(printed, first);
    lemma_printed_line(commit, known, printed, first, now);
    let c = after_printed(commit, printed[0], first as usize, now);
    let rest = printed.skip(1);
    if rest.len() > 0 {
        law_lines_are_numbered_as_in_the_file(
            c,
            learned(c, known),
            rest,
            first + 1,
            now,
            if i > 0 {
                i - 1
            } else {
                0
            },
        );
    }
}

proof fn lemma_first_appearance(
    commit: Commit,
    known: Map<Seq<char>, Details>,
    printed: Seq<PrintedLine>,
    first: int,
    now: i64,
    i: int,
)
    requires
        is_printed(printed, first),
        0 <= i < printed.len(),
        printed[i].details is Some,
        commit.hash != printed[i].hash,
        !known.dom().contains(printed[i].hash),
        forall|k: int| 0 <= k < i ==> (#[trigger] printed[k]).hash != printed[i].hash,
    ensures
        blame_lines(commit, known, written_file(printed, first), now).len() == printed.len(),
        blame_lines(commit, known, written_file(printed, first), now)[i].commit.details() == told(
            printed[i].details->0,
            now,
        ),
    decreases printed.len(),
{
    law_lines_are_numbered_as_in_the_file(commit, known, printed, first, now, i);
    lemma_is_printed(printed, first);
    lemma_printed_line(commit, known, printed, first, now);
    let c = after_printed(commit, printed[0], first as usize, now);
    let rest = printed.skip(1);
    if i > 0 {
        assert(printed[0].hash != printed[i].hash);
        assert forall|k: int| 0 <= k < i - 1 implies (#[trigger] rest[k]).hash
            != rest[i - 1].hash by {
            assert(printed[k + 1].hash != printed[i].hash);
        }
        lemma_first_appearance(c, learned(c, known), rest, first + 1, now, i - 1);
    }
}

/// Each line of a file has the author, the dates and the flag that git printed of its commit the
/// first time that the commit appeared: at line `j` for the line `i`.
pub proof fn law_lines_have_the_details_of_their_commit(
    printed: Seq<PrintedLine>,
    now: i64,
    i: int,
    j: int,
)
    requires
        is_printed(printed, 1),
        0 <= j <= i < printed.len(),
        printed[j].hash == printed[i].hash,
        printed[j].details is Some,
        forall|k: int| 0 <= k < j ==> (#[trigger] printed[k]).hash != printed[j].hash,
    ensures
        ({
            let got = blame_lines(no_commit(), Map::empty(), written_file(printed, 1), now);
            let d = printed[j].details->0;
            &&& got[i].commit.author == d.author
            &&& got[i].commit.date == date::short_date(d.time as int)
            &&& got[i].commit.relative_date == history::relative_time(now - d.time)
            &&& got[i].commit.is_boundary == d.boundary
        }),
{
    let none = Map::<Seq<char>, Details>::empty();
    assert(is_hash(printed[j].hash));
    lemma_first_appearance(no_commit(), none, printed, 1, now, j);
    law_lines_are_numbered_as_in_the_file(no_commit(), none, printed, 1, now, i);
    law_lines_are_numbered_as_in_the_file(no_commit(), none, printed, 1, now, j);
    if j < i {
        law_lines_of_a_commit_agree(no_commit(), none, written_file(printed, 1), now, j, i);
    }
}

} // verus!
