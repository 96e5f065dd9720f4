//! The picker: a list of items to choose from, narrowed down by a query.

use vstd::multiset::Multiset;
use vstd::prelude::*;

use nucleo::Injector as ItemSender;

use crate::text;
use crate::text::chars_of;
use crate::ui::draw;
use crate::ui::matcher;
use crate::ui::matcher::{hand, inject, injector_of, match_paths, matched_count, matched_item, new_matcher, tick};

verus! {

broadcast use vstd::string::group_string_axioms;

/// The name of the picker among the layers of the editor.
pub const ID: &'static str = "picker";

/// An area must be wider than this for the preview to be shown.
pub const MIN_AREA_WIDTH_FOR_PREVIEW: u16 = 72;

/// Pickers with more items than this are not kept when they are closed.
pub const MAX_ITEMS_KEPT: u32 = 1_000_000;

// ---------------------------------------------------------------------------------------------
// Columns
// ---------------------------------------------------------------------------------------------

/// A column of the list.
#[derive(Debug, Clone, PartialEq, Eq)]
pub struct Column {
    pub name: String,
    /// Whether the column should be passed to nucleo for matching and filtering.
    pub filter: bool,
    /// Whether the column does not display any contents.
    pub hidden: bool,
}

impl Column {
    /// A column that is shown and searched.
    pub fn new(name: String) -> (r: Column)
        ensures
            r == (Column { name, filter: true, hidden: false }),
    {
        Column { name, filter: true, hidden: false }
    }

    /// A column which does not display any contents
    pub fn hidden(name: String) -> (r: Column)
        ensures
            r == (Column { name, filter: false, hidden: true }),
    {
        Column { name, filter: false, hidden: true }
    }

    /// The column without being searched.
    pub fn without_filtering(self) -> (r: Column)
        ensures
            r == (Column { filter: false, ..self }),
    {
        let mut r = self;
        r.filter = false;
        r
    }
}

/// How many of the columns are searched.
pub open spec fn filter_count(columns: Seq<Column>) -> nat
    decreases columns.len(),
{
    if columns.len() == 0 {
        0
    } else {
        filter_count(columns.drop_last()) + if columns.last().filter {
            1nat
        } else {
            0
        }
    }
}

/// How many of the columns are searched.
pub fn count_filters(columns: &Vec<Column>) -> (r: usize)
    ensures
        r == filter_count(columns@),
        r <= columns@.len(),
{
    let mut n: usize = 0;
    let mut i: usize = 0;
    proof {
        assert(columns@.take(0) =~= Seq::<Column>::empty());
    }
    while i < columns.len()
        invariant
            n <= i <= columns.len(),
            n == filter_count(columns@.take(i as int)),
        decreases columns@.len() - i,
    {
        proof {
            assert(columns@.take(i + 1).drop_last() =~= columns@.take(i as int));
            assert(columns@.take(i + 1).last() == columns@[i as int]);
        }
        if columns[i].filter {
            n = n + 1;
        }
        i = i + 1;
    }
    proof {
        assert(columns@.take(i as int) =~= columns@);
    }
    n
}

/// Of one text for each column, those of the columns that are searched.
pub open spec fn filter_texts(columns: Seq<Column>, texts: Seq<Seq<char>>) -> Seq<Seq<char>>
    decreases columns.len(),
{
    if columns.len() == 0 {
        Seq::empty()
    } else if columns.last().filter {
        filter_texts(columns.drop_last(), texts.take(columns.len() - 1)).push(
            texts[columns.len() - 1],
        )
    } else {
        filter_texts(columns.drop_last(), texts.take(columns.len() - 1))
    }
}

/// There are as many texts of searched columns as searched columns.
pub proof fn lemma_filter_texts(columns: Seq<Column>, texts: Seq<Seq<char>>)
    requires
        columns.len() == texts.len(),
    ensures
        filter_texts(columns, texts).len() == filter_count(columns),
    decreases columns.len(),
{
    if columns.len() > 0 {
        lemma_filter_texts(columns.drop_last(), texts.take(columns.len() - 1));
    }
}

/// What the matcher is handed of an option: its number, and its texts of the columns that are
/// searched.
pub open spec fn handed_row(columns: Seq<Column>, option: (u64, Vec<String>)) -> (
    u64,
    Seq<Seq<char>>,
) {
    (option.0, filter_texts(columns, text::strings(option.1@)))
}

/// What the matcher is handed of each option.
pub open spec fn handed_rows(columns: Seq<Column>, options: Seq<(u64, Vec<String>)>) -> Seq<
    (u64, Seq<Seq<char>>),
> {
    Seq::new(options.len(), |i: int| handed_row(columns, options[i]))
}

proof fn lemma_handed_rows_grow(
    rows: Seq<(u64, Seq<Seq<char>>)>,
    i: int,
    before: Multiset<(u64, Seq<Seq<char>>)>,
    after: Multiset<(u64, Seq<Seq<char>>)>,
)
    requires
        0 <= i < rows.len(),
        rows.take(i).to_multiset().subset_of(before),
        before.insert(rows[i]).subset_of(after),
    ensures
        rows.take(i + 1).to_multiset().subset_of(after),
{
    broadcast use vstd::multiset::group_multiset_axioms;

    rows.take(i).to_multiset_ensures();
    assert(rows.take(i + 1) =~= rows.take(i).push(rows[i]));
    let small = rows.take(i).to_multiset();
    assert forall|v: (u64, Seq<Seq<char>>)| small.insert(rows[i]).count(v) <= after.count(v) by {
        assert(small.count(v) <= before.count(v));
        assert(before.insert(rows[i]).count(v) <= after.count(v));
    }
}

/// The texts of the columns that are searched.
fn pick_filter_texts(columns: &Vec<Column>, texts: &Vec<String>) -> (r: Vec<String>)
    requires
        columns@.len() == texts@.len(),
    ensures
        text::strings(r@) == filter_texts(columns@, text::strings(texts@)),
{
    let ghost all = text::strings(texts@);
    let mut out: Vec<String> = Vec::new();
    let mut i: usize = 0;
    proof {
        assert(columns@.take(0) =~= Seq::<Column>::empty());
        assert(text::strings(out@) =~= Seq::<Seq<char>>::empty());
    }
    while i < columns.len()
        invariant
            i <= columns@.len(),
            columns@.len() == texts@.len(),
            all == text::strings(texts@),
            text::strings(out@) == filter_texts(columns@.take(i as int), all.take(i as int)),
        decreases columns@.len() - i,
    {
        proof {
            assert(columns@.take(i + 1).drop_last() =~= columns@.take(i as int));
            assert(columns@.take(i + 1).last() == columns@[i as int]);
            assert(all.take(i + 1).take(i as int) =~= all.take(i as int));
            assert(all.take(i + 1)[i as int] == texts@[i as int]@);
        }
        if columns[i].filter {
            let t = texts[i].clone();
            proof {
                text::lemma_strings_push(out@, t);
            }
            out.push(t);
        }
        i = i + 1;
    }
    proof {
        assert(columns@.take(i as int) =~= columns@);
        assert(all.take(i as int) =~= all);
    }
    out
}

// ---------------------------------------------------------------------------------------------
// Injectors
// ---------------------------------------------------------------------------------------------

/// The picker has been shut down.
#[derive(Debug, Clone, Copy, PartialEq, Eq, Structural)]
pub struct InjectorShutdown;

impl InjectorShutdown {
    /// The error as text.
    pub fn message(&self) -> (r: &'static str)
        ensures
            r@ == "picker has been shut down"@,
    {
        "picker has been shut down"
    }
}

/// The version of a picker after it was closed.
pub open spec fn version_after_close(version: usize) -> usize {
    if version == usize::MAX {
        0
    } else {
        (version + 1) as usize
    }
}

/// The version of a picker after it was closed.
pub fn next_version(version: usize) -> (r: usize)
    ensures
        r == version_after_close(version),
{
    if version == usize::MAX {
        0
    } else {
        version + 1
    }
}

/// Hands items to a picker, as long as that has the version it had when the injector was made.
pub struct Injector {
    pub dst: ItemSender<u64>,
    pub columns: Vec<Column>,
    pub version: usize,
}

impl Injector {
    /// Hands an item to the picker, which by now has the version given, with one text for each
    /// column.
    pub fn push(&self, picker_version: usize, item: u64, texts: &Vec<String>) -> (r: Result<
        (),
        InjectorShutdown,
    >)
        requires
            texts@.len() == self.columns@.len(),
        ensures
            r is Ok <==> picker_version == self.version,
            r is Err ==> r == Err::<(), InjectorShutdown>(InjectorShutdown),
    {
        if self.version != picker_version {
            return Err(InjectorShutdown);
        }
        let picked = pick_filter_texts(&self.columns, texts);
        inject(&self.dst, item, &picked);
        Ok(())
    }
}

/// A picker that is closed takes no more items from injectors made before.
pub proof fn law_closing_shuts_injectors_down(version: usize)
    ensures
        version_after_close(version) != version,
{
}

// ---------------------------------------------------------------------------------------------
// Moving the cursor
// ---------------------------------------------------------------------------------------------

/// Where the cursor moves.
#[derive(Debug, Clone, Copy, PartialEq, Eq, Structural)]
pub enum Direction {
    Forward,
    Backward,
}

/// `a`, but no more than a 32-bit number can tell.
pub open spec fn capped(a: int) -> int {
    draw::least(a, u32::MAX as int)
}

/// The cursor moved by `amount` among `len` items: past either end it comes in again at the other.
pub open spec fn moved(cursor: int, amount: int, direction: Direction, len: int) -> int {
    if len == 0 {
        cursor
    } else {
        match direction {
            Direction::Forward => capped(cursor + amount) % len,
            Direction::Backward => draw::less(capped(cursor + len), amount) % len,
        }
    }
}

/// A move ends on an item.
pub proof fn law_moves_stay_on_items(cursor: u32, amount: u32, direction: Direction, len: int)
    requires
        len > 0,
    ensures
        0 <= moved(cursor as int, amount as int, direction, len) < len,
{
    assert(forall|a: int| a >= 0 ==> 0 <= #[trigger] (a % len) < len) by (nonlinear_arith)
        requires
            len > 0,
    ;
}

/// Moving back takes back a move of at most the length of the list.
pub proof fn law_moving_back_undoes_a_move(cursor: int, amount: int, len: int)
    requires
        0 <= cursor < len,
        0 <= amount <= len,
        2 * len <= u32::MAX,
    ensures
        moved(moved(cursor, amount, Direction::Forward, len), amount, Direction::Backward, len)
            == cursor,
{
    let there = (cursor + amount) % len;
    if cursor + amount < len {
        vstd::arithmetic::div_mod::lemma_small_mod((cursor + amount) as nat, len as nat);
        vstd::arithmetic::div_mod::lemma_mod_add_multiples_vanish(cursor, len);
        vstd::arithmetic::div_mod::lemma_small_mod(cursor as nat, len as nat);
        assert((there + len - amount) % len == (len + cursor) % len);
    } else {
        vstd::arithmetic::div_mod::lemma_mod_add_multiples_vanish(cursor + amount - len, len);
        assert(there == (cursor + amount - len) % len);
        if cursor + amount - len < len {
            vstd::arithmetic::div_mod::lemma_small_mod((cursor + amount - len) as nat, len as nat);
            vstd::arithmetic::div_mod::lemma_small_mod(cursor as nat, len as nat);
        }
    }
}

/// A move goes round the list: forward to the items with higher numbers, backward to those with
/// lower ones. A move back by more than the list and the cursor ends on the first item.
pub proof fn law_moves_go_round_the_list(cursor: int, amount: int, len: int)
    requires
        0 <= cursor < len,
        0 <= amount,
        cursor + amount <= u32::MAX,
        cursor + len <= u32::MAX,
    ensures
        moved(cursor, amount, Direction::Forward, len) == (cursor + amount) % len,
        amount <= cursor + len ==> moved(cursor, amount, Direction::Backward, len) == (cursor + len
            - amount) % len,
        amount > cursor + len ==> moved(cursor, amount, Direction::Backward, len) == 0,
        cursor + amount < len ==> moved(cursor, amount, Direction::Forward, len) == cursor + amount,
        amount <= cursor ==> moved(cursor, amount, Direction::Backward, len) == cursor - amount,
{
    vstd::arithmetic::div_mod::lemma_small_mod(0, len as nat);
    if cursor + amount < len {
        vstd::arithmetic::div_mod::lemma_small_mod((cursor + amount) as nat, len as nat);
    }
    if amount <= cursor {
        vstd::arithmetic::div_mod::lemma_small_mod((cursor - amount) as nat, len as nat);
        vstd::arithmetic::div_mod::lemma_mod_add_multiples_vanish(cursor - amount, len);
        assert(cursor + len - amount == len + (cursor - amount));
    }
}

// ---------------------------------------------------------------------------------------------
// The picker
// ---------------------------------------------------------------------------------------------

/// How a chosen item is opened.
#[derive(Debug, Clone, Copy, PartialEq, Eq, Structural)]
pub enum Action {
    Load,
    Replace,
    HorizontalSplit,
    VerticalSplit,
}

/// A picker. Its items are numbers that stand for what it offers.
pub struct Picker {
    pub columns: Vec<Column>,
    pub primary_column: usize,
    pub matcher: nucleo::Nucleo<u64>,
    /// Current height of the completions box
    pub completion_height: u16,
    pub cursor: u32,
    /// What each column is searched for, as far as the query says.
    pub query: Vec<Option<String>>,
    /// Whether to show the preview panel (default true)
    pub show_preview: bool,
    /// The widths of the columns that are shown.
    pub widths: Vec<u16>,
    pub default_action: Action,
    pub truncate_start: bool,
    /// Whether the file behind an item can be previewed.
    pub file_preview: bool,
    /// Whether items have a preview of their own, which takes precedence.
    pub custom_preview: bool,
    /// Whether the items depend on the query.
    pub dynamic: bool,
    /// The register that the queries are remembered in.
    pub history_register: Option<char>,
}

/// The text that a column is searched for: nothing where the query does not say.
pub open spec fn pattern_of(o: Option<String>) -> Seq<char> {
    match o {
        Some(s) => s@,
        None => Seq::empty(),
    }
}

/// The texts that the columns are searched for.
pub open spec fn patterns_of(query: Seq<Option<String>>) -> Seq<Seq<char>> {
    query.map_values(|o: Option<String>| pattern_of(o))
}

/// The query with its texts as character sequences.
pub open spec fn query_texts(query: Seq<Option<String>>) -> Seq<Option<Seq<char>>> {
    query.map_values(|o: Option<String>| text::opt_string(o))
}

/// The width of a name: its number of characters, as far as a coordinate tells.
pub open spec fn name_width(name: Seq<char>) -> int {
    (name.len() % 65536) as int
}

/// The primary query changed.
#[derive(Debug, Clone, PartialEq, Eq)]
pub struct DynamicQueryChange {
    pub query: String,
    pub is_paste: bool,
}

fn name_widths(columns: &Vec<Column>) -> (r: Vec<u16>)
    ensures
        r@.len() == columns@.len(),
        forall|i: int| 0 <= i < r@.len() ==> #[trigger] r@[i] == name_width(columns@[i].name@),
{
    let mut out: Vec<u16> = Vec::new();
    let mut i: usize = 0;
    while i < columns.len()
        invariant
            i <= columns@.len(),
            out@.len() == i,
            forall|k: int|
                0 <= k < i ==> #[trigger] out@[k] == name_width(columns@[k].name@),
        decreases columns@.len() - i,
    {
        let t = chars_of(columns[i].name.as_str());
        out.push((t.len() % 65536) as u16);
        i = i + 1;
    }
    out
}

fn empty_query(n: usize) -> (r: Vec<Option<String>>)
    ensures
        r@.len() == n,
        forall|i: int| 0 <= i < n ==> (#[trigger] r@[i]) is None,
{
    let mut out: Vec<Option<String>> = Vec::new();
    while out.len() < n
        invariant
            out@.len() <= n,
            forall|i: int| 0 <= i < out@.len() ==> (#[trigger] out@[i]) is None,
        decreases n - out@.len(),
    {
        out.push(None);
    }
    out
}

proof fn lemma_empty_patterns(columns: Seq<Column>, query: Seq<Option<String>>)
    requires
        columns.len() == query.len(),
        forall|i: int| 0 <= i < query.len() ==> (#[trigger] query[i]) is None,
    ensures
        filter_texts(columns, patterns_of(query)) == Seq::new(
            filter_count(columns),
            |i: int| Seq::<char>::empty(),
        ),
    decreases columns.len(),
{
    if columns.len() > 0 {
        let n = columns.len() - 1;
        lemma_empty_patterns(columns.drop_last(), query.take(n));
        assert(patterns_of(query).take(n) =~= patterns_of(query.take(n)));
        assert(patterns_of(query)[n] =~= Seq::<char>::empty());
    }
    assert(filter_texts(columns, patterns_of(query)) =~= Seq::new(
        filter_count(columns),
        |i: int| Seq::<char>::empty(),
    ));
}

impl Picker {
    /// The columns, the query and the matcher agree: the matcher searches for what the query says.
    pub open spec fn wf(&self) -> bool {
        &&& self.columns@.len() > 0
        &&& self.primary_column < self.columns@.len()
        &&& self.query@.len() == self.columns@.len()
        &&& self.widths@.len() == self.columns@.len()
        &&& matcher::column_patterns(self.matcher) == filter_texts(
            self.columns@,
            patterns_of(self.query@),
        )
    }

    /// The items that match.
    pub open spec fn items(&self) -> Seq<u64> {
        matcher::matched_items(self.matcher)
    }

    /// The items that the picker was handed, each with the texts of the columns that are searched.
    pub open spec fn handed(&self) -> Multiset<(u64, Seq<Seq<char>>)> {
        matcher::handed_items(self.matcher)
    }

    /// Whether all but the cursor is the same.
    pub open spec fn same_but_cursor(&self, other: &Picker) -> bool {
        *self == (Picker { cursor: self.cursor, ..*other })
    }

    /// A matcher for the columns, and an injector for it, to fill in the background.
    pub fn stream<F: Fn() + Sync + Send + 'static>(columns: Vec<Column>, notify: F) -> (r: (
        nucleo::Nucleo<u64>,
        Injector,
    ))
        requires
            0 < filter_count(columns@) <= u32::MAX,
        ensures
            matcher::matched_items(r.0) == Seq::<u64>::empty(),
            matcher::column_patterns(r.0) == Seq::new(
                filter_count(columns@),
                |i: int| Seq::<char>::empty(),
            ),
            matcher::handed_items(r.0) == Multiset::<(u64, Seq<Seq<char>>)>::empty(),
            !matcher::matches_paths(r.0),
            r.1.columns == columns,
            r.1.version == 0,
    {
        let n = count_filters(&columns);
        let m = new_matcher(n as u32, notify);
        let dst = injector_of(&m);
        (m, Injector { dst, columns, version: 0 })
    }

    /// A picker over a matcher that is filled in the background.
    pub fn with_stream(
        matcher: nucleo::Nucleo<u64>,
        primary_column: usize,
        columns: Vec<Column>,
    ) -> (r: Picker)
        requires
            primary_column < columns@.len(),
            matcher::column_patterns(matcher) == Seq::new(
                filter_count(columns@),
                |i: int| Seq::<char>::empty(),
            ),
        ensures
            r.wf(),
            r.columns == columns,
            r.primary_column == primary_column,
            r.matcher == matcher,
            r.completion_height == 0,
            r.cursor == 0,
            forall|i: int| 0 <= i < r.query@.len() ==> (#[trigger] r.query@[i]) is None,
            r.show_preview,
            forall|i: int|
                0 <= i < r.widths@.len() ==> #[trigger] r.widths@[i] == name_width(
                    columns@[i].name@,
                ),
            r.default_action == Action::Replace,
            r.truncate_start,
            !r.file_preview,
            !r.custom_preview,
            !r.dynamic,
            r.history_register is None,
    {
        let widths = name_widths(&columns);
        let query = empty_query(columns.len());
        proof {
            lemma_empty_patterns(columns@, query@);
        }
        Picker {
            columns,
            primary_column,
            matcher,
            completion_height: 0,
            cursor: 0,
            query,
            show_preview: true,
            widths,
            default_action: Action::Replace,
            truncate_start: true,
            file_preview: false,
            custom_preview: false,
            dynamic: false,
            history_register: None,
        }
    }

    /// A picker over the options given, each with one text for each column. The matcher is handed
    /// each of them, as often as it is given, with its texts of the columns that are searched.
    pub fn new<F: Fn() + Sync + Send + 'static>(
        columns: Vec<Column>,
        primary_column: usize,
        options: &Vec<(u64, Vec<String>)>,
        notify: F,
    ) -> (r: Picker)
        requires
            primary_column < columns@.len(),
            0 < filter_count(columns@) <= u32::MAX,
            forall|i: int|
                0 <= i < options@.len() ==> (#[trigger] options@[i]).1@.len() == columns@.len(),
        ensures
            r.wf(),
            r.columns == columns,
            r.primary_column == primary_column,
            r.items() == Seq::<u64>::empty(),
            handed_rows(columns@, options@).to_multiset().subset_of(r.handed()),
            forall|i: int|
                0 <= i < options@.len() ==> r.handed().contains(
                    handed_row(columns@, #[trigger] options@[i]),
                ),
            !matcher::matches_paths(r.matcher),
            r.completion_height == 0,
            r.cursor == 0,
            forall|i: int| 0 <= i < r.query@.len() ==> (#[trigger] r.query@[i]) is None,
            r.show_preview,
            forall|i: int|
                0 <= i < r.widths@.len() ==> #[trigger] r.widths@[i] == name_width(
                    columns@[i].name@,
                ),
            r.default_action == Action::Replace,
            r.truncate_start,
            !r.file_preview,
            !r.custom_preview,
            !r.dynamic,
            r.history_register is None,
    {
        let n = count_filters(&columns);
        let mut m = new_matcher(n as u32, notify);
        let ghost rows = handed_rows(columns@, options@);
        let mut i: usize = 0;
        proof {
            broadcast use vstd::multiset::group_multiset_axioms;

            rows.take(0).to_multiset_ensures();
        }
        while i < options.len()
            invariant
                i <= options@.len(),
                forall|k: int|
                    0 <= k < options@.len() ==> (#[trigger] options@[k]).1@.len() == columns@.len(),
                rows == handed_rows(columns@, options@),
                rows.take(i as int).to_multiset().subset_of(matcher::handed_items(m)),
                matcher::column_patterns(m) == Seq::new(
                    filter_count(columns@),
                    |k: int| Seq::<char>::empty(),
                ),
                matcher::matched_items(m) == Seq::<u64>::empty(),
                !matcher::matches_paths(m),
            decreases options@.len() - i,
        {
            let picked = pick_filter_texts(&columns, &options[i].1);
            let ghost before = matcher::handed_items(m);
            proof {
                lemma_filter_texts(columns@, text::strings(options@[i as int].1@));
                assert(text::strings(picked@).len() == picked@.len());
            }
            hand(&mut m, options[i].0, &picked);
            proof {
                lemma_handed_rows_grow(rows, i as int, before, matcher::handed_items(m));
            }
            i = i + 1;
        }
        proof {
            assert(rows.take(i as int) =~= rows);
            assert forall|k: int| 0 <= k < options@.len() implies matcher::handed_items(m).contains(
                handed_row(columns@, #[trigger] options@[k]),
            ) by {
                rows.to_multiset_ensures();
                assert(rows[k] == handed_row(columns@, options@[k]));
                assert(rows.contains(rows[k]));
                assert(rows.to_multiset().count(rows[k]) <= matcher::handed_items(m).count(rows[k]));
            }
        }
        Picker::with_stream(m, primary_column, columns)
    }

    /// An injector for the picker, which has the version given.
    pub fn injector(&self, version: usize) -> (r: Injector)
        ensures
            r.columns@ == self.columns@,
            r.version == version,
    {
        let mut columns: Vec<Column> = Vec::new();
        let mut i: usize = 0;
        while i < self.columns.len()
            invariant
                i <= self.columns@.len(),
                columns@ == self.columns@.take(i as int),
            decreases self.columns@.len() - i,
        {
            let c = &self.columns[i];
            columns.push(Column { name: c.name.clone(), filter: c.filter, hidden: c.hidden });
            proof {
                assert(self.columns@.take(i + 1) =~= self.columns@.take(i as int).push(
                    self.columns@[i as int],
                ));
            }
            i = i + 1;
        }
        proof {
            assert(self.columns@.take(i as int) =~= self.columns@);
        }
        Injector { dst: injector_of(&self.matcher), columns, version }
    }

    /// Sets whether long texts are cut at their start.
    pub fn truncate_start(self, truncate_start: bool) -> (r: Picker)
        requires
            self.wf(),
        ensures
            r.wf(),
            r == (Picker { truncate_start, ..self }),
    {
        let mut r = self;
        r.truncate_start = truncate_start;
        r
    }

    /// Shows the file behind an item in the preview. Items are matched as paths from now on.
    pub fn with_preview(self) -> (r: Picker)
        requires
            self.wf(),
        ensures
            r.wf(),
            r.items() == self.items(),
            matcher::matches_paths(r.matcher),
            self.handed().subset_of(r.handed()),
            r == (Picker { file_preview: true, matcher: r.matcher, ..self }),
    {
        let mut r = self;
        r.file_preview = true;
        match_paths(&mut r.matcher);
        r
    }

    /// Shows a preview of its own for each item. This takes precedence over `with_preview` if both
    /// are set.
    pub fn with_custom_preview(self) -> (r: Picker)
        requires
            self.wf(),
        ensures
            r.wf(),
            r == (Picker { custom_preview: true, show_preview: true, ..self }),
    {
        let mut r = self;
        r.custom_preview = true;
        r.show_preview = true;
        r
    }

    /// Remembers the queries in a register.
    pub fn with_history_register(self, history_register: Option<char>) -> (r: Picker)
        requires
            self.wf(),
        ensures
            r.wf(),
            r == (Picker { history_register, ..self }),
    {
        let mut r = self;
        r.history_register = history_register;
        r
    }

    /// Starts with the cursor on an item.
    pub fn with_initial_cursor(self, cursor: u32) -> (r: Picker)
        requires
            self.wf(),
        ensures
            r.wf(),
            r == (Picker { cursor, ..self }),
    {
        let mut r = self;
        r.cursor = cursor;
        r
    }

    /// Lets the items depend on the query. The query so far counts as pasted.
    pub fn with_dynamic_query(self) -> (r: (Picker, DynamicQueryChange))
        requires
            self.wf(),
        ensures
            r.0.wf(),
            r.0 == (Picker { dynamic: true, ..self }),
            r.1.query@ == pattern_of(self.query@[self.primary_column as int]),
            r.1.is_paste,
    {
        let query = self.primary_query();
        let mut p = self;
        p.dynamic = true;
        (p, DynamicQueryChange { query, is_paste: true })
    }

    /// Sets how a chosen item is opened.
    pub fn with_default_action(self, action: Action) -> (r: Picker)
        requires
            self.wf(),
        ensures
            r.wf(),
            r == (Picker { default_action: action, ..self }),
    {
        let mut r = self;
        r.default_action = action;
        r
    }

    /// Move the cursor by a number of lines, either down (`Forward`) or up (`Backward`)
    pub fn move_by(&mut self, amount: u32, direction: Direction)
        requires
            old(self).wf(),
        ensures
            final(self).wf(),
            final(self).same_but_cursor(old(self)),
            final(self).cursor == moved(
                old(self).cursor as int,
                amount as int,
                direction,
                old(self).items().len() as int,
            ),
    {
        let len = matched_count(&self.matcher);
        if len == 0 {
            return;
        }
        match direction {
            Direction::Forward => {
                self.cursor = self.cursor.saturating_add(amount) % len;
            },
            Direction::Backward => {
                self.cursor = self.cursor.saturating_add(len).saturating_sub(amount) % len;
            },
        }
    }

    /// Move the cursor up by exactly one page. Before the first page comes the last page.
    pub fn page_up(&mut self)
        requires
            old(self).wf(),
        ensures
            final(self).wf(),
            final(self).same_but_cursor(old(self)),
            final(self).cursor == moved(
                old(self).cursor as int,
                old(self).completion_height as int,
                Direction::Backward,
                old(self).items().len() as int,
            ),
    {
        let n = self.completion_height as u32;
        self.move_by(n, Direction::Backward);
    }

    /// Move the cursor down by exactly one page. After the last page comes the first page.
    pub fn page_down(&mut self)
        requires
            old(self).wf(),
        ensures
            final(self).wf(),
            final(self).same_but_cursor(old(self)),
            final(self).cursor == moved(
                old(self).cursor as int,
                old(self).completion_height as int,
                Direction::Forward,
                old(self).items().len() as int,
            ),
    {
        let n = self.completion_height as u32;
        self.move_by(n, Direction::Forward);
    }

    /// Move the cursor to the first entry
    pub fn to_start(&mut self)
        requires
            old(self).wf(),
        ensures
            final(self).wf(),
            final(self).same_but_cursor(old(self)),
            final(self).cursor == 0,
    {
        self.cursor = 0;
    }

    /// Move the cursor to the last entry
    pub fn to_end(&mut self)
        requires
            old(self).wf(),
        ensures
            final(self).wf(),
            final(self).same_but_cursor(old(self)),
            final(self).cursor == draw::less(old(self).items().len() as int, 1),
    {
        self.cursor = matched_count(&self.matcher).saturating_sub(1);
    }

    /// The item under the cursor.
    pub fn selection(&self) -> (r: Option<u64>)
        ensures
            r == (if self.cursor < self.items().len() {
                Some(self.items()[self.cursor as int])
            } else {
                None
            }),
    {
        matched_item(&self.matcher, self.cursor)
    }

    /// What the primary column is searched for.
    pub fn primary_query(&self) -> (r: String)
        requires
            self.wf(),
        ensures
            r@ == pattern_of(self.query@[self.primary_column as int]),
    {
        match &self.query[self.primary_column] {
            Some(s) => s.clone(),
            None => {
                let r = String::new();
                proof {
                    assert(r@ =~= Seq::<char>::empty());
                }
                r
            },
        }
    }

    /// The height of the header: columns have one where there are several.
    pub fn header_height(&self) -> (r: u16)
        ensures
            r == (if self.columns@.len() > 1 {
                1int
            } else {
                0
            }),
    {
        if self.columns.len() > 1 {
            1
        } else {
            0
        }
    }

    /// Shows the preview or hides it.
    pub fn toggle_preview(&mut self)
        requires
            old(self).wf(),
        ensures
            final(self).wf(),
            *final(self) == (Picker { show_preview: !old(self).show_preview, ..*old(self) }),
    {
        self.show_preview = !self.show_preview;
    }

    /// Takes note of the size and asks for all of it.
    pub fn required_size(&mut self, viewport: (u16, u16)) -> (r: Option<(u16, u16)>)
        requires
            old(self).wf(),
        ensures
            final(self).wf(),
            final(self).completion_height == draw::less(
                viewport.1 as int,
                4 + if old(self).columns@.len() > 1 {
                    1int
                } else {
                    0
                },
            ),
            *final(self) == (Picker {
                completion_height: final(self).completion_height,
                ..*old(self)
            }),
            r == Some(viewport),
    {
        self.completion_height = viewport.1.saturating_sub(4 + self.header_height());
        Some(viewport)
    }

    /// Has the search look for what the query says, and takes in what it found. Where the list may
    /// have changed, the cursor stays on it. Returns whether it may have changed, and whether the
    /// search goes on; where the query says something new to the search, one of the two is so.
    pub fn refresh(&mut self) -> (r: (bool, bool))
        requires
            old(self).wf(),
        ensures
            final(self).wf(),
            *final(self) == (Picker {
                matcher: final(self).matcher,
                cursor: final(self).cursor,
                ..*old(self)
            }),
            matcher::search_patterns(final(self).matcher) == filter_texts(
                old(self).columns@,
                patterns_of(old(self).query@),
            ),
            matcher::search_patterns(old(self).matcher) != filter_texts(
                old(self).columns@,
                patterns_of(old(self).query@),
            ) ==> r.0 || r.1,
            final(self).cursor == cursor_on_list(
                old(self).cursor as int,
                r.0,
                final(self).items().len() as int,
            ),
            !r.0 ==> final(self).items() == old(self).items(),
            !r.0 ==> matcher::searched_items(final(self).matcher) == matcher::searched_items(
                old(self).matcher,
            ),
            old(self).handed().subset_of(final(self).handed()),
            matcher::matches_paths(final(self).matcher) == matcher::matches_paths(
                old(self).matcher,
            ),
    {
        let status = tick(&mut self.matcher, 10);
        self.follow_list(status.0);
        status
    }

    /// Keeps the cursor on the list, where that may have changed.
    pub fn follow_list(&mut self, changed: bool)
        requires
            old(self).wf(),
        ensures
            final(self).wf(),
            final(self).same_but_cursor(old(self)),
            final(self).cursor == cursor_on_list(
                old(self).cursor as int,
                changed,
                old(self).items().len() as int,
            ),
    {
        if changed {
            let last: u32 = matched_count(&self.matcher).saturating_sub(1);
            if self.cursor > last {
                self.cursor = last;
            }
        }
    }
}

/// The cursor on a list of `len` items, which may have changed: at the last item, if it was behind
/// that.
pub open spec fn cursor_on_list(cursor: int, changed: bool, len: int) -> int {
    if changed {
        draw::least(cursor, draw::less(len, 1))
    } else {
        cursor
    }
}

/// After the search was taken in and the list may have changed, the cursor is on an item, where
/// there is one.
pub proof fn law_cursor_is_on_the_list(cursor: int, len: int)
    requires
        len > 0,
        cursor >= 0,
    ensures
        0 <= cursor_on_list(cursor, true, len) < len,
{
}

/// The texts of the searched columns are the texts of the columns without those of the others, in
/// order; there is one for each searched column.
pub proof fn law_searched_columns_keep_their_order(
    columns: Seq<Column>,
    texts: Seq<Seq<char>>,
    c: Column,
    t: Seq<char>,
)
    requires
        columns.len() == texts.len(),
    ensures
        c.filter ==> filter_texts(columns.push(c), texts.push(t)) == filter_texts(
            columns,
            texts,
        ).push(t),
        !c.filter ==> filter_texts(columns.push(c), texts.push(t)) == filter_texts(columns, texts),
        filter_texts(Seq::empty(), Seq::empty()).len() == 0,
        filter_count(columns) == columns.filter(|d: Column| d.filter).len(),
    decreases columns.len(),
{
    assert(columns.push(c).drop_last() =~= columns);
    assert(texts.push(t).take(columns.len() as int) =~= texts);
    reveal(Seq::filter);
    if columns.len() > 0 {
        law_searched_columns_keep_their_order(
            columns.drop_last(),
            texts.take(columns.len() - 1),
            c,
            t,
        );
    }
}

/// A column is searched for what the query says of it, and for nothing where it says nothing.
pub proof fn law_columns_are_searched_for_the_query(query: Seq<Option<String>>, i: int)
    requires
        0 <= i < query.len(),
    ensures
        patterns_of(query).len() == query.len(),
        query[i] is None ==> patterns_of(query)[i].len() == 0,
        query[i] matches Some(s) ==> patterns_of(query)[i] == s@,
{
}

/// Closing a picker makes its version the next one; after the last comes the first.
pub proof fn law_versions_count_up(version: usize)
    ensures
        version < usize::MAX ==> version_after_close(version) == version + 1,
        version == usize::MAX ==> version_after_close(version) == 0,
{
}

/// What moves the cursor leaves the items, what is searched for and all else as it was.
pub proof fn law_moves_change_the_cursor_only(before: Picker, after: Picker)
    requires
        after.same_but_cursor(&before),
    ensures
        after.cursor == before.cursor ==> after == before,
        before.same_but_cursor(&after),
{
}

/// A list that did not change leaves the cursor alone. On one that did, the cursor stays where it
/// is as long as there is an item, and goes to the last item where there is not.
pub proof fn law_cursor_follows_the_list(cursor: int, len: int)
    requires
        0 <= cursor,
        0 <= len,
    ensures
        cursor_on_list(cursor, false, len) == cursor,
        cursor < len ==> cursor_on_list(cursor, true, len) == cursor,
        0 < len <= cursor ==> cursor_on_list(cursor, true, len) == len - 1,
        len == 0 ==> cursor_on_list(cursor, true, len) == 0,
{
}

/// The picker is found among the layers by its name.
pub proof fn law_picker_is_found_by_name()
    ensures
        ID@ == "picker"@,
{
}

/// A name is as wide as it is long, up to what a coordinate can tell; one more starts anew.
pub proof fn law_names_are_as_wide_as_long(name: Seq<char>)
    ensures
        name.len() < 0x1_0000 ==> name_width(name) == name.len(),
        0x1_0000 <= name.len() < 0x2_0000 ==> name_width(name) == name.len() - 0x1_0000,
{
}

} // verus!
