//! How the picker answers keys and changes of the query.

use vstd::prelude::*;

use crate::text;
use crate::text::{chars_of, same_str, starts_with, string_of};
use crate::ui::draw;
use crate::ui::keys;
use crate::ui::keys::{Event, Key, KeyCode};
use crate::ui::matcher;
use crate::ui::matcher::{reparse, searched_count};
use crate::ui::picker;
use crate::ui::picker::{Action, Column, Direction, DynamicQueryChange, Picker, MAX_ITEMS_KEPT};

verus! {

broadcast use vstd::string::group_string_axioms;

// ---------------------------------------------------------------------------------------------
// The query
// ---------------------------------------------------------------------------------------------

/// Changing the text of a searched column changes that text among those of the searched columns.
proof fn lemma_filter_update(columns: Seq<Column>, texts: Seq<Seq<char>>, i: int, t: Seq<char>)
    requires
        columns.len() == texts.len(),
        0 <= i < columns.len(),
        columns[i].filter,
    ensures
        picker::filter_count(columns.take(i)) < picker::filter_texts(columns, texts).len(),
        picker::filter_texts(columns, texts)[picker::filter_count(columns.take(i)) as int]
            == texts[i],
        picker::filter_texts(columns, texts.update(i, t)) == picker::filter_texts(
            columns,
            texts,
        ).update(picker::filter_count(columns.take(i)) as int, t),
    decreases columns.len(),
{
    let n = columns.len() - 1;
    let head = columns.drop_last();
    let before = picker::filter_texts(head, texts.take(n));
    picker::lemma_filter_texts(head, texts.take(n));
    if i == n {
        assert(columns.take(i) =~= head);
        assert(texts.update(i, t).take(n) =~= texts.take(n));
        assert(picker::filter_texts(columns, texts.update(i, t)) =~= picker::filter_texts(
            columns,
            texts,
        ).update(before.len() as int, t));
    } else {
        lemma_filter_update(head, texts.take(n), i, t);
        assert(head.take(i) =~= columns.take(i));
        assert(texts.update(i, t).take(n) =~= texts.take(n).update(i, t));
        let k = picker::filter_count(columns.take(i)) as int;
        if columns.last().filter {
            assert(before.update(k, t).push(texts[n]) =~= before.push(texts[n]).update(k, t));
        }
    }
}

/// The text of a column that is not searched does not matter.
proof fn lemma_unfiltered_update(columns: Seq<Column>, texts: Seq<Seq<char>>, i: int, t: Seq<char>)
    requires
        columns.len() == texts.len(),
        0 <= i < columns.len(),
        !columns[i].filter,
    ensures
        picker::filter_texts(columns, texts.update(i, t)) == picker::filter_texts(columns, texts),
    decreases columns.len(),
{
    let n = columns.len() - 1;
    if i == n {
        assert(texts.update(i, t).take(n) =~= texts.take(n));
    } else {
        lemma_unfiltered_update(columns.drop_last(), texts.take(n), i, t);
        assert(texts.update(i, t).take(n) =~= texts.take(n).update(i, t));
    }
}

fn same_pattern(a: &Option<String>, b: &Option<String>) -> (r: bool)
    ensures
        r == (text::opt_string(*a) == text::opt_string(*b)),
{
    match (a, b) {
        (Some(x), Some(y)) => same_str(x.as_str(), y.as_str()),
        (None, None) => true,
        _ => false,
    }
}

fn same_query(a: &Vec<Option<String>>, b: &Vec<Option<String>>) -> (r: bool)
    ensures
        r == (picker::query_texts(a@) == picker::query_texts(b@)),
{
    let ghost x = picker::query_texts(a@);
    let ghost y = picker::query_texts(b@);
    proof {
        assert(x.len() == a@.len() && y.len() == b@.len());
    }
    if a.len() != b.len() {
        return false;
    }
    let mut i: usize = 0;
    while i < a.len()
        invariant
            i <= a@.len(),
            a@.len() == b@.len(),
            x == picker::query_texts(a@),
            y == picker::query_texts(b@),
            forall|k: int| 0 <= k < i ==> x[k] == y[k],
        decreases a@.len() - i,
    {
        if !same_pattern(&a[i], &b[i]) {
            proof {
                assert(x[i as int] != y[i as int]);
            }
            return false;
        }
        i = i + 1;
    }
    proof {
        assert(x =~= y);
    }
    true
}

fn pattern_text(o: &Option<String>) -> (r: Vec<char>)
    ensures
        r@ == picker::pattern_of(*o),
{
    match o {
        Some(s) => chars_of(s.as_str()),
        None => {
            let r: Vec<char> = Vec::new();
            proof {
                assert(r@ =~= Seq::<char>::empty());
            }
            r
        },
    }
}

impl Picker {
    /// Has the matcher search each column for what the new query says, where that differs.
    fn reparse_columns(&mut self, new_query: &Vec<Option<String>>)
        requires
            old(self).wf(),
            new_query@.len() == old(self).columns@.len(),
        ensures
            *final(self) == (Picker { matcher: final(self).matcher, ..*old(self) }),
            final(self).items() == old(self).items(),
            old(self).handed().subset_of(final(self).handed()),
            matcher::matches_paths(final(self).matcher) == matcher::matches_paths(
                old(self).matcher,
            ),
            matcher::column_patterns(final(self).matcher) == picker::filter_texts(
                old(self).columns@,
                picker::patterns_of(new_query@),
            ),
    {
        let ghost cols = self.columns@;
        let ghost before = picker::patterns_of(self.query@);
        let ghost after = picker::patterns_of(new_query@);
        let mut i: usize = 0;
        let mut place: usize = 0;
        proof {
            assert(cols.take(0) =~= Seq::<Column>::empty());
            assert(after.take(0) + before.skip(0) =~= before);
        }
        while i < self.columns.len()
            invariant
                i <= self.columns@.len(),
                place <= i,
                cols == self.columns@,
                cols.len() == new_query@.len(),
                cols.len() == self.query@.len(),
                before == picker::patterns_of(self.query@),
                after == picker::patterns_of(new_query@),
                place == picker::filter_count(cols.take(i as int)),
                *self == (Picker { matcher: self.matcher, ..*old(self) }),
                self.items() == old(self).items(),
                old(self).handed().subset_of(self.handed()),
                matcher::matches_paths(self.matcher) == matcher::matches_paths(old(self).matcher),
                matcher::column_patterns(self.matcher) == picker::filter_texts(
                    cols,
                    after.take(i as int) + before.skip(i as int),
                ),
            decreases self.columns@.len() - i,
        {
            let ghost mixed = after.take(i as int) + before.skip(i as int);
            let ghost next = after.take(i + 1) + before.skip(i + 1);
            proof {
                assert(cols.take(i + 1).drop_last() =~= cols.take(i as int));
                assert(cols.take(i + 1).last() == cols[i as int]);
                assert(after[i as int] == picker::pattern_of(new_query@[i as int]));
                assert(before[i as int] == picker::pattern_of(self.query@[i as int]));
                assert(mixed[i as int] == before[i as int]);
                assert(next =~= mixed.update(i as int, after[i as int]));
            }
            if self.columns[i].filter {
                let pattern = pattern_text(&new_query[i]);
                let old_pattern = pattern_text(&self.query[i]);
                proof {
                    lemma_filter_update(cols, mixed, i as int, after[i as int]);
                }
                if !text::same(&pattern, &old_pattern) {
                    let old_text = string_of(&old_pattern);
                    let append = starts_with(&pattern, old_text.as_str());
                    let new_text = string_of(&pattern);
                    reparse(&mut self.matcher, place, new_text.as_str(), append);
                } else {
                    proof {
                        assert(mixed.update(i as int, after[i as int]) =~= mixed);
                    }
                }
                place = place + 1;
            } else {
                proof {
                    lemma_unfiltered_update(cols, mixed, i as int, after[i as int]);
                }
            }
            i = i + 1;
        }
        proof {
            assert(cols.take(i as int) =~= cols);
            assert(after.take(i as int) + before.skip(i as int) =~= after);
        }
    }

    /// Takes in the query that the prompt holds now. Where it says something new, the cursor goes
    /// to the top of the results and the matcher searches anew; where the items depend on the
    /// query, the change is handed back, to be passed on.
    pub fn handle_prompt_change(&mut self, new_query: Vec<Option<String>>, is_paste: bool) -> (r: Option<
        DynamicQueryChange,
    >)
        requires
            old(self).wf(),
            new_query@.len() == old(self).columns@.len(),
        ensures
            final(self).wf(),
            if picker::query_texts(new_query@) == picker::query_texts(old(self).query@) {
                *final(self) == *old(self) && r is None
            } else {
                &&& *final(self) == (Picker {
                    matcher: final(self).matcher,
                    cursor: 0,
                    query: new_query,
                    ..*old(self)
                })
                &&& final(self).items() == old(self).items()
                &&& old(self).handed().subset_of(final(self).handed())
                &&& matcher::matches_paths(final(self).matcher) == matcher::matches_paths(
                    old(self).matcher,
                )
                &&& r is Some <==> old(self).dynamic
                &&& r matches Some(change) ==> change.query@ == picker::pattern_of(
                    new_query@[old(self).primary_column as int],
                ) && change.is_paste == is_paste
            },
    {
        if same_query(&new_query, &self.query) {
            return None;
        }
        self.reparse_columns(&new_query);
        self.cursor = 0;
        self.query = new_query;
        if self.dynamic {
            let query = self.primary_query();
            Some(DynamicQueryChange { query, is_paste })
        } else {
            None
        }
    }

    /// How many items were searched so far.
    pub fn item_count(&self) -> (r: u32)
        ensures
            r == matcher::searched_items(self.matcher),
    {
        searched_count(&self.matcher)
    }
}

// ---------------------------------------------------------------------------------------------
// Keys
// ---------------------------------------------------------------------------------------------

/// `s` with each percent character escaped by a backslash.
pub open spec fn percent_escaped(s: Seq<char>) -> Seq<char>
    decreases s.len(),
{
    if s.len() == 0 {
        Seq::empty()
    } else if s.last() == '%' {
        percent_escaped(s.drop_last()) + seq!['\\', '%']
    } else {
        percent_escaped(s.drop_last()).push(s.last())
    }
}

/// `s` with each percent character escaped by a backslash. The percent character is used by the
/// query language.
pub fn escape_percent(s: &str) -> (r: String)
    ensures
        r@ == percent_escaped(s@),
{
    let t = chars_of(s);
    let mut out: Vec<char> = Vec::new();
    let mut i: usize = 0;
    proof {
        assert(t@.take(0) =~= Seq::<char>::empty());
        assert(out@ =~= Seq::<char>::empty());
    }
    while i < t.len()
        invariant
            i <= t@.len(),
            out@ == percent_escaped(t@.take(i as int)),
        decreases t@.len() - i,
    {
        let ghost before = out@;
        proof {
            assert(t@.take(i + 1).drop_last() =~= t@.take(i as int));
            assert(t@.take(i + 1).last() == t@[i as int]);
        }
        if t[i] == '%' {
            out.push('\\');
            out.push('%');
            proof {
                assert(out@ =~= before + seq!['\\', '%']);
            }
        } else {
            out.push(t[i]);
        }
        i = i + 1;
    }
    proof {
        assert(t@.take(i as int) =~= t@);
    }
    string_of(&out)
}

/// What the picker asks for after an event.
#[derive(Debug, Clone, PartialEq, Eq)]
pub enum PickerAction {
    /// The event is not for the picker.
    Ignored,
    /// The event is dealt with.
    Consumed,
    /// Hand the event to the prompt. Where the prompt takes it, the query may have changed.
    Prompt { is_paste: bool },
    /// Put a line into the prompt. The query changes as if that was pasted.
    Fill { line: String },
    /// Open the item, if there is one, and leave the picker open.
    Choose { item: Option<u64>, action: Action },
    /// Open the item, if there is one, and close the picker. `record` is the register
    /// that the query joins, if any; `keep` says that the picker can be opened again.
    ChooseAndClose { item: Option<u64>, action: Action, record: Option<char>, keep: bool },
    /// Close the picker. `keep` says that it can be opened again.
    Close { keep: bool },
}

/// An action with its text as a character sequence.
pub enum Asked {
    Ignored,
    Consumed,
    Prompt { is_paste: bool },
    Fill { line: Seq<char> },
    Choose { item: Option<u64>, action: Action },
    ChooseAndClose { item: Option<u64>, action: Action, record: Option<char>, keep: bool },
    Close { keep: bool },
}

impl View for PickerAction {
    type V = Asked;

    open spec fn view(&self) -> Asked {
        match *self {
            PickerAction::Ignored => Asked::Ignored,
            PickerAction::Consumed => Asked::Consumed,
            PickerAction::Prompt { is_paste } => Asked::Prompt { is_paste },
            PickerAction::Fill { line } => Asked::Fill { line: line@ },
            PickerAction::Choose { item, action } => Asked::Choose { item, action },
            PickerAction::ChooseAndClose { item, action, record, keep } => Asked::ChooseAndClose {
                item,
                action,
                record,
                keep,
            },
            PickerAction::Close { keep } => Asked::Close { keep },
        }
    }
}

/// Whether a picker that has searched so many items is kept when it is closed: a very large one is
/// not, to avoid excessive memory consumption.
pub open spec fn is_kept(searched: nat) -> bool {
    searched <= MAX_ITEMS_KEPT
}

/// What a key does.
pub enum Command {
    /// Move the cursor.
    Move { amount: int, direction: Direction },
    /// The cursor to the first item.
    ToStart,
    /// The cursor to the last item.
    ToEnd,
    /// Show the preview or hide it.
    TogglePreview,
    /// Close the picker.
    Close,
    /// Open the item and stay open.
    Choose,
    /// Take the completion, or open the item.
    Accept,
    /// Open the item in a split.
    Split { action: Action },
    /// Anything else is for the prompt.
    Prompt,
}

/// What a key does, with pages of `page` lines.
pub open spec fn command(key: Key, page: int) -> Command {
    let bare = key.modifiers == keys::KeyModifiers::nothing();
    let shift = key.modifiers == keys::KeyModifiers::only_shift();
    let ctrl = key.modifiers == keys::KeyModifiers::only_control();
    let alt = key.modifiers == keys::KeyModifiers::only_alt();
    let back = Command::Move { amount: 1, direction: Direction::Backward };
    let on = Command::Move { amount: 1, direction: Direction::Forward };
    let page_back = Command::Move { amount: page, direction: Direction::Backward };
    let page_on = Command::Move { amount: page, direction: Direction::Forward };
    match key.code {
        KeyCode::Tab => if shift {
            back
        } else if bare {
            on
        } else {
            Command::Prompt
        },
        KeyCode::Up => if bare {
            back
        } else {
            Command::Prompt
        },
        KeyCode::Down => if bare {
            on
        } else {
            Command::Prompt
        },
        KeyCode::PageUp => if bare {
            page_back
        } else {
            Command::Prompt
        },
        KeyCode::PageDown => if bare {
            page_on
        } else {
            Command::Prompt
        },
        KeyCode::Home => if bare {
            Command::ToStart
        } else {
            Command::Prompt
        },
        KeyCode::End => if bare {
            Command::ToEnd
        } else {
            Command::Prompt
        },
        KeyCode::Esc => if bare {
            Command::Close
        } else {
            Command::Prompt
        },
        KeyCode::Enter => if alt {
            Command::Choose
        } else if bare {
            Command::Accept
        } else {
            Command::Prompt
        },
        KeyCode::Char(c) => if !ctrl {
            Command::Prompt
        } else if c == 'p' {
            back
        } else if c == 'n' {
            on
        } else if c == 'd' {
            page_on
        } else if c == 'u' {
            page_back
        } else if c == 'c' {
            Command::Close
        } else if c == 's' {
            Command::Split { action: Action::HorizontalSplit }
        } else if c == 'v' {
            Command::Split { action: Action::VerticalSplit }
        } else if c == 't' {
            Command::TogglePreview
        } else {
            Command::Prompt
        },
        _ => Command::Prompt,
    }
}

/// What the prompt holds when a key comes.
pub struct PromptState {
    /// Whether nothing is typed.
    pub is_empty: bool,
    /// The first completion from the history, where there is one.
    pub completion: Option<String>,
}

/// The picker after a command.
pub open spec fn cursor_after(p: Picker, c: Command) -> int {
    match c {
        Command::Move { amount, direction } => picker::moved(
            p.cursor as int,
            amount,
            direction,
            p.items().len() as int,
        ),
        Command::ToStart => 0,
        Command::ToEnd => draw::less(p.items().len() as int, 1),
        _ => p.cursor as int,
    }
}

/// The item under the cursor.
pub open spec fn selected(p: Picker) -> Option<u64> {
    if p.cursor < p.items().len() {
        Some(p.items()[p.cursor as int])
    } else {
        None
    }
}

/// What the picker asks for after a command.
pub open spec fn asked_after(p: Picker, c: Command, prompt: PromptState) -> Asked {
    let keep = is_kept(matcher::searched_items(p.matcher));
    match c {
        Command::Close => Asked::Close { keep },
        Command::Choose => Asked::Choose { item: selected(p), action: p.default_action },
        Command::Accept => if prompt.is_empty && prompt.completion is Some {
            Asked::Fill { line: percent_escaped(prompt.completion->0@) }
        } else {
            Asked::ChooseAndClose {
                item: selected(p),
                action: p.default_action,
                record: p.history_register,
                keep,
            }
        },
        Command::Split { action } => Asked::ChooseAndClose {
            item: selected(p),
            action,
            record: None,
            keep,
        },
        Command::Prompt => Asked::Prompt { is_paste: false },
        _ => Asked::Consumed,
    }
}

impl Picker {
    fn close(&self) -> (r: PickerAction)
        ensures
            r@ == (Asked::Close { keep: is_kept(matcher::searched_items(self.matcher)) }),
    {
        PickerAction::Close { keep: searched_count(&self.matcher) <= MAX_ITEMS_KEPT }
    }

    fn choose_and_close(&self, action: Action, record: Option<char>) -> (r: PickerAction)
        ensures
            r@ == (Asked::ChooseAndClose {
                item: selected(*self),
                action,
                record,
                keep: is_kept(matcher::searched_items(self.matcher)),
            }),
    {
        PickerAction::ChooseAndClose {
            item: self.selection(),
            action,
            record,
            keep: searched_count(&self.matcher) <= MAX_ITEMS_KEPT,
        }
    }

    /// Answers an event.
    pub fn handle_event(&mut self, event: &Event, prompt: &PromptState) -> (r: PickerAction)
        requires
            old(self).wf(),
        ensures
            final(self).wf(),
            match event {
                Event::Key(key) => {
                    let c = command(*key, old(self).completion_height as int);
                    &&& *final(self) == (Picker {
                        cursor: final(self).cursor,
                        show_preview: old(self).show_preview != (c is TogglePreview),
                        ..*old(self)
                    })
                    &&& final(self).cursor == cursor_after(*old(self), c)
                    &&& r@ == asked_after(*old(self), c, *prompt)
                    &&& ({
                        let n = old(self).items().len() as int;
                        let at = old(self).cursor as int;
                        let bare = key.modifiers == keys::KeyModifiers::nothing();
                        at < n && at + n <= u32::MAX && bare ==> {
                            &&& key.code == KeyCode::Up ==> final(self).cursor == (at + n - 1) % n
                            &&& key.code == KeyCode::Down ==> final(self).cursor == (at + 1) % n
                        }
                    })
                },
                Event::Paste(_) => *final(self) == *old(self) && r@ == (Asked::Prompt {
                    is_paste: true,
                }),
                Event::Resize => *final(self) == *old(self) && r@ == Asked::Consumed,
                Event::Other => *final(self) == *old(self) && r@ == Asked::Ignored,
            },
    {
        let key = match event {
            Event::Key(key) => *key,
            Event::Paste(_) => {
                return PickerAction::Prompt { is_paste: true };
            },
            Event::Resize => {
                return PickerAction::Consumed;
            },
            Event::Other => {
                return PickerAction::Ignored;
            },
        };
        if key.modifiers.is_empty() {
            self.handle_bare(key, prompt)
        } else if key.modifiers.is_control() {
            self.handle_control(key, prompt)
        } else if key.modifiers.is_shift() && key.code == KeyCode::Tab {
            self.move_by(1, Direction::Backward);
            PickerAction::Consumed
        } else if key.modifiers.is_alt() && key.code == KeyCode::Enter {
            PickerAction::Choose { item: self.selection(), action: self.default_action }
        } else {
            PickerAction::Prompt { is_paste: false }
        }
    }

    fn handle_bare(&mut self, key: Key, prompt: &PromptState) -> (r: PickerAction)
        requires
            old(self).wf(),
            key.modifiers == keys::KeyModifiers::nothing(),
        ensures
            final(self).wf(),
            final(self).same_but_cursor(old(self)),
            ({
                let c = command(key, old(self).completion_height as int);
                &&& !(c is TogglePreview)
                &&& final(self).cursor == cursor_after(*old(self), c)
                &&& r@ == asked_after(*old(self), c, *prompt)
            }),
    {
        match key.code {
            KeyCode::Tab | KeyCode::Down => {
                self.move_by(1, Direction::Forward);
                PickerAction::Consumed
            },
            KeyCode::Up => {
                self.move_by(1, Direction::Backward);
                PickerAction::Consumed
            },
            KeyCode::PageUp => {
                self.page_up();
                PickerAction::Consumed
            },
            KeyCode::PageDown => {
                self.page_down();
                PickerAction::Consumed
            },
            KeyCode::Home => {
                self.to_start();
                PickerAction::Consumed
            },
            KeyCode::End => {
                self.to_end();
                PickerAction::Consumed
            },
            KeyCode::Esc => self.close(),
            KeyCode::Enter => {
                if prompt.is_empty {
                    match &prompt.completion {
                        Some(completion) => {
                            return PickerAction::Fill {
                                line: escape_percent(completion.as_str()),
                            };
                        },
                        None => {},
                    }
                }
                self.choose_and_close(self.default_action, self.history_register)
            },
            _ => PickerAction::Prompt { is_paste: false },
        }
    }

    fn handle_control(&mut self, key: Key, prompt: &PromptState) -> (r: PickerAction)
        requires
            old(self).wf(),
            key.modifiers == keys::KeyModifiers::only_control(),
        ensures
            final(self).wf(),
            ({
                let c = command(key, old(self).completion_height as int);
                &&& *final(self) == (Picker {
                    cursor: final(self).cursor,
                    show_preview: old(self).show_preview != (c is TogglePreview),
                    ..*old(self)
                })
                &&& final(self).cursor == cursor_after(*old(self), c)
                &&& r@ == asked_after(*old(self), c, *prompt)
            }),
    {
        let c = match key.code {
            KeyCode::Char(c) => c,
            _ => {
                return PickerAction::Prompt { is_paste: false };
            },
        };
        if c == 'p' {
            self.move_by(1, Direction::Backward);
        } else if c == 'n' {
            self.move_by(1, Direction::Forward);
        } else if c == 'd' {
            self.page_down();
        } else if c == 'u' {
            self.page_up();
        } else if c == 'c' {
            return self.close();
        } else if c == 's' {
            return self.choose_and_close(Action::HorizontalSplit, None);
        } else if c == 'v' {
            return self.choose_and_close(Action::VerticalSplit, None);
        } else if c == 't' {
            self.toggle_preview();
        } else {
            return PickerAction::Prompt { is_paste: false };
        }
        PickerAction::Consumed
    }
}

/// A completion taken from the history is read as text by the query language: every percent
/// character in it has a backslash in front.
pub proof fn law_percent_is_escaped(s: Seq<char>)
    ensures
        forall|i: int|
            0 <= i < percent_escaped(s).len() && #[trigger] percent_escaped(s)[i] == '%' ==> i > 0
                && percent_escaped(s)[i - 1] == '\\',
        (forall|i: int| 0 <= i < s.len() ==> s[i] != '%') ==> percent_escaped(s) == s,
    decreases s.len(),
{
    if s.len() > 0 {
        let head = s.drop_last();
        law_percent_is_escaped(head);
        let all = percent_escaped(s);
        let before = percent_escaped(head);
        assert forall|i: int| 0 <= i < all.len() && #[trigger] all[i] == '%' implies i > 0
            && all[i - 1] == '\\' by {
            if i < before.len() {
                assert(all[i] == before[i]);
            }
        }
        if forall|i: int| 0 <= i < s.len() ==> s[i] != '%' {
            assert forall|i: int| 0 <= i < head.len() implies head[i] != '%' by {
                assert(head[i] == s[i]);
            }
            assert(s.last() == s[s.len() - 1]);
            assert(percent_escaped(s) =~= s);
        }
    }
}

/// Whether the key is held with the modifiers given and no others.
pub open spec fn held(key: Key, shift: bool, control: bool, alt: bool) -> bool {
    key.modifiers.shift == shift && key.modifiers.control == control && key.modifiers.alt == alt
        && !key.modifiers.meta
}

/// The keys that move by one item: back with Up, shift and Tab, or control and p; on with Down, Tab,
/// or control and n. Past either end the cursor comes in at the other, so that a key of the one kind
/// undoes one of the other.
pub proof fn law_keys_move_by_one(p: Picker, key: Key, prompt: PromptState)
    requires
        p.cursor < p.items().len(),
        p.cursor + p.items().len() <= u32::MAX,
    ensures
        ({
            let n = p.items().len() as int;
            let c = p.cursor as int;
            let does = command(key, p.completion_height as int);
            let back = key.code == KeyCode::Up && held(key, false, false, false) || key.code
                == KeyCode::Tab && held(key, true, false, false) || key.code == KeyCode::Char('p')
                && held(key, false, true, false);
            let on = key.code == KeyCode::Down && held(key, false, false, false) || key.code
                == KeyCode::Tab && held(key, false, false, false) || key.code == KeyCode::Char('n')
                && held(key, false, true, false);
            &&& back ==> cursor_after(p, does) == (c + n - 1) % n
            &&& back && c > 0 ==> cursor_after(p, does) == c - 1
            &&& back && c == 0 ==> cursor_after(p, does) == n - 1
            &&& on ==> cursor_after(p, does) == (c + 1) % n
            &&& on && c < n - 1 ==> cursor_after(p, does) == c + 1
            &&& on && c == n - 1 ==> cursor_after(p, does) == 0
            &&& back || on ==> asked_after(p, does, prompt) is Consumed && !(does is TogglePreview)
        }),
{
    let n = p.items().len() as int;
    let c = p.cursor as int;
    picker::law_moves_go_round_the_list(c, 1, n);
    vstd::arithmetic::div_mod::lemma_mod_self_0(n);
    if c == 0 {
        vstd::arithmetic::div_mod::lemma_small_mod((n - 1) as nat, n as nat);
    }
    if c == n - 1 {
        assert((c + 1) % n == 0);
    }
}

/// Down after Up, and Up after Down, leave the cursor where it was.
pub proof fn law_up_and_down_undo_each_other(p: Picker, q: Picker, up: Key, down: Key)
    requires
        p.cursor < p.items().len(),
        p.cursor + p.items().len() <= u32::MAX,
        2 * p.items().len() <= u32::MAX,
        up.code == KeyCode::Up && held(up, false, false, false),
        down.code == KeyCode::Down && held(down, false, false, false),
        q == (Picker { cursor: q.cursor, ..p }),
    ensures
        q.cursor == cursor_after(p, command(up, p.completion_height as int)) ==> cursor_after(
            q,
            command(down, q.completion_height as int),
        ) == p.cursor,
        q.cursor == cursor_after(p, command(down, p.completion_height as int)) ==> cursor_after(
            q,
            command(up, q.completion_height as int),
        ) == p.cursor,
{
    let nothing = PromptState { is_empty: true, completion: None };
    law_keys_move_by_one(p, up, nothing);
    law_keys_move_by_one(p, down, nothing);
    let n = p.items().len() as int;
    assert(q.items() == p.items());
    if q.cursor < n {
        law_keys_move_by_one(q, up, nothing);
        law_keys_move_by_one(q, down, nothing);
    }
}

/// The keys that move by a page, which is as many items as fit: back with PageUp or control and u,
/// on with PageDown or control and d. Home goes to the first item, End to the last.
pub proof fn law_keys_move_by_pages(p: Picker, key: Key, prompt: PromptState)
    requires
        p.cursor < p.items().len(),
        p.cursor + p.items().len() <= u32::MAX,
        p.cursor + p.completion_height <= u32::MAX,
    ensures
        ({
            let n = p.items().len() as int;
            let c = p.cursor as int;
            let page = p.completion_height as int;
            let does = command(key, page);
            let back = key.code == KeyCode::PageUp && held(key, false, false, false) || key.code
                == KeyCode::Char('u') && held(key, false, true, false);
            let on = key.code == KeyCode::PageDown && held(key, false, false, false) || key.code
                == KeyCode::Char('d') && held(key, false, true, false);
            let home = key.code == KeyCode::Home && held(key, false, false, false);
            let end = key.code == KeyCode::End && held(key, false, false, false);
            &&& back && page <= c + n ==> cursor_after(p, does) == (c + n - page) % n
            &&& back && page <= c ==> cursor_after(p, does) == c - page
            &&& on ==> cursor_after(p, does) == (c + page) % n
            &&& on && c + page < n ==> cursor_after(p, does) == c + page
            &&& home ==> cursor_after(p, does) == 0
            &&& end ==> cursor_after(p, does) == n - 1
            &&& back || on || home || end ==> asked_after(p, does, prompt) is Consumed && !(
            does is TogglePreview)
        }),
{
    picker::law_moves_go_round_the_list(
        p.cursor as int,
        p.completion_height as int,
        p.items().len() as int,
    );
}

/// The keys that open the item under the cursor: Enter as the picker was set up, control with s and v
/// in a split; these close the picker. Alt with Enter leaves it open. With nothing typed, Enter takes
/// the completion instead, where there is one. None of them moves the cursor.
pub proof fn law_keys_open_the_item(p: Picker, key: Key, prompt: PromptState)
    requires
        p.cursor < p.items().len(),
    ensures
        ({
            let item = Some(p.items()[p.cursor as int]);
            let does = command(key, p.completion_height as int);
            let asked = asked_after(p, does, prompt);
            let keep = matcher::searched_items(p.matcher) <= 1_000_000;
            let enter = key.code == KeyCode::Enter && held(key, false, false, false);
            let stay = key.code == KeyCode::Enter && held(key, false, false, true);
            let across = key.code == KeyCode::Char('s') && held(key, false, true, false);
            let down = key.code == KeyCode::Char('v') && held(key, false, true, false);
            let completes = prompt.is_empty && prompt.completion is Some;
            &&& enter && !completes ==> asked == (Asked::ChooseAndClose {
                item,
                action: p.default_action,
                record: p.history_register,
                keep,
            })
            &&& enter && completes ==> asked is Fill
            &&& stay ==> asked == (Asked::Choose { item, action: p.default_action })
            &&& across ==> asked == (Asked::ChooseAndClose {
                item,
                action: Action::HorizontalSplit,
                record: None,
                keep,
            })
            &&& down ==> asked == (Asked::ChooseAndClose {
                item,
                action: Action::VerticalSplit,
                record: None,
                keep,
            })
            &&& enter || stay || across || down ==> cursor_after(p, does) == p.cursor && !(
            does is TogglePreview)
        }),
{
}

/// Escape, and control with c, close the picker; control with t shows the preview or hides it; what
/// types a character is for the prompt. None of them moves the cursor.
pub proof fn law_other_keys_of_the_picker(p: Picker, key: Key, prompt: PromptState)
    ensures
        ({
            let does = command(key, p.completion_height as int);
            let asked = asked_after(p, does, prompt);
            let closes = key.code == KeyCode::Esc && held(key, false, false, false) || key.code
                == KeyCode::Char('c') && held(key, false, true, false);
            let toggles = key.code == KeyCode::Char('t') && held(key, false, true, false);
            let types = (key.code is Char && !key.modifiers.control) || key.code
                == KeyCode::Backspace || key.code == KeyCode::Left || key.code == KeyCode::Right;
            &&& closes ==> asked == (Asked::Close {
                keep: matcher::searched_items(p.matcher) <= 1_000_000,
            })
            &&& toggles <==> does is TogglePreview
            &&& toggles ==> asked is Consumed
            &&& types ==> asked == (Asked::Prompt { is_paste: false })
            &&& closes || toggles || types ==> cursor_after(p, does) == p.cursor
        }),
{
}

/// A percent character becomes a backslash and a percent character, wherever it stands.
pub proof fn law_escaping_keeps_the_rest(a: Seq<char>, b: Seq<char>)
    ensures
        percent_escaped(a + seq!['%'] + b) == percent_escaped(a) + seq!['\\', '%']
            + percent_escaped(b),
        percent_escaped(a + b) == percent_escaped(a) + percent_escaped(b),
    decreases b.len(),
{
    let s = a + seq!['%'];
    assert(s.drop_last() =~= a);
    if b.len() == 0 {
        assert(s + b =~= s);
        assert(a + b =~= a);
        assert(percent_escaped(s) + percent_escaped(b) =~= percent_escaped(s));
        assert(percent_escaped(a) + percent_escaped(b) =~= percent_escaped(a));
    } else {
        let head = b.drop_last();
        law_escaping_keeps_the_rest(a, head);
        assert((s + b).drop_last() =~= s + head);
        assert((a + b).drop_last() =~= a + head);
        assert((s + b).last() == b.last());
        assert((a + b).last() == b.last());
        assert(percent_escaped(s + b) =~= percent_escaped(s) + percent_escaped(b));
        assert(percent_escaped(a + b) =~= percent_escaped(a) + percent_escaped(b));
    }
}

/// The item under the cursor is the one that the list has there; behind the list there is none.
pub proof fn law_item_under_the_cursor(p: Picker)
    ensures
        p.cursor < p.items().len() ==> selected(p) == Some(p.items()[p.cursor as int]),
        p.cursor >= p.items().len() ==> selected(p) is None,
{
}

} // verus!
