//! The fuzzy matcher behind the picker, and the pieces of text that it marks.

use vstd::multiset::Multiset;
use vstd::prelude::*;

use nucleo::pattern::{CaseMatching, Normalization};
use nucleo::Injector as ItemSender;
use unicode_segmentation::UnicodeSegmentation;

use crate::text;

verus! {

broadcast use vstd::string::group_string_axioms;

/// `nucleo::Nucleo`: a matcher that searches its items in the background. Items here are numbers
/// that stand for what the picker offers.
#[verifier::external_type_specification]
#[verifier::external_body]
#[verifier::reject_recursive_types(T)]
pub struct ExNucleo<T: Sync + Send + 'static>(nucleo::Nucleo<T>);

/// `nucleo::Injector`: hands items to a matcher.
#[verifier::external_type_specification]
#[verifier::external_body]
#[verifier::reject_recursive_types(T)]
pub struct ExItemSender<T>(ItemSender<T>);

/// The items that match, best first, as of the last update of the matcher's snapshot.
pub uninterp spec fn matched_items(matcher: nucleo::Nucleo<u64>) -> Seq<u64>;

/// The texts that each column is searched for.
pub uninterp spec fn column_patterns(matcher: nucleo::Nucleo<u64>) -> Seq<Seq<char>>;

/// The texts that the search in the background was last told to search each column for.
pub uninterp spec fn search_patterns(matcher: nucleo::Nucleo<u64>) -> Seq<Seq<char>>;

/// How many items were searched, as of the last update of the matcher's snapshot.
pub uninterp spec fn searched_items(matcher: nucleo::Nucleo<u64>) -> nat;

/// The items that the matcher was handed to search, each with the texts of its columns, as of the
/// last call that had the matcher to itself. Injectors may add to them at any time; nothing takes
/// one away.
pub uninterp spec fn handed_items(matcher: nucleo::Nucleo<u64>) -> Multiset<(u64, Seq<Seq<char>>)>;

/// Whether the matcher takes the texts of its items for paths.
pub uninterp spec fn matches_paths(matcher: nucleo::Nucleo<u64>) -> bool;

/// The places of the characters that the pattern of the matcher's snapshot hits in a column of the
/// item at a place of the list.
pub uninterp spec fn hit_places(
    matcher: nucleo::Nucleo<u64>,
    place: u32,
    column: usize,
    paths: bool,
) -> Seq<u32>;

/// `nucleo::Nucleo::new`: a matcher over a number of columns, with nothing to search and no
/// pattern. `notify` is called when there is something new.
#[verifier::external_body]
pub(crate) fn new_matcher<F: Fn() + Sync + Send + 'static>(columns: u32, notify: F) -> (r:
    nucleo::Nucleo<u64>)
    requires
        columns > 0,
    ensures
        matched_items(r) == Seq::<u64>::empty(),
        searched_items(r) == 0,
        column_patterns(r) == Seq::new(columns as nat, |i: int| Seq::<char>::empty()),
        search_patterns(r) == column_patterns(r),
        handed_items(r) == Multiset::<(u64, Seq<Seq<char>>)>::empty(),
        !matches_paths(r),
{
    nucleo::Nucleo::new(nucleo::Config::DEFAULT, std::sync::Arc::new(notify), None, columns)
}

/// `nucleo::Snapshot::matched_item_count`: how many items match.
#[verifier::external_body]
pub(crate) fn matched_count(matcher: &nucleo::Nucleo<u64>) -> (r: u32)
    ensures
        r == matched_items(*matcher).len(),
{
    matcher.snapshot().matched_item_count()
}

/// `nucleo::Snapshot::get_matched_item`: the matching item at a place of the list.
#[verifier::external_body]
pub(crate) fn matched_item(matcher: &nucleo::Nucleo<u64>, place: u32) -> (r: Option<u64>)
    ensures
        r == (if place < matched_items(*matcher).len() {
            Some(matched_items(*matcher)[place as int])
        } else {
            None
        }),
{
    matcher.snapshot().get_matched_item(place).map(|item| *item.data)
}

/// `nucleo::Snapshot::matched_items`: the matching items at a range of places.
#[verifier::external_body]
pub(crate) fn matched_range(matcher: &nucleo::Nucleo<u64>, from: u32, to: u32) -> (r: Vec<u64>)
    requires
        from <= to <= matched_items(*matcher).len(),
    ensures
        r@ == matched_items(*matcher).subrange(from as int, to as int),
{
    matcher.snapshot().matched_items(from..to).map(|item| *item.data).collect()
}

/// `nucleo::Snapshot::item_count`: how many items were searched. How many that are depends on how
/// far the search in the background had come at the last update of the snapshot.
#[verifier::external_body]
pub(crate) fn searched_count(matcher: &nucleo::Nucleo<u64>) -> (r: u32)
    ensures
        r == searched_items(*matcher),
{
    matcher.snapshot().item_count()
}

/// `nucleo::Nucleo::active_injectors`: how many injectors are still in use. That depends on what
/// others hold, so nothing is said of it.
#[verifier::external_body]
pub(crate) fn active_injectors(matcher: &nucleo::Nucleo<u64>) -> (r: usize) {
    matcher.active_injectors()
}

/// `nucleo::Nucleo::tick`: tells the search in the background what each column is searched for, and
/// takes in what it found, within `timeout` milliseconds. Returns whether the list of matching
/// items may have changed, and whether the search goes on; one of the two is so where the search
/// is told something new. What it found is not said; where the list did not change it is as it
/// was. The items it was handed stay.
#[verifier::external_body]
pub(crate) fn tick(matcher: &mut nucleo::Nucleo<u64>, timeout: u64) -> (r: (bool, bool))
    ensures
        column_patterns(*final(matcher)) == column_patterns(*old(matcher)),
        !r.0 ==> matched_items(*final(matcher)) == matched_items(*old(matcher)),
        !r.0 ==> searched_items(*final(matcher)) == searched_items(*old(matcher)),
        search_patterns(*final(matcher)) == column_patterns(*old(matcher)),
        search_patterns(*old(matcher)) != column_patterns(*old(matcher)) ==> r.0 || r.1,
        handed_items(*old(matcher)).subset_of(handed_items(*final(matcher))),
        matches_paths(*final(matcher)) == matches_paths(*old(matcher)),
{
    let status = matcher.tick(timeout);
    (status.changed, status.running)
}

/// `nucleo::pattern::MultiPattern::reparse` on the pattern of a matcher, with smart case and smart
/// normalization: sets the text that a column is searched for. `append` promises that the text
/// before is the start of the new one. The search is told of it, and the list of matching items
/// changes, with the next update.
#[verifier::external_body]
pub(crate) fn reparse(
    matcher: &mut nucleo::Nucleo<u64>,
    column: usize,
    pattern: &str,
    append: bool,
)
    requires
        column < column_patterns(*old(matcher)).len(),
        append ==> text::has_prefix(pattern@, column_patterns(*old(matcher))[column as int]),
    ensures
        column_patterns(*final(matcher)) == column_patterns(*old(matcher)).update(
            column as int,
            pattern@,
        ),
        matched_items(*final(matcher)) == matched_items(*old(matcher)),
        searched_items(*final(matcher)) == searched_items(*old(matcher)),
        search_patterns(*final(matcher)) == search_patterns(*old(matcher)),
        handed_items(*old(matcher)).subset_of(handed_items(*final(matcher))),
        matches_paths(*final(matcher)) == matches_paths(*old(matcher)),
{
    matcher.pattern.reparse(column, pattern, CaseMatching::Smart, Normalization::Smart, append);
}

/// `nucleo::Nucleo::update_config` with `Config::match_paths`: items are matched as paths from now
/// on. Neither the patterns nor the list change by it, and the items it was handed stay.
#[verifier::external_body]
pub(crate) fn match_paths(matcher: &mut nucleo::Nucleo<u64>)
    ensures
        column_patterns(*final(matcher)) == column_patterns(*old(matcher)),
        matched_items(*final(matcher)) == matched_items(*old(matcher)),
        searched_items(*final(matcher)) == searched_items(*old(matcher)),
        search_patterns(*final(matcher)) == search_patterns(*old(matcher)),
        handed_items(*old(matcher)).subset_of(handed_items(*final(matcher))),
        matches_paths(*final(matcher)),
{
    matcher.update_config(nucleo::Config::DEFAULT.match_paths());
}

/// `nucleo::Nucleo::injector`: an injector for the matcher.
#[verifier::external_body]
pub(crate) fn injector_of(matcher: &nucleo::Nucleo<u64>) -> (r: ItemSender<u64>) {
    matcher.injector()
}

/// `nucleo::Injector::push` on an injector of the matcher itself: when it returns, the item is among
/// those that the matcher searches, with one text for each column, and those that were there are
/// there still. Others may have added items meanwhile. The list of matching items changes with the
/// next update.
#[verifier::external_body]
pub(crate) fn hand(matcher: &mut nucleo::Nucleo<u64>, item: u64, texts: &Vec<String>)
    requires
        texts@.len() == column_patterns(*old(matcher)).len(),
    ensures
        handed_items(*old(matcher)).insert((item, text::strings(texts@))).subset_of(
            handed_items(*final(matcher)),
        ),
        column_patterns(*final(matcher)) == column_patterns(*old(matcher)),
        matched_items(*final(matcher)) == matched_items(*old(matcher)),
        searched_items(*final(matcher)) == searched_items(*old(matcher)),
        search_patterns(*final(matcher)) == search_patterns(*old(matcher)),
        matches_paths(*final(matcher)) == matches_paths(*old(matcher)),
{
    matcher.injector().push(
        item,
        |_, columns| {
            columns.iter_mut().zip(texts).for_each(|(column, t)| *column = t.as_str().into());
        },
    );
}

/// `nucleo::Injector::push`: hands an item to the matcher, with the texts of its columns. The
/// matcher takes it up in the background, at a moment that only its owner can tell, so nothing is
/// said of it here. Where there are fewer texts than columns, the others stay empty; texts beyond
/// the columns are dropped.
#[verifier::external_body]
pub(crate) fn inject(injector: &ItemSender<u64>, item: u64, texts: &Vec<String>) {
    injector.push(
        item,
        |_, columns| {
            columns.iter_mut().zip(texts).for_each(|(column, t)| *column = t.as_str().into());
        },
    );
}

/// `nucleo::pattern::Pattern::indices` on the pattern that the snapshot was searched with: which
/// characters of a column of a matching item the pattern hits, with the item matched as a path
/// where `paths` says so. Which these are is named, not spelled out; they need not be in order,
/// and one may come twice.
#[verifier::external_body]
pub(crate) fn hits(matcher: &nucleo::Nucleo<u64>, place: u32, column: usize, paths: bool) -> (r: Vec<
    u32,
>)
    requires
        place < matched_items(*matcher).len(),
        column < column_patterns(*matcher).len(),
    ensures
        r@ == hit_places(*matcher, place, column, paths),
{
    let config = match paths {
        true => nucleo::Config::DEFAULT.match_paths(),
        false => nucleo::Config::DEFAULT,
    };
    let mut places = Vec::new();
    let snapshot = matcher.snapshot();
    let pattern = snapshot.pattern().column_pattern(column);
    if let Some(item) = snapshot.get_matched_item(place) {
        let mut engine = nucleo::Matcher::new(config);
        pattern.indices(item.matcher_columns[column].slice(..), &mut engine, &mut places);
    }
    places
}

/// The graphemes that `UnicodeSegmentation::graphemes` cuts a text into.
pub uninterp spec fn grapheme_pieces(s: Seq<char>) -> Seq<Seq<char>>;

/// `UnicodeSegmentation::graphemes` of the unicode-segmentation crate, extended: the text cut into
/// what a reader takes for one character each. Put together again, the pieces are the text, and
/// none is empty. Where it is cut is named, not spelled out.
#[verifier::external_body]
pub(crate) fn graphemes(s: &str) -> (r: Vec<String>)
    ensures
        text::strings(r@) == grapheme_pieces(s@),
        text::strings(r@).flatten() == s@,
        forall|i: int| 0 <= i < r@.len() ==> (#[trigger] r@[i])@.len() > 0,
{
    s.graphemes(true).map(String::from).collect()
}

} // verus!
