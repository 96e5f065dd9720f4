//! The preview beside the picker: where it comes from and how it is drawn.

use vstd::prelude::*;

use crate::bytes;
use crate::lines;
use crate::lines::{split_lines, trim_start};
use crate::text;
use crate::text::{chars_of, same_str, string_of};
use crate::ui::draw;
use crate::ui::draw::{Canvas, Rect, Style, Theme};
use crate::ui::hunks::Hunk;

verus! {

broadcast use vstd::string::group_string_axioms;

/// Biggest file size to preview in bytes
pub const MAX_FILE_SIZE_FOR_PREVIEW: u64 = 10_485_760;

/// How much of a file is read to tell what it holds, in bytes.
pub const INSPECTED_BYTES: usize = 1024;

/// The name under which a preview that is no file's is kept.
pub const CUSTOM_PREVIEW_KEY: &'static str = "__custom_preview__";

// ---------------------------------------------------------------------------------------------
// What is previewed
// ---------------------------------------------------------------------------------------------

/// A file by its path, or a document of the editor by its number.
#[derive(Debug, Clone, PartialEq, Eq)]
pub enum PathOrId {
    Id(u64),
    Path(String),
}

impl From<u64> for PathOrId {
    fn from(id: u64) -> (r: PathOrId) {
        PathOrId::Id(id)
    }
}

impl vstd::std_specs::convert::FromSpecImpl<u64> for PathOrId {
    open spec fn obeys_from_spec() -> bool {
        true
    }

    open spec fn from_spec(id: u64) -> PathOrId {
        PathOrId::Id(id)
    }
}

impl From<String> for PathOrId {
    fn from(path: String) -> (r: PathOrId) {
        PathOrId::Path(path)
    }
}

impl vstd::std_specs::convert::FromSpecImpl<String> for PathOrId {
    open spec fn obeys_from_spec() -> bool {
        true
    }

    open spec fn from_spec(path: String) -> PathOrId {
        PathOrId::Path(path)
    }
}

/// File path and range of lines (used to align and highlight lines)
pub type FileLocation = (PathOrId, Option<(usize, usize)>);

/// A preview. Documents are numbers that stand for those that were opened for it.
pub enum CachedPreview {
    Document(u64),
    Directory(Vec<(String, bool)>),
    Binary,
    LargeFile,
    NotFound,
    /// Custom text content with optional styling.
    /// When is_diff is true, the content will be rendered with diff highlighting
    CustomText { content: String, is_diff: bool },
    /// Diff content
    Diff {
        /// Original content (from git HEAD/index)
        diff_base: ropey::Rope,
        /// Current content (working copy)
        doc: ropey::Rope,
        /// Diff hunks
        hunks: Vec<Hunk>,
        /// File path for syntax highlighting
        file_path: String,
        /// File name for display
        file_name: String,
    },
}

/// What is shown: a preview, or a document that the editor has open.
pub enum Preview<'a> {
    Cached(&'a CachedPreview),
    EditorDocument(u64),
}

/// The text that stands for a preview that cannot be shown.
pub open spec fn placeholder_text(p: Preview<'_>) -> Seq<char> {
    match p {
        Preview::EditorDocument(_) => "<Invalid file location>"@,
        Preview::Cached(c) => match c {
            CachedPreview::Document(_) => "<Invalid file location>"@,
            CachedPreview::Directory(_) => "<Invalid directory location>"@,
            CachedPreview::Binary => "<Binary file>"@,
            CachedPreview::LargeFile => "<File too large to preview>"@,
            CachedPreview::NotFound => "<File not found>"@,
            CachedPreview::CustomText { .. } => "<No content>"@,
            CachedPreview::Diff { .. } => "<No diff>"@,
        },
    }
}

impl<'a> Preview<'a> {
    /// The document that is shown, where it is one.
    pub fn document(&self) -> (r: Option<u64>)
        ensures
            r == (match *self {
                Preview::EditorDocument(doc) => Some(doc),
                Preview::Cached(CachedPreview::Document(doc)) => Some(*doc),
                _ => None,
            }),
    {
        match self {
            Preview::EditorDocument(doc) => Some(*doc),
            Preview::Cached(cached) => match cached {
                CachedPreview::Document(doc) => Some(*doc),
                _ => None,
            },
        }
    }

    /// The entries of the directory that is shown, where it is one.
    pub fn dir_content(&self) -> (r: Option<&Vec<(String, bool)>>)
        ensures
            match *self {
                Preview::Cached(CachedPreview::Directory(entries)) => r == Some(entries),
                _ => r is None,
            },
    {
        match self {
            Preview::Cached(cached) => match cached {
                CachedPreview::Directory(entries) => Some(entries),
                _ => None,
            },
            _ => None,
        }
    }

    /// Alternate text to show for the preview.
    pub fn placeholder(&self) -> (r: &'static str)
        ensures
            r@ == placeholder_text(*self),
    {
        match self {
            Preview::EditorDocument(_) => "<Invalid file location>",
            Preview::Cached(cached) => match cached {
                CachedPreview::Document(_) => "<Invalid file location>",
                CachedPreview::Directory(_) => "<Invalid directory location>",
                CachedPreview::Binary => "<Binary file>",
                CachedPreview::LargeFile => "<File too large to preview>",
                CachedPreview::NotFound => "<File not found>",
                CachedPreview::CustomText { .. } => "<No content>",
                CachedPreview::Diff { .. } => "<No diff>",
            },
        }
    }
}

/// Where the preview of the selected item comes from.
#[derive(Debug, Clone, Copy, PartialEq, Eq, Structural)]
pub enum PreviewSource {
    /// There is none.
    Nothing,
    /// The item has one of its own.
    Custom,
    /// A document that the editor has open, by its number.
    Document(u64),
    /// The document of the file, which the editor has open.
    OpenFile,
    /// The preview of the file that was made before.
    Cached,
    /// The file, of which a preview is to be made.
    Load,
}

/// Where the preview of the selected item comes from. A preview of its own takes precedence over
/// a file, a document that is open over a preview made before, and that over the file on disk.
pub open spec fn source(
    selected: bool,
    custom: bool,
    location: Option<PathOrId>,
    is_open: bool,
    is_cached: bool,
) -> PreviewSource {
    if !selected {
        PreviewSource::Nothing
    } else if custom {
        PreviewSource::Custom
    } else {
        match location {
            None => PreviewSource::Nothing,
            Some(PathOrId::Id(id)) => PreviewSource::Document(id),
            Some(PathOrId::Path(_)) => if is_open {
                PreviewSource::OpenFile
            } else if is_cached {
                PreviewSource::Cached
            } else {
                PreviewSource::Load
            },
        }
    }
}

/// Where the preview of the selected item comes from. `selected` says whether an item is selected,
/// `custom` whether it has a preview of its own; `location` is where its file is.
pub fn preview_source(
    selected: bool,
    custom: bool,
    location: &Option<PathOrId>,
    is_open: bool,
    is_cached: bool,
) -> (r: PreviewSource)
    ensures
        r == source(selected, custom, *location, is_open, is_cached),
{
    if !selected {
        return PreviewSource::Nothing;
    }
    if custom {
        return PreviewSource::Custom;
    }
    match location {
        None => PreviewSource::Nothing,
        Some(PathOrId::Id(id)) => PreviewSource::Document(*id),
        Some(PathOrId::Path(_)) => {
            if is_open {
                PreviewSource::OpenFile
            } else if is_cached {
                PreviewSource::Cached
            } else {
                PreviewSource::Load
            }
        },
    }
}

// ---------------------------------------------------------------------------------------------
// Previews made before
// ---------------------------------------------------------------------------------------------

/// Caches previews by path.
pub struct PreviewCache {
    pub entries: Vec<(String, CachedPreview)>,
}

impl View for PreviewCache {
    type V = Map<Seq<char>, CachedPreview>;

    open spec fn view(&self) -> Map<Seq<char>, CachedPreview> {
        cache_map(self.entries@)
    }
}

/// The previews by path.
pub open spec fn cache_map(entries: Seq<(String, CachedPreview)>) -> Map<Seq<char>, CachedPreview>
    decreases entries.len(),
{
    if entries.len() == 0 {
        Map::empty()
    } else {
        cache_map(entries.drop_last()).insert(entries.last().0@, entries.last().1)
    }
}

proof fn lemma_cache_map(entries: Seq<(String, CachedPreview)>)
    requires
        distinct_paths(entries),
    ensures
        forall|i: int|
            0 <= i < entries.len() ==> cache_map(entries).dom().contains(
                (#[trigger] entries[i]).0@,
            ) && cache_map(entries)[entries[i].0@] == entries[i].1,
        forall|k: Seq<char>| #[trigger]
            cache_map(entries).dom().contains(k) ==> exists|i: int|
                0 <= i < entries.len() && (#[trigger] entries[i]).0@ == k,
    decreases entries.len(),
{
    if entries.len() > 0 {
        let before = entries.drop_last();
        assert(distinct_paths(before)) by {
            assert forall|i: int, j: int| 0 <= i < j < before.len() implies (
            #[trigger] before[i]).0@ != (#[trigger] before[j]).0@ by {
                assert(entries[i].0@ != entries[j].0@);
            }
        }
        lemma_cache_map(before);
        assert forall|i: int| 0 <= i < entries.len() implies cache_map(entries).dom().contains(
            (#[trigger] entries[i]).0@,
        ) && cache_map(entries)[entries[i].0@] == entries[i].1 by {
            if i < before.len() {
                assert(before[i] == entries[i]);
                assert(entries[i].0@ != entries[entries.len() - 1].0@);
            }
        }
        assert forall|k: Seq<char>| #[trigger]
            cache_map(entries).dom().contains(k) implies exists|i: int|
            0 <= i < entries.len() && (#[trigger] entries[i]).0@ == k by {
            if k == entries.last().0@ {
                assert(entries[entries.len() - 1].0@ == k);
            } else {
                assert(cache_map(before).dom().contains(k));
                let i = choose|i: int| 0 <= i < before.len() && (#[trigger] before[i]).0@ == k;
                assert(entries[i].0@ == k);
            }
        }
    }
}

/// No path occurs twice.
pub open spec fn distinct_paths(entries: Seq<(String, CachedPreview)>) -> bool {
    forall|i: int, j: int|
        0 <= i < j < entries.len() ==> (#[trigger] entries[i]).0@ != (#[trigger] entries[j]).0@
}

impl PreviewCache {
    /// Each path has at most one preview.
    pub open spec fn wf(&self) -> bool {
        distinct_paths(self.entries@)
    }

    /// A cache with nothing in it.
    pub fn new() -> (r: PreviewCache)
        ensures
            r.wf(),
            r@ == Map::<Seq<char>, CachedPreview>::empty(),
    {
        PreviewCache { entries: Vec::new() }
    }

    fn find(&self, path: &str) -> (r: Option<usize>)
        requires
            self.wf(),
        ensures
            match r {
                Some(i) => i < self.entries@.len() && self.entries@[i as int].0@ == path@,
                None => !self@.dom().contains(path@) && forall|k: int|
                    0 <= k < self.entries@.len() ==> (#[trigger] self.entries@[k]).0@ != path@,
            },
    {
        let mut i: usize = 0;
        while i < self.entries.len()
            invariant
                i <= self.entries@.len(),
                forall|k: int| 0 <= k < i ==> (#[trigger] self.entries@[k]).0@ != path@,
            decreases self.entries@.len() - i,
        {
            if same_str(self.entries[i].0.as_str(), path) {
                return Some(i);
            }
            i = i + 1;
        }
        proof {
            lemma_cache_map(self.entries@);
        }
        None
    }

    /// The preview of a path, if there is one.
    pub fn get(&self, path: &str) -> (r: Option<&CachedPreview>)
        requires
            self.wf(),
        ensures
            match r {
                Some(p) => self@.dom().contains(path@) && *p == self@[path@],
                None => !self@.dom().contains(path@),
            },
    {
        match self.find(path) {
            Some(i) => {
                proof {
                    lemma_cache_map(self.entries@);
                }
                Some(&self.entries[i].1)
            },
            None => None,
        }
    }

    /// Keeps a preview for a path, in place of the one before.
    pub fn insert(&mut self, path: String, preview: CachedPreview)
        requires
            old(self).wf(),
        ensures
            final(self).wf(),
            final(self)@ == old(self)@.insert(path@, preview),
    {
        let ghost before = self.entries@;
        match self.find(path.as_str()) {
            Some(i) => {
                self.entries.set(i, (path, preview));
                proof {
                    let after = self.entries@;
                    assert(distinct_paths(after)) by {
                        assert forall|a: int, b: int| 0 <= a < b < after.len() implies (
                        #[trigger] after[a]).0@ != (#[trigger] after[b]).0@ by {
                            assert(before[a].0@ != before[b].0@);
                        }
                    }
                    lemma_cache_map(before);
                    lemma_cache_map(after);
                    assert forall|k: Seq<char>|
                        cache_map(after).dom().contains(k) == cache_map(before).insert(
                            path@,
                            preview,
                        ).dom().contains(k) by {
                        if cache_map(after).dom().contains(k) {
                            let a = choose|a: int|
                                0 <= a < after.len() && (#[trigger] after[a]).0@ == k;
                            assert(before[a].0@ == k);
                        }
                        if cache_map(before).dom().contains(k) {
                            let a = choose|a: int|
                                0 <= a < before.len() && (#[trigger] before[a]).0@ == k;
                            assert(after[a].0@ == k);
                        }
                        assert(after[i as int].0@ == path@);
                    }
                    assert forall|k: Seq<char>| cache_map(after).dom().contains(k) implies
                        #[trigger] cache_map(after)[k] == cache_map(before).insert(
                        path@,
                        preview,
                    )[k] by {
                        let a = choose|a: int| 0 <= a < after.len() && (#[trigger] after[a]).0@ == k;
                        assert(before[a].0@ == k);
                        assert(after[i as int].0@ == path@);
                    }
                    assert(cache_map(after) =~= cache_map(before).insert(path@, preview));
                }
            },
            None => {
                self.entries.push((path, preview));
                proof {
                    let after = self.entries@;
                    assert(after.drop_last() =~= before);
                    assert(distinct_paths(after)) by {
                        assert forall|a: int, b: int| 0 <= a < b < after.len() implies (
                        #[trigger] after[a]).0@ != (#[trigger] after[b]).0@ by {
                            if b < before.len() {
                                assert(before[a].0@ != before[b].0@);
                            } else {
                                assert(before[a].0@ != path@);
                            }
                        }
                    }
                }
            },
        }
    }
}

/// If a document corresponding to the path is already open in the editor, it is used instead of a
/// preview, whether or not one was made before.
pub proof fn law_open_document_is_used(path: String, is_cached: bool)
    ensures
        source(true, false, Some(PathOrId::Path(path)), true, is_cached)
            == PreviewSource::OpenFile,
{
}

/// A preview of the item's own takes precedence over that of its file.
pub proof fn law_custom_preview_takes_precedence(
    location: Option<PathOrId>,
    is_open: bool,
    is_cached: bool,
)
    ensures
        source(true, true, location, is_open, is_cached) == PreviewSource::Custom,
{
}

/// A preview is made once: the one that was kept is found again, and other paths keep theirs.
pub proof fn law_preview_is_made_once(
    cache: Map<Seq<char>, CachedPreview>,
    path: String,
    preview: CachedPreview,
    other: Seq<char>,
)
    ensures
        ({
            let kept = cache.insert(path@, preview);
            &&& source(
                true,
                false,
                Some(PathOrId::Path(path)),
                false,
                kept.dom().contains(path@),
            ) == PreviewSource::Cached
            &&& kept[path@] == preview
            &&& other != path@ ==> kept.dom().contains(other) == cache.dom().contains(other)
                && kept[other] == cache[other]
        }),
{
}

// ---------------------------------------------------------------------------------------------
// Making a preview of a file
// ---------------------------------------------------------------------------------------------

/// What is on disk at a path.
#[derive(Debug, Clone, Copy, PartialEq, Eq, Structural)]
pub enum FileKind {
    Directory,
    /// A file of so many bytes.
    File { len: u64 },
    /// Anything else, or nothing.
    Other,
}

/// Whether the bytes start with those given.
pub open spec fn starts_with_bytes(data: Seq<u8>, start: Seq<u8>) -> bool {
    start.len() <= data.len() && data.take(start.len() as int) == start
}

/// Whether the data starts with a byte order mark.
pub open spec fn has_byte_order_mark(data: Seq<u8>) -> bool {
    ||| starts_with_bytes(data, seq![0xefu8, 0xbb, 0xbf])
    ||| starts_with_bytes(data, seq![0u8, 0, 0xfe, 0xff])
    ||| starts_with_bytes(data, seq![0xfeu8, 0xff])
    ||| starts_with_bytes(data, seq![0xffu8, 0xfe])
}

/// Whether the data counts as binary: without a byte order mark, it has a zero byte near its start
/// or starts as a PDF or PNG file does.
pub open spec fn is_binary_data(data: Seq<u8>) -> bool {
    !has_byte_order_mark(data) && {
        ||| exists|i: int| 0 <= i < data.len() && i < 1024 && #[trigger] data[i] == 0
        ||| starts_with_bytes(data, seq![0x25u8, 0x50, 0x44, 0x46])
        ||| starts_with_bytes(data, seq![0x89u8, 0x50, 0x4e, 0x47])
    }
}

/// `content_inspector::inspect` and `ContentType::is_binary`: whether the data counts as binary.
#[verifier::external_body]
fn inspect_content(data: &[u8]) -> (r: bool)
    ensures
        r == is_binary_data(data@),
{
    content_inspector::inspect(data).is_binary()
}

/// An entry of a directory as it is listed: directories have a slash behind their names.
pub open spec fn listed_name(name: Seq<char>, is_dir: bool) -> Seq<char> {
    if is_dir {
        name.push('/')
    } else {
        name
    }
}

/// Whether the entries are those of a directory as they are listed.
pub open spec fn are_listed(listed: Seq<(String, bool)>, entries: Seq<(String, bool)>) -> bool {
    listed.len() == entries.len() && forall|i: int|
        0 <= i < listed.len() ==> (#[trigger] listed[i]).0@ == listed_name(
            entries[i].0@,
            entries[i].1,
        ) && listed[i].1 == entries[i].1
}

fn directory_names(entries: &Vec<(String, bool)>) -> (r: Vec<(String, bool)>)
    ensures
        are_listed(r@, entries@),
{
    let mut out: Vec<(String, bool)> = Vec::new();
    let mut i: usize = 0;
    while i < entries.len()
        invariant
            i <= entries@.len(),
            out@.len() == i,
            forall|k: int|
                0 <= k < i ==> (#[trigger] out@[k]).0@ == listed_name(
                    entries@[k].0@,
                    entries@[k].1,
                ) && out@[k].1 == entries@[k].1,
        decreases entries@.len() - i,
    {
        let mut t = chars_of(entries[i].0.as_str());
        if entries[i].1 {
            t.push('/');
        }
        out.push((string_of(&t), entries[i].1));
        i = i + 1;
    }
    out
}

/// What became of the last step of making a preview of a path.
pub enum LoadEvent {
    /// What is at the path.
    Metadata(FileKind),
    /// The names of the entries of the directory, and which of them are directories.
    Listed(Vec<(String, bool)>),
    /// The start of the file, at most [`INSPECTED_BYTES`] of it.
    Head(Vec<u8>),
    /// The document that the file was opened as.
    Opened(u64),
    /// The step failed.
    Failed,
}

/// The next step of making a preview.
pub enum LoadAction {
    /// List the directory.
    List,
    /// Read the start of the file, at most so many bytes.
    ReadHead { limit: usize },
    /// Open the file as a document.
    Open,
    /// The preview is made.
    Done(CachedPreview),
}

/// The next step of making a preview of a path. The entries of a directory are listed; a file is
/// opened, unless it is too large or binary; where a step fails there is nothing to preview.
pub fn load_action(event: LoadEvent) -> (r: LoadAction)
    ensures
        match event {
            LoadEvent::Metadata(FileKind::Directory) => r is List,
            LoadEvent::Metadata(FileKind::File { len }) => if len > MAX_FILE_SIZE_FOR_PREVIEW {
                r == LoadAction::Done(CachedPreview::LargeFile)
            } else {
                r == (LoadAction::ReadHead { limit: INSPECTED_BYTES })
            },
            LoadEvent::Metadata(FileKind::Other) => r == LoadAction::Done(CachedPreview::NotFound),
            LoadEvent::Listed(entries) => {
                &&& r is Done
                &&& r->Done_0 is Directory
                &&& are_listed(r->Done_0->Directory_0@, entries@)
            },
            LoadEvent::Head(head) => if is_binary_data(head@) {
                r == LoadAction::Done(CachedPreview::Binary)
            } else {
                r is Open
            },
            LoadEvent::Opened(doc) => r == LoadAction::Done(CachedPreview::Document(doc)),
            LoadEvent::Failed => r == LoadAction::Done(CachedPreview::NotFound),
        },
        event matches LoadEvent::Metadata(FileKind::File { len }) ==> {
            &&& len > 10 * 1024 * 1024 <==> r == LoadAction::Done(CachedPreview::LargeFile)
            &&& len <= 10 * 1024 * 1024 ==> r == (LoadAction::ReadHead { limit: 1024 })
        },
{
    match event {
        LoadEvent::Metadata(kind) => match kind {
            FileKind::Directory => LoadAction::List,
            FileKind::File { len } => {
                if len > MAX_FILE_SIZE_FOR_PREVIEW {
                    LoadAction::Done(CachedPreview::LargeFile)
                } else {
                    LoadAction::ReadHead { limit: INSPECTED_BYTES }
                }
            },
            FileKind::Other => LoadAction::Done(CachedPreview::NotFound),
        },
        LoadEvent::Listed(entries) => LoadAction::Done(
            CachedPreview::Directory(directory_names(&entries)),
        ),
        LoadEvent::Head(head) => {
            if inspect_content(head.as_slice()) {
                LoadAction::Done(CachedPreview::Binary)
            } else {
                LoadAction::Open
            }
        },
        LoadEvent::Opened(doc) => LoadAction::Done(CachedPreview::Document(doc)),
        LoadEvent::Failed => LoadAction::Done(CachedPreview::NotFound),
    }
}

/// Whether a preview made before is still to be highlighted: a document without a syntax tree is.
pub fn wants_highlighting(preview: &CachedPreview, has_syntax: bool) -> (r: bool)
    ensures
        r == (preview is Document && !has_syntax),
{
    match preview {
        CachedPreview::Document(_) => !has_syntax,
        _ => false,
    }
}

// ---------------------------------------------------------------------------------------------
// Drawing
// ---------------------------------------------------------------------------------------------

/// The part of the preview inside its border, with a gap on either side.
pub open spec fn preview_area(area: Rect) -> Rect {
    area.inside().with_gap(1)
}

/// Draws the empty preview with its border, and returns the part inside.
pub fn draw_preview_border(area: Rect, theme: &Theme) -> (r: (Canvas, Rect))
    requires
        area.wf(),
    ensures
        r.0@ == seq![
            draw::Draw::Clear { area, style: theme.background },
            draw::Draw::Frame { area, title: None, style: Style::plain() },
        ],
        r.1 == preview_area(area),
        r.1.wf(),
{
    let mut canvas = Canvas::new();
    canvas.clear(area, theme.background);
    canvas.border(area, Style::new());
    proof {
        assert(canvas@ =~= seq![
            draw::Draw::Clear { area, style: theme.background },
            draw::Draw::Frame { area, title: None, style: Style::plain() },
        ]);
    }
    (canvas, area.bordered_inner().horizontal_gap())
}

/// The style of a line of custom text: that of an addition, a deletion or the head of a hunk by the
/// first character that is no white space, where the text is a diff.
pub open spec fn line_style(line: Seq<char>, is_diff: bool, theme: Theme) -> Style {
    let first = lines::trim_start_of(line);
    if !is_diff || first.len() == 0 {
        theme.text
    } else if first[0] == '+' {
        theme.diff_plus
    } else if first[0] == '-' {
        theme.diff_minus
    } else if first[0] == '@' {
        theme.diff_delta
    } else {
        theme.text
    }
}

/// The first `n` lines of custom text, from the top of the area down.
pub open spec fn text_draws(
    ls: Seq<Seq<char>>,
    n: int,
    area: Rect,
    is_diff: bool,
    theme: Theme,
) -> Seq<draw::Draw>
    decreases n,
{
    if n <= 0 {
        Seq::empty()
    } else {
        text_draws(ls, n - 1, area, is_diff, theme).push(
            draw::Draw::Text {
                x: area.x as int,
                y: area.y + n - 1,
                text: ls[n - 1],
                max: area.width as int,
                style: line_style(ls[n - 1], is_diff, theme),
            },
        )
    }
}

fn style_of_line(t: &Vec<char>, is_diff: bool, theme: &Theme) -> (r: Style)
    ensures
        r == line_style(t@, is_diff, *theme),
{
    if !is_diff {
        return theme.text;
    }
    let first = trim_start(t);
    if first.len() == 0 {
        return theme.text;
    }
    if first[0] == '+' {
        theme.diff_plus
    } else if first[0] == '-' {
        theme.diff_minus
    } else if first[0] == '@' {
        theme.diff_delta
    } else {
        theme.text
    }
}

/// Render custom text content in the preview pane.
/// If is_diff is true, applies diff-specific styling (green for +, red for -).
pub fn render_custom_text_preview(inner: Rect, content: &str, is_diff: bool, theme: &Theme) -> (r:
    Canvas)
    requires
        inner.wf(),
    ensures
        r@ == text_draws(
            lines::lines(content@),
            draw::least(inner.height as int, lines::lines(content@).len() as int),
            inner,
            is_diff,
            *theme,
        ),
{
    let mut canvas = Canvas::new();
    let t = chars_of(content);
    let ls = split_lines(&t);
    let ghost all = lines::lines(content@);
    proof {
        assert(text::texts(ls@).len() == ls@.len());
    }
    let n: u16 = if ls.len() < inner.height as usize {
        ls.len() as u16
    } else {
        inner.height
    };
    let mut k: u16 = 0;
    while k < n
        invariant
            k <= n <= inner.height,
            n <= ls@.len(),
            text::texts(ls@) == all,
            inner.wf(),
            canvas@ == text_draws(all, k as int, inner, is_diff, *theme),
        decreases n - k,
    {
        let line = &ls[k as usize];
        proof {
            assert(all[k as int] == line@);
        }
        let style = style_of_line(line, is_diff, theme);
        canvas.chars(inner.x, inner.y + k, line, inner.width as usize, style);
        k = k + 1;
    }
    canvas
}

/// The first `n` entries of a directory, from the top of the area down.
pub open spec fn directory_draws(
    entries: Seq<(String, bool)>,
    n: int,
    area: Rect,
    theme: Theme,
) -> Seq<draw::Draw>
    decreases n,
{
    if n <= 0 {
        Seq::empty()
    } else {
        directory_draws(entries, n - 1, area, theme).push(
            draw::Draw::Text {
                x: area.x as int,
                y: area.y + n - 1,
                text: entries[n - 1].0@,
                max: area.width as int,
                style: if entries[n - 1].1 {
                    theme.directory
                } else {
                    theme.text
                },
            },
        )
    }
}

/// Draws the entries of a directory.
pub fn draw_directory(inner: Rect, entries: &Vec<(String, bool)>, theme: &Theme) -> (r: Canvas)
    requires
        inner.wf(),
    ensures
        r@ == directory_draws(
            entries@,
            draw::least(inner.height as int, entries@.len() as int),
            inner,
            *theme,
        ),
{
    let mut canvas = Canvas::new();
    let n: u16 = if entries.len() < inner.height as usize {
        entries.len() as u16
    } else {
        inner.height
    };
    let mut k: u16 = 0;
    while k < n
        invariant
            k <= n <= inner.height,
            n <= entries@.len(),
            inner.wf(),
            canvas@ == directory_draws(entries@, k as int, inner, *theme),
        decreases n - k,
    {
        let entry = &entries[k as usize];
        let style = if entry.1 {
            theme.directory
        } else {
            theme.text
        };
        canvas.text(inner.x, inner.y + k, entry.0.as_str(), inner.width as usize, style);
        k = k + 1;
    }
    canvas
}

/// Draws a text in the middle of the area.
pub fn draw_placeholder(inner: Rect, alt: &str, theme: &Theme) -> (r: Canvas)
    requires
        inner.wf(),
    ensures
        r@ == seq![
            draw::Draw::Text {
                x: inner.x + draw::less(
                    inner.width as int,
                    (bytes::byte_len(alt@) % 65536) as int,
                ) / 2,
                y: inner.y + inner.height as int / 2,
                text: alt@,
                max: inner.width as int,
                style: theme.text,
            },
        ],
{
    let mut canvas = Canvas::new();
    let n: u16 = (alt.as_bytes().len() % 65536) as u16;
    let x = inner.x + inner.width.saturating_sub(n) / 2;
    let y = inner.y + inner.height / 2;
    canvas.text(x, y, alt, inner.width as usize, theme.text);
    proof {
        assert(canvas@ =~= seq![
            draw::Draw::Text {
                x: inner.x + draw::less(
                    inner.width as int,
                    (bytes::byte_len(alt@) % 65536) as int,
                ) / 2,
                y: inner.y + inner.height as int / 2,
                text: alt@,
                max: inner.width as int,
                style: theme.text,
            },
        ]);
    }
    canvas
}

/// Whether a document of so many lines holds the range, so that it can be shown there.
pub open spec fn holds_range(range: Option<(usize, usize)>, len_lines: int) -> bool {
    match range {
        Some((start, end)) => start <= end && end <= len_lines,
        None => true,
    }
}

/// What a preview shows.
pub enum Content<'a> {
    /// Only the border.
    Nothing,
    /// A diff.
    Diff(&'a CachedPreview),
    /// Text.
    Text { content: &'a str, is_diff: bool },
    /// A document.
    Document(u64),
    /// The entries of a directory.
    Directory(&'a Vec<(String, bool)>),
    /// A text in place of the preview.
    Placeholder(&'static str),
}

/// What a preview shows. A diff or a text of the item's own comes first; a document is shown if
/// it holds the range, a directory is listed, and for anything else a text is shown in its place.
/// `len_lines` is how many lines the document has that the preview is of.
pub fn preview_content<'a>(
    custom: Option<&'a CachedPreview>,
    preview: Option<&Preview<'a>>,
    range: Option<(usize, usize)>,
    len_lines: usize,
) -> (r: Content<'a>)
    ensures
        match custom {
            Some(c) if c is Diff => r == Content::Diff(c),
            Some(CachedPreview::CustomText { content, is_diff }) => {
                &&& r is Text
                &&& r->content@ == content@
                &&& r->is_diff == is_diff
            },
            _ => match preview {
                None => r is Nothing,
                Some(p) => match *p {
                    Preview::EditorDocument(doc) if holds_range(range, len_lines as int) => r
                        == Content::Document(doc),
                    Preview::Cached(CachedPreview::Document(doc)) if holds_range(
                        range,
                        len_lines as int,
                    ) => r == Content::Document(*doc),
                    Preview::Cached(CachedPreview::Directory(entries)) => r == Content::Directory(
                        entries,
                    ),
                    _ => r is Placeholder && r->Placeholder_0@ == placeholder_text(*p),
                },
            },
        },
{
    match custom {
        Some(c) => match c {
            CachedPreview::Diff { .. } => {
                return Content::Diff(c);
            },
            CachedPreview::CustomText { content, is_diff } => {
                return Content::Text { content: content.as_str(), is_diff: *is_diff };
            },
            _ => {},
        },
        None => {},
    }
    match preview {
        None => Content::Nothing,
        Some(p) => {
            let fits = match range {
                Some((start, end)) => start <= end && end <= len_lines,
                None => true,
            };
            match p {
                Preview::EditorDocument(doc) => {
                    if fits {
                        Content::Document(*doc)
                    } else {
                        Content::Placeholder(p.placeholder())
                    }
                },
                Preview::Cached(cached) => match cached {
                    CachedPreview::Document(doc) => {
                        if fits {
                            Content::Document(*doc)
                        } else {
                            Content::Placeholder(p.placeholder())
                        }
                    },
                    CachedPreview::Directory(entries) => Content::Directory(entries),
                    _ => Content::Placeholder(p.placeholder()),
                },
            }
        },
    }
}

/// How a document is aligned to a range of its lines.
#[derive(Debug, Clone, Copy, PartialEq, Eq, Structural)]
pub enum Alignment {
    /// From its start.
    Top,
    /// With the range from its first line on, which fills the preview.
    AtStart,
    /// With the line given in the middle of the preview.
    Middle { line: usize },
}

/// How a document is aligned to a range in a preview of so many rows: a range that leaves rows
/// over is put in the middle.
pub fn alignment(range: Option<(usize, usize)>, rows: u16) -> (r: Alignment)
    requires
        range matches Some((start, end)) ==> start <= end,
    ensures
        r == (match range {
            None => Alignment::Top,
            Some((start, end)) => if end - start < rows {
                Alignment::Middle { line: (start + (end - start) / 2) as usize }
            } else {
                Alignment::AtStart
            },
        }),
        range is None <==> r is Top,
        range matches Some((start, end)) ==> match r {
            Alignment::Middle { line } => end - start < rows && start <= line <= end && line - start
                <= end - line <= line - start + 1,
            _ => rows <= end - start,
        },
{
    match range {
        None => Alignment::Top,
        Some((start, end)) => {
            let height: usize = end - start;
            if height < rows as usize {
                Alignment::Middle { line: start + height / 2 }
            } else {
                Alignment::AtStart
            }
        },
    }
}

/// Where a document is shown from, as the first character and the rows of its line that are cut
/// off. `start` is the first character of the range; `centered` is where the preview would start
/// with the middle of the range in its middle. No preview starts behind the range.
pub fn view_anchor(alignment: Alignment, start: usize, centered: (usize, usize)) -> (r: (
    usize,
    usize,
))
    ensures
        r == (match alignment {
            Alignment::Top => (0usize, 0usize),
            Alignment::AtStart => (start, 0usize),
            Alignment::Middle { .. } => if start < centered.0 {
                (start, 0usize)
            } else {
                centered
            },
        }),
        !(alignment is Top) ==> r.0 <= start,
{
    match alignment {
        Alignment::Top => (0, 0),
        Alignment::AtStart => (start, 0),
        Alignment::Middle { .. } => {
            if start < centered.0 {
                (start, 0)
            } else {
                centered
            }
        },
    }
}

/// The style over a line of the range, where the line is in it: both ends are.
pub fn range_style(range: Option<(usize, usize)>, line: usize, theme: &Theme) -> (r: Option<Style>)
    ensures
        r == (match range {
            Some((start, end)) => if start <= line && line <= end {
                Some(
                    match theme.highlight {
                        Some(s) => s,
                        None => theme.selection,
                    },
                )
            } else {
                None
            },
            None => None,
        }),
        r is Some <==> (range matches Some((start, end)) && start <= line <= end),
        r is Some && theme.highlight is Some ==> r == theme.highlight,
        r is Some && theme.highlight is None ==> r == Some(theme.selection),
{
    match range {
        Some((start, end)) => {
            if start <= line && line <= end {
                match theme.highlight {
                    Some(s) => Some(s),
                    None => Some(theme.selection),
                }
            } else {
                None
            }
        },
        None => None,
    }
}

// ---------------------------------------------------------------------------------------------
// What the preview promises
// ---------------------------------------------------------------------------------------------

/// A document is shown by its number and a file that is neither open nor kept is read; without a
/// selected item or a place there is nothing to show.
pub proof fn law_previews_come_from_somewhere(
    location: Option<PathOrId>,
    id: u64,
    path: String,
    custom: bool,
    is_open: bool,
    is_cached: bool,
)
    ensures
        source(false, custom, location, is_open, is_cached) == PreviewSource::Nothing,
        source(true, false, None, is_open, is_cached) == PreviewSource::Nothing,
        source(true, false, Some(PathOrId::Id(id)), is_open, is_cached) == PreviewSource::Document(
            id,
        ),
        source(true, false, Some(PathOrId::Path(path)), false, false) == PreviewSource::Load,
{
}

/// A preview that cannot be shown is told by what is wrong with it.
pub proof fn law_placeholders_tell_what_is_wrong(
    doc: u64,
    entries: Vec<(String, bool)>,
    content: String,
    is_diff: bool,
)
    ensures
        placeholder_text(Preview::EditorDocument(doc)) == "<Invalid file location>"@,
        placeholder_text(Preview::Cached(&CachedPreview::Document(doc)))
            == "<Invalid file location>"@,
        placeholder_text(Preview::Cached(&CachedPreview::Directory(entries)))
            == "<Invalid directory location>"@,
        placeholder_text(Preview::Cached(&CachedPreview::Binary)) == "<Binary file>"@,
        placeholder_text(Preview::Cached(&CachedPreview::LargeFile))
            == "<File too large to preview>"@,
        placeholder_text(Preview::Cached(&CachedPreview::NotFound)) == "<File not found>"@,
        placeholder_text(Preview::Cached(&CachedPreview::CustomText { content, is_diff }))
            == "<No content>"@,
{
}

/// Directories are listed with a slash behind their names, files by their names alone, all of them
/// in the order in which they came.
pub proof fn law_directories_are_listed_with_a_slash(
    listed: Seq<(String, bool)>,
    entries: Seq<(String, bool)>,
    i: int,
)
    requires
        are_listed(listed, entries),
        0 <= i < entries.len(),
    ensures
        listed.len() == entries.len(),
        listed[i].1 == entries[i].1,
        entries[i].1 ==> listed[i].0@ == entries[i].0@ + seq!['/'],
        !entries[i].1 ==> listed[i].0@ == entries[i].0@,
{
    assert(listed[i].1 == entries[i].1);
    if entries[i].1 {
        assert(listed[i].0@ =~= entries[i].0@ + seq!['/']);
    }
}

/// Inside the border the preview keeps one more column free on either side.
pub proof fn law_preview_stands_inside_its_border(area: Rect)
    requires
        area.wf(),
    ensures
        area.width >= 4 && area.height >= 2 ==> ({
            let inner = preview_area(area);
            &&& inner.x == area.x + 2
            &&& inner.y == area.y + 1
            &&& inner.x + inner.width + 2 == area.x + area.width
            &&& inner.y + inner.height + 1 == area.y + area.height
        }),
        area.width < 4 ==> preview_area(area).width == 0,
{
}

proof fn lemma_trimmed_start(blanks: Seq<char>, s: Seq<char>)
    requires
        forall|i: int| 0 <= i < blanks.len() ==> lines::is_white(#[trigger] blanks[i]),
        s.len() > 0 ==> !lines::is_white(s[0]),
    ensures
        lines::trim_start_of(blanks + s) == s,
    decreases blanks.len(),
{
    let all = blanks + s;
    if blanks.len() > 0 {
        assert(all[0] == blanks[0]);
        let less = blanks.skip(1);
        assert(all.skip(1) =~= less + s);
        assert forall|i: int| 0 <= i < less.len() implies lines::is_white(#[trigger] less[i]) by {
            assert(less[i] == blanks[i + 1]);
        }
        lemma_trimmed_start(less, s);
    } else {
        assert(all =~= s);
    }
}

/// In a diff a line is an addition behind a plus, a deletion behind a minus and the head of a hunk
/// behind an at sign, however far the sign is indented. Other lines are text, as is every line of
/// what is no diff.
pub proof fn law_diff_lines_have_the_style_of_their_sign(
    blanks: Seq<char>,
    rest: Seq<char>,
    sign: char,
    line: Seq<char>,
    theme: Theme,
)
    requires
        forall|i: int| 0 <= i < blanks.len() ==> lines::is_white(#[trigger] blanks[i]),
        !lines::is_white(sign),
        sign != '+' && sign != '-' && sign != '@',
    ensures
        line_style(blanks + seq!['+'] + rest, true, theme) == theme.diff_plus,
        line_style(blanks + seq!['-'] + rest, true, theme) == theme.diff_minus,
        line_style(blanks + seq!['@'] + rest, true, theme) == theme.diff_delta,
        line_style(blanks + seq![sign] + rest, true, theme) == theme.text,
        line_style(blanks, true, theme) == theme.text,
        line_style(line, false, theme) == theme.text,
{
    assert(blanks + seq!['+'] + rest =~= blanks + (seq!['+'] + rest));
    assert(blanks + seq!['-'] + rest =~= blanks + (seq!['-'] + rest));
    assert(blanks + seq!['@'] + rest =~= blanks + (seq!['@'] + rest));
    assert(blanks + seq![sign] + rest =~= blanks + (seq![sign] + rest));
    lemma_trimmed_start(blanks, seq!['+'] + rest);
    lemma_trimmed_start(blanks, seq!['-'] + rest);
    lemma_trimmed_start(blanks, seq!['@'] + rest);
    lemma_trimmed_start(blanks, seq![sign] + rest);
    lemma_trimmed_start(blanks, Seq::empty());
    assert(blanks + Seq::<char>::empty() =~= blanks);
}

/// The lines of a text are drawn whole, one below the other from the top of the area.
pub proof fn law_lines_of_text_are_drawn_downwards(
    ls: Seq<Seq<char>>,
    n: int,
    area: Rect,
    is_diff: bool,
    theme: Theme,
)
    requires
        0 <= n <= ls.len(),
    ensures
        text_draws(ls, n, area, is_diff, theme).len() == n,
        forall|k: int|
            0 <= k < n ==> #[trigger] text_draws(ls, n, area, is_diff, theme)[k] == (
            draw::Draw::Text {
                x: area.x as int,
                y: area.y + k,
                text: ls[k],
                max: area.width as int,
                style: line_style(ls[k], is_diff, theme),
            }),
    decreases n,
{
    if n > 0 {
        law_lines_of_text_are_drawn_downwards(ls, n - 1, area, is_diff, theme);
    }
}

/// The entries of a directory are drawn one below the other from the top of the area, those that
/// are directories in a style of their own.
pub proof fn law_entries_are_drawn_downwards(
    entries: Seq<(String, bool)>,
    n: int,
    area: Rect,
    theme: Theme,
)
    requires
        0 <= n <= entries.len(),
    ensures
        directory_draws(entries, n, area, theme).len() == n,
        forall|k: int|
            0 <= k < n ==> #[trigger] directory_draws(entries, n, area, theme)[k] == (
            draw::Draw::Text {
                x: area.x as int,
                y: area.y + k,
                text: entries[k].0@,
                max: area.width as int,
                style: if entries[k].1 {
                    theme.directory
                } else {
                    theme.text
                },
            }),
    decreases n,
{
    if n > 0 {
        law_entries_are_drawn_downwards(entries, n - 1, area, theme);
    }
}

/// A document is shown at a range that runs forwards and ends with its lines at the latest.
pub proof fn law_ranges_lie_in_the_document(start: usize, end: usize, len_lines: int)
    ensures
        holds_range(None, len_lines),
        holds_range(Some((start, end)), len_lines) <==> start <= end <= len_lines,
{
}

/// Text without zero bytes is no binary file, unless it starts as a PDF or PNG file does; with a
/// zero byte near its start it is one, unless a byte order mark stands before it.
pub proof fn law_zero_bytes_make_a_file_binary(data: Seq<u8>, i: int)
    ensures
        (forall|k: int| 0 <= k < data.len() ==> #[trigger] data[k] != 0) && data.len() > 0
            && data[0] != 0x25 && data[0] != 0x89 ==> !is_binary_data(data),
        0 <= i < 1024 && i < data.len() && data[i] == 0 && data[0] != 0xef && data[0] != 0xfe
            && data[0] != 0xff && data[0] != 0 ==> is_binary_data(data),
{
    if data.len() > 0 {
        let pdf = seq![0x25u8, 0x50, 0x44, 0x46];
        let png = seq![0x89u8, 0x50, 0x4e, 0x47];
        let utf8 = seq![0xefu8, 0xbb, 0xbf];
        let utf32 = seq![0u8, 0, 0xfe, 0xff];
        let big = seq![0xfeu8, 0xff];
        let little = seq![0xffu8, 0xfe];
        if starts_with_bytes(data, pdf) {
            assert(data.take(4)[0] == data[0]);
        }
        if starts_with_bytes(data, png) {
            assert(data.take(4)[0] == data[0]);
        }
        if starts_with_bytes(data, utf8) {
            assert(data.take(3)[0] == data[0]);
        }
        if starts_with_bytes(data, utf32) {
            assert(data.take(4)[0] == data[0]);
        }
        if starts_with_bytes(data, big) {
            assert(data.take(2)[0] == data[0]);
        }
        if starts_with_bytes(data, little) {
            assert(data.take(2)[0] == data[0]);
        }
    }
}

/// A file that starts as a PDF or PNG file does is binary, with or without zero bytes; one that
/// starts with a byte order mark is text.
pub proof fn law_first_bytes_tell_the_kind(rest: Seq<u8>)
    ensures
        is_binary_data(seq![0x25u8, 0x50, 0x44, 0x46] + rest),
        is_binary_data(seq![0x89u8, 0x50, 0x4e, 0x47] + rest),
        !is_binary_data(seq![0xefu8, 0xbb, 0xbf] + rest),
        !is_binary_data(seq![0u8, 0, 0xfe, 0xff] + rest),
        !is_binary_data(seq![0xfeu8, 0xff] + rest),
        !is_binary_data(seq![0xffu8, 0xfe] + rest),
{
    let pdf = seq![0x25u8, 0x50, 0x44, 0x46];
    let png = seq![0x89u8, 0x50, 0x4e, 0x47];
    let utf8 = seq![0xefu8, 0xbb, 0xbf];
    let utf32 = seq![0u8, 0, 0xfe, 0xff];
    let big = seq![0xfeu8, 0xff];
    let little = seq![0xffu8, 0xfe];
    assert((pdf + rest).take(4) =~= pdf);
    assert((png + rest).take(4) =~= png);
    assert((utf8 + rest).take(3) =~= utf8);
    assert((utf32 + rest).take(4) =~= utf32);
    assert((big + rest).take(2) =~= big);
    assert((little + rest).take(2) =~= little);
    lemma_no_mark(pdf + rest);
    lemma_no_mark(png + rest);
}

proof fn lemma_no_mark(data: Seq<u8>)
    requires
        data.len() > 0,
        data[0] == 0x25 || data[0] == 0x89,
    ensures
        !has_byte_order_mark(data),
{
    if starts_with_bytes(data, seq![0xefu8, 0xbb, 0xbf]) {
        assert(data.take(3)[0] == data[0]);
    }
    if starts_with_bytes(data, seq![0u8, 0, 0xfe, 0xff]) {
        assert(data.take(4)[0] == data[0]);
    }
    if starts_with_bytes(data, seq![0xfeu8, 0xff]) {
        assert(data.take(2)[0] == data[0]);
    }
    if starts_with_bytes(data, seq![0xffu8, 0xfe]) {
        assert(data.take(2)[0] == data[0]);
    }
}

/// A preview that is no file's is kept under a name of its own.
pub proof fn law_custom_previews_have_a_name()
    ensures
        CUSTOM_PREVIEW_KEY@ == "__custom_preview__"@,
{
}

} // verus!
