//! The picker, its preview and the blame view.

use helix_agent::git::status::BlameLine;
use helix_agent::ui::blame::{fit_to_width, truncate_str, BlameAction, BlameView};
use helix_agent::ui::diff_lines::{DiffLine, WordSegment};
use helix_agent::ui::diff_preview::{
    diff_line_pieces, diff_styles, highlights_fit, render_diff_preview, word_diff_pairs,
    LineDetails,
};
use helix_agent::ui::draw::{Color, DrawOp, Rect, Style, Theme};
use helix_agent::ui::hunks::Hunk;
use helix_agent::ui::keys::{Event, Key, KeyCode};
use helix_agent::ui::picker::{
    next_version, Action, Column, Direction, Injector, Picker, MIN_AREA_WIDTH_FOR_PREVIEW,
};
use helix_agent::ui::picker_events::{escape_percent, PickerAction, PromptState};
use helix_agent::ui::picker_table::{counts_as_running, format_row, highlight_cell};
use helix_agent::ui::preview::{
    alignment, draw_directory, draw_placeholder, draw_preview_border, load_action,
    preview_content, preview_source, range_style, render_custom_text_preview, view_anchor,
    wants_highlighting, Alignment, CachedPreview, Content, FileKind, LoadAction, LoadEvent,
    PathOrId, Preview, PreviewCache, PreviewSource, MAX_FILE_SIZE_FOR_PREVIEW,
};

fn theme() -> Theme {
    let plain = Style::new();
    Theme {
        background: plain,
        separator: plain,
        popup_info: plain,
        text: plain,
        text_focus: plain,
        directory: plain.with_fg(Color::Blue),
        whitespace: plain,
        inlay_hint: plain,
        statusline: plain,
        line_number: plain,
        cursor: plain,
        highlight: None,
        selection: plain.with_bg(Color::Gray),
        header: plain,
        header_column: plain.with_fg(Color::White),
        active_column: plain.with_fg(Color::Yellow),
        special: plain.with_fg(Color::Magenta),
        string: plain.with_fg(Color::Green),
        heading: plain,
        warning: plain,
        error: plain.with_fg(Color::Red),
        diff_plus: plain.with_fg(Color::Green),
        diff_minus: plain.with_fg(Color::Red),
        diff_delta: plain.with_fg(Color::Cyan),
    }
}

fn area(width: u16, height: u16) -> Rect {
    Rect { x: 0, y: 0, width, height }
}

fn options() -> Vec<(u64, Vec<String>)> {
    ["alpha.rs", "beta.rs", "gamma.txt"]
        .iter()
        .enumerate()
        .map(|(i, name)| (i as u64, vec![name.to_string()]))
        .collect()
}

fn settled(picker: &mut Picker, matches: usize) {
    for _ in 0..1000 {
        picker.refresh();
        let layout = picker.layout(area(80, 20), false);
        if let Some(items) = picker.page_items(&layout) {
            if items.len() == matches {
                return;
            }
        }
        std::hint::spin_loop();
    }
    panic!("the matcher did not settle");
}

fn picker() -> Picker {
    let columns = vec![Column::new("name".to_string())];
    let mut picker = Picker::new(columns, 0, &options(), || {});
    settled(&mut picker, 3);
    picker
}

fn prompt() -> PromptState {
    PromptState { is_empty: false, completion: None }
}

fn press(picker: &mut Picker, key: Key) -> PickerAction {
    picker.handle_event(&Event::Key(key), &prompt())
}

fn page(picker: &Picker) -> Vec<u64> {
    let layout = picker.layout(area(80, 20), false);
    picker.page_items(&layout).unwrap()
}

#[test]
fn items_are_matched() {
    let mut picker = picker();
    let mut all = page(&picker);
    all.sort();
    assert_eq!(all, vec![0, 1, 2]);
    assert_eq!(picker.item_count(), 3);
    let change = picker.handle_prompt_change(vec![Some("gam".to_string())], false);
    assert!(change.is_none());
    settled(&mut picker, 1);
    assert_eq!(page(&picker), vec![2]);
    assert_eq!(picker.selection(), Some(2));
    assert_eq!(picker.primary_query(), "gam");
}

#[test]
fn options_are_handed_as_often_as_given() {
    let columns = vec![
        Column::new("name".to_string()),
        Column::new("size".to_string()).without_filtering(),
        Column::new("kind".to_string()),
    ];
    let row = |name: &str, size: &str, kind: &str| {
        vec![name.to_string(), size.to_string(), kind.to_string()]
    };
    let options = vec![
        (7, row("same", "1", "rust")),
        (7, row("same", "1", "rust")),
        (9, row("other", "rust", "text")),
    ];
    let mut picker = Picker::new(columns, 0, &options, || {});
    settled(&mut picker, 3);
    assert_eq!(picker.item_count(), 3);
    let mut all = page(&picker);
    all.sort();
    assert_eq!(all, vec![7, 7, 9]);
    picker.handle_prompt_change(vec![None, None, Some("rust".to_string())], false);
    settled(&mut picker, 2);
    assert_eq!(page(&picker), vec![7, 7]);
}

#[test]
fn previewed_items_are_matched_as_paths() {
    let options = vec![(0, vec!["x foo".to_string()]), (1, vec!["x/foo".to_string()])];
    let query = || vec![Some("foo".to_string())];
    let columns = vec![Column::new("name".to_string())];
    let mut plain = Picker::new(columns, 0, &options, || {});
    plain.handle_prompt_change(query(), false);
    settled(&mut plain, 2);
    assert_eq!(page(&plain), vec![0, 1]);
    let columns = vec![Column::new("name".to_string())];
    let mut paths = Picker::new(columns, 0, &options, || {}).with_preview();
    paths.handle_prompt_change(query(), false);
    settled(&mut paths, 2);
    assert_eq!(page(&paths), vec![1, 0]);
}

#[test]
fn new_query_is_searched_for() {
    let mut picker = picker();
    picker.to_end();
    picker.handle_prompt_change(vec![Some("beta".to_string())], false);
    let (changed, running) = picker.refresh();
    assert!(changed || running);
    settled(&mut picker, 1);
    assert_eq!(picker.selection(), Some(1));
}

#[test]
fn cursor_follows_the_list() {
    let mut picker = picker().with_initial_cursor(9);
    picker.follow_list(false);
    assert_eq!(picker.cursor, 9);
    picker.follow_list(true);
    assert_eq!(picker.cursor, 2);
    picker.to_start();
    picker.follow_list(true);
    assert_eq!(picker.cursor, 0);
}

#[test]
fn matches_are_marked() {
    let mut picker = picker();
    picker.handle_prompt_change(vec![Some("gam".to_string())], false);
    settled(&mut picker, 1);
    let cells = vec![vec![("gamma.txt".to_string(), Style::new())]];
    let row = picker.present_row(0, &cells, &theme());
    let spans = row[0].as_ref().unwrap();
    assert_eq!(spans[0], ("gam".to_string(), theme().special.bold()));
    assert_eq!(spans.iter().map(|s| s.0.as_str()).collect::<String>(), "gamma.txt");
}

#[test]
fn moves_wrap_around() {
    let mut picker = picker();
    assert_eq!(picker.cursor, 0);
    picker.move_by(1, Direction::Backward);
    assert_eq!(picker.cursor, 2);
    picker.move_by(1, Direction::Forward);
    assert_eq!(picker.cursor, 0);
    picker.to_end();
    assert_eq!(picker.cursor, 2);
    picker.to_start();
    assert_eq!(picker.cursor, 0);
}

#[test]
fn keys_choose_and_close() {
    let mut picker = picker();
    let chosen = picker.selection();
    match press(&mut picker, Key::ctrl('s')) {
        PickerAction::ChooseAndClose { item, action, record, keep } => {
            assert_eq!(item, chosen);
            assert_eq!(action, Action::HorizontalSplit);
            assert_eq!(record, None);
            assert!(keep);
        }
        _ => panic!("expected a choice"),
    }
    picker.history_register = Some('/');
    match press(&mut picker, Key::plain(KeyCode::Enter)) {
        PickerAction::ChooseAndClose { record, .. } => assert_eq!(record, Some('/')),
        _ => panic!("expected a choice"),
    }
    let offered = PromptState { is_empty: true, completion: Some("50%".to_string()) };
    match picker.handle_event(&Event::Key(Key::plain(KeyCode::Enter)), &offered) {
        PickerAction::Fill { line } => assert_eq!(line, "50\\%"),
        _ => panic!("expected a completion"),
    }
    assert!(matches!(press(&mut picker, Key::plain(KeyCode::Esc)), PickerAction::Close { .. }));
    assert!(matches!(
        press(&mut picker, Key::plain(KeyCode::Char('q'))),
        PickerAction::Prompt { .. }
    ));
    press(&mut picker, Key::plain(KeyCode::Down));
    assert_eq!(picker.cursor, 1);
    let shown = picker.show_preview;
    press(&mut picker, Key::ctrl('t'));
    assert_eq!(picker.show_preview, !shown);
}

#[test]
fn closed_picker_takes_no_items() {
    let (matcher, injector) = Picker::stream(vec![Column::new("name".to_string())], || {});
    let texts = vec!["late".to_string()];
    assert!(injector.push(0, 7, &texts).is_ok());
    assert!(injector.push(next_version(0), 8, &texts).is_err());
    assert_eq!(next_version(usize::MAX), 0);
    let mut picker = Picker::with_stream(matcher, 0, vec![Column::new("name".to_string())]);
    for _ in 0..1000 {
        picker.refresh();
        if page(&picker).len() == 1 {
            break;
        }
    }
    assert_eq!(page(&picker), vec![7]);
    let again: Injector = picker.injector(3);
    assert_eq!(again.version, 3);
}

#[test]
fn builders() {
    let picker = picker()
        .truncate_start(false)
        .with_preview()
        .with_custom_preview()
        .with_history_register(Some('/'))
        .with_initial_cursor(2)
        .with_default_action(Action::VerticalSplit);
    assert!(!picker.truncate_start);
    assert!(picker.file_preview && picker.custom_preview);
    assert_eq!(picker.history_register, Some('/'));
    assert_eq!(picker.cursor, 2);
    assert_eq!(picker.default_action, Action::VerticalSplit);
    let (picker, change) = picker.with_dynamic_query();
    assert!(picker.dynamic);
    assert!(change.is_paste);
    assert_eq!(change.query, "");
}

#[test]
fn dynamic_queries_are_reported() {
    let (mut picker, _) = picker().with_dynamic_query();
    let change = picker.handle_prompt_change(vec![Some("x".to_string())], true).unwrap();
    assert_eq!(change.query, "x");
    assert!(change.is_paste);
}

#[test]
fn preview_needs_room() {
    let mut picker = picker().with_preview();
    let (table, preview) = picker.split(area(MIN_AREA_WIDTH_FOR_PREVIEW + 1, 10));
    assert!(table.width > 0);
    assert!(preview.is_some());
    let (_, preview) = picker.split(area(MIN_AREA_WIDTH_FOR_PREVIEW - 1, 10));
    assert!(preview.is_none());
    picker.toggle_preview();
    let (_, preview) = picker.split(area(200, 10));
    assert!(preview.is_none());
}

#[test]
fn columns_have_headers() {
    let columns = vec![
        Column::new("path".to_string()),
        Column::hidden("contents".to_string()),
        Column::new("line".to_string()).without_filtering(),
    ];
    let picker = Picker::new(columns, 0, &Vec::new(), || {});
    assert_eq!(picker.header_height(), 1);
    assert_eq!(picker.widths, vec![4, 8, 4]);
    let cells = picker.header_cells(Some(0), &theme()).unwrap();
    assert_eq!(cells[0], Some(("path".to_string(), theme().active_column)));
    assert_eq!(cells[1], None);
    assert_eq!(cells[2], Some(("line".to_string(), theme().header_column)));
}

#[test]
fn cells_are_highlighted_by_grapheme() {
    let mark = Style::new().bold();
    let spans = vec![("e\u{301}ab".to_string(), Style::new())];
    assert_eq!(
        highlight_cell(&spans, &vec![0, 2], mark),
        vec![
            ("e\u{301}".to_string(), mark),
            ("a".to_string(), Style::new()),
            ("b".to_string(), mark),
        ]
    );
}

#[test]
fn wide_cells_widen_their_column() {
    let columns = vec![Column::new("n".to_string())];
    let cells = vec![vec![("日本語".to_string(), Style::new())]];
    let mut widths = vec![1];
    format_row(&columns, &cells, &vec![Vec::new()], Style::new(), &mut widths);
    assert_eq!(widths, vec![6]);
}

#[test]
fn counts_are_laid_out() {
    let picker = picker();
    let layout = picker.layout(area(80, 20), true);
    assert_eq!(layout.count, "(running) 3/3");
    assert_eq!(picker.layout(area(80, 20), false).count, "3/3");
    assert_eq!((layout.offset, layout.end, layout.selected), (0, 3, 0));
    assert!(picker.is_running(true));
    assert!(counts_as_running(false, 1));
    assert!(!counts_as_running(false, 0));
}

#[test]
fn percent_is_escaped() {
    assert_eq!(escape_percent("100% %x"), "100\\% \\%x");
    assert_eq!(escape_percent("plain"), "plain");
}

#[test]
fn previews_are_kept() {
    let mut cache = PreviewCache::new();
    assert!(cache.get("a").is_none());
    cache.insert("a".to_string(), CachedPreview::Binary);
    cache.insert("b".to_string(), CachedPreview::Document(4));
    assert!(matches!(cache.get("a"), Some(CachedPreview::Binary)));
    cache.insert("a".to_string(), CachedPreview::LargeFile);
    assert!(matches!(cache.get("a"), Some(CachedPreview::LargeFile)));
    assert!(matches!(cache.get("b"), Some(CachedPreview::Document(4))));
    assert_eq!(cache.entries.len(), 2);
}

#[test]
fn sources_of_a_preview() {
    let path = Some(PathOrId::from("a".to_string()));
    let id = Some(PathOrId::from(3u64));
    assert_eq!(preview_source(false, true, &path, true, true), PreviewSource::Nothing);
    assert_eq!(preview_source(true, true, &path, true, true), PreviewSource::Custom);
    assert_eq!(preview_source(true, false, &None, true, true), PreviewSource::Nothing);
    assert_eq!(preview_source(true, false, &id, false, false), PreviewSource::Document(3));
    assert_eq!(preview_source(true, false, &path, true, true), PreviewSource::OpenFile);
    assert_eq!(preview_source(true, false, &path, false, true), PreviewSource::Cached);
    assert_eq!(preview_source(true, false, &path, false, false), PreviewSource::Load);
}

#[test]
fn files_are_loaded() {
    let most = MAX_FILE_SIZE_FOR_PREVIEW;
    let metadata = |kind: FileKind| load_action(LoadEvent::Metadata(kind));
    assert!(matches!(metadata(FileKind::Directory), LoadAction::List));
    assert!(matches!(
        metadata(FileKind::File { len: most }),
        LoadAction::ReadHead { limit: 1024 }
    ));
    assert!(matches!(
        metadata(FileKind::File { len: most + 1 }),
        LoadAction::Done(CachedPreview::LargeFile)
    ));
    assert!(matches!(metadata(FileKind::Other), LoadAction::Done(CachedPreview::NotFound)));
    let entries = vec![("src".to_string(), true), ("a.rs".to_string(), false)];
    match load_action(LoadEvent::Listed(entries)) {
        LoadAction::Done(CachedPreview::Directory(names)) => {
            assert_eq!(names, vec![("src/".to_string(), true), ("a.rs".to_string(), false)]);
        }
        _ => panic!("expected a directory"),
    }
    assert!(matches!(
        load_action(LoadEvent::Opened(9)),
        LoadAction::Done(CachedPreview::Document(9))
    ));
    assert!(matches!(
        load_action(LoadEvent::Failed),
        LoadAction::Done(CachedPreview::NotFound)
    ));
}

#[test]
fn binary_files_are_told_by_their_start() {
    let is_binary = |head: &[u8]| match load_action(LoadEvent::Head(head.to_vec())) {
        LoadAction::Done(CachedPreview::Binary) => true,
        LoadAction::Open => false,
        _ => panic!("unexpected step"),
    };
    assert!(!is_binary(b""));
    assert!(!is_binary(b"fn main() {}"));
    assert!(is_binary(b"a\0b"));
    assert!(is_binary(b"%PDF-1.7"));
    assert!(is_binary(b"\x89PNG\r\n"));
    assert!(!is_binary(b"%PD"));
    assert!(!is_binary(b"\xef\xbb\xbfa\0b"));
    assert!(!is_binary(b"\xff\xfea\0b\0"));
    assert!(!is_binary(b"\xfe\xff\0a"));
    assert!(!is_binary(b"\0\0\xfe\xff\0\0\0a"));
    let mut late = vec![b'a'; 1024];
    late.push(0);
    assert!(!is_binary(&late));
    late[1023] = 0;
    assert!(is_binary(&late));
}

#[test]
fn contents_of_a_preview() {
    let doc = CachedPreview::Document(5);
    let text = CachedPreview::CustomText { content: "x".to_string(), is_diff: true };
    let dir = CachedPreview::Directory(vec![("a".to_string(), false)]);
    let shown = Preview::Cached(&doc);
    assert_eq!(shown.document(), Some(5));
    assert!(matches!(
        preview_content(None, Some(&shown), Some((1, 3)), 3),
        Content::Document(5)
    ));
    assert!(matches!(
        preview_content(None, Some(&shown), Some((1, 4)), 3),
        Content::Placeholder("<Invalid file location>")
    ));
    assert!(matches!(
        preview_content(None, Some(&shown), Some((2, 1)), 3),
        Content::Placeholder(_)
    ));
    assert!(matches!(
        preview_content(Some(&text), Some(&shown), None, 3),
        Content::Text { content: "x", is_diff: true }
    ));
    let listed = Preview::Cached(&dir);
    assert_eq!(listed.dir_content().map(|d| d.len()), Some(1));
    assert!(matches!(
        preview_content(Some(&doc), Some(&listed), None, 0),
        Content::Directory(_)
    ));
    assert!(matches!(preview_content(None, None, None, 0), Content::Nothing));
    assert!(wants_highlighting(&doc, false));
    assert!(!wants_highlighting(&doc, true));
    assert!(!wants_highlighting(&dir, false));
}

#[test]
fn placeholders() {
    let text = |c: CachedPreview| Preview::Cached(&c).placeholder();
    assert_eq!(text(CachedPreview::Binary), "<Binary file>");
    assert_eq!(text(CachedPreview::LargeFile), "<File too large to preview>");
    assert_eq!(text(CachedPreview::NotFound), "<File not found>");
    assert_eq!(text(CachedPreview::Directory(Vec::new())), "<Invalid directory location>");
    let custom = CachedPreview::CustomText { content: String::new(), is_diff: false };
    assert_eq!(text(custom), "<No content>");
    assert_eq!(Preview::EditorDocument(1).placeholder(), "<Invalid file location>");
    let ops = draw_placeholder(area(21, 5), "<Binary file>", &theme()).ops;
    assert_eq!(
        ops,
        vec![DrawOp::Text {
            x: 4,
            y: 2,
            text: "<Binary file>".to_string(),
            max: 21,
            style: theme().text,
        }]
    );
}

#[test]
fn preview_is_bordered() {
    let (canvas, inner) = draw_preview_border(area(20, 10), &theme());
    assert_eq!(canvas.ops.len(), 2);
    assert_eq!(inner, Rect { x: 2, y: 1, width: 16, height: 8 });
}

#[test]
fn custom_text_is_drawn() {
    let t = theme();
    let ops = render_custom_text_preview(area(9, 4), "@@ h\n +a\n-b\nc\nd", true, &t).ops;
    let styles: Vec<Style> = ops
        .iter()
        .map(|op| match op {
            DrawOp::Text { style, .. } => *style,
            _ => panic!("expected text"),
        })
        .collect();
    assert_eq!(styles, vec![t.diff_delta, t.diff_plus, t.diff_minus, t.text]);
    let ops = render_custom_text_preview(area(9, 4), "+a", false, &t).ops;
    assert!(matches!(&ops[0], DrawOp::Text { style, .. } if *style == t.text));
}

#[test]
fn directories_are_drawn() {
    let entries = vec![("src/".to_string(), true), ("a".to_string(), false)];
    let ops = draw_directory(area(9, 1), &entries, &theme()).ops;
    assert_eq!(ops.len(), 1);
    assert!(matches!(&ops[0], DrawOp::Text { style, .. } if *style == theme().directory));
}

#[test]
fn documents_are_aligned() {
    assert_eq!(alignment(None, 10), Alignment::Top);
    assert_eq!(alignment(Some((4, 9)), 10), Alignment::Middle { line: 6 });
    assert_eq!(alignment(Some((4, 14)), 10), Alignment::AtStart);
    assert_eq!(view_anchor(Alignment::Top, 50, (7, 7)), (0, 0));
    assert_eq!(view_anchor(Alignment::AtStart, 50, (7, 7)), (50, 0));
    assert_eq!(view_anchor(Alignment::Middle { line: 6 }, 50, (40, 2)), (40, 2));
    assert_eq!(view_anchor(Alignment::Middle { line: 6 }, 50, (60, 2)), (50, 0));
    let t = theme();
    assert_eq!(range_style(Some((2, 4)), 4, &t), Some(t.selection));
    assert_eq!(range_style(Some((2, 4)), 5, &t), None);
    assert_eq!(range_style(None, 0, &t), None);
}

fn changed() -> Vec<DiffLine> {
    vec![
        DiffLine::HunkHeader { text: "@@ -1 +1 @@".to_string() },
        DiffLine::Deletion { base_line: 1, content: "a one".to_string() },
        DiffLine::Deletion { base_line: 2, content: "b".to_string() },
        DiffLine::Addition { doc_line: 1, content: "a two".to_string() },
        DiffLine::Context { base_line: Some(3), doc_line: None, content: "é日x".to_string() },
    ]
}

#[test]
fn deletions_pair_with_additions_of_their_hunk() {
    let lines = changed();
    assert_eq!(word_diff_pairs(&lines, &vec![(0, 5)], 20), vec![(1, 3)]);
    assert_eq!(word_diff_pairs(&lines, &vec![(0, 3), (3, 5)], 20), Vec::new());
    assert_eq!(word_diff_pairs(&lines, &vec![(1, 5)], 1), Vec::new());
}

#[test]
fn diff_lines_in_pieces() {
    let t = theme();
    let styles = diff_styles(&t);
    let lines = changed();
    let pieces = diff_line_pieces(&lines[1], &None, &Vec::new(), &styles);
    let text: String = pieces.iter().map(|p| p.0.as_str()).collect();
    assert_eq!(text, "        1- │ a one");
    assert!(pieces.iter().all(|p| p.1 == styles.minus));
    assert_eq!(styles.minus.bg, Some(Color::Rgb(80, 40, 40)));
    let words = Some(vec![
        WordSegment { text: "a ".to_string(), is_emph: false },
        WordSegment { text: "one".to_string(), is_emph: true },
    ]);
    let pieces = diff_line_pieces(&lines[1], &words, &Vec::new(), &styles);
    assert_eq!(pieces[5], ("a ".to_string(), styles.minus));
    assert_eq!(pieces[6], ("one".to_string(), styles.minus_emph));
    let over = Style::new().with_fg(Color::Blue).with_bg(Color::Black);
    let pieces = diff_line_pieces(&lines[4], &None, &vec![(2, 5, over)], &styles);
    let text: String = pieces.iter().map(|p| p.0.as_str()).collect();
    assert_eq!(text, "   3       │ é日x");
    assert_eq!(pieces[5].0, "é");
    assert_eq!(pieces[6].0, "日");
    assert_eq!(pieces[6].1.fg, Some(Color::Blue));
    assert_eq!(pieces[7].0, "x");
    let pieces = diff_line_pieces(&lines[3], &None, &vec![(0, 1, over)], &styles);
    assert_eq!(pieces[5].1.bg, Some(Color::Rgb(40, 80, 40)));
}

#[test]
fn diff_preview_is_drawn() {
    let lines = changed();
    let hunks = vec![Hunk { before: 0..2, after: 0..1 }];
    let details = LineDetails { words: Vec::new(), highlights: Vec::new() };
    let inner = Rect { x: 1, y: 1, width: 14, height: 3 };
    let ops = render_diff_preview(inner, &lines, &details, &hunks, "f.rs", &theme()).ops;
    assert!(matches!(&ops[0], DrawOp::Text { text, y: 1, .. } if text == " f.rs: +1 -2 "));
    assert!(matches!(&ops[1], DrawOp::Text { text, y: 2, .. } if text == "@@ -1 +1 @@"));
    let row: Vec<(u16, String, usize)> = ops[2..]
        .iter()
        .map(|op| match op {
            DrawOp::Text { x, y: 3, text, max, .. } => (*x, text.clone(), *max),
            _ => panic!("expected text in the third row"),
        })
        .collect();
    assert_eq!(row[0], (1, "     ".to_string(), 5));
    assert_eq!(row[1], (6, "   1".to_string(), 4));
    assert_eq!(row[4], (13, " ".to_string(), 1));
    assert_eq!(row[5], (14, "a one".to_string(), 1));
    assert_eq!(row.len(), 6);
}

#[test]
fn highlights_that_cut_characters_do_not_fit() {
    let lines = changed();
    let fits = |from: usize, to: usize| {
        let mut highlights: Vec<Vec<(usize, usize, Style)>> = vec![Vec::new(); 4];
        highlights.push(vec![(from, to, Style::new())]);
        let details = LineDetails { words: Vec::new(), highlights };
        highlights_fit(&lines, &details, 20, &theme())
    };
    assert!(fits(0, 2));
    assert!(fits(2, 100));
    assert!(!fits(0, 1));
    assert!(!fits(3, 5));
}

fn blamed(hash: &str, line_no: usize) -> BlameLine {
    BlameLine {
        hash: hash.to_string(),
        short_hash: hash.chars().take(7).collect(),
        author: "Ann".to_string(),
        date: "2024-01-02".to_string(),
        relative_date: "2 days ago".to_string(),
        line_no,
        content: format!("line {}", line_no),
        is_boundary: false,
    }
}

#[test]
fn texts_are_fitted() {
    assert_eq!(truncate_str("abc", 5), "abc");
    assert!(truncate_str("abcdef", 4).chars().count() <= 4);
    assert_eq!(fit_to_width("ab", 4), "ab  ");
    assert_eq!(fit_to_width("日本語", 2).chars().count(), 2);
}

#[test]
fn blame_moves() {
    let lines: Vec<BlameLine> = (1..=50)
        .map(|n| blamed(if n <= 25 { "aaaaaaaa" } else { "bbbbbbbb" }, n))
        .collect();
    let mut view = BlameView::new(lines, "f.rs".to_string(), 0);
    view.render(area(100, 12), &theme());
    assert!(view.is_first_in_group(0));
    assert!(!view.is_first_in_group(1));
    assert!(view.is_first_in_group(25));
    view.scroll_down(30);
    assert_eq!(view.selected_line, 30);
    assert!(view.scroll <= 30 && 30 < view.scroll + view.visible_lines);
    view.scroll_up(100);
    assert_eq!(view.selected_line, 0);
    view.jump_to_end();
    assert_eq!(view.selected_line, 49);
    view.jump_to_start();
    assert_eq!(view.selected_line, 0);
    let close = view.handle_event(&Event::Key(Key::plain(KeyCode::Esc)));
    assert!(matches!(close, BlameAction::Close));
    assert_eq!(BlameView::hash_color("abc"), BlameView::hash_color("abc"));
}

#[test]
fn blame_of_nothing_fits_anywhere() {
    let mut view = BlameView::new(Vec::new(), "f.rs".to_string(), 0);
    let far = Rect { x: u16::MAX - 20, y: 0, width: 20, height: 3 };
    assert_eq!(view.render(far, &theme()).ops.len(), 1);
    let narrow = Rect { x: u16::MAX - 5, y: 0, width: 5, height: 3 };
    assert!(view.render(narrow, &theme()).ops.is_empty());
}
