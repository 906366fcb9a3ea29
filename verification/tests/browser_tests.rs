use palimpsest::browser::{Key, MouseButton, UiAction, UiEvent, UiState, OUTPUT_LIMIT};
use palimpsest::browser_frame::FrameWork;
use palimpsest::browser_mouse::row_item;
use palimpsest::compare::{CompareFailure, CompareRequest};
use palimpsest::ink::InkStore;
use palimpsest::tree::{build_tree, flatten, merge_status, toggle_path};
use palimpsest::tui::{detail_scroll_offset, help_area, ActionKind, DiffLineType, Focus, Rect};
use palimpsest::types::{Epoch, FileEntry, FileStatus, Phantom, SnapshotType};

fn epoch(id: i64, num: i64) -> Epoch {
    Epoch { id, epoch_num: num, timestamp: num, message: None, is_origin: num == 0, is_deleted: false, is_locked: false }
}

fn phantom(id: i64, num: i64) -> Phantom {
    Phantom { id, phantom_num: num, timestamp: 0, expires_at: 10, message: None, is_deleted: false }
}

fn entry(path: &str, hash: Option<&str>, status: FileStatus) -> FileEntry {
    FileEntry {
        id: 0,
        snapshot_id: 1,
        snapshot_type: SnapshotType::Epoch,
        file_path: path.to_string(),
        ink_hash: hash.map(|h| h.to_string()),
        file_size: Some(1),
        modified_at: None,
        status,
        is_binary: false,
    }
}

fn key(c: char) -> UiEvent {
    UiEvent::Key(Key::Char(c))
}

fn browser() -> UiState {
    let (mut s, a) = UiState::new("proj".to_string(), vec![epoch(10, 0), epoch(11, 1)], vec![phantom(20, 1)]);
    assert!(matches!(a, UiAction::LoadEntries { snapshot_id: 10, kind: SnapshotType::Epoch, fatal: true }));
    s.entries_loaded(vec![
        entry("src/b.rs", None, FileStatus::Modified),
        entry("README", None, FileStatus::Unchanged),
        entry("src/a.rs", None, FileStatus::Added),
    ]);
    s
}

fn row_paths(s: &UiState) -> Vec<String> {
    s.visible_rows.iter().map(|r| r.full_path.clone()).collect()
}

#[test]
fn new_browser_shows_folders_first() {
    let s = browser();
    assert_eq!(row_paths(&s), vec!["src", "README"]);
    assert_eq!(s.visible_rows[0].status, Some(FileStatus::Added));
    assert!(s.running);
    assert_eq!(s.selected_file_idx, 0);
}

#[test]
fn opening_a_folder_twice_closes_it() {
    let mut s = browser();
    s.focus = Focus::Files;
    s.handle_event(UiEvent::Key(Key::Enter));
    assert_eq!(row_paths(&s), vec!["src", "src/a.rs", "src/b.rs", "README"]);
    assert_eq!(s.visible_rows[1].depth, 1);
    s.handle_event(UiEvent::Key(Key::Enter));
    assert_eq!(row_paths(&s), vec!["src", "README"]);
}

#[test]
fn typing_then_backspace_restores_search() {
    let mut s = browser();
    s.handle_event(key('/'));
    assert_eq!(s.focus, Focus::Search);
    s.handle_event(key('a'));
    s.handle_event(key('b'));
    assert_eq!(s.search_query, vec!['a', 'b']);
    s.handle_event(UiEvent::Key(Key::Backspace));
    assert_eq!(s.search_query, vec!['a']);
    assert_eq!(s.search_cursor, 1);
    s.handle_event(UiEvent::Key(Key::Home));
    s.handle_event(key('x'));
    assert_eq!(s.search_query, vec!['x', 'a']);
    s.handle_event(UiEvent::Key(Key::Esc));
    assert!(s.search_query.is_empty());
    assert_eq!(s.focus, Focus::Timeline);
}

#[test]
fn help_and_quit() {
    let mut s = browser();
    s.handle_event(key('?'));
    assert!(s.show_help);
    s.handle_event(key('q'));
    assert!(!s.show_help);
    assert!(s.running);
    s.handle_event(UiEvent::Key(Key::Esc));
    assert!(!s.running);
}

#[test]
fn down_selects_next_item() {
    let mut s = browser();
    let a = s.handle_event(UiEvent::Key(Key::Down));
    assert_eq!(s.selected_idx, 1);
    assert!(matches!(a, UiAction::LoadEntries { snapshot_id: 11, kind: SnapshotType::Epoch, fatal: false }));
    let a = s.handle_event(UiEvent::Key(Key::End));
    assert_eq!(s.selected_idx, 2);
    assert!(matches!(a, UiAction::LoadEntries { snapshot_id: 20, kind: SnapshotType::Phantom, fatal: true }));
    let a = s.handle_event(UiEvent::Key(Key::Down));
    assert_eq!(s.selected_idx, 2);
    assert!(matches!(a, UiAction::Nothing));
}

#[test]
fn output_keeps_newest_hundred_lines() {
    let mut s = browser();
    for i in 0..(OUTPUT_LIMIT + 5) {
        s.add_output(format!("line {}", i));
    }
    assert_eq!(s.command_output.len(), OUTPUT_LIMIT);
    assert_eq!(s.command_output[0], format!("line {}", OUTPUT_LIMIT + 4));
    assert_eq!(s.output_scroll, 0);
    s.handle_event(key('c'));
    assert!(s.command_output.is_empty());
}

#[test]
fn confirming_and_cancelling_timeline_actions() {
    let mut s = browser();
    s.initiate_action(ActionKind::Delete, 1, false);
    assert_eq!(s.command_output[0], "  Delete epoch-1?  [y/N]");
    s.handle_event(key('n'));
    assert_eq!(s.command_output[0], "✖ Cancelled deletion of epoch-1");
    assert!(s.pending_action.is_none());
    s.initiate_action(ActionKind::Restore, 2, false);
    s.handle_event(key('y'));
    assert_eq!(s.command_output[0], "● Restoring to phantom-1...");
    match s.take_pending_execute() {
        FrameWork::RunThenReload { args } => assert_eq!(args, vec!["restore", "phantom-1", "proj", "-y"]),
        other => panic!("unexpected {:?}", other),
    }
    assert!(matches!(s.take_pending_execute(), FrameWork::Idle));
    s.initiate_action(ActionKind::Delete, 0, true);
    match s.take_pending_execute() {
        FrameWork::RunThenReload { args } => assert_eq!(args, vec!["rm-origin", "proj"]),
        other => panic!("unexpected {:?}", other),
    }
}

#[test]
fn picker_lists_palins_by_name() {
    let mut s = browser();
    s.picker_opened(vec![("zeta".into(), "/z".into()), ("proj".into(), "/p".into()), ("alpha".into(), "/a".into())]);
    let names: Vec<String> = s.all_palins.iter().map(|p| p.0.clone()).collect();
    assert_eq!(names, vec!["alpha", "proj", "zeta"]);
    assert_eq!(s.picker_selected, 1);
    s.handle_event(UiEvent::Key(Key::Down));
    match s.handle_event(UiEvent::Key(Key::Enter)) {
        UiAction::SwitchPalin { name } => assert_eq!(name, "zeta"),
        other => panic!("unexpected {:?}", other),
    }
    s.handle_event(UiEvent::Key(Key::Up));
    s.handle_event(key('d'));
    assert!(s.picker_confirm_delete.is_none());
    s.handle_event(UiEvent::Key(Key::Up));
    s.handle_event(key('d'));
    assert_eq!(s.picker_confirm_delete, Some("alpha".to_string()));
}

#[test]
fn rename_trims_the_new_name() {
    let mut s = browser();
    s.begin_rename();
    assert_eq!(s.rename_input.iter().collect::<String>(), "proj");
    for _ in 0..4 {
        s.handle_event(UiEvent::Key(Key::Backspace));
    }
    for c in "  work \t".chars() {
        s.handle_event(key(c));
    }
    match s.handle_event(UiEvent::Key(Key::Enter)) {
        UiAction::Rename { old_name, new_name } => {
            assert_eq!(old_name, "proj");
            assert_eq!(new_name, "work");
        },
        other => panic!("unexpected {:?}", other),
    }
    assert!(!s.rename_mode);
    s.rename_finished("work".to_string(), b"renamed\n", b"", true);
    assert_eq!(s.palin_name, "work");
    assert_eq!(s.command_output[0], "✦ Palin renamed");
}

#[test]
fn comparing_a_file_between_items() {
    let mut s = browser();
    s.focus = Focus::Files;
    s.handle_event(UiEvent::Key(Key::Enter));
    s.handle_event(UiEvent::Key(Key::Down));
    s.handle_event(key('d'));
    assert!(s.compare_mode);
    assert_eq!(s.compare_file_path, "src/a.rs");
    assert_eq!(s.focus, Focus::Timeline);
    s.handle_event(UiEvent::Key(Key::Down));
    s.handle_event(key('d'));
    assert!(s.take_compare());
    let req = s.compare_request().unwrap();
    assert_eq!((req.source_id, req.target_id), (10, 11));
    let mut inks = InkStore::new();
    inks.add("h1".into(), b"one\ntwo\n".to_vec());
    inks.add("h2".into(), b"one\n2\nthree\n".to_vec());
    let src = vec![entry("src/a.rs", Some("h1"), FileStatus::Added)];
    let tgt = vec![entry("src/a.rs", Some("h2"), FileStatus::Modified)];
    s.finish_compare(&req, &src, &tgt, &inks);
    let kinds: Vec<DiffLineType> = s.compare_result_lines.iter().map(|l| l.line_type).collect();
    assert_eq!(kinds, vec![DiffLineType::Same, DiffLineType::Replaced, DiffLineType::Added, DiffLineType::Added]);
    assert_eq!(s.command_output[0], "✦ Diff: origin vs epoch-1 — 4 lines (+2 / ~1 / -0)");
    s.finish_compare(&req, &src, &[], &inks);
    assert_eq!(s.compare_error, Some("File not available to compare".to_string()));
    s.compare_failed(CompareFailure::Db("locked".into()));
    assert_eq!(s.compare_error, Some("DB error: locked".to_string()));
    let _unused: Option<CompareRequest> = None;
}

#[test]
fn compared_lines_rebuild_both_files() {
    let mut s = browser();
    s.focus = Focus::Files;
    s.handle_event(UiEvent::Key(Key::Enter));
    s.handle_event(UiEvent::Key(Key::Down));
    s.handle_event(key('d'));
    s.handle_event(UiEvent::Key(Key::Down));
    s.handle_event(key('d'));
    assert!(s.take_compare());
    let req = s.compare_request().unwrap();
    let mut inks = InkStore::new();
    inks.add("h1".into(), b"one\ntwo\nfour".to_vec());
    inks.add("h2".into(), b"zero\none\nthree\nfour".to_vec());
    let src = vec![entry("src/a.rs", Some("h1"), FileStatus::Added)];
    let tgt = vec![entry("src/a.rs", Some("h2"), FileStatus::Modified)];
    s.finish_compare(&req, &src, &tgt, &inks);
    let old_side: Vec<&str> = s
        .compare_result_lines
        .iter()
        .filter(|l| l.line_type != DiffLineType::Added)
        .map(|l| l.content.as_str())
        .collect();
    let new_side: Vec<&str> = s
        .compare_result_lines
        .iter()
        .filter(|l| l.line_type == DiffLineType::Same || l.line_type == DiffLineType::Added)
        .map(|l| l.content.as_str())
        .collect();
    assert_eq!(old_side, vec!["one", "two", "four"]);
    assert_eq!(new_side, vec!["zero", "one", "three", "four"]);
    s.finish_compare(&req, &[], &tgt, &inks);
    assert!(s.compare_result_lines.iter().all(|l| l.line_type == DiffLineType::Added));
    let shown: Vec<&str> = s.compare_result_lines.iter().map(|l| l.content.as_str()).collect();
    assert_eq!(shown, vec!["zero", "one", "three", "four"]);
}

#[test]
fn commands_report_their_output() {
    let mut s = browser();
    s.command_finished(b"a\nb\n", b"oops\n", false, Some(2));
    assert_eq!(s.command_output[0], "✖ Command exited with code Some(2)");
    assert_eq!(s.command_output[1], "✖ oops");
    assert_eq!(s.command_output[2], "b");
    assert_eq!(s.command_output[3], "a");
    s.gc_checked(&[]);
    assert_eq!(s.command_output[0], "✦ No unreferenced inks to clean up.");
    s.gc_checked(&[10, 20]);
    assert!(s.pending_gc);
    assert_eq!(s.command_output[0], "  2 unreferenced ink(s) (30 bytes). GC? [y/N]");
    assert!(matches!(s.handle_event(key('y')), UiAction::RunGc));
    assert!(!s.pending_gc);
    s.gc_done(&[10]);
    assert_eq!(s.command_output[0], "✦ GC complete: deleted 1 unreferenced ink(s) (10 bytes reclaimed)");
}

#[test]
fn snapshot_spinner_and_end() {
    let mut s = browser();
    assert!(matches!(s.handle_event(key('s')), UiAction::StartSnap));
    assert!(s.snap_in_progress);
    assert_eq!(s.command_output[0], "◐ Scanning files...");
    s.begin_frame();
    s.begin_frame();
    assert_eq!(s.command_output[0], "◓ Scanning files...");
    assert!(matches!(s.handle_event(key('s')), UiAction::Nothing));
    assert_eq!(s.command_output[0], "  Snap already in progress...");
    let reload = s.snap_finished(&["first".to_string(), "second".to_string()], None);
    assert!(reload);
    assert!(!s.snap_in_progress);
    assert_eq!(s.command_output[0], "second");
}

#[test]
fn clicks_select_timeline_items_and_buttons() {
    let mut s = browser();
    s.areas.timeline_list = Rect { x: 0, y: 2, width: 30, height: 10 };
    s.areas.snap_button = Rect { x: 40, y: 0, width: 6, height: 1 };
    let press = |column: u16, row: u16| UiEvent::Press { button: MouseButton::Left, column, row, shift: false };
    // Headers are shown: row 2 is the epochs header, rows 3 and 4 the epochs.
    assert!(matches!(s.handle_event(press(1, 2)), UiAction::Nothing));
    let a = s.handle_event(press(1, 4));
    assert_eq!(s.selected_idx, 1);
    assert!(matches!(a, UiAction::LoadEntries { snapshot_id: 11, .. }));
    let a = s.handle_event(press(1, 6));
    assert_eq!(s.selected_idx, 2);
    assert!(matches!(a, UiAction::LoadEntries { snapshot_id: 20, kind: SnapshotType::Phantom, .. }));
    assert!(matches!(s.handle_event(press(41, 0)), UiAction::StartSnap));
    assert!(s.event_defined(press(1, 1)));
}

#[test]
fn status_merging_prefers_weightier_changes() {
    assert_eq!(merge_status(Some(FileStatus::Deleted), Some(FileStatus::Added)), Some(FileStatus::Added));
    assert_eq!(merge_status(Some(FileStatus::Unchanged), None), Some(FileStatus::Unchanged));
    assert_eq!(merge_status(None, None), None);
    assert_eq!(merge_status(Some(FileStatus::Modified), Some(FileStatus::Deleted)), Some(FileStatus::Modified));
}

#[test]
fn tree_rows_and_toggling() {
    let entries = vec![entry("b/x", None, FileStatus::Deleted), entry("a", None, FileStatus::Unchanged)];
    let tree = build_tree(&entries);
    assert_eq!(tree.len(), 2);
    assert_eq!(tree[0].name, "b");
    assert_eq!(tree[0].status, Some(FileStatus::Deleted));
    let mut open: Vec<String> = Vec::new();
    toggle_path(&mut open, "b");
    let rows = flatten(&tree, &open);
    assert_eq!(rows.len(), 3);
    toggle_path(&mut open, "b");
    assert!(open.is_empty());
    assert_eq!(flatten(&tree, &open).len(), 2);
}

#[test]
fn screen_geometry() {
    assert_eq!(help_area(100, 40), (22, 8, 56, 24));
    assert_eq!(help_area(20, 10), (2, 0, 16, 12));
    assert_eq!(detail_scroll_offset(3, 10), 0);
    assert_eq!(detail_scroll_offset(12, 10), 4);
}

#[test]
fn timeline_rows_skip_section_headers() {
    // Without both kinds of snapshot there are no headers.
    assert_eq!(row_item(0, 3, 0, 0), Some(0));
    assert_eq!(row_item(2, 0, 3, 0), Some(2));
    // Epochs header, two epochs, phantoms header, phantoms.
    assert_eq!(row_item(0, 2, 2, 0), None);
    assert_eq!(row_item(1, 2, 2, 0), Some(0));
    assert_eq!(row_item(2, 2, 2, 0), Some(1));
    assert_eq!(row_item(3, 2, 2, 0), None);
    assert_eq!(row_item(4, 2, 2, 0), Some(2));
    // Scrolled: only the phantoms header remains.
    assert_eq!(row_item(1, 2, 2, 1), Some(1));
    assert_eq!(row_item(2, 2, 2, 1), None);
    assert_eq!(row_item(3, 2, 2, 1), Some(2));
}
