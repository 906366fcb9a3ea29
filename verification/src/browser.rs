//! The state of the terminal browser, its value, its invariant, and the
//! small operations the key, mouse and work handlers are made of.
//!
//! The program around the library draws the state, turns terminal events
//! into `UiEvent`s and performs the `UiAction`s a step asks for (database
//! reads, subprocesses, the snapshot thread), then hands the results back
//! through the methods of `browser_work`.

use vstd::prelude::*;
use crate::text::{chars_of, concat_chars, string_from_chars};
use crate::tree::{path_set, rows_view, nodes_view, NodeView, RowView};
use crate::tui::{ActionKind, DiffLine, DiffLineType, FileTreeNode, Focus, PendingAction, Rect, VisibleRow, last_index, zero_rect};
use crate::types::{epoch_display_name, phantom_display_name, Epoch, FileEntry, Phantom, SnapshotType};

verus! {

// ─── Input and output of a step ─────────────────────────────────────────

/// A key press.
#[derive(Debug, Clone, Copy, PartialEq, Eq, Structural)]
pub enum Key {
    Char(char),
    Enter,
    Esc,
    Backspace,
    Delete,
    Left,
    Right,
    Up,
    Down,
    Home,
    End,
    PageUp,
    PageDown,
    Tab,
    BackTab,
    Other,
}

/// A mouse button.
#[derive(Debug, Clone, Copy, PartialEq, Eq, Structural)]
pub enum MouseButton {
    Left,
    Right,
    Middle,
}

/// An input event.
#[derive(Debug, Clone, Copy, PartialEq, Eq, Structural)]
pub enum UiEvent {
    /// A key was pressed.
    Key(Key),
    /// The wheel turned down over a cell.
    ScrollDown { column: u16, row: u16 },
    /// The wheel turned up over a cell.
    ScrollUp { column: u16, row: u16 },
    /// A button went down over a cell, with or without Shift.
    Press { button: MouseButton, column: u16, row: u16, shift: bool },
    /// Anything else (key releases, resizes, focus changes).
    Other,
}

/// Outside work a step asks for. The state has already changed as far as
/// it can without the result.
#[derive(Debug)]
pub enum UiAction {
    Nothing,
    /// Read the file entries of a snapshot and hand them to `entries_loaded`;
    /// when the read fails and `fatal` holds, the browser stops with the error.
    LoadEntries { snapshot_id: i64, kind: SnapshotType, fatal: bool },
    /// Read the epochs and phantoms again and hand them to `timeline_reloaded`.
    Reload { fatal: bool },
    /// Run the program itself with these arguments and hand its output to
    /// `command_finished`.
    RunCommand { args: Vec<String> },
    /// Start a snapshot in the background; its end goes to `snap_finished`.
    StartSnap,
    /// Look for unreferenced inks and hand their sizes to `gc_checked`.
    CheckGc,
    /// Delete the unreferenced inks and hand the sizes reclaimed to `gc_done`.
    RunGc,
    /// Read the registry and hand its palins to `picker_opened`.
    OpenPicker,
    /// Read the configuration and timeline of this palin and hand them to `palin_switched`.
    SwitchPalin { name: String },
    /// Unregister this palin, delete its directory, then report to `palin_deleted`.
    DeletePalin { name: String },
    /// Read the entries of this snapshot and the ink of `path`, and hand them to `preview_loaded`.
    PreviewFile { path: String, snapshot_id: i64, kind: SnapshotType },
    /// Rename the palin by running the program, and hand the result to `rename_finished`.
    Rename { old_name: String, new_name: String },
    /// Lock or unlock an epoch, reload, then report to `lock_toggled`.
    ToggleLock { epoch_id: i64, lock: bool, name: String },
}

/// An action as a value.
pub enum ActionView {
    Nothing,
    LoadEntries { snapshot_id: i64, kind: SnapshotType, fatal: bool },
    Reload { fatal: bool },
    RunCommand { args: Seq<Seq<char>> },
    StartSnap,
    CheckGc,
    RunGc,
    OpenPicker,
    SwitchPalin { name: Seq<char> },
    DeletePalin { name: Seq<char> },
    PreviewFile { path: Seq<char>, snapshot_id: i64, kind: SnapshotType },
    Rename { old_name: Seq<char>, new_name: Seq<char> },
    ToggleLock { epoch_id: i64, lock: bool, name: Seq<char> },
}

/// The value of an action.
pub open spec fn action_view(a: UiAction) -> ActionView {
    match a {
        UiAction::Nothing => ActionView::Nothing,
        UiAction::LoadEntries { snapshot_id, kind, fatal } => ActionView::LoadEntries { snapshot_id, kind, fatal },
        UiAction::Reload { fatal } => ActionView::Reload { fatal },
        UiAction::RunCommand { args } => ActionView::RunCommand { args: args@.map_values(|s: String| s@) },
        UiAction::StartSnap => ActionView::StartSnap,
        UiAction::CheckGc => ActionView::CheckGc,
        UiAction::RunGc => ActionView::RunGc,
        UiAction::OpenPicker => ActionView::OpenPicker,
        UiAction::SwitchPalin { name } => ActionView::SwitchPalin { name: name@ },
        UiAction::DeletePalin { name } => ActionView::DeletePalin { name: name@ },
        UiAction::PreviewFile { path, snapshot_id, kind } => ActionView::PreviewFile { path: path@, snapshot_id, kind },
        UiAction::Rename { old_name, new_name } => ActionView::Rename { old_name: old_name@, new_name: new_name@ },
        UiAction::ToggleLock { epoch_id, lock, name } => ActionView::ToggleLock { epoch_id, lock, name: name@ },
    }
}

// ─── The state ──────────────────────────────────────────────────────────

/// Where the parts of the screen were drawn last; the program sets these
/// after each frame and the mouse handlers read them.
#[derive(Debug, Clone, Copy, PartialEq, Eq, Structural)]
pub struct ScreenAreas {
    pub term: Rect,
    pub snap_button: Rect,
    pub rename_button: Rect,
    pub info_button: Rect,
    pub gc_button: Rect,
    pub timeline_list: Rect,
    pub confirm_yes: Rect,
    pub confirm_no: Rect,
    pub search_bar: Rect,
    pub output_clear: Rect,
    pub output_bar: Rect,
    pub detail_list: Rect,
    pub picker_confirm_yes: Rect,
    pub picker_confirm_no: Rect,
}

/// Every area empty, at the origin.
pub open spec fn zero_areas() -> ScreenAreas {
    ScreenAreas {
        term: zero_rect(),
        snap_button: zero_rect(),
        rename_button: zero_rect(),
        info_button: zero_rect(),
        gc_button: zero_rect(),
        timeline_list: zero_rect(),
        confirm_yes: zero_rect(),
        confirm_no: zero_rect(),
        search_bar: zero_rect(),
        output_clear: zero_rect(),
        output_bar: zero_rect(),
        detail_list: zero_rect(),
        picker_confirm_yes: zero_rect(),
        picker_confirm_no: zero_rect(),
    }
}

impl ScreenAreas {
    /// Every area empty, at the origin.
    pub fn empty() -> (r: ScreenAreas)
        ensures
            r == zero_areas(),
    {
        ScreenAreas {
            term: Rect::zero(),
            snap_button: Rect::zero(),
            rename_button: Rect::zero(),
            info_button: Rect::zero(),
            gc_button: Rect::zero(),
            timeline_list: Rect::zero(),
            confirm_yes: Rect::zero(),
            confirm_no: Rect::zero(),
            search_bar: Rect::zero(),
            output_clear: Rect::zero(),
            output_bar: Rect::zero(),
            detail_list: Rect::zero(),
            picker_confirm_yes: Rect::zero(),
            picker_confirm_no: Rect::zero(),
        }
    }
}

/// The state of the browser.
#[derive(Debug)]
pub struct UiState {
    pub palin_name: String,
    pub epochs: Vec<Epoch>,
    pub phantoms: Vec<Phantom>,
    pub selected_idx: usize,
    pub selected_file_idx: usize,
    pub current_entries: Vec<FileEntry>,
    pub tree_nodes: Vec<FileTreeNode>,
    pub visible_rows: Vec<VisibleRow>,
    pub expanded_dirs: Vec<String>,
    pub show_help: bool,
    pub running: bool,
    pub areas: ScreenAreas,
    pub pending_gc: bool,
    pub focus: Focus,
    pub timeline_scroll: usize,
    pub pending_action: Option<PendingAction>,
    pub pending_execute_action: Option<PendingAction>,
    pub snap_in_progress: bool,
    pub snap_start_frame: u64,
    pub patience_shown: bool,
    pub frame_count: u64,
    pub command_output: Vec<String>,
    pub search_query: Vec<char>,
    pub search_cursor: usize,
    pub output_scroll: usize,
    pub compare_mode: bool,
    pub compare_file_path: String,
    pub compare_source_idx: usize,
    pub compare_result_lines: Vec<DiffLine>,
    pub compare_error: Option<String>,
    pub compare_pending_epoch: bool,
    pub diff_scroll: usize,
    pub timeline_btn_start_x: u16,
    pub show_picker: bool,
    pub all_palins: Vec<(String, String)>,
    pub picker_selected: usize,
    pub picker_confirm_delete: Option<String>,
    pub preview_content: Vec<String>,
    pub preview_scroll: usize,
    pub show_preview: bool,
    pub rename_mode: bool,
    pub rename_input: Vec<char>,
    pub rename_cursor: usize,
}

/// A pending action as a value: its kind, the name of the item, its index.
pub open spec fn pending_view(p: Option<PendingAction>) -> Option<(ActionKind, Seq<char>, usize)> {
    match p {
        Some(a) => Some((a.kind, a.item_name@, a.item_idx)),
        None => None,
    }
}

/// The values of comparison lines.
pub open spec fn diff_lines_view(s: Seq<DiffLine>) -> Seq<(DiffLineType, Seq<char>)> {
    s.map_values(|l: DiffLine| (l.line_type, l.content@))
}

/// The values of a list of strings.
pub open spec fn strings_view(s: Seq<String>) -> Seq<Seq<char>> {
    s.map_values(|l: String| l@)
}

/// The values of a list of (name, path) pairs.
pub open spec fn pairs_view(s: Seq<(String, String)>) -> Seq<(Seq<char>, Seq<char>)> {
    s.map_values(|p: (String, String)| (p.0@, p.1@))
}

/// The value of an optional string.
pub open spec fn opt_chars(o: Option<String>) -> Option<Seq<char>> {
    match o {
        Some(s) => Some(s@),
        None => None,
    }
}

/// The state of the browser as a value.
pub struct UiView {
    pub palin_name: Seq<char>,
    pub epochs: Seq<Epoch>,
    pub phantoms: Seq<Phantom>,
    pub selected_idx: usize,
    pub selected_file_idx: usize,
    pub current_entries: Seq<FileEntry>,
    pub tree_nodes: Seq<NodeView>,
    pub visible_rows: Seq<RowView>,
    pub expanded: Set<Seq<char>>,
    pub show_help: bool,
    pub running: bool,
    pub areas: ScreenAreas,
    pub pending_gc: bool,
    pub focus: Focus,
    pub timeline_scroll: usize,
    pub pending_action: Option<(ActionKind, Seq<char>, usize)>,
    pub pending_execute_action: Option<(ActionKind, Seq<char>, usize)>,
    pub snap_in_progress: bool,
    pub snap_start_frame: u64,
    pub patience_shown: bool,
    pub frame_count: u64,
    pub command_output: Seq<Seq<char>>,
    pub search_query: Seq<char>,
    pub search_cursor: usize,
    pub output_scroll: usize,
    pub compare_mode: bool,
    pub compare_file_path: Seq<char>,
    pub compare_source_idx: usize,
    pub compare_result_lines: Seq<(DiffLineType, Seq<char>)>,
    pub compare_error: Option<Seq<char>>,
    pub compare_pending_epoch: bool,
    pub diff_scroll: usize,
    pub timeline_btn_start_x: u16,
    pub show_picker: bool,
    pub all_palins: Seq<(Seq<char>, Seq<char>)>,
    pub picker_selected: usize,
    pub picker_confirm_delete: Option<Seq<char>>,
    pub preview_content: Seq<Seq<char>>,
    pub preview_scroll: usize,
    pub show_preview: bool,
    pub rename_mode: bool,
    pub rename_input: Seq<char>,
    pub rename_cursor: usize,
}

impl View for UiState {
    type V = UiView;

    open spec fn view(&self) -> UiView {
        UiView {
            palin_name: self.palin_name@,
            epochs: self.epochs@,
            phantoms: self.phantoms@,
            selected_idx: self.selected_idx,
            selected_file_idx: self.selected_file_idx,
            current_entries: self.current_entries@,
            tree_nodes: nodes_view(self.tree_nodes@),
            visible_rows: rows_view(self.visible_rows@),
            expanded: path_set(self.expanded_dirs@),
            show_help: self.show_help,
            running: self.running,
            areas: self.areas,
            pending_gc: self.pending_gc,
            focus: self.focus,
            timeline_scroll: self.timeline_scroll,
            pending_action: pending_view(self.pending_action),
            pending_execute_action: pending_view(self.pending_execute_action),
            snap_in_progress: self.snap_in_progress,
            snap_start_frame: self.snap_start_frame,
            patience_shown: self.patience_shown,
            frame_count: self.frame_count,
            command_output: strings_view(self.command_output@),
            search_query: self.search_query@,
            search_cursor: self.search_cursor,
            output_scroll: self.output_scroll,
            compare_mode: self.compare_mode,
            compare_file_path: self.compare_file_path@,
            compare_source_idx: self.compare_source_idx,
            compare_result_lines: diff_lines_view(self.compare_result_lines@),
            compare_error: opt_chars(self.compare_error),
            compare_pending_epoch: self.compare_pending_epoch,
            diff_scroll: self.diff_scroll,
            timeline_btn_start_x: self.timeline_btn_start_x,
            show_picker: self.show_picker,
            all_palins: pairs_view(self.all_palins@),
            picker_selected: self.picker_selected,
            picker_confirm_delete: opt_chars(self.picker_confirm_delete),
            preview_content: strings_view(self.preview_content@),
            preview_scroll: self.preview_scroll,
            show_preview: self.show_preview,
            rename_mode: self.rename_mode,
            rename_input: self.rename_input@,
            rename_cursor: self.rename_cursor,
        }
    }
}

// ─── The invariant ──────────────────────────────────────────────────────

/// Most lines the output panel keeps.
pub const OUTPUT_LIMIT: usize = 100;

/// Number of items of the timeline (epochs, then phantoms).
pub open spec fn timeline_len(v: UiView) -> int {
    (v.epochs.len() + v.phantoms.len()) as int
}

/// What holds of the browser between steps: the selected timeline item,
/// file row and comparison line exist whenever there is anything to select,
/// the output and preview scroll positions point into their text (or are 0
/// when it is empty), cursors stay within their text, the output keeps at most
/// `OUTPUT_LIMIT` lines, and a snapshot started no later than now.
pub open spec fn wf_view(v: UiView) -> bool {
    &&& v.selected_idx <= last_index(timeline_len(v))
    &&& (v.visible_rows.len() > 0 ==> v.selected_file_idx < v.visible_rows.len())
    &&& (v.compare_result_lines.len() > 0 ==> v.diff_scroll < v.compare_result_lines.len())
    &&& v.picker_selected < usize::MAX
    &&& v.command_output.len() <= OUTPUT_LIMIT
    &&& v.output_scroll <= last_index(v.command_output.len() as int)
    &&& v.search_cursor <= v.search_query.len()
    &&& v.rename_cursor <= v.rename_input.len()
    &&& v.preview_scroll <= last_index(v.preview_content.len() as int)
    &&& v.snap_start_frame <= v.frame_count
    &&& v.timeline_scroll + 65536 <= usize::MAX
    &&& timeline_len(v) <= usize::MAX
}

impl UiState {
    /// The invariant of the state.
    pub open spec fn wf(&self) -> bool {
        wf_view(self@)
    }
}

// ─── Timeline items ─────────────────────────────────────────────────────

/// The display name of timeline item `idx` (epochs first, then phantoms).
pub closed spec fn item_name(v: UiView, idx: int) -> Option<Seq<char>> {
    if 0 <= idx < v.epochs.len() {
        Some(epoch_display_name(v.epochs[idx].is_origin, v.epochs[idx].epoch_num as int))
    } else if v.epochs.len() <= idx < timeline_len(v) {
        Some(phantom_display_name(v.phantoms[idx - v.epochs.len()].phantom_num as int))
    } else {
        None
    }
}

/// The snapshot behind timeline item `idx`: its id and kind.
pub closed spec fn item_target(v: UiView, idx: int) -> Option<(i64, SnapshotType)> {
    if 0 <= idx < v.epochs.len() {
        Some((v.epochs[idx].id, SnapshotType::Epoch))
    } else if v.epochs.len() <= idx < timeline_len(v) {
        Some((v.phantoms[idx - v.epochs.len()].id, SnapshotType::Phantom))
    } else {
        None
    }
}

/// A timeline item has a name exactly when it has a snapshot.
pub proof fn lemma_item_parts(v: UiView, idx: int)
    ensures
        (item_target(v, idx) is Some) == (item_name(v, idx) is Some),
{
}

impl UiState {
    /// Number of items of the timeline.
    pub fn timeline_len(&self) -> (r: usize)
        requires
            self.epochs.len() + self.phantoms.len() <= usize::MAX,
        ensures
            r == timeline_len(self@),
    {
        self.epochs.len() + self.phantoms.len()
    }

    /// The display name of timeline item `idx`, if there is one.
    pub fn item_name(&self, idx: usize) -> (r: Option<String>)
        ensures
            opt_chars(r) == item_name(self@, idx as int),
    {
        if idx < self.epochs.len() {
            Some(self.epochs[idx].display_name())
        } else if idx - self.epochs.len() < self.phantoms.len() {
            Some(self.phantoms[idx - self.epochs.len()].display_name())
        } else {
            None
        }
    }

    /// The snapshot behind timeline item `idx`, if there is one.
    pub fn item_target(&self, idx: usize) -> (r: Option<(i64, SnapshotType)>)
        ensures
            r == item_target(self@, idx as int),
    {
        if idx < self.epochs.len() {
            Some((self.epochs[idx].id, SnapshotType::Epoch))
        } else if idx - self.epochs.len() < self.phantoms.len() {
            Some((self.phantoms[idx - self.epochs.len()].id, SnapshotType::Phantom))
        } else {
            None
        }
    }
}

// ─── The output panel ───────────────────────────────────────────────────

/// The output after `line` is added: newest first, the oldest dropped past
/// `OUTPUT_LIMIT` lines, and the panel scrolled back to the top.
#[verifier::opaque]
pub open spec fn with_output(v: UiView, line: Seq<char>) -> UiView {
    let lines = seq![line] + v.command_output;
    UiView {
        command_output: if lines.len() > OUTPUT_LIMIT {
            lines.drop_last()
        } else {
            lines
        },
        output_scroll: 0,
        ..v
    }
}

/// The output emptied.
pub open spec fn without_output(v: UiView) -> UiView {
    UiView { command_output: Seq::empty(), output_scroll: 0, ..v }
}

/// The output after each of `lines` is added, first to last.
pub open spec fn with_outputs(v: UiView, lines: Seq<Seq<char>>) -> UiView
    decreases lines.len(),
{
    if lines.len() == 0 {
        v
    } else {
        with_output(with_outputs(v, lines.drop_last()), lines.last())
    }
}

impl UiState {
    /// Adds a line at the top of the output panel, drops the oldest line past
    /// `OUTPUT_LIMIT`, and scrolls the panel to the top.
    pub fn add_output(&mut self, line: String)
        requires
            old(self).wf(),
        ensures
            final(self)@ == with_output(old(self)@, line@),
            final(self).wf(),
    {
        reveal(with_output);
        let ghost before = self@;
        self.command_output.insert(0, line);
        if self.command_output.len() > OUTPUT_LIMIT {
            self.command_output.pop();
        }
        self.output_scroll = 0;
        proof {
            let lines = seq![line@] + before.command_output;
            if lines.len() > OUTPUT_LIMIT {
                assert(strings_view(self.command_output@) =~= lines.drop_last());
            } else {
                assert(strings_view(self.command_output@) =~= lines);
            }
            assert(self@ == with_output(before, line@));
        }
    }

    /// Empties the output panel.
    pub fn clear_output(&mut self)
        requires
            old(self).wf(),
        ensures
            final(self)@ == without_output(old(self)@),
            final(self).wf(),
    {
        self.command_output.clear();
        self.output_scroll = 0;
        assert(strings_view(self.command_output@) =~= Seq::<Seq<char>>::empty());
        assert(self@ == without_output(old(self)@));
    }
}

impl UiState {
    fn set_compare_lines(&mut self, lines: Vec<DiffLine>)
        requires
            old(self).wf(),
        ensures
            final(self)@ == (UiView {
                compare_result_lines: diff_lines_view(lines@),
                compare_error: None,
                diff_scroll: 0,
                ..old(self)@
            }),
            final(self).wf(),
    {
        self.compare_result_lines = lines;
        self.compare_error = None;
        self.diff_scroll = 0;
    }

    pub(crate) fn show_compare(&mut self, lines: Vec<DiffLine>, msg: String)
        requires
            old(self).wf(),
        ensures
            final(self)@ == with_output(
                UiView { compare_result_lines: diff_lines_view(lines@), compare_error: None, diff_scroll: 0, ..old(self)@ },
                msg@,
            ),
            final(self).wf(),
    {
        let ghost v = self@;
        let ghost lv = diff_lines_view(lines@);
        self.set_compare_lines(lines);
        let ghost mid = self@;
        assert(mid == UiView { compare_result_lines: lv, compare_error: None, diff_scroll: 0, ..v });
        self.add_output(msg);
    }

    pub(crate) fn compare_missing(&mut self)
        requires
            old(self).wf(),
        ensures
            final(self)@ == (UiView {
                compare_result_lines: Seq::empty(),
                compare_error: Some("File not available to compare"@),
                diff_scroll: 0,
                ..old(self)@
            }),
            final(self).wf(),
    {
        self.compare_result_lines.clear();
        self.compare_error = Some(lit("File not available to compare"));
        self.diff_scroll = 0;
        assert(diff_lines_view(self.compare_result_lines@) =~= Seq::empty());
    }

}

/// A literal as a `String`.
pub fn lit(s: &str) -> (r: String)
    ensures
        r@ == s@,
{
    s.to_string()
}

/// The characters of a literal followed by `rest`.
pub fn prefixed(left: &str, rest: &[char]) -> (r: String)
    ensures
        r@ == left@ + rest@,
{
    let l = chars_of(left);
    let a = concat_chars(l.as_slice(), rest);
    string_from_chars(a.as_slice())
}

/// The characters of a literal, then `mid`, then the characters of another literal.
pub fn framed(left: &str, mid: &[char], right: &str) -> (r: String)
    ensures
        r@ == left@ + mid@ + right@,
{
    let l = chars_of(left);
    let r = chars_of(right);
    let a = concat_chars(l.as_slice(), mid);
    let b = concat_chars(a.as_slice(), r.as_slice());
    string_from_chars(b.as_slice())
}

// ─── Positions ──────────────────────────────────────────────────────────

/// `i` kept on one of `n` positions: at most `n - 1`, or 0 when `n` is 0.
#[verifier::opaque]
pub open spec fn kept_within(i: usize, n: nat) -> usize {
    if n == 0 {
        0
    } else if i < n {
        i
    } else {
        (n - 1) as usize
    }
}

/// The last of `n` positions, or 0 when `n` is 0.
#[verifier::opaque]
pub open spec fn last_of(n: nat) -> usize {
    if n == 0 {
        0
    } else {
        (n - 1) as usize
    }
}

/// `i` moved one position on, if position `i + 1` exists among `n`.
#[verifier::opaque]
pub open spec fn bumped(i: usize, n: nat) -> usize {
    if i + 1 < n {
        (i + 1) as usize
    } else {
        i
    }
}

/// `i` moved one position back, if it is not 0.
#[verifier::opaque]
pub open spec fn lowered(i: usize) -> usize {
    if i > 0 {
        (i - 1) as usize
    } else {
        i
    }
}

/// A text cursor `i` moved one character right, if it is before the end `n`.
#[verifier::opaque]
pub open spec fn advanced(i: usize, n: nat) -> usize {
    if i < n {
        (i + 1) as usize
    } else {
        i
    }
}

/// The position just past `n` characters.
#[verifier::opaque]
pub open spec fn end_of(n: nat) -> usize {
    n as usize
}

/// Keeps `i` on one of `n` positions.
pub fn keep_within(i: usize, n: usize) -> (r: usize)
    ensures
        r == kept_within(i, n as nat),
        n > 0 ==> r < n,
        n == 0 ==> r == 0,
        i < n ==> r == i,
{
    reveal(kept_within);
    if n == 0 {
        0
    } else if i < n {
        i
    } else {
        n - 1
    }
}

/// The last of `n` positions.
pub fn last_position(n: usize) -> (r: usize)
    ensures
        r == last_of(n as nat),
        n > 0 ==> r < n,
        n > 0 ==> r == n - 1,
        n == 0 ==> r == 0,
{
    reveal(last_of);
    if n == 0 {
        0
    } else {
        n - 1
    }
}

/// Moves `i` one position on among `n`.
pub fn bump(i: usize, n: usize) -> (r: usize)
    ensures
        r == bumped(i, n as nat),
        i < n ==> r < n,
        r == i || r == i + 1,
        i + 1 >= n ==> r == i,
{
    reveal(bumped);
    if i < n && i + 1 < n {
        i + 1
    } else {
        i
    }
}

/// Moves `i` one position back.
pub fn lower(i: usize) -> (r: usize)
    ensures
        r == lowered(i),
        r <= i,
{
    reveal(lowered);
    if i > 0 {
        i - 1
    } else {
        i
    }
}

/// Moves a text cursor one character right.
pub fn advance(i: usize, n: usize) -> (r: usize)
    ensures
        r == advanced(i, n as nat),
        i <= n ==> r <= n,
{
    reveal(advanced);
    if i < n {
        i + 1
    } else {
        i
    }
}

/// The position just past `n` characters.
pub fn end_position(n: usize) -> (r: usize)
    ensures
        r == end_of(n as nat),
        r == n,
{
    reveal(end_of);
    n
}

// ─── Text fields ────────────────────────────────────────────────────────

/// Whether `k` edits a text field.
pub open spec fn is_edit_key(k: Key) -> bool {
    k is Char || k is Backspace || k is Delete
}

/// A text field and its cursor after a key: characters go in at the
/// cursor, and Backspace and Delete remove the character before or under
/// it. Other keys leave the field as it is.
#[verifier::opaque]
pub open spec fn edited(text: Seq<char>, cursor: usize, key: Key) -> (Seq<char>, usize) {
    match key {
        Key::Char(c) => (text.insert(cursor as int, c), (cursor + 1) as usize),
        Key::Backspace => if cursor > 0 {
            (text.remove(cursor - 1), (cursor - 1) as usize)
        } else {
            (text, cursor)
        },
        Key::Delete => if cursor < text.len() {
            (text.remove(cursor as int), cursor)
        } else {
            (text, cursor)
        },
        _ => (text, cursor),
    }
}

/// Typing a character and then Backspace leaves a field as it was (for any
/// cursor but the largest `usize`, after which no cursor can follow).
pub proof fn law_type_then_backspace(text: Seq<char>, cursor: usize, c: char)
    requires
        cursor <= text.len(),
        cursor < usize::MAX,
    ensures
        ({
            let t = edited(text, cursor, Key::Char(c));
            edited(t.0, t.1, Key::Backspace) == (text, cursor)
        }),
{
    reveal(edited);
    let t = edited(text, cursor, Key::Char(c));
    assert(t.0.remove(t.1 - 1) =~= text);
}

/// Applies a key to a text field.
pub fn edit_text(text: &mut Vec<char>, cursor: &mut usize, key: Key)
    requires
        *old(cursor) <= old(text).len(),
    ensures
        edited(old(text)@, *old(cursor), key) == (final(text)@, *final(cursor)),
        *final(cursor) <= final(text).len(),
{
    reveal(edited);
    match key {
        Key::Char(c) => {
            text.insert(*cursor, c);
            let n = text.len();
            assert(n == old(text)@.len() + 1);
            *cursor = *cursor + 1;
        },
        Key::Backspace => {
            if *cursor > 0 {
                *cursor = *cursor - 1;
                text.remove(*cursor);
            }
        },
        Key::Delete => {
            if *cursor < text.len() {
                text.remove(*cursor);
            }
        },
        _ => {},
    }
}

} // verus!
