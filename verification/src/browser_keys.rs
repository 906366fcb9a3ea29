//! What a key press does to the browser, in each of its modes.

use vstd::prelude::*;
use crate::browser::{
    action_view, advance, advanced, bump, bumped, diff_lines_view, edit_text, edited, end_of, end_position, framed,
    is_edit_key, item_name, item_target, keep_within, kept_within, last_of, last_position, lit, lower, lowered,
    prefixed, timeline_len, with_output, without_output, ActionView, Key, UiAction, UiState, UiView,
};
use crate::text::{chars_of, str_eq, string_from_chars};
use crate::tree::{flat_nodes, flatten, nodes_view, path_set, rows_view, toggle_path, toggled, RowView};
use crate::tui::{last_index, ActionKind, DiffLine, Focus, PendingAction, VisibleRow};
use crate::types::SnapshotType;

verus! {

// ─── Shared steps ───────────────────────────────────────────────────────

/// `a - b`, or 0 below 0.
pub open spec fn sat_sub(a: int, b: int) -> int {
    if a >= b {
        a - b
    } else {
        0
    }
}

/// The comparison view closed: no lines, no error, back at the top; the
/// waiting-for-a-target mode kept when `keep_mode` holds.
pub open spec fn compare_closed(v: UiView, keep_mode: bool) -> UiView {
    UiView {
        compare_result_lines: Seq::empty(),
        compare_error: None,
        compare_mode: if keep_mode {
            v.compare_mode
        } else {
            false
        },
        diff_scroll: 0,
        ..v
    }
}

/// Showing the selected timeline item: the comparison view closes, and the
/// entries of the item are asked for; with an empty timeline the file panel
/// empties instead.
pub open spec fn load_selected(v: UiView, fatal: bool, keep_mode: bool) -> (UiView, ActionView) {
    let c = compare_closed(v, keep_mode);
    match item_target(v, v.selected_idx as int) {
        None => (UiView { current_entries: Seq::empty(), tree_nodes: Seq::empty(), visible_rows: Seq::empty(), ..c }, ActionView::Nothing),
        Some(t) => (c, ActionView::LoadEntries { snapshot_id: t.0, kind: t.1, fatal }),
    }
}

/// Selecting timeline item `idx` and showing it.
pub open spec fn select_item(v: UiView, idx: usize, fatal: bool, keep_mode: bool) -> (UiView, ActionView) {
    load_selected(UiView { selected_idx: idx, ..v }, fatal, keep_mode)
}

/// The message shown when a timeline action starts.
pub open spec fn running_message(kind: ActionKind, name: Seq<char>) -> Seq<char> {
    match kind {
        ActionKind::Restore => "● Restoring to "@ + name + "..."@,
        ActionKind::Delete => "● Deleting "@ + name + "..."@,
    }
}

/// The question asked before a timeline action.
pub open spec fn confirm_message(kind: ActionKind, name: Seq<char>) -> Seq<char> {
    match kind {
        ActionKind::Restore => "  Restore to "@ + name + "?  [y/N]"@,
        ActionKind::Delete => "  Delete "@ + name + "?  [y/N]"@,
    }
}

/// The message shown when a timeline action is called off.
pub open spec fn cancel_message(kind: ActionKind, name: Seq<char>) -> Seq<char> {
    match kind {
        ActionKind::Restore => "✖ Cancelled restore of "@ + name,
        ActionKind::Delete => "✖ Cancelled deletion of "@ + name,
    }
}

/// Confirming the pending timeline action: it is queued to run after the
/// next frame, and said so.
pub open spec fn confirm_pending(v: UiView) -> UiView {
    match v.pending_action {
        Some(a) => with_output(
            UiView { pending_action: None, pending_execute_action: Some(a), ..v },
            running_message(a.0, a.1),
        ),
        None => v,
    }
}

/// Calling off the pending timeline action.
pub open spec fn cancel_pending(v: UiView) -> UiView {
    match v.pending_action {
        Some(a) => with_output(UiView { pending_action: None, ..v }, cancel_message(a.0, a.1)),
        None => v,
    }
}

/// Starting a snapshot, unless one is running.
pub open spec fn snap_step(v: UiView) -> (UiView, ActionView) {
    if v.snap_in_progress {
        (with_output(v, "  Snap already in progress..."@), ActionView::Nothing)
    } else {
        (
            with_output(
                UiView { snap_in_progress: true, snap_start_frame: v.frame_count, patience_shown: false, ..v },
                "◐ Scanning files..."@,
            ),
            ActionView::StartSnap,
        )
    }
}

/// The arguments that show the information of the palin.
pub open spec fn info_args(v: UiView) -> Seq<Seq<char>> {
    seq!["info"@, v.palin_name]
}

/// The timeline item asked for by a timeline action: shown and run after
/// the next frame when `now` holds, asked about first otherwise.
pub open spec fn initiate(v: UiView, kind: ActionKind, idx: usize, now: bool) -> UiView {
    match item_name(v, idx as int) {
        None => v,
        Some(name) => if now {
            UiView { pending_execute_action: Some((kind, name, idx)), ..with_output(v, running_message(kind, name)) }
        } else {
            with_output(UiView { pending_action: Some((kind, name, idx)), ..v }, confirm_message(kind, name))
        },
    }
}

// ─── Rows ───────────────────────────────────────────────────────────────

/// Index of the first row with path `p`.
#[verifier::opaque]
pub open spec fn first_row_with_path(rows: Seq<RowView>, p: Seq<char>) -> Option<int>
    decreases rows.len(),
{
    if rows.len() == 0 {
        None
    } else if rows[0].full_path == p {
        Some(0)
    } else {
        match first_row_with_path(rows.skip(1), p) {
            Some(i) => Some(i + 1),
            None => None,
        }
    }
}

pub proof fn lemma_first_row(rows: Seq<RowView>, p: Seq<char>)
    ensures
        match first_row_with_path(rows, p) {
            Some(i) => 0 <= i < rows.len() && rows[i].full_path == p && forall|k: int|
                0 <= k < i ==> (#[trigger] rows[k]).full_path != p,
            None => forall|k: int| 0 <= k < rows.len() ==> (#[trigger] rows[k]).full_path != p,
        },
    decreases rows.len(),
{
    reveal(first_row_with_path);
    if rows.len() > 0 {
        lemma_first_row(rows.skip(1), p);
        assert(forall|k: int| 0 <= k < rows.len() - 1 ==> #[trigger] rows.skip(1)[k] == rows[k + 1]);
        match first_row_with_path(rows.skip(1), p) {
            Some(i) => {
                assert forall|k: int| 0 <= k < i + 1 && rows[0].full_path != p implies (#[trigger] rows[k]).full_path != p by {
                    if k > 0 {
                        assert(rows[k] == rows.skip(1)[k - 1]);
                    }
                }
            },
            None => {
                assert forall|k: int| 0 <= k < rows.len() && rows[0].full_path != p implies (#[trigger] rows[k]).full_path != p by {
                    if k > 0 {
                        assert(rows[k] == rows.skip(1)[k - 1]);
                    }
                }
            },
        }
    }
}

/// The folder row under the cursor opened or closed, and the rows redrawn.
pub open spec fn toggle_step(v: UiView) -> UiView {
    let open = toggled(v.expanded, v.visible_rows[v.selected_file_idx as int].full_path);
    let rows = flat_nodes(v.tree_nodes, 0, open);
    UiView { expanded: open, visible_rows: rows, selected_file_idx: kept_within(v.selected_file_idx, rows.len()), ..v }
}

/// Entering comparison mode for file row `idx`: the selected item becomes
/// the source, and the user is asked for a target.
pub open spec fn enter_compare(v: UiView, idx: int) -> UiView {
    if 0 <= idx < v.visible_rows.len() && !v.visible_rows[idx].is_dir {
        let p = v.visible_rows[idx].full_path;
        with_output(
            UiView {
                compare_source_idx: v.selected_idx,
                compare_mode: true,
                compare_file_path: p,
                compare_result_lines: Seq::empty(),
                compare_error: None,
                ..v
            },
            "  Select an epoch to compare '"@ + p + "' with..."@,
        )
    } else {
        v
    }
}

/// The `d` key: compare against the selected item when a source is chosen;
/// otherwise, on a file row, choose that file as the source.
pub open spec fn compare_key(v: UiView) -> UiView {
    if v.compare_mode {
        with_output(UiView { compare_pending_epoch: true, compare_mode: false, ..v }, "● Comparing..."@)
    } else if v.focus == Focus::Files && v.selected_file_idx < v.visible_rows.len()
        && !v.visible_rows[v.selected_file_idx as int].is_dir {
        let p = v.visible_rows[v.selected_file_idx as int].full_path;
        match first_row_with_path(v.visible_rows, p) {
            Some(i) => with_output(
                UiView { focus: Focus::Timeline, ..enter_compare(v, i) },
                "  Select an epoch to compare '"@ + p + "' with..."@,
            ),
            None => v,
        }
    } else {
        v
    }
}

/// Enter or Space: in the file panel, open or close a folder, or preview a file.
pub open spec fn enter_key(v: UiView) -> (UiView, ActionView) {
    if v.focus == Focus::Files && v.selected_file_idx < v.visible_rows.len() {
        let row = v.visible_rows[v.selected_file_idx as int];
        if row.is_dir {
            (toggle_step(v), ActionView::Nothing)
        } else if !v.show_preview {
            match item_target(v, v.selected_idx as int) {
                Some(t) => (v, ActionView::PreviewFile { path: row.full_path, snapshot_id: t.0, kind: t.1 }),
                None => (v, ActionView::Nothing),
            }
        } else {
            (v, ActionView::Nothing)
        }
    } else {
        (v, ActionView::Nothing)
    }
}

// ─── Keys of the main view ──────────────────────────────────────────────

/// How far PageUp and PageDown move: the screen height less 6, at least 5.
#[verifier::opaque]
pub open spec fn page_step(height: u16) -> usize {
    if height >= 11 {
        (height - 6) as usize
    } else {
        5
    }
}

/// The item PageDown moves to: `step` on, but no further than the last item.
#[verifier::opaque]
pub open spec fn paged_down(i: usize, step: usize, n: nat) -> usize {
    let up = if i + step <= usize::MAX {
        i + step
    } else {
        usize::MAX as int
    };
    if n == 0 {
        0
    } else if up < n {
        up as usize
    } else {
        (n - 1) as usize
    }
}

/// The item PageUp moves to: `step` back, but not before the first.
#[verifier::opaque]
pub open spec fn paged_up(i: usize, step: usize) -> usize {
    if i >= step {
        (i - step) as usize
    } else {
        0
    }
}

/// PageDown.
pub open spec fn page_down(v: UiView) -> (UiView, ActionView) {
    let n = paged_down(v.selected_idx, page_step(v.areas.term.height), timeline_len(v) as nat);
    if n != v.selected_idx {
        select_item(v, n, true, true)
    } else {
        (v, ActionView::Nothing)
    }
}

/// PageUp.
pub open spec fn page_up(v: UiView) -> (UiView, ActionView) {
    let n = paged_up(v.selected_idx, page_step(v.areas.term.height));
    if n != v.selected_idx {
        select_item(v, n, true, true)
    } else {
        (v, ActionView::Nothing)
    }
}

/// Down: scroll the comparison if one is shown, else move down the
/// timeline or the file rows.
pub open spec fn down_key(v: UiView) -> (UiView, ActionView) {
    if v.compare_result_lines.len() > 0 {
        (UiView { diff_scroll: bumped(v.diff_scroll, v.compare_result_lines.len()), ..v }, ActionView::Nothing)
    } else if v.focus == Focus::Timeline {
        if v.selected_idx + 1 < timeline_len(v) {
            select_item(v, bumped(v.selected_idx, timeline_len(v) as nat), false, true)
        } else {
            (v, ActionView::Nothing)
        }
    } else if v.focus == Focus::Files {
        (UiView { selected_file_idx: bumped(v.selected_file_idx, v.visible_rows.len()), ..v }, ActionView::Nothing)
    } else {
        (v, ActionView::Nothing)
    }
}

/// Up: the mirror of Down.
pub open spec fn up_key(v: UiView) -> (UiView, ActionView) {
    if v.compare_result_lines.len() > 0 {
        (UiView { diff_scroll: lowered(v.diff_scroll), ..v }, ActionView::Nothing)
    } else if v.focus == Focus::Timeline {
        if v.selected_idx > 0 {
            select_item(v, lowered(v.selected_idx), false, true)
        } else {
            (v, ActionView::Nothing)
        }
    } else if v.focus == Focus::Files {
        (UiView { selected_file_idx: lowered(v.selected_file_idx), ..v }, ActionView::Nothing)
    } else {
        (v, ActionView::Nothing)
    }
}

/// Esc: close the comparison if one is open, else quit.
pub open spec fn esc_key(v: UiView) -> UiView {
    if v.compare_result_lines.len() > 0 || v.compare_error is Some || v.compare_mode {
        compare_closed(v, false)
    } else {
        UiView { running: false, ..v }
    }
}

/// A character key in the main view.
pub open spec fn main_char(v: UiView, c: char) -> (UiView, ActionView) {
    let n = v.compare_result_lines.len();
    if c == 'q' {
        (UiView { running: false, ..v }, ActionView::Nothing)
    } else if c == '?' {
        (UiView { show_help: true, ..v }, ActionView::Nothing)
    } else if c == 'j' {
        (UiView { diff_scroll: bumped(v.diff_scroll, n), ..v }, ActionView::Nothing)
    } else if c == 'k' {
        if n > 0 {
            (UiView { diff_scroll: lowered(v.diff_scroll), ..v }, ActionView::Nothing)
        } else {
            (v, ActionView::Nothing)
        }
    } else if c == 'J' {
        page_down(v)
    } else if c == 'K' {
        page_up(v)
    } else if c == 'g' {
        select_item(v, 0, true, true)
    } else if c == 'G' {
        select_item(v, last_of(timeline_len(v) as nat), true, true)
    } else if c == '/' {
        (UiView { search_query: Seq::empty(), search_cursor: 0, focus: Focus::Search, ..v }, ActionView::Nothing)
    } else if c == 'p' {
        (v, ActionView::OpenPicker)
    } else if c == 'h' {
        (UiView { focus: Focus::Timeline, ..v }, ActionView::Nothing)
    } else if c == 'l' {
        (UiView { focus: Focus::Files, ..v }, ActionView::Nothing)
    } else if c == 'd' {
        (compare_key(v), ActionView::Nothing)
    } else if c == ' ' {
        enter_key(v)
    } else if c == 'r' {
        (v, ActionView::Reload { fatal: true })
    } else if c == 'i' {
        (v, ActionView::RunCommand { args: info_args(v) })
    } else if c == 's' {
        snap_step(v)
    } else if c == 'o' || c == 'O' {
        (UiView { output_scroll: bumped(v.output_scroll, v.command_output.len()), ..v }, ActionView::Nothing)
    } else if c == 'c' || c == 'C' {
        (without_output(v), ActionView::Nothing)
    } else {
        (v, ActionView::Nothing)
    }
}

/// A key in the main view.
pub open spec fn main_key(v: UiView, k: Key) -> (UiView, ActionView) {
    match k {
        Key::Char(c) => main_char(v, c),
        Key::Esc => (esc_key(v), ActionView::Nothing),
        Key::Down => down_key(v),
        Key::Up => up_key(v),
        Key::PageDown => page_down(v),
        Key::PageUp => page_up(v),
        Key::End => select_item(v, last_of(timeline_len(v) as nat), true, true),
        Key::Left | Key::BackTab => (UiView { focus: Focus::Timeline, ..v }, ActionView::Nothing),
        Key::Right | Key::Tab => (UiView { focus: Focus::Files, ..v }, ActionView::Nothing),
        Key::Enter => enter_key(v),
        _ => (v, ActionView::Nothing),
    }
}

// ─── Keys of the other modes ────────────────────────────────────────────

/// A key while the search bar has the keyboard.
pub open spec fn search_key(v: UiView, k: Key) -> UiView {
    match k {
        Key::Esc => UiView { search_query: Seq::empty(), search_cursor: 0, focus: Focus::Timeline, ..v },
        Key::Enter | Key::Tab | Key::Down => UiView { focus: Focus::Files, ..v },
        Key::Up => UiView { focus: Focus::Timeline, ..v },
        Key::Left => UiView { search_cursor: lowered(v.search_cursor), ..v },
        Key::Right => UiView { search_cursor: advanced(v.search_cursor, v.search_query.len()), ..v },
        Key::Home => UiView { search_cursor: 0, ..v },
        Key::End => UiView { search_cursor: end_of(v.search_query.len()), ..v },
        Key::Char(_) | Key::Backspace | Key::Delete => {
            let e = edited(v.search_query, v.search_cursor, k);
            UiView { search_query: e.0, search_cursor: e.1, ..v }
        },
        _ => v,
    }
}

/// Whether `k` answers yes (`y`, `Y`, Enter).
pub open spec fn is_yes(k: Key) -> bool {
    k == Key::Char('y') || k == Key::Char('Y') || k == Key::Enter
}

/// Whether `k` answers no (`n`, `N`, Esc).
pub open spec fn is_no(k: Key) -> bool {
    k == Key::Char('n') || k == Key::Char('N') || k == Key::Esc
}

/// A key while the clean-up question is asked.
pub open spec fn gc_key(v: UiView, k: Key) -> (UiView, ActionView) {
    if is_yes(k) {
        (UiView { pending_gc: false, ..v }, ActionView::RunGc)
    } else if is_no(k) {
        (with_output(UiView { pending_gc: false, ..v }, "✖ GC cancelled."@), ActionView::Nothing)
    } else {
        (v, ActionView::Nothing)
    }
}

/// A key while a timeline action waits for confirmation.
pub open spec fn pending_key(v: UiView, k: Key) -> UiView {
    if is_yes(k) {
        confirm_pending(v)
    } else if is_no(k) {
        cancel_pending(v)
    } else {
        v
    }
}

/// A key while the palin picker is open.
pub open spec fn picker_key(v: UiView, k: Key) -> (UiView, ActionView) {
    let n = v.all_palins.len();
    let s = v.picker_selected;
    match k {
        Key::Down => (UiView { picker_selected: bumped(s, n), ..v }, ActionView::Nothing),
        Key::Up => (UiView { picker_selected: lowered(s), ..v }, ActionView::Nothing),
        Key::Enter => if s < n {
            (v, ActionView::SwitchPalin { name: v.all_palins[s as int].0 })
        } else {
            (v, ActionView::Nothing)
        },
        Key::Char('d') | Key::Delete => if s < n && v.all_palins[s as int].0 != v.palin_name {
            (UiView { picker_confirm_delete: Some(v.all_palins[s as int].0), ..v }, ActionView::Nothing)
        } else {
            (v, ActionView::Nothing)
        },
        Key::Esc => (UiView { show_picker: false, picker_confirm_delete: None, ..v }, ActionView::Nothing),
        _ => (v, ActionView::Nothing),
    }
}

/// A key while a file preview is shown.
pub open spec fn preview_key(v: UiView, k: Key) -> UiView {
    match k {
        Key::Char('j') | Key::Down => UiView { preview_scroll: bumped(v.preview_scroll, v.preview_content.len()), ..v },
        Key::Char('k') | Key::Up => UiView { preview_scroll: lowered(v.preview_scroll), ..v },
        Key::Esc => UiView { show_preview: false, preview_content: Seq::empty(), preview_scroll: 0, ..v },
        _ => v,
    }
}

/// Whether `c` is white space in the sense of `char::is_whitespace`
/// (the Unicode `White_Space` property).
pub open spec fn is_space(c: char) -> bool {
    ('\t' <= c && c <= '\r') || c == ' ' || c == '\u{85}' || c == '\u{a0}' || c == '\u{1680}' || ('\u{2000}' <= c
        && c <= '\u{200a}') || c == '\u{2028}' || c == '\u{2029}' || c == '\u{202f}' || c == '\u{205f}' || c == '\u{3000}'
}

/// `s` without leading white space.
#[verifier::opaque]
pub open spec fn trim_start(s: Seq<char>) -> Seq<char>
    decreases s.len(),
{
    if s.len() > 0 && is_space(s[0]) {
        trim_start(s.skip(1))
    } else {
        s
    }
}

/// `s` without trailing white space.
#[verifier::opaque]
pub open spec fn trim_end(s: Seq<char>) -> Seq<char>
    decreases s.len(),
{
    if s.len() > 0 && is_space(s.last()) {
        trim_end(s.drop_last())
    } else {
        s
    }
}

/// `s` without leading or trailing white space (`str::trim`).
pub open spec fn trimmed(s: Seq<char>) -> Seq<char> {
    trim_end(trim_start(s))
}

/// A key while the palin is being renamed.
pub open spec fn rename_key(v: UiView, k: Key) -> (UiView, ActionView) {
    match k {
        Key::Enter => {
            let t = trimmed(v.rename_input);
            if t.len() == 0 || t == v.palin_name {
                (UiView { rename_mode: false, ..v }, ActionView::Nothing)
            } else {
                (UiView { rename_mode: false, ..v }, ActionView::Rename { old_name: v.palin_name, new_name: t })
            }
        },
        Key::Esc => (UiView { rename_mode: false, ..v }, ActionView::Nothing),
        Key::Char(_) | Key::Backspace | Key::Delete => {
            let e = edited(v.rename_input, v.rename_cursor, k);
            (UiView { rename_input: e.0, rename_cursor: e.1, ..v }, ActionView::Nothing)
        },
        _ => (v, ActionView::Nothing),
    }
}

/// A key press outside the help screen: the search bar, then a clean-up
/// question, a pending confirmation, the picker, a preview and a rename
/// take it first, in that order; else the main view does.
pub open spec fn key_step(v: UiView, k: Key) -> (UiView, ActionView) {
    if v.focus == Focus::Search {
        (search_key(v, k), ActionView::Nothing)
    } else if v.pending_gc {
        gc_key(v, k)
    } else if v.pending_action is Some {
        (pending_key(v, k), ActionView::Nothing)
    } else if v.show_picker {
        picker_key(v, k)
    } else if v.show_preview && v.preview_content.len() > 0 {
        (preview_key(v, k), ActionView::Nothing)
    } else if v.rename_mode {
        rename_key(v, k)
    } else {
        main_key(v, k)
    }
}

/// A key on the help screen: `?`, Esc, Enter and `q` close it.
pub open spec fn help_key(v: UiView, k: Key) -> UiView {
    if k == Key::Char('?') || k == Key::Esc || k == Key::Enter || k == Key::Char('q') {
        UiView { show_help: false, ..v }
    } else {
        v
    }
}

} // verus!
