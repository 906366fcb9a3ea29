//! What the mouse does to the browser, and the step of the browser for any
//! event.

use vstd::prelude::*;
use crate::browser::{
    action_view, bump, bumped, end_of, end_position, item_name, lit, lower, lowered, timeline_len, with_output,
    without_output, ActionView, MouseButton, ScreenAreas, UiAction, UiEvent, UiState, UiView,
};
use crate::browser_keys::{
    cancel_pending, confirm_pending, first_row_with_path, help_key, info_args, initiate, key_step, select_item, snap_step,
};
use crate::browser_exec::first_row_index;
use crate::text::{chars_of, contains_chars, contains_run, lowercase_of, str_eq, to_lowercase};
use crate::tree::{row_view, rows_view, RowView};
use crate::tui::{hit, in_rect, last_index, ActionKind, Focus, Rect, VisibleRow};
use crate::types::epoch_display_name;

verus! {

// ─── The search filter ──────────────────────────────────────────────────

/// Whether a row passes the search filter `q`: every row when `q` is empty,
/// else the rows whose path or name holds `q`, ignoring case.
pub open spec fn row_matches(r: RowView, q: Seq<char>) -> bool {
    q.len() == 0 || contains_run(lowercase_of(r.full_path), lowercase_of(q)) || contains_run(
        lowercase_of(r.name),
        lowercase_of(q),
    )
}

/// The indices, in order, of the first `n` rows that pass the filter `q`.
pub open spec fn matching_rows(rows: Seq<RowView>, q: Seq<char>, n: int) -> Seq<int>
    decreases n,
{
    if n <= 0 {
        Seq::empty()
    } else if row_matches(rows[n - 1], q) {
        matching_rows(rows, q, n - 1).push(n - 1)
    } else {
        matching_rows(rows, q, n - 1)
    }
}

/// The rows shown when the search filter is applied, by index.
pub open spec fn filtered_rows(v: UiView) -> Seq<int> {
    matching_rows(v.visible_rows, v.search_query, v.visible_rows.len() as int)
}

proof fn lemma_matching_rows_bounded(rows: Seq<RowView>, q: Seq<char>, n: int)
    requires
        0 <= n <= rows.len(),
    ensures
        forall|k: int| 0 <= k < matching_rows(rows, q, n).len() ==> 0 <= #[trigger] matching_rows(rows, q, n)[k] < n,
        matching_rows(rows, q, n).len() <= n,
    decreases n,
{
    if n > 0 {
        lemma_matching_rows_bounded(rows, q, n - 1);
    }
}

impl UiState {
    /// The indices of the file rows that pass the search filter, in order.
    pub fn filtered_visible_rows(&self) -> (r: Vec<usize>)
        ensures
            r@.map_values(|i: usize| i as int) == filtered_rows(self@),
    {
        let ghost rows = self@.visible_rows;
        let ghost q = self.search_query@;
        let qs = crate::text::string_from_chars(self.search_query.as_slice());
        let ql = to_lowercase(qs.as_str());
        let qc = chars_of(ql.as_str());
        let mut r: Vec<usize> = Vec::new();
        let mut i: usize = 0;
        while i < self.visible_rows.len()
            invariant
                i <= self.visible_rows.len(),
                rows == rows_view(self.visible_rows@),
                q == self.search_query@,
                qc@ == lowercase_of(q),
                r@.map_values(|k: usize| k as int) == matching_rows(rows, q, i as int),
            decreases self.visible_rows.len() - i,
        {
            let row = &self.visible_rows[i];
            assert(rows[i as int] == row_view(*row));
            let keep = if self.search_query.len() == 0 {
                true
            } else {
                let p = to_lowercase(row.full_path.as_str());
                let pc = chars_of(p.as_str());
                if contains_chars(pc.as_slice(), qc.as_slice()) {
                    true
                } else {
                    let nm = to_lowercase(row.name.as_str());
                    let nc = chars_of(nm.as_str());
                    contains_chars(nc.as_slice(), qc.as_slice())
                }
            };
            assert(keep == row_matches(rows[i as int], q));
            let ghost before = r@;
            if keep {
                r.push(i);
                assert(r@.map_values(|k: usize| k as int) =~= before.map_values(|k: usize| k as int).push(i as int));
            }
            i += 1;
        }
        r
    }
}

// ─── Wheel ──────────────────────────────────────────────────────────────

/// The wheel turned down: scroll the comparison, else the preview, else the
/// output panel when the wheel is over it.
pub open spec fn scroll_down_step(v: UiView, column: u16, row: u16) -> UiView {
    if v.compare_result_lines.len() > 0 {
        UiView { diff_scroll: bumped(v.diff_scroll, v.compare_result_lines.len()), ..v }
    } else if v.show_preview && v.preview_content.len() > 0 {
        UiView { preview_scroll: bumped(v.preview_scroll, v.preview_content.len()), ..v }
    } else if v.areas.output_bar.height > 0 && in_rect(v.areas.output_bar, column, row) && v.command_output.len() > 0 {
        UiView { output_scroll: bumped(v.output_scroll, v.command_output.len()), ..v }
    } else {
        v
    }
}

/// The wheel turned up: the mirror of `scroll_down_step`, except that the
/// output panel scrolls wherever the wheel is.
pub open spec fn scroll_up_step(v: UiView) -> UiView {
    if v.compare_result_lines.len() > 0 {
        UiView { diff_scroll: lowered(v.diff_scroll), ..v }
    } else if v.show_preview && v.preview_content.len() > 0 {
        UiView { preview_scroll: lowered(v.preview_scroll), ..v }
    } else if v.areas.output_bar.height > 0 && v.command_output.len() > 0 {
        UiView { output_scroll: lowered(v.output_scroll), ..v }
    } else {
        v
    }
}

// ─── Clicks ─────────────────────────────────────────────────────────────

/// `i` as a position.
#[verifier::opaque]
pub open spec fn to_index(i: int) -> usize {
    i as usize
}

fn index_of(i: u32) -> (r: usize)
    ensures
        r == to_index(i as int),
        r == i,
{
    reveal(to_index);
    i as usize
}

/// Whether the right edge of `r` and its bottom edge are cells of the screen.
pub open spec fn fits(r: Rect) -> bool {
    r.x + r.width <= u16::MAX && r.y + r.height <= u16::MAX
}

/// Whether every area fits on the screen.
pub open spec fn areas_fit(a: ScreenAreas) -> bool {
    fits(a.term) && fits(a.snap_button) && fits(a.rename_button) && fits(a.info_button) && fits(a.gc_button)
        && fits(a.timeline_list) && fits(a.confirm_yes) && fits(a.confirm_no) && fits(a.search_bar) && fits(
        a.output_clear,
    ) && fits(a.output_bar) && fits(a.detail_list) && fits(a.picker_confirm_yes) && fits(a.picker_confirm_no)
}

/// Whether the geometry of the picker list is defined for a click at
/// (`column`, `row`): the list starts on the screen, and its right margins
/// are not left of the screen's edge where the click reaches them.
pub open spec fn picker_click_defined(v: UiView, column: u16, row: u16) -> bool {
    let t = v.areas.term;
    &&& t.x + 4 <= u16::MAX
    &&& t.y + 5 <= u16::MAX
    &&& (row >= t.y + 5 && column >= t.x + 4 ==> t.x + t.width >= 4)
    &&& (row >= t.y + 5 && column >= t.x + 4 && column <= t.x + t.width - 4 && row - (t.y + 5)
        < v.all_palins.len() ==> t.x + t.width >= 16)
}

/// Whether the positions an event is compared with are cells of the screen.
pub open spec fn event_defined(v: UiView, ev: UiEvent) -> bool {
    match ev {
        UiEvent::ScrollDown { .. } | UiEvent::ScrollUp { .. } => fits(v.areas.output_bar),
        UiEvent::Press { column, row, .. } => areas_fit(v.areas) && (v.show_picker && v.picker_confirm_delete is None
            ==> picker_click_defined(v, column, row)),
        _ => true,
    }
}

/// A click while the picker is open: the confirmation buttons when a
/// deletion is asked about; else a palin's row (its delete button, or
/// selecting it and, with the left button, switching to it); anywhere else
/// closes the picker.
pub open spec fn picker_press(v: UiView, button: MouseButton, column: u16, row: u16) -> (UiView, ActionView) {
    let a = v.areas;
    match v.picker_confirm_delete {
        Some(name) => if a.picker_confirm_yes.width > 0 && in_rect(a.picker_confirm_yes, column, row) {
            (v, ActionView::DeletePalin { name })
        } else if a.picker_confirm_no.width > 0 && in_rect(a.picker_confirm_no, column, row) {
            (UiView { picker_confirm_delete: None, ..v }, ActionView::Nothing)
        } else {
            (v, ActionView::Nothing)
        },
        None => {
            let t = a.term;
            let list_y = t.y + 5;
            let right = t.x + t.width - 4;
            if row >= list_y && column >= t.x + 4 && column <= right && row - list_y < v.all_palins.len() {
                let idx = row - list_y;
                let name = v.all_palins[idx].0;
                if column >= t.x + t.width - 16 {
                    if name != v.palin_name {
                        (UiView { picker_confirm_delete: Some(name), ..v }, ActionView::Nothing)
                    } else {
                        (v, ActionView::Nothing)
                    }
                } else if button == MouseButton::Left {
                    (UiView { picker_selected: to_index(idx), ..v }, ActionView::SwitchPalin { name })
                } else {
                    (UiView { picker_selected: to_index(idx), ..v }, ActionView::Nothing)
                }
            } else {
                (UiView { show_picker: false, ..v }, ActionView::Nothing)
            }
        },
    }
}

/// The timeline item on row `raw` of the timeline list (counting from the
/// top of the list, scrolled by `scroll`), or `None` on a section header.
/// Headers are shown when there are both epochs and phantoms.
pub open spec fn item_at_row(raw: int, epochs: int, phantoms: int, scroll: int) -> Option<int> {
    if !(epochs > 0 && phantoms > 0) {
        Some(raw)
    } else if scroll == 0 {
        if raw == 0 || raw == epochs + 1 {
            None
        } else if raw <= epochs {
            Some(raw - 1)
        } else {
            Some(raw - 2)
        }
    } else {
        if raw == epochs {
            None
        } else if raw < epochs {
            Some(raw)
        } else {
            Some(raw - 1)
        }
    }
}

/// A click on timeline item `idx`: on its buttons at the right edge (lock,
/// restore, delete) with the left button; else the target of a waiting
/// comparison; else selecting it.
pub open spec fn item_press(v: UiView, idx: int, button: MouseButton, column: u16, shift: bool) -> (UiView, ActionView) {
    let tl = v.areas.timeline_list;
    let btn_start = tl.x + (if tl.width >= 12 {
        tl.width - 12
    } else {
        0
    });
    if btn_start > 0 && column >= btn_start && button == MouseButton::Left {
        let off = column - btn_start;
        if off < 4 {
            if idx < v.epochs.len() {
                let e = v.epochs[idx];
                (
                    v,
                    ActionView::ToggleLock {
                        epoch_id: e.id,
                        lock: !e.is_locked,
                        name: epoch_display_name(e.is_origin, e.epoch_num as int),
                    },
                )
            } else {
                (v, ActionView::Nothing)
            }
        } else if off < 8 {
            (initiate(v, ActionKind::Restore, to_index(idx), shift), ActionView::Nothing)
        } else {
            (initiate(v, ActionKind::Delete, to_index(idx), shift), ActionView::Nothing)
        }
    } else if v.compare_mode {
        (with_output(UiView { compare_pending_epoch: true, compare_mode: false, ..v }, "● Comparing..."@), ActionView::Nothing)
    } else {
        select_item(v, to_index(idx), true, false)
    }
}

/// A click on the timeline list.
pub open spec fn timeline_press(v: UiView, button: MouseButton, column: u16, row: u16, shift: bool) -> (UiView, ActionView) {
    let tl = v.areas.timeline_list;
    if tl.width > 0 && in_rect(tl, column, row) {
        let raw = (row - tl.y) + v.timeline_scroll;
        match item_at_row(raw, v.epochs.len() as int, v.phantoms.len() as int, v.timeline_scroll as int) {
            Some(idx) => if idx < timeline_len(v) {
                item_press(v, idx, button, column, shift)
            } else {
                (v, ActionView::Nothing)
            },
            None => (v, ActionView::Nothing),
        }
    } else {
        (v, ActionView::Nothing)
    }
}

/// A click on the file list: a file row (after the search filter) moves
/// the file cursor to the first row with its path; anything else goes on
/// to the timeline.
pub open spec fn detail_press(v: UiView, button: MouseButton, column: u16, row: u16, shift: bool) -> (UiView, ActionView) {
    let dl = v.areas.detail_list;
    let shown = filtered_rows(v);
    if dl.width > 0 && in_rect(dl, column, row) && row - dl.y < shown.len() && !v.visible_rows[shown[row
        - dl.y]].is_dir {
        let p = v.visible_rows[shown[row - dl.y]].full_path;
        match first_row_with_path(v.visible_rows, p) {
            Some(i) => (UiView { selected_file_idx: to_index(i), ..v }, ActionView::Nothing),
            None => (v, ActionView::Nothing),
        }
    } else {
        timeline_press(v, button, column, row, shift)
    }
}

/// Starting to rename the palin: the field holds its name, the cursor at the end.
pub open spec fn begin_rename_step(v: UiView) -> UiView {
    UiView { rename_mode: true, rename_input: v.palin_name, rename_cursor: end_of(v.palin_name.len()), ..v }
}

/// A mouse button going down, outside the help screen: the picker and a
/// rename take it first; then the buttons (snap, clean-up, info, rename,
/// clear), a pending confirmation, the search bar, the file list and the
/// timeline, in that order.
pub open spec fn press_step(v: UiView, button: MouseButton, column: u16, row: u16, shift: bool) -> (UiView, ActionView) {
    let a = v.areas;
    if v.show_picker {
        picker_press(v, button, column, row)
    } else if v.rename_mode {
        (UiView { rename_mode: false, ..v }, ActionView::Nothing)
    } else if in_rect(a.snap_button, column, row) {
        snap_step(v)
    } else if a.gc_button.width > 0 && in_rect(a.gc_button, column, row) {
        (v, ActionView::CheckGc)
    } else if a.info_button.width > 0 && in_rect(a.info_button, column, row) {
        (v, ActionView::RunCommand { args: info_args(v) })
    } else if a.rename_button.width > 0 && in_rect(a.rename_button, column, row) {
        (begin_rename_step(v), ActionView::Nothing)
    } else if a.output_clear.width > 0 && in_rect(a.output_clear, column, row) {
        (without_output(v), ActionView::Nothing)
    } else if v.pending_action is Some && in_rect(a.confirm_yes, column, row) {
        (if button == MouseButton::Left {
            confirm_pending(v)
        } else {
            v
        }, ActionView::Nothing)
    } else if v.pending_action is Some && in_rect(a.confirm_no, column, row) {
        (if button == MouseButton::Left {
            cancel_pending(v)
        } else {
            v
        }, ActionView::Nothing)
    } else if a.search_bar.width > 0 && in_rect(a.search_bar, column, row) {
        (UiView { focus: Focus::Search, ..v }, ActionView::Nothing)
    } else {
        detail_press(v, button, column, row, shift)
    }
}

/// One step of the browser: on the help screen only keys count; elsewhere
/// keys, the wheel and buttons go to their handlers.
pub open spec fn step(v: UiView, ev: UiEvent) -> (UiView, ActionView) {
    if v.show_help {
        match ev {
            UiEvent::Key(k) => (help_key(v, k), ActionView::Nothing),
            _ => (v, ActionView::Nothing),
        }
    } else {
        match ev {
            UiEvent::Key(k) => key_step(v, k),
            UiEvent::ScrollDown { column, row } => (scroll_down_step(v, column, row), ActionView::Nothing),
            UiEvent::ScrollUp { .. } => (scroll_up_step(v), ActionView::Nothing),
            UiEvent::Press { button, column, row, shift } => press_step(v, button, column, row, shift),
            UiEvent::Other => (v, ActionView::Nothing),
        }
    }
}

} // verus!

verus! {

// ─── The mouse handlers ─────────────────────────────────────────────────

proof fn lemma_to_index(i: usize)
    ensures
        to_index(i as int) == i,
{
    reveal(to_index);
}

/// The timeline item drawn on row `raw` of the timeline list (rows counted
/// from the top of the list, scrolled by `scroll`), or `None` on a section
/// header, for a timeline of `epochs` epochs and `phantoms` phantoms.
pub fn row_item(raw: usize, epochs: usize, phantoms: usize, scroll: usize) -> (r: Option<usize>)
    requires
        epochs + phantoms <= usize::MAX,
    ensures
        match r {
            Some(i) => item_at_row(raw as int, epochs as int, phantoms as int, scroll as int) == Some(i as int),
            None => item_at_row(raw as int, epochs as int, phantoms as int, scroll as int) is None,
        },
{
    if !(epochs > 0 && phantoms > 0) {
        Some(raw)
    } else if scroll == 0 {
        if raw == 0 || raw == epochs + 1 {
            None
        } else if raw <= epochs {
            Some(raw - 1)
        } else {
            Some(raw - 2)
        }
    } else {
        if raw == epochs {
            None
        } else if raw < epochs {
            Some(raw)
        } else {
            Some(raw - 1)
        }
    }
}

impl UiState {
    /// Whether the positions an event is compared with are cells of the screen.
    pub fn event_defined(&self, ev: UiEvent) -> (r: bool)
        ensures
            r == event_defined(self@, ev),
    {
        let a = self.areas;
        match ev {
            UiEvent::ScrollDown { .. } | UiEvent::ScrollUp { .. } => rect_fits(a.output_bar),
            UiEvent::Press { column, row, .. } => {
                let all = rect_fits(a.term) && rect_fits(a.snap_button) && rect_fits(a.rename_button) && rect_fits(
                    a.info_button,
                ) && rect_fits(a.gc_button) && rect_fits(a.timeline_list) && rect_fits(a.confirm_yes) && rect_fits(
                    a.confirm_no,
                ) && rect_fits(a.search_bar) && rect_fits(a.output_clear) && rect_fits(a.output_bar) && rect_fits(
                    a.detail_list,
                ) && rect_fits(a.picker_confirm_yes) && rect_fits(a.picker_confirm_no);
                if !all {
                    false
                } else if self.show_picker && self.picker_confirm_delete.is_none() {
                    let t = a.term;
                    let tx = t.x as i64;
                    let ty = t.y as i64;
                    let tw = t.width as i64;
                    let c = column as i64;
                    let rw = row as i64;
                    let n = self.all_palins.len();
                    tx + 4 <= 65535 && ty + 5 <= 65535 && (!(rw >= ty + 5 && c >= tx + 4) || tx + tw >= 4) && (!(rw >= ty
                        + 5 && c >= tx + 4 && c <= tx + tw - 4 && ((rw - (ty + 5)) as u64) < (n as u64)) || tx + tw >= 16)
                } else {
                    true
                }
            },
            _ => true,
        }
    }

    #[verifier::rlimit(40)]
    fn scroll_down_exec(&mut self, column: u16, row: u16)
        requires
            old(self).wf(),
        ensures
            final(self)@ == scroll_down_step(old(self)@, column, row),
            final(self).wf(),
    {
        let ghost v = self@;
        let ob = self.areas.output_bar;
        if self.compare_result_lines.len() > 0 {
            assert(scroll_down_step(v, column, row) == UiView { diff_scroll: bumped(v.diff_scroll, v.compare_result_lines.len()), ..v });
            self.diff_scroll = bump(self.diff_scroll, self.compare_result_lines.len());
        } else if self.show_preview && self.preview_content.len() > 0 {
            assert(scroll_down_step(v, column, row) == UiView { preview_scroll: bumped(v.preview_scroll, v.preview_content.len()), ..v });
            self.preview_scroll = bump(self.preview_scroll, self.preview_content.len());
        } else if ob.height > 0 && hit(ob, column, row) && self.command_output.len() > 0 {
            assert(scroll_down_step(v, column, row) == UiView { output_scroll: bumped(v.output_scroll, v.command_output.len()), ..v });
            self.output_scroll = bump(self.output_scroll, self.command_output.len());
        } else {
            assert(scroll_down_step(v, column, row) == v);
        }
    }

    #[verifier::rlimit(40)]
    fn scroll_up_exec(&mut self)
        requires
            old(self).wf(),
        ensures
            final(self)@ == scroll_up_step(old(self)@),
            final(self).wf(),
    {
        let ghost v = self@;
        if self.compare_result_lines.len() > 0 {
            assert(scroll_up_step(v) == UiView { diff_scroll: lowered(v.diff_scroll), ..v });
            self.diff_scroll = lower(self.diff_scroll);
        } else if self.show_preview && self.preview_content.len() > 0 {
            assert(scroll_up_step(v) == UiView { preview_scroll: lowered(v.preview_scroll), ..v });
            self.preview_scroll = lower(self.preview_scroll);
        } else if self.areas.output_bar.height > 0 && self.command_output.len() > 0 {
            assert(scroll_up_step(v) == UiView { output_scroll: lowered(v.output_scroll), ..v });
            self.output_scroll = lower(self.output_scroll);
        } else {
            assert(scroll_up_step(v) == v);
        }
    }

    #[verifier::rlimit(40)]
    fn picker_press_exec(&mut self, button: MouseButton, column: u16, row: u16) -> (r: UiAction)
        requires
            old(self).wf(),
            old(self).show_picker,
        ensures
            (final(self)@, action_view(r)) == picker_press(old(self)@, button, column, row),
            final(self).wf(),
    {
        let ghost v = self@;
        let a = self.areas;
        match &self.picker_confirm_delete {
            Some(name) => {
                if a.picker_confirm_yes.width > 0 && hit(a.picker_confirm_yes, column, row) {
                    UiAction::DeletePalin { name: name.clone() }
                } else if a.picker_confirm_no.width > 0 && hit(a.picker_confirm_no, column, row) {
                    self.picker_confirm_delete = None;
                    UiAction::Nothing
                } else {
                    UiAction::Nothing
                }
            },
            None => {
                let t = a.term;
                let list_y = t.y as i64 + 5;
                let right = t.x as i64 + t.width as i64 - 4;
                let c = column as i64;
                let rw = row as i64;
                let n = self.all_palins.len();
                if rw >= list_y && c >= t.x as i64 + 4 && c <= right && ((rw - list_y) as u64) < (n as u64) {
                    let idx = index_of((rw - list_y) as u32);
                    assert(idx as int == row - (t.y + 5));
                    if c >= t.x as i64 + t.width as i64 - 16 {
                        if !str_eq(self.all_palins[idx].0.as_str(), self.palin_name.as_str()) {
                            self.picker_confirm_delete = Some(self.all_palins[idx].0.clone());
                        }
                        UiAction::Nothing
                    } else {
                        self.picker_selected = idx;
                        if button == MouseButton::Left {
                            UiAction::SwitchPalin { name: self.all_palins[idx].0.clone() }
                        } else {
                            UiAction::Nothing
                        }
                    }
                } else {
                    self.show_picker = false;
                    UiAction::Nothing
                }
            },
        }
    }

    fn item_buttons_exec(&mut self, idx: usize, column: u16, shift: bool) -> (r: UiAction)
        requires
            old(self).wf(),
            idx < timeline_len(old(self)@),
            ({
                let tl = old(self).areas.timeline_list;
                let btn_start = tl.x + (if tl.width >= 12 { tl.width - 12 } else { 0 });
                btn_start > 0 && column >= btn_start
            }),
        ensures
            (final(self)@, action_view(r)) == item_press(old(self)@, idx as int, MouseButton::Left, column, shift),
            final(self).wf(),
    {
        let ghost v = self@;
        proof {
            lemma_to_index(idx);
        }
        let tl = self.areas.timeline_list;
        let btn_start: u32 = tl.x as u32 + (if tl.width >= 12 {
            tl.width - 12
        } else {
            0
        }) as u32;
        let off = column as u32 - btn_start;
        if off < 4 {
            if idx < self.epochs.len() {
                let e = &self.epochs[idx];
                UiAction::ToggleLock { epoch_id: e.id, lock: !e.is_locked, name: e.display_name() }
            } else {
                UiAction::Nothing
            }
        } else if off < 8 {
            assert(item_press(v, idx as int, MouseButton::Left, column, shift) == (initiate(v, ActionKind::Restore, idx, shift), ActionView::Nothing));
            self.initiate_action(ActionKind::Restore, idx, shift);
            UiAction::Nothing
        } else {
            assert(item_press(v, idx as int, MouseButton::Left, column, shift) == (initiate(v, ActionKind::Delete, idx, shift), ActionView::Nothing));
            self.initiate_action(ActionKind::Delete, idx, shift);
            UiAction::Nothing
        }
    }

    #[verifier::rlimit(40)]
    fn item_press_exec(&mut self, idx: usize, button: MouseButton, column: u16, shift: bool) -> (r: UiAction)
        requires
            old(self).wf(),
            idx < timeline_len(old(self)@),
        ensures
            (final(self)@, action_view(r)) == item_press(old(self)@, idx as int, button, column, shift),
            final(self).wf(),
    {
        let ghost v = self@;
        proof {
            lemma_to_index(idx);
        }
        let tl = self.areas.timeline_list;
        let btn_start: u32 = tl.x as u32 + (if tl.width >= 12 {
            tl.width - 12
        } else {
            0
        }) as u32;
        if btn_start > 0 && column as u32 >= btn_start && button == MouseButton::Left {
            self.item_buttons_exec(idx, column, shift)
        } else if self.compare_mode {
            assert(item_press(v, idx as int, button, column, shift) == (with_output(UiView { compare_pending_epoch: true, compare_mode: false, ..v }, "● Comparing..."@), ActionView::Nothing));
            self.compare_with_selected();
            UiAction::Nothing
        } else {
            assert(item_press(v, idx as int, button, column, shift) == select_item(v, idx, true, false));
            self.select_and_load(idx, true, false)
        }
    }

    fn timeline_press_exec(&mut self, button: MouseButton, column: u16, row: u16, shift: bool) -> (r: UiAction)
        requires
            old(self).wf(),
        ensures
            (final(self)@, action_view(r)) == timeline_press(old(self)@, button, column, row, shift),
            final(self).wf(),
    {
        let tl = self.areas.timeline_list;
        if tl.width > 0 && hit(tl, column, row) {
            let vis = (row - tl.y) as usize;
            let raw = vis + self.timeline_scroll;
            let ec = self.epochs.len();
            let item = row_item(raw, ec, self.phantoms.len(), self.timeline_scroll);
            match item {
                Some(idx) => {
                    if idx < self.timeline_len() {
                        self.item_press_exec(idx, button, column, shift)
                    } else {
                        UiAction::Nothing
                    }
                },
                None => UiAction::Nothing,
            }
        } else {
            UiAction::Nothing
        }
    }

    fn detail_press_exec(&mut self, button: MouseButton, column: u16, row: u16, shift: bool) -> (r: UiAction)
        requires
            old(self).wf(),
        ensures
            (final(self)@, action_view(r)) == detail_press(old(self)@, button, column, row, shift),
            final(self).wf(),
    {
        let ghost v = self@;
        let dl = self.areas.detail_list;
        let shown = self.filtered_visible_rows();
        proof {
            lemma_matching_rows_bounded(v.visible_rows, v.search_query, v.visible_rows.len() as int);
        }
        if dl.width > 0 && hit(dl, column, row) && ((row - dl.y) as usize) < shown.len() {
            let k = (row - dl.y) as usize;
            let j = shown[k];
            assert(filtered_rows(v)[k as int] == j as int);
            if !self.visible_rows[j].is_dir {
                let p = self.visible_rows[j].full_path.clone();
                proof {
                    crate::browser_keys::lemma_first_row(v.visible_rows, p@);
                }
                match first_row_index(self.visible_rows.as_slice(), p.as_str()) {
                    Some(i) => {
                        proof {
                            lemma_to_index(i);
                        }
                        self.selected_file_idx = i;
                        UiAction::Nothing
                    },
                    None => UiAction::Nothing,
                }
            } else {
                self.timeline_press_exec(button, column, row, shift)
            }
        } else {
            self.timeline_press_exec(button, column, row, shift)
        }
    }

    /// Starts renaming the palin.
    pub fn begin_rename(&mut self)
        requires
            old(self).wf(),
        ensures
            final(self)@ == begin_rename_step(old(self)@),
            final(self).wf(),
    {
        let v = chars_of(self.palin_name.as_str());
        let n = end_position(v.len());
        self.rename_mode = true;
        self.rename_input = v;
        self.rename_cursor = n;
    }

    #[verifier::rlimit(40)]
    fn press_buttons(&mut self, button: MouseButton, column: u16, row: u16, shift: bool) -> (r: UiAction)
        requires
            old(self).wf(),
            !old(self).show_picker,
            !old(self).rename_mode,
        ensures
            (final(self)@, action_view(r)) == press_step(old(self)@, button, column, row, shift),
            final(self).wf(),
    {
        let a = self.areas;
        if hit(a.snap_button, column, row) {
            self.run_snap()
        } else if a.gc_button.width > 0 && hit(a.gc_button, column, row) {
            UiAction::CheckGc
        } else if a.info_button.width > 0 && hit(a.info_button, column, row) {
            self.run_info()
        } else if a.rename_button.width > 0 && hit(a.rename_button, column, row) {
            self.begin_rename();
            UiAction::Nothing
        } else if a.output_clear.width > 0 && hit(a.output_clear, column, row) {
            self.clear_output();
            UiAction::Nothing
        } else {
            self.press_rest(button, column, row, shift)
        }
    }

    #[verifier::rlimit(40)]
    fn press_rest(&mut self, button: MouseButton, column: u16, row: u16, shift: bool) -> (r: UiAction)
        requires
            old(self).wf(),
            !old(self).show_picker,
            !old(self).rename_mode,
            !in_rect(old(self).areas.snap_button, column, row),
            !(old(self).areas.gc_button.width > 0 && in_rect(old(self).areas.gc_button, column, row)),
            !(old(self).areas.info_button.width > 0 && in_rect(old(self).areas.info_button, column, row)),
            !(old(self).areas.rename_button.width > 0 && in_rect(old(self).areas.rename_button, column, row)),
            !(old(self).areas.output_clear.width > 0 && in_rect(old(self).areas.output_clear, column, row)),
        ensures
            (final(self)@, action_view(r)) == press_step(old(self)@, button, column, row, shift),
            final(self).wf(),
    {
        let a = self.areas;
        if self.pending_action.is_some() && hit(a.confirm_yes, column, row) {
            if button == MouseButton::Left {
                self.execute_pending_action();
            }
            UiAction::Nothing
        } else if self.pending_action.is_some() && hit(a.confirm_no, column, row) {
            if button == MouseButton::Left {
                self.cancel_pending_action();
            }
            UiAction::Nothing
        } else if a.search_bar.width > 0 && hit(a.search_bar, column, row) {
            self.focus = Focus::Search;
            UiAction::Nothing
        } else {
            self.detail_press_exec(button, column, row, shift)
        }
    }

    fn press_exec(&mut self, button: MouseButton, column: u16, row: u16, shift: bool) -> (r: UiAction)
        requires
            old(self).wf(),
        ensures
            (final(self)@, action_view(r)) == press_step(old(self)@, button, column, row, shift),
            final(self).wf(),
    {
        if self.show_picker {
            self.picker_press_exec(button, column, row)
        } else if self.rename_mode {
            self.rename_mode = false;
            UiAction::Nothing
        } else {
            self.press_buttons(button, column, row, shift)
        }
    }

    /// One step of the browser: applies an input event to the state and
    /// returns the outside work it asks for.
    pub fn handle_event(&mut self, ev: UiEvent) -> (r: UiAction)
        requires
            old(self).wf(),
            event_defined(old(self)@, ev),
        ensures
            (final(self)@, action_view(r)) == step(old(self)@, ev),
            final(self).wf(),
    {
        if self.show_help {
            match ev {
                UiEvent::Key(k) => {
                    self.handle_help_key(k);
                    UiAction::Nothing
                },
                _ => UiAction::Nothing,
            }
        } else {
            match ev {
                UiEvent::Key(k) => self.handle_key(k),
                UiEvent::ScrollDown { column, row } => {
                    self.scroll_down_exec(column, row);
                    UiAction::Nothing
                },
                UiEvent::ScrollUp { .. } => {
                    self.scroll_up_exec();
                    UiAction::Nothing
                },
                UiEvent::Press { button, column, row, shift } => self.press_exec(button, column, row, shift),
                UiEvent::Other => UiAction::Nothing,
            }
        }
    }
}

/// Whether the right and bottom edges of `r` are cells of the screen.
pub fn rect_fits(r: Rect) -> (b: bool)
    ensures
        b == fits(r),
{
    (r.x as u32) + (r.width as u32) <= 65535 && (r.y as u32) + (r.height as u32) <= 65535
}

} // verus!
