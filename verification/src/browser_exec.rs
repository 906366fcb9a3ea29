//! The key handlers of the browser, each proved to do what its step in
//! `browser_keys` says.

use vstd::prelude::*;
use crate::browser::{
    action_view, advance, bump, diff_lines_view, edit_text, end_position, framed, keep_within, last_position, lit,
    lower, prefixed, timeline_len, with_output, ActionView, Key, UiAction, UiState, UiView,
};
use crate::browser_keys::{
    cancel_message, cancel_pending, lemma_first_row, compare_closed, compare_key, confirm_message, confirm_pending, down_key, enter_compare, enter_key, first_row_with_path, info_args, initiate, load_selected, main_char, main_key, page_down, page_step, page_up, paged_down, paged_up, running_message, select_item, snap_step, toggle_step, up_key,
};
use crate::text::{chars_of, str_eq};
use crate::tree::{flat_nodes, flatten, nodes_view, rows_view, toggle_path};
use crate::tui::{last_index, ActionKind, Focus, PendingAction, VisibleRow};

verus! {

fn running_text(kind: ActionKind, name: &String) -> (r: String)
    ensures
        r@ == running_message(kind, name@),
{
    let n = chars_of(name.as_str());
    match kind {
        ActionKind::Restore => framed("● Restoring to ", n.as_slice(), "..."),
        ActionKind::Delete => framed("● Deleting ", n.as_slice(), "..."),
    }
}

fn confirm_text(kind: ActionKind, name: &String) -> (r: String)
    ensures
        r@ == confirm_message(kind, name@),
{
    let n = chars_of(name.as_str());
    match kind {
        ActionKind::Restore => framed("  Restore to ", n.as_slice(), "?  [y/N]"),
        ActionKind::Delete => framed("  Delete ", n.as_slice(), "?  [y/N]"),
    }
}

fn cancel_text(kind: ActionKind, name: &String) -> (r: String)
    ensures
        r@ == cancel_message(kind, name@),
{
    let n = chars_of(name.as_str());
    match kind {
        ActionKind::Restore => prefixed("✖ Cancelled restore of ", n.as_slice()),
        ActionKind::Delete => prefixed("✖ Cancelled deletion of ", n.as_slice()),
    }
}

fn select_message(path: &String) -> (r: String)
    ensures
        r@ == "  Select an epoch to compare '"@ + path@ + "' with..."@,
{
    let n = chars_of(path.as_str());
    framed("  Select an epoch to compare '", n.as_slice(), "' with...")
}

/// Index of the first row with path `p`.
pub fn first_row_index(rows: &[VisibleRow], p: &str) -> (r: Option<usize>)
    ensures
        match r {
            Some(i) => first_row_with_path(rows_view(rows@), p@) == Some(i as int),
            None => first_row_with_path(rows_view(rows@), p@) is None,
        },
{
    let ghost rv = rows_view(rows@);
    proof {
        lemma_first_row(rv, p@);
    }
    let mut i: usize = 0;
    while i < rows.len()
        invariant
            i <= rows.len(),
            rv == rows_view(rows@),
            rv.len() == rows.len(),
            forall|k: int| 0 <= k < i ==> (#[trigger] rv[k]).full_path != p@,
            match first_row_with_path(rv, p@) {
                Some(j) => 0 <= j < rv.len() && rv[j].full_path == p@ && forall|k: int|
                    0 <= k < j ==> (#[trigger] rv[k]).full_path != p@,
                None => forall|k: int| 0 <= k < rv.len() ==> (#[trigger] rv[k]).full_path != p@,
            },
        decreases rows.len() - i,
    {
        if str_eq(rows[i].full_path.as_str(), p) {
            assert(rv[i as int].full_path == p@);
            return Some(i);
        }
        i += 1;
    }
    None
}

impl UiState {
    /// Closes the comparison view (its lines, error and scroll position),
    /// keeping the waiting-for-a-target mode when `keep_mode` holds.
    fn close_compare(&mut self, keep_mode: bool)
        requires
            old(self).wf(),
        ensures
            final(self)@ == compare_closed(old(self)@, keep_mode),
            final(self).wf(),
    {
        self.compare_result_lines.clear();
        self.compare_error = None;
        if !keep_mode {
            self.compare_mode = false;
        }
        self.diff_scroll = 0;
        assert(diff_lines_view(self.compare_result_lines@) =~= Seq::empty());
    }

    /// Shows the selected timeline item: closes the comparison view and asks
    /// for the item's entries, or empties the file panel when the timeline
    /// is empty.
    pub fn load_entries(&mut self, fatal: bool, keep_mode: bool) -> (r: UiAction)
        requires
            old(self).wf(),
        ensures
            (final(self)@, action_view(r)) == load_selected(old(self)@, fatal, keep_mode),
            final(self).wf(),
    {
        let target = self.item_target(self.selected_idx);
        self.close_compare(keep_mode);
        match target {
            None => {
                self.current_entries.clear();
                self.tree_nodes.clear();
                self.visible_rows.clear();
                proof {
                    crate::tree::lemma_nodes_view(self.tree_nodes@);
                }
                assert(nodes_view(self.tree_nodes@) =~= Seq::empty());
                assert(rows_view(self.visible_rows@) =~= Seq::empty());
                assert(self.current_entries@ =~= Seq::empty());
                UiAction::Nothing
            },
            Some((id, kind)) => UiAction::LoadEntries { snapshot_id: id, kind, fatal },
        }
    }

    pub(crate) fn select_and_load(&mut self, idx: usize, fatal: bool, keep_mode: bool) -> (r: UiAction)
        requires
            old(self).wf(),
            idx <= last_index(timeline_len(old(self)@)),
        ensures
            (final(self)@, action_view(r)) == select_item(old(self)@, idx, fatal, keep_mode),
            final(self).wf(),
    {
        self.selected_idx = idx;
        self.load_entries(fatal, keep_mode)
    }

    /// Starts a snapshot unless one is running.
    pub fn run_snap(&mut self) -> (r: UiAction)
        requires
            old(self).wf(),
        ensures
            (final(self)@, action_view(r)) == snap_step(old(self)@),
            final(self).wf(),
    {
        if self.snap_in_progress {
            self.add_output(lit("  Snap already in progress..."));
            UiAction::Nothing
        } else {
            self.snap_in_progress = true;
            self.snap_start_frame = self.frame_count;
            self.patience_shown = false;
            self.add_output(lit("◐ Scanning files..."));
            UiAction::StartSnap
        }
    }

    /// Asks for the information of the palin.
    pub fn run_info(&self) -> (r: UiAction)
        ensures
            action_view(r) == (ActionView::RunCommand { args: info_args(self@) }),
    {
        let mut args: Vec<String> = Vec::new();
        args.push(lit("info"));
        args.push(self.palin_name.clone());
        assert(args@.map_values(|s: String| s@) =~= info_args(self@));
        UiAction::RunCommand { args }
    }

    fn start_now(&mut self, kind: ActionKind, name: String, idx: usize)
        requires
            old(self).wf(),
        ensures
            final(self)@ == (UiView {
                pending_execute_action: Some((kind, name@, idx)),
                ..with_output(old(self)@, running_message(kind, name@))
            }),
            final(self).wf(),
    {
        let msg = running_text(kind, &name);
        self.add_output(msg);
        self.pending_execute_action = Some(PendingAction { kind, item_name: name, item_idx: idx });
    }

    fn ask_first(&mut self, kind: ActionKind, name: String, idx: usize)
        requires
            old(self).wf(),
        ensures
            final(self)@ == with_output(
                UiView { pending_action: Some((kind, name@, idx)), ..old(self)@ },
                confirm_message(kind, name@),
            ),
            final(self).wf(),
    {
        let msg = confirm_text(kind, &name);
        self.pending_action = Some(PendingAction { kind, item_name: name, item_idx: idx });
        self.add_output(msg);
    }

    /// Starts a restore or delete of timeline item `idx`: at once (after the
    /// next frame) when `now` holds, after a confirmation otherwise.
    pub fn initiate_action(&mut self, kind: ActionKind, idx: usize, now: bool)
        requires
            old(self).wf(),
        ensures
            final(self)@ == initiate(old(self)@, kind, idx, now),
            final(self).wf(),
    {
        match self.item_name(idx) {
            None => {},
            Some(name) => {
                if now {
                    self.start_now(kind, name, idx);
                } else {
                    self.ask_first(kind, name, idx);
                }
            },
        }
    }

    /// Confirms the pending timeline action.
    pub fn execute_pending_action(&mut self)
        requires
            old(self).wf(),
        ensures
            final(self)@ == confirm_pending(old(self)@),
            final(self).wf(),
    {
        match self.pending_action.take() {
            Some(a) => {
                let msg = running_text(a.kind, &a.item_name);
                self.pending_execute_action = Some(a);
                self.add_output(msg);
            },
            None => {},
        }
    }

    /// Calls off the pending timeline action.
    pub fn cancel_pending_action(&mut self)
        requires
            old(self).wf(),
        ensures
            final(self)@ == cancel_pending(old(self)@),
            final(self).wf(),
    {
        match self.pending_action.take() {
            Some(a) => {
                let msg = cancel_text(a.kind, &a.item_name);
                self.add_output(msg);
            },
            None => {},
        }
    }

    /// Redraws the rows of the file tree and keeps the file cursor on a row.
    pub fn flatten_tree(&mut self)
        requires
            old(self).wf(),
        ensures
            final(self)@ == ({
                let rows = flat_nodes(old(self)@.tree_nodes, 0, old(self)@.expanded);
                UiView { visible_rows: rows, selected_file_idx: crate::browser::kept_within(old(self).selected_file_idx, rows.len()), ..old(self)@ }
            }),
            final(self).wf(),
    {
        let rows = flatten(self.tree_nodes.as_slice(), self.expanded_dirs.as_slice());
        let sel = keep_within(self.selected_file_idx, rows.len());
        self.visible_rows = rows;
        self.selected_file_idx = sel;
    }

    /// Opens or closes the folder under the file cursor.
    pub fn toggle_current_folder(&mut self)
        requires
            old(self).wf(),
            old(self).selected_file_idx < old(self).visible_rows.len(),
            old(self).visible_rows[old(self).selected_file_idx as int].is_dir,
        ensures
            final(self)@ == toggle_step(old(self)@),
            final(self).wf(),
    {
        let p = self.visible_rows[self.selected_file_idx].full_path.clone();
        toggle_path(&mut self.expanded_dirs, p.as_str());
        self.flatten_tree();
    }

    /// Makes file row `idx` the source of a comparison, if it is a file.
    pub fn enter_compare_mode(&mut self, idx: usize)
        requires
            old(self).wf(),
        ensures
            final(self)@ == enter_compare(old(self)@, idx as int),
            final(self).wf(),
    {
        if idx < self.visible_rows.len() && !self.visible_rows[idx].is_dir {
            let p = self.visible_rows[idx].full_path.clone();
            let msg = select_message(&p);
            self.compare_source_idx = self.selected_idx;
            self.compare_mode = true;
            self.compare_file_path = p;
            self.compare_result_lines.clear();
            self.compare_error = None;
            assert(diff_lines_view(self.compare_result_lines@) =~= Seq::empty());
            self.add_output(msg);
        }
    }

    pub(crate) fn compare_with_selected(&mut self)
        requires
            old(self).wf(),
            old(self).compare_mode,
        ensures
            final(self)@ == compare_key(old(self)@),
            final(self).wf(),
    {
        self.compare_pending_epoch = true;
        self.compare_mode = false;
        self.add_output(lit("● Comparing..."));
    }

    fn choose_compare_source(&mut self)
        requires
            old(self).wf(),
            !old(self).compare_mode,
            old(self).focus == Focus::Files,
            old(self).selected_file_idx < old(self).visible_rows.len(),
            !old(self).visible_rows[old(self).selected_file_idx as int].is_dir,
        ensures
            final(self)@ == compare_key(old(self)@),
            final(self).wf(),
    {
        let ghost v = self@;
        let p = self.visible_rows[self.selected_file_idx].full_path.clone();
        assert(p@ == v.visible_rows[v.selected_file_idx as int].full_path);
        let found = first_row_index(self.visible_rows.as_slice(), p.as_str());
        assert(rows_view(self.visible_rows@) == v.visible_rows);
        match found {
            Some(i) => {
                assert(first_row_with_path(v.visible_rows, p@) == Some(i as int));
                let msg = select_message(&p);
                self.enter_compare_mode(i);
                let ghost s1 = self@;
                assert(s1 == enter_compare(v, i as int));
                self.focus = Focus::Timeline;
                assert(self@ == UiView { focus: Focus::Timeline, ..s1 });
                self.add_output(msg);
                assert(self@ == with_output(UiView { focus: Focus::Timeline, ..enter_compare(v, i as int) }, msg@));
            },
            None => {
                assert(first_row_with_path(v.visible_rows, p@) is None);
            },
        }
    }

    fn compare_key_exec(&mut self)
        requires
            old(self).wf(),
        ensures
            final(self)@ == compare_key(old(self)@),
            final(self).wf(),
    {
        if self.compare_mode {
            self.compare_with_selected();
        } else if self.focus == Focus::Files && self.selected_file_idx < self.visible_rows.len()
            && !self.visible_rows[self.selected_file_idx].is_dir {
            self.choose_compare_source();
        }
    }

    fn enter_key_exec(&mut self) -> (r: UiAction)
        requires
            old(self).wf(),
        ensures
            (final(self)@, action_view(r)) == enter_key(old(self)@),
            final(self).wf(),
    {
        if self.focus == Focus::Files && self.selected_file_idx < self.visible_rows.len() {
            if self.visible_rows[self.selected_file_idx].is_dir {
                self.toggle_current_folder();
                UiAction::Nothing
            } else if !self.show_preview {
                match self.item_target(self.selected_idx) {
                    Some((id, kind)) => UiAction::PreviewFile {
                        path: self.visible_rows[self.selected_file_idx].full_path.clone(),
                        snapshot_id: id,
                        kind,
                    },
                    None => UiAction::Nothing,
                }
            } else {
                UiAction::Nothing
            }
        } else {
            UiAction::Nothing
        }
    }
}

fn page_step_of(height: u16) -> (r: usize)
    ensures
        r == page_step(height),
{
    reveal(page_step);
    if height >= 11 {
        (height - 6) as usize
    } else {
        5
    }
}

fn page_down_index(i: usize, step: usize, n: usize) -> (r: usize)
    ensures
        r == paged_down(i, step, n as nat),
        r <= last_index(n as int),
{
    reveal(paged_down);
    let up = if i <= usize::MAX - step {
        i + step
    } else {
        usize::MAX
    };
    if n == 0 {
        0
    } else if up < n {
        up
    } else {
        n - 1
    }
}

fn page_up_index(i: usize, step: usize) -> (r: usize)
    ensures
        r == paged_up(i, step),
        r <= i,
{
    reveal(paged_up);
    if i >= step {
        i - step
    } else {
        0
    }
}

impl UiState {
    fn page_down_exec(&mut self) -> (r: UiAction)
        requires
            old(self).wf(),
        ensures
            (final(self)@, action_view(r)) == page_down(old(self)@),
            final(self).wf(),
    {
        let step = page_step_of(self.areas.term.height);
        let n = page_down_index(self.selected_idx, step, self.timeline_len());
        if n != self.selected_idx {
            self.select_and_load(n, true, true)
        } else {
            UiAction::Nothing
        }
    }

    fn page_up_exec(&mut self) -> (r: UiAction)
        requires
            old(self).wf(),
        ensures
            (final(self)@, action_view(r)) == page_up(old(self)@),
            final(self).wf(),
    {
        let step = page_step_of(self.areas.term.height);
        let n = page_up_index(self.selected_idx, step);
        if n != self.selected_idx {
            self.select_and_load(n, true, true)
        } else {
            UiAction::Nothing
        }
    }

    fn down_key_exec(&mut self) -> (r: UiAction)
        requires
            old(self).wf(),
        ensures
            (final(self)@, action_view(r)) == down_key(old(self)@),
            final(self).wf(),
    {
        if self.compare_result_lines.len() > 0 {
            self.diff_scroll = bump(self.diff_scroll, self.compare_result_lines.len());
            UiAction::Nothing
        } else if self.focus == Focus::Timeline {
            let len = self.timeline_len();
            if self.selected_idx < len && self.selected_idx + 1 < len {
                let n = bump(self.selected_idx, len);
                self.select_and_load(n, false, true)
            } else {
                UiAction::Nothing
            }
        } else if self.focus == Focus::Files {
            self.selected_file_idx = bump(self.selected_file_idx, self.visible_rows.len());
            UiAction::Nothing
        } else {
            UiAction::Nothing
        }
    }

    fn up_key_exec(&mut self) -> (r: UiAction)
        requires
            old(self).wf(),
        ensures
            (final(self)@, action_view(r)) == up_key(old(self)@),
            final(self).wf(),
    {
        if self.compare_result_lines.len() > 0 {
            self.diff_scroll = lower(self.diff_scroll);
            UiAction::Nothing
        } else if self.focus == Focus::Timeline {
            if self.selected_idx > 0 {
                let n = lower(self.selected_idx);
                self.select_and_load(n, false, true)
            } else {
                UiAction::Nothing
            }
        } else if self.focus == Focus::Files {
            self.selected_file_idx = lower(self.selected_file_idx);
            UiAction::Nothing
        } else {
            UiAction::Nothing
        }
    }

    /// Empties the search bar.
    pub fn clear_search(&mut self)
        ensures
            final(self)@ == (UiView { search_query: Seq::empty(), search_cursor: 0, ..old(self)@ }),
    {
        self.search_query.clear();
        self.search_cursor = 0;
        assert(self.search_query@ =~= Seq::<char>::empty());
    }

    fn main_char_move(&mut self, c: char) -> (r: UiAction)
        requires
            old(self).wf(),
            c == 'q' || c == '?' || c == 'j' || c == 'k' || c == 'J' || c == 'K' || c == 'g' || c == 'G',
        ensures
            (final(self)@, action_view(r)) == main_char(old(self)@, c),
            final(self).wf(),
    {
        if c == 'q' {
            self.running = false;
            UiAction::Nothing
        } else if c == '?' {
            self.show_help = true;
            UiAction::Nothing
        } else if c == 'j' {
            self.diff_scroll = bump(self.diff_scroll, self.compare_result_lines.len());
            UiAction::Nothing
        } else if c == 'k' {
            if self.compare_result_lines.len() > 0 {
                self.diff_scroll = lower(self.diff_scroll);
            }
            UiAction::Nothing
        } else if c == 'J' {
            self.page_down_exec()
        } else if c == 'K' {
            self.page_up_exec()
        } else if c == 'g' {
            self.select_and_load(0, true, true)
        } else {
            let last = last_position(self.timeline_len());
            self.select_and_load(last, true, true)
        }
    }

    fn main_char_panel(&mut self, c: char) -> (r: UiAction)
        requires
            old(self).wf(),
            c == '/' || c == 'p' || c == 'h' || c == 'l' || c == 'd' || c == ' ',
        ensures
            (final(self)@, action_view(r)) == main_char(old(self)@, c),
            final(self).wf(),
    {
        if c == '/' {
            self.clear_search();
            self.focus = Focus::Search;
            UiAction::Nothing
        } else if c == 'p' {
            UiAction::OpenPicker
        } else if c == 'h' {
            self.focus = Focus::Timeline;
            UiAction::Nothing
        } else if c == 'l' {
            self.focus = Focus::Files;
            UiAction::Nothing
        } else if c == 'd' {
            self.compare_key_exec();
            UiAction::Nothing
        } else {
            self.enter_key_exec()
        }
    }

    fn main_char_work(&mut self, c: char) -> (r: UiAction)
        requires
            old(self).wf(),
            !(c == 'q' || c == '?' || c == 'j' || c == 'k' || c == 'J' || c == 'K' || c == 'g' || c == 'G'),
            !(c == '/' || c == 'p' || c == 'h' || c == 'l' || c == 'd' || c == ' '),
        ensures
            (final(self)@, action_view(r)) == main_char(old(self)@, c),
            final(self).wf(),
    {
        if c == 'r' {
            UiAction::Reload { fatal: true }
        } else if c == 'i' {
            self.run_info()
        } else if c == 's' {
            self.run_snap()
        } else if c == 'o' || c == 'O' {
            self.output_scroll = bump(self.output_scroll, self.command_output.len());
            UiAction::Nothing
        } else if c == 'c' || c == 'C' {
            self.clear_output();
            UiAction::Nothing
        } else {
            UiAction::Nothing
        }
    }

    fn main_char_exec(&mut self, c: char) -> (r: UiAction)
        requires
            old(self).wf(),
        ensures
            (final(self)@, action_view(r)) == main_char(old(self)@, c),
            final(self).wf(),
    {
        if c == 'q' || c == '?' || c == 'j' || c == 'k' || c == 'J' || c == 'K' || c == 'g' || c == 'G' {
            self.main_char_move(c)
        } else if c == '/' || c == 'p' || c == 'h' || c == 'l' || c == 'd' || c == ' ' {
            self.main_char_panel(c)
        } else {
            self.main_char_work(c)
        }
    }

    /// A key in the main view.
    pub fn main_key_exec(&mut self, k: Key) -> (r: UiAction)
        requires
            old(self).wf(),
        ensures
            (final(self)@, action_view(r)) == main_key(old(self)@, k),
            final(self).wf(),
    {
        match k {
            Key::Char(c) => self.main_char_exec(c),
            Key::Esc => {
                if self.compare_result_lines.len() > 0 || self.compare_error.is_some() || self.compare_mode {
                    self.close_compare(false);
                } else {
                    self.running = false;
                }
                UiAction::Nothing
            },
            Key::Down => self.down_key_exec(),
            Key::Up => self.up_key_exec(),
            Key::PageDown => self.page_down_exec(),
            Key::PageUp => self.page_up_exec(),
            Key::End => {
                let last = last_position(self.timeline_len());
                self.select_and_load(last, true, true)
            },
            Key::Left | Key::BackTab => {
                self.focus = Focus::Timeline;
                UiAction::Nothing
            },
            Key::Right | Key::Tab => {
                self.focus = Focus::Files;
                UiAction::Nothing
            },
            Key::Enter => self.enter_key_exec(),
            _ => UiAction::Nothing,
        }
    }
}

} // verus!
