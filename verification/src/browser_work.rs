//! What the browser does with the results of outside work: a new state,
//! loaded entries and timelines, the palin list, previews, renames.

use vstd::prelude::*;
use crate::browser::{
    action_view, framed, keep_within, kept_within, lit, pairs_view, prefixed, strings_view, timeline_len, with_output,
    zero_areas, ActionView, ScreenAreas, UiAction, UiState, UiView,
};
use crate::browser_keys::load_selected;
use crate::diff::{content_lines, content_to_lines, find_entry, first_with_path, lemma_first_with_path_pub};
use crate::ink::InkStore;
use crate::order::{chars_less, chars_lt};
use crate::text::{chars_of, str_eq};
use crate::tree::{build_tree, built_tree, flat_nodes, path_set, NodeView};
use crate::tui::{Focus, last_index};
use crate::types::{opt_view, Epoch, FileEntry, Phantom};

verus! {

// ─── A new browser ──────────────────────────────────────────────────────

/// The browser of palin `name` before anything is shown: the first item
/// selected, every panel empty and closed, nothing pending.
pub open spec fn fresh_view(name: Seq<char>, epochs: Seq<Epoch>, phantoms: Seq<Phantom>) -> UiView {
    UiView {
        palin_name: name,
        epochs,
        phantoms,
        selected_idx: 0,
        selected_file_idx: 0,
        current_entries: Seq::empty(),
        tree_nodes: Seq::empty(),
        visible_rows: Seq::empty(),
        expanded: Set::empty(),
        show_help: false,
        running: true,
        areas: zero_areas(),
        pending_gc: false,
        focus: Focus::Timeline,
        timeline_scroll: 0,
        pending_action: None,
        pending_execute_action: None,
        snap_in_progress: false,
        snap_start_frame: 0,
        patience_shown: false,
        frame_count: 0,
        command_output: Seq::empty(),
        search_query: Seq::empty(),
        search_cursor: 0,
        output_scroll: 0,
        compare_mode: false,
        compare_file_path: Seq::empty(),
        compare_source_idx: 0,
        compare_result_lines: Seq::empty(),
        compare_error: None,
        compare_pending_epoch: false,
        diff_scroll: 0,
        timeline_btn_start_x: 0,
        show_picker: false,
        all_palins: Seq::empty(),
        picker_selected: 0,
        picker_confirm_delete: None,
        preview_content: Seq::empty(),
        preview_scroll: 0,
        show_preview: false,
        rename_mode: false,
        rename_input: Seq::empty(),
        rename_cursor: 0,
    }
}

impl UiState {
    /// The browser of palin `palin_name` with this timeline, and the entries
    /// of its first item asked for (a failure to read them stops the browser).
    pub fn new(palin_name: String, epochs: Vec<Epoch>, phantoms: Vec<Phantom>) -> (r: (UiState, UiAction))
        requires
            epochs.len() + phantoms.len() <= usize::MAX,
        ensures
            (r.0@, action_view(r.1)) == load_selected(fresh_view(palin_name@, epochs@, phantoms@), true, false),
            r.0.wf(),
    {
        let ghost fresh = fresh_view(palin_name@, epochs@, phantoms@);
        let mut s = UiState {
            palin_name,
            epochs,
            phantoms,
            selected_idx: 0,
            selected_file_idx: 0,
            current_entries: Vec::new(),
            tree_nodes: Vec::new(),
            visible_rows: Vec::new(),
            expanded_dirs: Vec::new(),
            show_help: false,
            running: true,
            areas: ScreenAreas::empty(),
            pending_gc: false,
            focus: Focus::Timeline,
            timeline_scroll: 0,
            pending_action: None,
            pending_execute_action: None,
            snap_in_progress: false,
            snap_start_frame: 0,
            patience_shown: false,
            frame_count: 0,
            command_output: Vec::new(),
            search_query: Vec::new(),
            search_cursor: 0,
            output_scroll: 0,
            compare_mode: false,
            compare_file_path: String::new(),
            compare_source_idx: 0,
            compare_result_lines: Vec::new(),
            compare_error: None,
            compare_pending_epoch: false,
            diff_scroll: 0,
            timeline_btn_start_x: 0,
            show_picker: false,
            all_palins: Vec::new(),
            picker_selected: 0,
            picker_confirm_delete: None,
            preview_content: Vec::new(),
            preview_scroll: 0,
            show_preview: false,
            rename_mode: false,
            rename_input: Vec::new(),
            rename_cursor: 0,
        };
        proof {
            crate::tree::lemma_nodes_view(s.tree_nodes@);
            assert(crate::tree::nodes_view(s.tree_nodes@) =~= Seq::<NodeView>::empty());
            assert(crate::tree::rows_view(s.visible_rows@) =~= Seq::empty());
            assert(path_set(s.expanded_dirs@) =~= Set::empty());
            assert(strings_view(s.command_output@) =~= Seq::empty());
            assert(crate::browser::diff_lines_view(s.compare_result_lines@) =~= Seq::empty());
            assert(pairs_view(s.all_palins@) =~= Seq::empty());
            assert(strings_view(s.preview_content@) =~= Seq::empty());
            assert(s.current_entries@ =~= Seq::empty());
            assert(s.search_query@ =~= Seq::empty());
            assert(s.rename_input@ =~= Seq::empty());
            assert(s.compare_file_path@ =~= Seq::<char>::empty());
            assert(s@ == fresh);
        }
        let a = s.load_entries(true, false);
        (s, a)
    }

    /// Shows the entries read for the selected item: the file tree is built
    /// from them with every folder closed, and the file cursor goes to the top.
    pub fn entries_loaded(&mut self, entries: Vec<FileEntry>)
        requires
            old(self).wf(),
        ensures
            final(self)@ == (UiView {
                current_entries: entries@,
                selected_file_idx: 0,
                expanded: Set::empty(),
                tree_nodes: built_tree(entries@),
                visible_rows: flat_nodes(built_tree(entries@), 0, Set::empty()),
                ..old(self)@
            }),
            final(self).wf(),
    {
        let tree = build_tree(entries.as_slice());
        self.current_entries = entries;
        self.selected_file_idx = 0;
        self.expanded_dirs.clear();
        self.tree_nodes = tree;
        assert(path_set(self.expanded_dirs@) =~= Set::empty());
        self.flatten_tree();
        proof {
            reveal(kept_within);
        }
    }

    /// Takes the timeline read again: the selection stays where it was, or
    /// moves to the last item when the timeline got shorter, and the entries
    /// of the selected item are asked for.
    pub fn timeline_reloaded(&mut self, epochs: Vec<Epoch>, phantoms: Vec<Phantom>, fatal: bool) -> (r: UiAction)
        requires
            old(self).wf(),
            epochs.len() + phantoms.len() <= usize::MAX,
        ensures
            (final(self)@, action_view(r)) == load_selected(
                UiView {
                    epochs: epochs@,
                    phantoms: phantoms@,
                    selected_idx: kept_within(old(self).selected_idx, (epochs.len() + phantoms.len()) as nat),
                    ..old(self)@
                },
                fatal,
                false,
            ),
            final(self).wf(),
    {
        let n = epochs.len() + phantoms.len();
        self.epochs = epochs;
        self.phantoms = phantoms;
        self.selected_idx = keep_within(self.selected_idx, n);
        self.load_entries(fatal, false)
    }

    /// Takes the configuration and timeline of another palin: its first item
    /// is selected and its entries asked for.
    pub fn palin_switched(&mut self, name: String, epochs: Vec<Epoch>, phantoms: Vec<Phantom>) -> (r: UiAction)
        requires
            old(self).wf(),
            epochs.len() + phantoms.len() <= usize::MAX,
        ensures
            (final(self)@, action_view(r)) == load_selected(
                UiView { palin_name: name@, epochs: epochs@, phantoms: phantoms@, selected_idx: 0, ..old(self)@ },
                false,
                false,
            ),
            final(self).wf(),
    {
        self.palin_name = name;
        self.epochs = epochs;
        self.phantoms = phantoms;
        self.selected_idx = 0;
        self.load_entries(false, false)
    }

    /// Closes the picker after a switch and says so.
    pub fn switch_finished(&mut self, name: &str)
        requires
            old(self).wf(),
        ensures
            final(self)@ == with_output(UiView { show_picker: false, ..old(self)@ }, "✦ Switched to '"@ + name@ + "'"@),
            final(self).wf(),
    {
        self.show_picker = false;
        let n = chars_of(name);
        self.add_output(framed("✦ Switched to '", n.as_slice(), "'"));
    }
}

// ─── The palin list ─────────────────────────────────────────────────────

/// `x` put into the list `s`, sorted by name, after every pair whose name
/// it does not sort before.
pub open spec fn pair_inserted(s: Seq<(Seq<char>, Seq<char>)>, x: (Seq<char>, Seq<char>)) -> Seq<(Seq<char>, Seq<char>)>
    decreases s.len(),
{
    if s.len() == 0 {
        seq![x]
    } else if chars_lt(x.0, s.last().0) {
        pair_inserted(s.drop_last(), x).push(s.last())
    } else {
        s.push(x)
    }
}

/// The (name, path) pairs sorted by name, ties kept in their order.
pub open spec fn sorted_pairs(s: Seq<(Seq<char>, Seq<char>)>) -> Seq<(Seq<char>, Seq<char>)>
    decreases s.len(),
{
    if s.len() == 0 {
        s
    } else {
        pair_inserted(sorted_pairs(s.drop_last()), s.last())
    }
}

proof fn lemma_pair_inserted_at(s: Seq<(Seq<char>, Seq<char>)>, x: (Seq<char>, Seq<char>), j: int)
    requires
        0 <= j <= s.len(),
        forall|m: int| j <= m < s.len() ==> chars_lt(x.0, (#[trigger] s[m]).0),
        j == 0 || !chars_lt(x.0, s[j - 1].0),
    ensures
        pair_inserted(s, x) == s.take(j).push(x) + s.skip(j),
    decreases s.len(),
{
    if s.len() == 0 {
        assert(s.take(j).push(x) + s.skip(j) =~= seq![x]);
    } else if j == s.len() {
        assert(s.take(j).push(x) + s.skip(j) =~= s.push(x));
    } else {
        assert(chars_lt(x.0, s[s.len() - 1].0));
        let t = s.drop_last();
        assert forall|m: int| j <= m < t.len() implies chars_lt(x.0, (#[trigger] t[m]).0) by {
            assert(t[m] == s[m]);
        }
        if j > 0 {
            assert(t[j - 1] == s[j - 1]);
        }
        lemma_pair_inserted_at(t, x, j);
        assert(t.take(j).push(x) + t.skip(j) + seq![s.last()] =~= s.take(j).push(x) + s.skip(j));
    }
}

/// Sorts (name, path) pairs by name, stably.
pub fn sort_pairs(v: Vec<(String, String)>) -> (r: Vec<(String, String)>)
    ensures
        pairs_view(r@) == sorted_pairs(pairs_view(v@)),
{
    let ghost vs = pairs_view(v@);
    let mut src = v;
    let total = src.len();
    let ghost orig = src@;
    let mut dst: Vec<(String, String)> = Vec::new();
    let mut n: usize = 0;
    assert(vs.take(0) =~= Seq::<(Seq<char>, Seq<char>)>::empty());
    assert(pairs_view(dst@) =~= sorted_pairs(vs.take(0)));
    while src.len() > 0
        invariant
            vs == pairs_view(orig),
            n + src@.len() == orig.len(),
            orig.len() == total,
            src@ == orig.skip(n as int),
            pairs_view(dst@) == sorted_pairs(vs.take(n as int)),
        decreases src@.len(),
    {
        let x = src.remove(0);
        assert(x == orig[n as int]);
        let ghost s = pairs_view(dst@);
        let xn = chars_of(x.0.as_str());
        let mut j: usize = dst.len();
        while j > 0 && chars_less(xn.as_slice(), chars_of(dst[j - 1].0.as_str()).as_slice())
            invariant
                j <= dst@.len(),
                s == pairs_view(dst@),
                xn@ == x.0@,
                forall|m: int| j <= m < s.len() ==> chars_lt(x.0@, (#[trigger] s[m]).0),
            decreases j,
        {
            j -= 1;
        }
        proof {
            lemma_pair_inserted_at(s, (x.0@, x.1@), j as int);
            assert(vs.take(n + 1).drop_last() =~= vs.take(n as int));
            assert(vs.take(n + 1).last() == vs[n as int]);
        }
        dst.insert(j, x);
        proof {
            assert(pairs_view(dst@) =~= s.take(j as int).push((x.0@, x.1@)) + s.skip(j as int));
            assert(src@ =~= orig.skip(n + 1));
        }
        n += 1;
    }
    assert(vs.take(n as int) =~= vs);
    dst
}

/// Index of the first pair named `name`.
pub open spec fn pair_position(s: Seq<(Seq<char>, Seq<char>)>, name: Seq<char>) -> Option<int>
    decreases s.len(),
{
    if s.len() == 0 {
        None
    } else if s[0].0 == name {
        Some(0)
    } else {
        match pair_position(s.skip(1), name) {
            Some(i) => Some(i + 1),
            None => None,
        }
    }
}

proof fn lemma_pair_position(s: Seq<(Seq<char>, Seq<char>)>, name: Seq<char>)
    ensures
        match pair_position(s, name) {
            Some(i) => 0 <= i < s.len() && s[i].0 == name && forall|k: int| 0 <= k < i ==> (#[trigger] s[k]).0 != name,
            None => forall|k: int| 0 <= k < s.len() ==> (#[trigger] s[k]).0 != name,
        },
    decreases s.len(),
{
    if s.len() > 0 {
        lemma_pair_position(s.skip(1), name);
        assert(forall|k: int| 0 <= k < s.len() - 1 ==> #[trigger] s.skip(1)[k] == s[k + 1]);
        match pair_position(s.skip(1), name) {
            Some(i) => {
                assert forall|k: int| 0 <= k < i + 1 && s[0].0 != name implies (#[trigger] s[k]).0 != name by {
                    if k > 0 {
                        assert(s[k] == s.skip(1)[k - 1]);
                    }
                }
            },
            None => {
                assert forall|k: int| 0 <= k < s.len() && s[0].0 != name implies (#[trigger] s[k]).0 != name by {
                    if k > 0 {
                        assert(s[k] == s.skip(1)[k - 1]);
                    }
                }
            },
        }
    }
}

/// The picker's cursor for a list: on the current palin, or on the first row.
pub open spec fn picker_start(s: Seq<(Seq<char>, Seq<char>)>, name: Seq<char>) -> usize {
    match pair_position(s, name) {
        Some(i) => i as usize,
        None => 0,
    }
}

fn position_of_name(s: &[(String, String)], name: &str) -> (r: usize)
    ensures
        r == picker_start(pairs_view(s@), name@),
        r < usize::MAX,
{
    let ghost ps = pairs_view(s@);
    proof {
        lemma_pair_position(ps, name@);
    }
    let mut i: usize = 0;
    while i < s.len()
        invariant
            i <= s.len(),
            ps == pairs_view(s@),
            forall|k: int| 0 <= k < i ==> (#[trigger] ps[k]).0 != name@,
            match pair_position(ps, name@) {
                Some(j) => 0 <= j < ps.len() && ps[j].0 == name@ && forall|k: int|
                    0 <= k < j ==> (#[trigger] ps[k]).0 != name@,
                None => forall|k: int| 0 <= k < ps.len() ==> (#[trigger] ps[k]).0 != name@,
            },
        decreases s.len() - i,
    {
        if str_eq(s[i].0.as_str(), name) {
            assert(ps[i as int].0 == name@);
            return i;
        }
        i += 1;
    }
    0
}

impl UiState {
    /// Takes the registry's palins, sorted by name.
    pub fn palins_loaded(&mut self, list: Vec<(String, String)>)
        requires
            old(self).wf(),
        ensures
            final(self)@ == (UiView { all_palins: sorted_pairs(pairs_view(list@)), ..old(self)@ }),
            final(self).wf(),
    {
        self.all_palins = sort_pairs(list);
    }

    /// Opens the picker on the registry's palins, with the cursor on the
    /// current palin (or the first row) and no deletion asked about.
    pub fn picker_opened(&mut self, list: Vec<(String, String)>)
        requires
            old(self).wf(),
        ensures
            final(self)@ == ({
                let ps = sorted_pairs(pairs_view(list@));
                UiView {
                    all_palins: ps,
                    picker_selected: picker_start(ps, old(self)@.palin_name),
                    show_picker: true,
                    picker_confirm_delete: None,
                    ..old(self)@
                }
            }),
            final(self).wf(),
    {
        self.palins_loaded(list);
        self.picker_selected = position_of_name(self.all_palins.as_slice(), self.palin_name.as_str());
        self.show_picker = true;
        self.picker_confirm_delete = None;
    }

    /// After a palin was deleted: says so, closes the question, takes the
    /// registry's palins, and asks to switch to the first one if any.
    pub fn palin_deleted(&mut self, name: &str, list: Vec<(String, String)>) -> (r: UiAction)
        requires
            old(self).wf(),
        ensures
            ({
                let ps = sorted_pairs(pairs_view(list@));
                &&& final(self)@ == (UiView {
                    all_palins: ps,
                    ..with_output(UiView { picker_confirm_delete: None, ..old(self)@ }, "✦ Deleted palin '"@ + name@ + "'"@)
                })
                &&& action_view(r) == (if ps.len() > 0 {
                    ActionView::SwitchPalin { name: ps[0].0 }
                } else {
                    ActionView::Nothing
                })
            }),
            final(self).wf(),
    {
        let n = chars_of(name);
        self.picker_confirm_delete = None;
        self.add_output(framed("✦ Deleted palin '", n.as_slice(), "'"));
        self.palins_loaded(list);
        if self.all_palins.len() > 0 {
            UiAction::SwitchPalin { name: self.all_palins[0].0.clone() }
        } else {
            UiAction::Nothing
        }
    }
}

// ─── Previews ───────────────────────────────────────────────────────────

/// The preview after the entries of the selected item and the ink store
/// were read: the first entry at `path` is shown by lines; without content
/// a placeholder is shown; an unreadable ink is reported; no entry at
/// `path` changes nothing.
pub open spec fn preview_after(v: UiView, path: Seq<char>, entries: Seq<FileEntry>, inks: InkStore) -> UiView {
    match first_with_path(entries, path) {
        None => v,
        Some(i) => match opt_view(entries[i].ink_hash) {
            Some(h) => match inks.lookup(h) {
                Some(c) => UiView { preview_content: content_lines(c), preview_scroll: 0, show_preview: true, ..v },
                None => with_output(v, "✖ Failed to read '"@ + path + "'"@),
            },
            None => UiView {
                preview_content: seq!["(empty file / binary)"@],
                preview_scroll: 0,
                show_preview: true,
                ..v
            },
        },
    }
}

impl UiState {
    /// Shows the file at `path` of the selected item, read from `entries`
    /// and `inks`.
    pub fn preview_loaded(&mut self, path: &str, entries: &[FileEntry], inks: &InkStore)
        requires
            old(self).wf(),
        ensures
            final(self)@ == preview_after(old(self)@, path@, entries@, *inks),
            final(self).wf(),
    {
        proof {
            lemma_first_with_path_pub(entries@, path@);
        }
        match find_entry(entries, path) {
            None => {},
            Some(i) => {
                match &entries[i].ink_hash {
                    Some(h) => {
                        match inks.read_ink(h.as_str()) {
                            Ok(data) => {
                                self.preview_content = content_to_lines(data.as_slice());
                                self.preview_scroll = 0;
                                self.show_preview = true;
                            },
                            Err(_) => {
                                let p = chars_of(path);
                                self.add_output(framed("✖ Failed to read '", p.as_slice(), "'"));
                            },
                        }
                    },
                    None => {
                        let mut c: Vec<String> = Vec::new();
                        c.push(lit("(empty file / binary)"));
                        self.preview_content = c;
                        self.preview_scroll = 0;
                        self.show_preview = true;
                        assert(strings_view(self.preview_content@) =~= seq!["(empty file / binary)"@]);
                    },
                }
            },
        }
    }
}

} // verus!
