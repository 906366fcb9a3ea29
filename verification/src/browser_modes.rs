//! The key handlers of the browser's modes (search bar, questions, picker,
//! preview, rename, help) and the dispatch of a key press among them.

use vstd::prelude::*;
use crate::browser::{
    action_view, advance, advanced, bump, bumped, edit_text, edited, end_of, end_position, lower, lowered, ActionView,
    Key, UiAction, UiState, UiView,
};
use crate::browser_keys::{
    gc_key, help_key, is_no, is_space, is_yes, key_step, pending_key, picker_key, preview_key, rename_key, search_key,
    trim_end, trim_start, trimmed,
};
use crate::text::{str_eq, string_from_chars};
use crate::tui::Focus;

verus! {

/// Whether `c` is white space (`char::is_whitespace`).
pub fn is_space_char(c: char) -> (r: bool)
    ensures
        r == is_space(c),
{
    ('\t' <= c && c <= '\r') || c == ' ' || c == '\u{85}' || c == '\u{a0}' || c == '\u{1680}' || ('\u{2000}' <= c
        && c <= '\u{200a}') || c == '\u{2028}' || c == '\u{2029}' || c == '\u{202f}' || c == '\u{205f}' || c == '\u{3000}'
}

/// `s` without leading or trailing white space (`str::trim`).
pub fn trim_chars(s: &[char]) -> (r: Vec<char>)
    ensures
        r@ == trimmed(s@),
{
    let mut i: usize = 0;
    assert(s@.skip(0) =~= s@);
    while i < s.len() && is_space_char(s[i])
        invariant
            i <= s.len(),
            trim_start(s@) == trim_start(s@.skip(i as int)),
        decreases s.len() - i,
    {
        proof {
            reveal(trim_start);
            assert(s@.skip(i as int).skip(1) =~= s@.skip(i + 1));
        }
        i += 1;
    }
    proof {
        reveal(trim_start);
    }
    let ghost u = s@.skip(i as int);
    assert(trim_start(s@) == u);
    let mut j: usize = s.len();
    while j > i && is_space_char(s[j - 1])
        invariant
            i <= j <= s.len(),
            u == s@.skip(i as int),
            trim_end(u) == trim_end(s@.subrange(i as int, j as int)),
        decreases j - i,
    {
        proof {
            reveal(trim_end);
            let w = s@.subrange(i as int, j as int);
            assert(w.last() == s@[j - 1]);
            assert(w.drop_last() =~= s@.subrange(i as int, j - 1));
        }
        j -= 1;
    }
    proof {
        reveal(trim_end);
        assert(s@.subrange(i as int, s.len() as int) =~= u);
    }
    let mut r: Vec<char> = Vec::new();
    let mut k: usize = i;
    while k < j
        invariant
            i <= k <= j <= s.len(),
            r@ =~= s@.subrange(i as int, k as int),
        decreases j - k,
    {
        r.push(s[k]);
        k += 1;
    }
    r
}

impl UiState {
    #[verifier::rlimit(40)]
    fn search_key_exec(&mut self, k: Key)
        requires
            old(self).wf(),
        ensures
            final(self)@ == search_key(old(self)@, k),
            final(self).wf(),
    {
        let ghost v = self@;
        match k {
            Key::Esc => {
                assert(search_key(v, k) == UiView { search_query: Seq::empty(), search_cursor: 0, focus: Focus::Timeline, ..v });
                self.clear_search();
                self.focus = Focus::Timeline;
            },
            Key::Enter | Key::Tab | Key::Down => {
                assert(search_key(v, k) == UiView { focus: Focus::Files, ..v });
                self.focus = Focus::Files;
            },
            Key::Up => {
                assert(search_key(v, k) == UiView { focus: Focus::Timeline, ..v });
                self.focus = Focus::Timeline;
            },
            Key::Left => {
                assert(search_key(v, k) == UiView { search_cursor: lowered(v.search_cursor), ..v });
                self.search_cursor = lower(self.search_cursor);
            },
            Key::Right => {
                assert(search_key(v, k) == UiView { search_cursor: advanced(v.search_cursor, v.search_query.len()), ..v });
                self.search_cursor = advance(self.search_cursor, self.search_query.len());
            },
            Key::Home => {
                assert(search_key(v, k) == UiView { search_cursor: 0, ..v });
                self.search_cursor = 0;
            },
            Key::End => {
                assert(search_key(v, k) == UiView { search_cursor: end_of(v.search_query.len()), ..v });
                self.search_cursor = end_position(self.search_query.len());
            },
            Key::Char(_) | Key::Backspace | Key::Delete => {
                let ghost e = edited(v.search_query, v.search_cursor, k);
                assert(search_key(v, k) == UiView { search_query: e.0, search_cursor: e.1, ..v });
                edit_text(&mut self.search_query, &mut self.search_cursor, k);
            },
            _ => {
                assert(search_key(v, k) == v);
            },
        }
    }

    fn gc_key_exec(&mut self, k: Key) -> (r: UiAction)
        requires
            old(self).wf(),
        ensures
            (final(self)@, action_view(r)) == gc_key(old(self)@, k),
            final(self).wf(),
    {
        if k == Key::Char('y') || k == Key::Char('Y') || k == Key::Enter {
            self.pending_gc = false;
            UiAction::RunGc
        } else if k == Key::Char('n') || k == Key::Char('N') || k == Key::Esc {
            self.pending_gc = false;
            self.add_output(crate::browser::lit("✖ GC cancelled."));
            UiAction::Nothing
        } else {
            UiAction::Nothing
        }
    }

    fn pending_key_exec(&mut self, k: Key)
        requires
            old(self).wf(),
        ensures
            final(self)@ == pending_key(old(self)@, k),
            final(self).wf(),
    {
        if k == Key::Char('y') || k == Key::Char('Y') || k == Key::Enter {
            self.execute_pending_action();
        } else if k == Key::Char('n') || k == Key::Char('N') || k == Key::Esc {
            self.cancel_pending_action();
        }
    }

    #[verifier::rlimit(40)]
    fn picker_key_exec(&mut self, k: Key) -> (r: UiAction)
        requires
            old(self).wf(),
        ensures
            (final(self)@, action_view(r)) == picker_key(old(self)@, k),
            final(self).wf(),
    {
        let ghost v = self@;
        let n = self.all_palins.len();
        let s = self.picker_selected;
        match k {
            Key::Down => {
                assert(picker_key(v, k) == (UiView { picker_selected: bumped(s, n as nat), ..v }, ActionView::Nothing));
                self.picker_selected = bump(s, n);
                UiAction::Nothing
            },
            Key::Up => {
                assert(picker_key(v, k) == (UiView { picker_selected: lowered(s), ..v }, ActionView::Nothing));
                self.picker_selected = lower(s);
                UiAction::Nothing
            },
            Key::Enter => {
                if s < n {
                    assert(picker_key(v, k) == (v, ActionView::SwitchPalin { name: v.all_palins[s as int].0 }));
                    UiAction::SwitchPalin { name: self.all_palins[s].0.clone() }
                } else {
                    assert(picker_key(v, k) == (v, ActionView::Nothing));
                    UiAction::Nothing
                }
            },
            Key::Char('d') | Key::Delete => {
                if s < n && !str_eq(self.all_palins[s].0.as_str(), self.palin_name.as_str()) {
                    assert(picker_key(v, k) == (UiView { picker_confirm_delete: Some(v.all_palins[s as int].0), ..v }, ActionView::Nothing));
                    self.picker_confirm_delete = Some(self.all_palins[s].0.clone());
                } else {
                    assert(picker_key(v, k) == (v, ActionView::Nothing));
                }
                UiAction::Nothing
            },
            Key::Esc => {
                assert(picker_key(v, k) == (UiView { show_picker: false, picker_confirm_delete: None, ..v }, ActionView::Nothing));
                self.show_picker = false;
                self.picker_confirm_delete = None;
                UiAction::Nothing
            },
            _ => {
                assert(picker_key(v, k) == (v, ActionView::Nothing));
                UiAction::Nothing
            },
        }
    }

    #[verifier::rlimit(40)]
    fn preview_key_exec(&mut self, k: Key)
        requires
            old(self).wf(),
        ensures
            final(self)@ == preview_key(old(self)@, k),
            final(self).wf(),
    {
        let ghost v = self@;
        match k {
            Key::Char('j') | Key::Down => {
                assert(preview_key(v, k) == UiView { preview_scroll: bumped(v.preview_scroll, v.preview_content.len()), ..v });
                self.preview_scroll = bump(self.preview_scroll, self.preview_content.len());
            },
            Key::Char('k') | Key::Up => {
                assert(preview_key(v, k) == UiView { preview_scroll: lowered(v.preview_scroll), ..v });
                self.preview_scroll = lower(self.preview_scroll);
            },
            Key::Esc => {
                assert(preview_key(v, k) == UiView { show_preview: false, preview_content: Seq::empty(), preview_scroll: 0, ..v });
                self.show_preview = false;
                self.preview_content.clear();
                self.preview_scroll = 0;
                assert(crate::browser::strings_view(self.preview_content@) =~= Seq::empty());
            },
            _ => {
                assert(preview_key(v, k) == v);
            },
        }
    }

    /// Renames the palin to the trimmed text of the rename field, unless it
    /// is empty or the current name; leaves rename mode either way.
    pub fn commit_rename(&mut self) -> (r: UiAction)
        requires
            old(self).wf(),
        ensures
            (final(self)@, action_view(r)) == rename_key(old(self)@, Key::Enter),
            final(self).wf(),
    {
        let t = trim_chars(self.rename_input.as_slice());
        let ts = string_from_chars(t.as_slice());
        self.rename_mode = false;
        if t.len() == 0 || str_eq(ts.as_str(), self.palin_name.as_str()) {
            UiAction::Nothing
        } else {
            UiAction::Rename { old_name: self.palin_name.clone(), new_name: ts }
        }
    }

    fn rename_key_exec(&mut self, k: Key) -> (r: UiAction)
        requires
            old(self).wf(),
        ensures
            (final(self)@, action_view(r)) == rename_key(old(self)@, k),
            final(self).wf(),
    {
        match k {
            Key::Enter => self.commit_rename(),
            Key::Esc => {
                self.rename_mode = false;
                UiAction::Nothing
            },
            Key::Char(_) | Key::Backspace | Key::Delete => {
                edit_text(&mut self.rename_input, &mut self.rename_cursor, k);
                UiAction::Nothing
            },
            _ => UiAction::Nothing,
        }
    }

    /// A key press outside the help screen.
    pub fn handle_key(&mut self, k: Key) -> (r: UiAction)
        requires
            old(self).wf(),
        ensures
            (final(self)@, action_view(r)) == key_step(old(self)@, k),
            final(self).wf(),
    {
        if self.focus == Focus::Search {
            self.search_key_exec(k);
            UiAction::Nothing
        } else if self.pending_gc {
            self.gc_key_exec(k)
        } else if self.pending_action.is_some() {
            self.pending_key_exec(k);
            UiAction::Nothing
        } else if self.show_picker {
            self.picker_key_exec(k)
        } else if self.show_preview && self.preview_content.len() > 0 {
            self.preview_key_exec(k);
            UiAction::Nothing
        } else if self.rename_mode {
            self.rename_key_exec(k)
        } else {
            self.main_key_exec(k)
        }
    }

    /// A key press on the help screen.
    pub fn handle_help_key(&mut self, k: Key)
        requires
            old(self).wf(),
        ensures
            final(self)@ == help_key(old(self)@, k),
            final(self).wf(),
    {
        if k == Key::Char('?') || k == Key::Esc || k == Key::Enter || k == Key::Char('q') {
            self.show_help = false;
        }
    }
}

} // verus!
