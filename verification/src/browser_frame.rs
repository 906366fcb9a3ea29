//! The browser between events: each frame's spinner and patience message,
//! queued timeline actions, and the reports of commands, clean-ups,
//! snapshots, renames and locks.

use vstd::prelude::*;
use crate::browser::{framed, lit, prefixed, strings_view, with_output, with_outputs, UiState, UiView};
use crate::diff::{content_lines, content_to_lines};
use crate::number::{decimal_text, format_i64, format_u64, format_usize};
use crate::text::{chars_of, concat_chars, contains_chars, contains_run, decode_utf8_lossy, string_from_chars, utf8_lossy_of};
use crate::tui::ActionKind;
use crate::types::{epoch_display_name, phantom_display_name};

verus! {

// ─── Output helpers ─────────────────────────────────────────────────────

fn join5(a: &str, b: &[char], c: &str, d: &[char], e: &str) -> (r: String)
    ensures
        r@ == a@ + b@ + c@ + d@ + e@,
{
    let a1 = chars_of(a);
    let c1 = chars_of(c);
    let e1 = chars_of(e);
    let x = concat_chars(a1.as_slice(), b);
    let y = concat_chars(x.as_slice(), c1.as_slice());
    let z = concat_chars(y.as_slice(), d);
    let w = concat_chars(z.as_slice(), e1.as_slice());
    string_from_chars(w.as_slice())
}

impl UiState {
    /// Adds each of `lines` to the output, first to last.
    pub fn add_outputs(&mut self, lines: &[String])
        requires
            old(self).wf(),
        ensures
            final(self)@ == with_outputs(old(self)@, strings_view(lines@)),
            final(self).wf(),
    {
        let ghost v = self@;
        let ghost ls = strings_view(lines@);
        let mut i: usize = 0;
        assert(ls.take(0) =~= Seq::<Seq<char>>::empty());
        while i < lines.len()
            invariant
                i <= lines.len(),
                ls == strings_view(lines@),
                self.wf(),
                self@ == with_outputs(v, ls.take(i as int)),
            decreases lines.len() - i,
        {
            assert(ls.take(i + 1).drop_last() =~= ls.take(i as int));
            assert(ls.take(i + 1).last() == lines@[i as int]@);
            self.add_output(lines[i].clone());
            i += 1;
        }
        assert(ls.take(lines.len() as int) =~= ls);
    }
}

// ─── Commands ───────────────────────────────────────────────────────────

/// The text `{:?}` writes for an `Option<i32>`.
pub open spec fn debug_code(code: Option<i32>) -> Seq<char> {
    match code {
        Some(n) => "Some("@ + decimal_text(n as int) + ")"@,
        None => "None"@,
    }
}

/// Each line marked as an error.
pub open spec fn error_lines(ls: Seq<Seq<char>>) -> Seq<Seq<char>> {
    ls.map_values(|l: Seq<char>| "✖ "@ + l)
}

/// The output after a command ran: its standard output line by line, then
/// its error output line by line marked as errors, then its exit code when
/// it failed.
pub open spec fn after_command(v: UiView, stdout: Seq<u8>, stderr: Seq<u8>, success: bool, code: Option<i32>) -> UiView {
    let v1 = if stdout.len() > 0 {
        with_outputs(v, content_lines(stdout))
    } else {
        v
    };
    let v2 = if stderr.len() > 0 {
        with_outputs(v1, error_lines(content_lines(stderr)))
    } else {
        v1
    };
    if !success {
        with_output(v2, "✖ Command exited with code "@ + debug_code(code))
    } else {
        v2
    }
}

fn debug_code_text(code: Option<i32>) -> (r: Vec<char>)
    ensures
        r@ == debug_code(code),
{
    match code {
        Some(n) => {
            let d = format_i64(n as i64);
            let s = framed("Some(", d.as_slice(), ")");
            chars_of(s.as_str())
        },
        None => chars_of("None"),
    }
}

impl UiState {
    /// Reports a command that ran (its output, errors and exit status).
    pub fn command_finished(&mut self, stdout: &[u8], stderr: &[u8], success: bool, code: Option<i32>)
        requires
            old(self).wf(),
        ensures
            final(self)@ == after_command(old(self)@, stdout@, stderr@, success, code),
            final(self).wf(),
    {
        if stdout.len() > 0 {
            let lines = content_to_lines(stdout);
            self.add_outputs(lines.as_slice());
        }
        if stderr.len() > 0 {
            let lines = content_to_lines(stderr);
            let mut marked: Vec<String> = Vec::new();
            let mut i: usize = 0;
            while i < lines.len()
                invariant
                    i <= lines.len(),
                    marked@.len() == i,
                    strings_view(marked@) == error_lines(strings_view(lines@)).take(i as int),
                decreases lines.len() - i,
            {
                let l = chars_of(lines[i].as_str());
                let ghost e = error_lines(strings_view(lines@));
                assert(e[i as int] == "✖ "@ + lines@[i as int]@);
                let ghost before = marked@;
                let m = prefixed("✖ ", l.as_slice());
                marked.push(m);
                assert(marked@ == before.push(m));
                assert forall|k: int| 0 <= k < i + 1 implies #[trigger] strings_view(marked@)[k] == e.take(i + 1)[k] by {
                    if k < i {
                        assert(marked@[k] == before[k]);
                        assert(strings_view(before)[k] == e.take(i as int)[k]);
                    }
                }
                assert(strings_view(marked@) =~= e.take(i + 1));
                i += 1;
            }
            assert(error_lines(strings_view(lines@)).take(lines.len() as int) =~= error_lines(strings_view(lines@)));
            self.add_outputs(marked.as_slice());
        }
        if !success {
            let t = debug_code_text(code);
            self.add_output(prefixed("✖ Command exited with code ", t.as_slice()));
        }
    }

    /// Reports a command that could not be run.
    pub fn command_failed(&mut self, err: &str)
        requires
            old(self).wf(),
        ensures
            final(self)@ == with_output(old(self)@, "✖ Failed to execute: "@ + err@),
            final(self).wf(),
    {
        let e = chars_of(err);
        self.add_output(prefixed("✖ Failed to execute: ", e.as_slice()));
    }

    /// Reports that the program's own path could not be found to run a command.
    pub fn command_not_started(&mut self, err: &str)
        requires
            old(self).wf(),
        ensures
            final(self)@ == with_output(old(self)@, "✖ Error: "@ + err@),
            final(self).wf(),
    {
        let e = chars_of(err);
        self.add_output(prefixed("✖ Error: ", e.as_slice()));
    }
}

// ─── Queued timeline actions ────────────────────────────────────────────

/// The arguments that perform a timeline action on item `a.2` of the
/// current timeline (restore, or delete by number, the origin by its own
/// command), or `None` when the item no longer exists.
pub open spec fn action_args(v: UiView, a: (ActionKind, Seq<char>, usize)) -> Option<Seq<Seq<char>>> {
    let idx = a.2 as int;
    let name = v.palin_name;
    if idx < v.epochs.len() {
        let e = v.epochs[idx];
        match a.0 {
            ActionKind::Restore => Some(seq!["restore"@, epoch_display_name(e.is_origin, e.epoch_num as int), name, "-y"@]),
            ActionKind::Delete => if e.is_origin {
                Some(seq!["rm-origin"@, name])
            } else {
                Some(seq!["rm-epoch"@, name, decimal_text(e.epoch_num as int)])
            },
        }
    } else if idx - v.epochs.len() < v.phantoms.len() {
        let p = v.phantoms[idx - v.epochs.len()];
        match a.0 {
            ActionKind::Restore => Some(seq!["restore"@, phantom_display_name(p.phantom_num as int), name, "-y"@]),
            ActionKind::Delete => Some(seq!["rm-phantom"@, name, decimal_text(p.phantom_num as int)]),
        }
    } else {
        None
    }
}

/// What to do for a queued timeline action.
#[derive(Debug)]
pub enum FrameWork {
    /// Nothing is queued.
    Idle,
    /// The item is gone: only reload.
    Reload,
    /// Run the program with these arguments, report its output, then reload.
    RunThenReload { args: Vec<String> },
}

impl UiState {
    /// Takes the queued timeline action, if any, and says what to run for it.
    pub fn take_pending_execute(&mut self) -> (r: FrameWork)
        requires
            old(self).wf(),
        ensures
            match old(self)@.pending_execute_action {
                None => r is Idle && final(self)@ == old(self)@,
                Some(a) => final(self)@ == (UiView { pending_execute_action: None, ..old(self)@ }) && match action_args(
                    old(self)@,
                    a,
                ) {
                    Some(args) => r matches FrameWork::RunThenReload { args: got } && strings_view(got@) == args,
                    None => r is Reload,
                },
            },
            final(self).wf(),
    {
        match self.pending_execute_action.take() {
            None => FrameWork::Idle,
            Some(a) => {
                let name = self.palin_name.clone();
                let idx = a.item_idx;
                let mut args: Vec<String> = Vec::new();
                if idx < self.epochs.len() {
                    let e = &self.epochs[idx];
                    match a.kind {
                        ActionKind::Restore => {
                            args.push(lit("restore"));
                            args.push(e.display_name());
                            args.push(name);
                            args.push(lit("-y"));
                        },
                        ActionKind::Delete => {
                            if e.is_origin {
                                args.push(lit("rm-origin"));
                                args.push(name);
                            } else {
                                args.push(lit("rm-epoch"));
                                args.push(name);
                                let d = format_i64(e.epoch_num);
                                args.push(string_from_chars(d.as_slice()));
                            }
                        },
                    }
                } else if idx - self.epochs.len() < self.phantoms.len() {
                    let p = &self.phantoms[idx - self.epochs.len()];
                    match a.kind {
                        ActionKind::Restore => {
                            args.push(lit("restore"));
                            args.push(p.display_name());
                            args.push(name);
                            args.push(lit("-y"));
                        },
                        ActionKind::Delete => {
                            args.push(lit("rm-phantom"));
                            args.push(name);
                            let d = format_i64(p.phantom_num);
                            args.push(string_from_chars(d.as_slice()));
                        },
                    }
                } else {
                    return FrameWork::Reload;
                }
                proof {
                    let expected = action_args(old(self)@, (a.kind, a.item_name@, a.item_idx)).unwrap();
                    assert(strings_view(args@) =~= expected);
                }
                FrameWork::RunThenReload { args }
            },
        }
    }
}

// ─── Frames ─────────────────────────────────────────────────────────────

/// The spinner shown on frame `f`: it turns every two frames.
pub open spec fn spinner(f: u64) -> char {
    let i = (f / 2) % 4;
    if i == 0 {
        '◐'
    } else if i == 1 {
        '◓'
    } else if i == 2 {
        '◑'
    } else {
        '◒'
    }
}

/// The browser at the start of a frame: the frame counted, and, while a
/// snapshot runs, the spinner of its scanning line turned and, after 100
/// frames, a plea for patience shown once.
pub open spec fn frame_started(v: UiView) -> UiView {
    let f = (v.frame_count + 1) as u64;
    let v1 = UiView { frame_count: f, ..v };
    if !v.snap_in_progress {
        v1
    } else {
        pleaded(spun(v1, f), f)
    }
}

fn spinner_char(f: u64) -> (c: char)
    ensures
        c == spinner(f),
{
    let i = (f / 2) % 4;
    if i == 0 {
        '◐'
    } else if i == 1 {
        '◓'
    } else if i == 2 {
        '◑'
    } else {
        '◒'
    }
}

/// The scanning line with its spinner turned for frame `f`.
pub open spec fn spun(v: UiView, f: u64) -> UiView {
    if v.command_output.len() > 0 && contains_run(v.command_output[0], "Scanning files"@) {
        UiView { command_output: v.command_output.update(0, seq![spinner(f)] + " Scanning files..."@), ..v }
    } else {
        v
    }
}

/// The plea for patience, once, when a snapshot has run for more than 100 frames.
pub open spec fn pleaded(v: UiView, f: u64) -> UiView {
    if !v.patience_shown && f - v.snap_start_frame > 100 {
        with_output(UiView { patience_shown: true, ..v }, "  It's taking longer than usual, please be patient..."@)
    } else {
        v
    }
}

impl UiState {
    fn turn_spinner(&mut self)
        requires
            old(self).wf(),
        ensures
            final(self)@ == spun(old(self)@, old(self).frame_count),
            final(self).wf(),
    {
        if self.command_output.len() > 0 {
            let first = chars_of(self.command_output[0].as_str());
            let pat = chars_of("Scanning files");
            if contains_chars(first.as_slice(), pat.as_slice()) {
                let c = spinner_char(self.frame_count);
                let mut t: Vec<char> = Vec::new();
                t.push(c);
                let rest = chars_of(" Scanning files...");
                let line = concat_chars(t.as_slice(), rest.as_slice());
                let ghost before = self.command_output@;
                self.command_output.remove(0);
                self.command_output.insert(0, string_from_chars(line.as_slice()));
                assert(strings_view(self.command_output@) =~= strings_view(before).update(
                    0,
                    seq![spinner(self.frame_count)] + " Scanning files..."@,
                ));
            }
        }
    }

    fn plead_patience(&mut self)
        requires
            old(self).wf(),
        ensures
            final(self)@ == pleaded(old(self)@, old(self).frame_count),
            final(self).wf(),
    {
        if !self.patience_shown && self.frame_count - self.snap_start_frame > 100 {
            self.patience_shown = true;
            self.add_output(lit("  It's taking longer than usual, please be patient..."));
        }
    }

    /// Starts a frame.
    pub fn begin_frame(&mut self)
        requires
            old(self).wf(),
            old(self).frame_count < u64::MAX,
        ensures
            final(self)@ == frame_started(old(self)@),
            final(self).wf(),
    {
        self.frame_count = self.frame_count + 1;
        let ghost v1 = self@;
        if self.snap_in_progress {
            self.turn_spinner();
            let ghost v2 = self@;
            assert(v2 == spun(v1, v1.frame_count));
            self.plead_patience();
            assert(self@ == pleaded(v2, v1.frame_count));
        }
    }
}

// ─── Snapshots ──────────────────────────────────────────────────────────

/// The browser after a background snapshot ended: it no longer runs; its
/// lines but the first are shown when it succeeded, its error otherwise.
pub open spec fn snap_ended(v: UiView, lines: Seq<Seq<char>>, error: Option<Seq<char>>) -> UiView {
    let v1 = UiView { snap_in_progress: false, ..v };
    match error {
        None => with_outputs(v1, if lines.len() > 0 {
            lines.skip(1)
        } else {
            lines
        }),
        Some(e) => with_output(v1, "✖ Snap failed: "@ + e),
    }
}

impl UiState {
    /// Takes the end of a background snapshot; returns whether the timeline
    /// must be read again (after a success).
    pub fn snap_finished(&mut self, lines: &[String], error: Option<String>) -> (r: bool)
        requires
            old(self).wf(),
        ensures
            final(self)@ == snap_ended(old(self)@, strings_view(lines@), crate::browser::opt_chars(error)),
            r == (error is None),
            final(self).wf(),
    {
        self.snap_in_progress = false;
        match error {
            None => {
                if lines.len() > 0 {
                    let rest = lines.split_at(1).1;
                    assert(strings_view(rest@) =~= strings_view(lines@).skip(1));
                    self.add_outputs(rest);
                } else {
                    self.add_outputs(lines);
                }
                true
            },
            Some(e) => {
                let c = chars_of(e.as_str());
                self.add_output(prefixed("✖ Snap failed: ", c.as_slice()));
                false
            },
        }
    }

    /// Reports that the timeline could not be read again.
    pub fn reload_failed(&mut self, err: &str)
        requires
            old(self).wf(),
        ensures
            final(self)@ == with_output(old(self)@, "✖ Reload failed: "@ + err@),
            final(self).wf(),
    {
        let e = chars_of(err);
        self.add_output(prefixed("✖ Reload failed: ", e.as_slice()));
    }
}

// ─── Clean-up of unreferenced inks ──────────────────────────────────────

/// The sum of `sizes`.
pub open spec fn sizes_total(sizes: Seq<i64>) -> int
    decreases sizes.len(),
{
    if sizes.len() == 0 {
        0
    } else {
        sizes_total(sizes.drop_last()) + sizes.last()
    }
}

proof fn lemma_sizes_prefix(sizes: Seq<i64>, i: int)
    requires
        0 <= i <= sizes.len(),
        forall|k: int| 0 <= k < sizes.len() ==> #[trigger] sizes[k] >= 0,
    ensures
        0 <= sizes_total(sizes.take(i)) <= sizes_total(sizes),
    decreases sizes.len(),
{
    if sizes.len() > 0 {
        if i == sizes.len() {
            assert(sizes.take(i) =~= sizes);
            lemma_sizes_prefix(sizes.drop_last(), i - 1);
            assert(sizes.drop_last().take(i - 1) =~= sizes.drop_last());
            assert(sizes.last() == sizes[sizes.len() - 1]);
        } else {
            assert(sizes.drop_last().take(i) =~= sizes.take(i));
            lemma_sizes_prefix(sizes.drop_last(), i);
        }
    }
}

fn total_of(sizes: &[i64]) -> (r: u64)
    requires
        forall|k: int| 0 <= k < sizes@.len() ==> #[trigger] sizes@[k] >= 0,
        sizes_total(sizes@) <= u64::MAX,
    ensures
        r == sizes_total(sizes@),
{
    let mut t: u64 = 0;
    let mut i: usize = 0;
    assert(sizes@.take(0) =~= Seq::<i64>::empty());
    while i < sizes.len()
        invariant
            i <= sizes.len(),
            forall|k: int| 0 <= k < sizes@.len() ==> #[trigger] sizes@[k] >= 0,
            sizes_total(sizes@) <= u64::MAX,
            t == sizes_total(sizes@.take(i as int)),
        decreases sizes.len() - i,
    {
        proof {
            lemma_sizes_prefix(sizes@, i + 1);
            assert(sizes@.take(i + 1).drop_last() =~= sizes@.take(i as int));
            assert(sizes@.take(i + 1).last() == sizes@[i as int]);
        }
        t = t + sizes[i] as u64;
        i += 1;
    }
    assert(sizes@.take(sizes.len() as int) =~= sizes@);
    t
}

/// The question asked when `n` unreferenced inks of `total` bytes are found.
pub open spec fn gc_question(n: int, total: int) -> Seq<char> {
    "  "@ + decimal_text(n) + " unreferenced ink(s) ("@ + decimal_text(total) + " bytes). GC? [y/N]"@
}

/// The report of a clean-up that deleted `n` inks of `total` bytes.
pub open spec fn gc_report(n: int, total: int) -> Seq<char> {
    "✦ GC complete: deleted "@ + decimal_text(n) + " unreferenced ink(s) ("@ + decimal_text(total) + " bytes reclaimed)"@
}

impl UiState {
    /// Takes the sizes of the unreferenced inks: asks whether to delete them,
    /// or says there are none.
    pub fn gc_checked(&mut self, sizes: &[i64])
        requires
            old(self).wf(),
            forall|k: int| 0 <= k < sizes@.len() ==> #[trigger] sizes@[k] >= 0,
            sizes_total(sizes@) <= u64::MAX,
        ensures
            final(self)@ == (if sizes@.len() == 0 {
                with_output(old(self)@, "✦ No unreferenced inks to clean up."@)
            } else {
                with_output(UiView { pending_gc: true, ..old(self)@ }, gc_question(sizes@.len() as int, sizes_total(sizes@)))
            }),
            final(self).wf(),
    {
        if sizes.len() == 0 {
            self.add_output(lit("✦ No unreferenced inks to clean up."));
        } else {
            let total = total_of(sizes);
            let n = format_usize(sizes.len());
            let t = format_u64(total);
            self.pending_gc = true;
            self.add_output(join5("  ", n.as_slice(), " unreferenced ink(s) (", t.as_slice(), " bytes). GC? [y/N]"));
        }
    }

    /// Reports that the unreferenced inks could not be looked for.
    pub fn gc_check_failed(&mut self, db_unavailable: bool, err: &str)
        requires
            old(self).wf(),
        ensures
            final(self)@ == with_output(old(self)@, (if db_unavailable {
                "✖ DB error: "@
            } else {
                "✖ Error: "@
            }) + err@),
            final(self).wf(),
    {
        let e = chars_of(err);
        if db_unavailable {
            self.add_output(prefixed("✖ DB error: ", e.as_slice()));
        } else {
            self.add_output(prefixed("✖ Error: ", e.as_slice()));
        }
    }

    /// Reports a clean-up, given the sizes of the inks it deleted.
    pub fn gc_done(&mut self, sizes: &[i64])
        requires
            old(self).wf(),
            forall|k: int| 0 <= k < sizes@.len() ==> #[trigger] sizes@[k] >= 0,
            sizes_total(sizes@) <= u64::MAX,
        ensures
            final(self)@ == with_output(old(self)@, gc_report(sizes@.len() as int, sizes_total(sizes@))),
            final(self).wf(),
    {
        let total = total_of(sizes);
        let n = format_usize(sizes.len());
        let t = format_u64(total);
        self.add_output(join5("✦ GC complete: deleted ", n.as_slice(), " unreferenced ink(s) (", t.as_slice(), " bytes reclaimed)"));
    }

    /// Reports a clean-up that could not start.
    pub fn gc_failed(&mut self, db_unavailable: bool)
        requires
            old(self).wf(),
        ensures
            final(self)@ == with_output(old(self)@, if db_unavailable {
                "✖ Failed to open DB"@
            } else {
                "✖ Failed to query inks"@
            }),
            final(self).wf(),
    {
        if db_unavailable {
            self.add_output(lit("✖ Failed to open DB"));
        } else {
            self.add_output(lit("✖ Failed to query inks"));
        }
    }
}

// ─── Renames and locks ──────────────────────────────────────────────────

/// The browser after the rename command ran: its output and errors shown,
/// and on success the new name taken and the rename announced.
pub open spec fn after_rename(v: UiView, new_name: Seq<char>, stdout: Seq<u8>, stderr: Seq<u8>, success: bool) -> UiView {
    let v1 = if stdout.len() > 0 {
        with_output(v, utf8_lossy_of(stdout))
    } else {
        v
    };
    let v2 = if stderr.len() > 0 {
        with_output(v1, "✖ "@ + utf8_lossy_of(stderr))
    } else {
        v1
    };
    if success {
        with_output(UiView { palin_name: new_name, ..v2 }, "✦ Palin renamed"@)
    } else {
        v2
    }
}

impl UiState {
    fn add_lossy(&mut self, prefix: &str, bytes: &[u8])
        requires
            old(self).wf(),
        ensures
            final(self)@ == with_output(old(self)@, prefix@ + utf8_lossy_of(bytes@)),
            final(self).wf(),
    {
        let t = decode_utf8_lossy(bytes);
        self.add_output(prefixed(prefix, t.as_slice()));
    }

    fn renamed_to(&mut self, new_name: String)
        requires
            old(self).wf(),
        ensures
            final(self)@ == with_output(UiView { palin_name: new_name@, ..old(self)@ }, "✦ Palin renamed"@),
            final(self).wf(),
    {
        self.palin_name = new_name;
        self.add_output(lit("✦ Palin renamed"));
    }

    /// Takes the result of the rename command.
    pub fn rename_finished(&mut self, new_name: String, stdout: &[u8], stderr: &[u8], success: bool)
        requires
            old(self).wf(),
        ensures
            final(self)@ == after_rename(old(self)@, new_name@, stdout@, stderr@, success),
            final(self).wf(),
    {
        let ghost v = self@;
        if stdout.len() > 0 {
            self.add_lossy("", stdout);
            proof {
                reveal_strlit("");
                assert(""@ + utf8_lossy_of(stdout@) =~= utf8_lossy_of(stdout@));
            }
        }
        let ghost v1 = self@;
        assert(v1 == (if stdout@.len() > 0 { with_output(v, utf8_lossy_of(stdout@)) } else { v }));
        if stderr.len() > 0 {
            self.add_lossy("✖ ", stderr);
        }
        let ghost v2 = self@;
        assert(v2 == (if stderr@.len() > 0 { with_output(v1, "✖ "@ + utf8_lossy_of(stderr@)) } else { v1 }));
        if success {
            self.renamed_to(new_name);
        }
    }

    /// Reports a rename command that could not be run.
    pub fn rename_failed(&mut self, err: &str)
        requires
            old(self).wf(),
        ensures
            final(self)@ == with_output(old(self)@, "✖ Rename failed: "@ + err@),
            final(self).wf(),
    {
        let e = chars_of(err);
        self.add_output(prefixed("✖ Rename failed: ", e.as_slice()));
    }

    /// Reports a locked or unlocked epoch.
    pub fn lock_toggled(&mut self, locked: bool, name: &str)
        requires
            old(self).wf(),
        ensures
            final(self)@ == with_output(old(self)@, (if locked {
                "✦ Locked "@
            } else {
                "✦ Unlocked "@
            }) + name@),
            final(self).wf(),
    {
        let n = chars_of(name);
        if locked {
            self.add_output(prefixed("✦ Locked ", n.as_slice()));
        } else {
            self.add_output(prefixed("✦ Unlocked ", n.as_slice()));
        }
    }
}

} // verus!
