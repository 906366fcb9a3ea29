//! Comparing one file between two timeline items in the browser: the
//! request, its failures, and the lines shown.

use vstd::prelude::*;
use crate::browser::{
    diff_lines_view, framed, item_name, item_target, lit, opt_chars, with_output, UiState, UiView,
};
use crate::diff::{
    content_lines, content_to_lines, find_entry, first_with_path, lemma_first_with_path_pub, myers_line_diff,
    is_edit_script, lemma_script_at, lemma_script_ends, lemma_tokens_are_lines, plain_lines, slice_or_empty, LineDiff,
    OpSpan,
};
use crate::ink::InkStore;
use crate::number::{decimal_text, format_usize};
use crate::text::{chars_of, concat_chars, join_lines, join_lines_spec, string_from_chars, trim_newlines,
    trim_newlines_end, views};
use crate::tui::{DiffLine, DiffLineType};
use crate::types::{opt_view, DiffChangeType, FileEntry, SnapshotType};

verus! {

// ─── The request ────────────────────────────────────────────────────────

/// What a comparison compares: a file, and the two timeline items (the
/// source chosen first, and the target) by snapshot and display name.
#[derive(Debug)]
pub struct CompareRequest {
    pub file_path: String,
    pub source_id: i64,
    pub source_kind: SnapshotType,
    pub source_name: String,
    pub target_id: i64,
    pub target_kind: SnapshotType,
    pub target_name: String,
}

impl UiState {
    /// Takes the comparison waiting to run, if one is.
    pub fn take_compare(&mut self) -> (r: bool)
        requires
            old(self).wf(),
        ensures
            r == old(self).compare_pending_epoch,
            final(self)@ == (UiView { compare_pending_epoch: false, ..old(self)@ }),
            final(self).wf(),
    {
        let r = self.compare_pending_epoch;
        self.compare_pending_epoch = false;
        r
    }

    /// What the waiting comparison compares: the file, the source item and
    /// the selected item; `None` when either item is gone.
    pub fn compare_request(&self) -> (r: Option<CompareRequest>)
        ensures
            match (item_target(self@, self.compare_source_idx as int), item_target(self@, self.selected_idx as int)) {
                (Some(s), Some(t)) => r is Some && ({
                    let q = r->Some_0;
                    &&& q.file_path@ == self.compare_file_path@
                    &&& (q.source_id, q.source_kind) == s
                    &&& (q.target_id, q.target_kind) == t
                    &&& Some(q.source_name@) == item_name(self@, self.compare_source_idx as int)
                    &&& Some(q.target_name@) == item_name(self@, self.selected_idx as int)
                }),
                _ => r is None,
            },
    {
        let s = self.item_target(self.compare_source_idx);
        let t = self.item_target(self.selected_idx);
        let sn = self.item_name(self.compare_source_idx);
        let tn = self.item_name(self.selected_idx);
        proof {
            crate::browser::lemma_item_parts(self@, self.compare_source_idx as int);
            crate::browser::lemma_item_parts(self@, self.selected_idx as int);
        }
        match (s, t, sn, tn) {
            (Some((sid, sk)), Some((tid, tk)), Some(sname), Some(tname)) => Some(
                CompareRequest {
                    file_path: self.compare_file_path.clone(),
                    source_id: sid,
                    source_kind: sk,
                    source_name: sname,
                    target_id: tid,
                    target_kind: tk,
                    target_name: tname,
                },
            ),
            _ => None,
        }
    }
}

/// Why a comparison could not be made.
#[derive(Debug)]
pub enum CompareFailure {
    /// The database could not be opened (its error).
    Db(String),
    /// The source or target item is gone.
    NotFound,
    /// The source item's entries could not be read.
    SourceEntries,
    /// The target item's entries could not be read.
    TargetEntries,
}

/// The error shown for a failure.
pub open spec fn failure_text(f: CompareFailure) -> Seq<char> {
    match f {
        CompareFailure::Db(e) => "DB error: "@ + e@,
        CompareFailure::NotFound => "Source or target not found."@,
        CompareFailure::SourceEntries => "Failed to read source entries."@,
        CompareFailure::TargetEntries => "Failed to read target entries."@,
    }
}

impl UiState {
    /// Shows why a comparison could not be made; nothing else changes.
    pub fn compare_failed(&mut self, f: CompareFailure)
        requires
            old(self).wf(),
        ensures
            final(self)@ == (UiView { compare_error: Some(failure_text(f)), ..old(self)@ }),
            final(self).wf(),
    {
        let msg = match f {
            CompareFailure::Db(e) => {
                let c = chars_of(e.as_str());
                crate::browser::prefixed("DB error: ", c.as_slice())
            },
            CompareFailure::NotFound => lit("Source or target not found."),
            CompareFailure::SourceEntries => lit("Failed to read source entries."),
            CompareFailure::TargetEntries => lit("Failed to read target entries."),
        };
        self.compare_error = Some(msg);
    }
}

// ─── The lines shown ────────────────────────────────────────────────────

/// The lines of a side: none without an entry or without content, the
/// content's lines, or a marker when its ink cannot be read.
pub open spec fn side_lines(inks: InkStore, e: Option<FileEntry>) -> Seq<Seq<char>> {
    match e {
        None => Seq::empty(),
        Some(en) => match opt_view(en.ink_hash) {
            None => Seq::empty(),
            Some(h) => match inks.lookup(h) {
                Some(c) => content_lines(c),
                None => seq!["<<error reading>>"@],
            },
        },
    }
}

/// The first entry at `p`.
pub open spec fn entry_at(es: Seq<FileEntry>, p: Seq<char>) -> Option<FileEntry> {
    match first_with_path(es, p) {
        Some(i) => Some(es[i]),
        None => None,
    }
}

/// Tokens `a..b` of a side as shown lines of type `t`, without their line
/// endings (none where the range falls outside the side).
pub open spec fn shown(tokens: Seq<Seq<char>>, a: int, b: int, t: DiffLineType) -> Seq<(DiffLineType, Seq<char>)> {
    slice_or_empty(tokens, a, b).map_values(|s: Seq<char>| (t, trim_newlines_end(s)))
}

/// The lines one operation shows: equal lines from the old side, inserted
/// lines as added, deleted lines as deleted, and for a replacement the old
/// lines as replaced followed by the new lines as added.
pub open spec fn op_shown(old: Seq<Seq<char>>, new: Seq<Seq<char>>, op: OpSpan) -> Seq<(DiffLineType, Seq<char>)> {
    match op.tag {
        DiffChangeType::Equal => shown(old, op.old_start as int, op.old_end as int, DiffLineType::Same),
        DiffChangeType::Insert => shown(new, op.new_start as int, op.new_end as int, DiffLineType::Added),
        DiffChangeType::Delete => shown(old, op.old_start as int, op.old_end as int, DiffLineType::Deleted),
        DiffChangeType::Replace => shown(old, op.old_start as int, op.old_end as int, DiffLineType::Replaced) + shown(
            new,
            op.new_start as int,
            op.new_end as int,
            DiffLineType::Added,
        ),
    }
}

/// The lines the first `n` operations show.
pub open spec fn ops_shown(old: Seq<Seq<char>>, new: Seq<Seq<char>>, ops: Seq<OpSpan>, n: int) -> Seq<(DiffLineType, Seq<char>)>
    decreases n,
{
    if n <= 0 {
        Seq::empty()
    } else {
        ops_shown(old, new, ops, n - 1) + op_shown(old, new, ops[n - 1])
    }
}

/// How many of `lines` have type `t`.
pub open spec fn count_type(lines: Seq<(DiffLineType, Seq<char>)>, t: DiffLineType) -> int
    decreases lines.len(),
{
    if lines.len() == 0 {
        0
    } else {
        count_type(lines.drop_last(), t) + if lines.last().0 == t {
            1int
        } else {
            0
        }
    }
}

proof fn lemma_count_push(lines: Seq<(DiffLineType, Seq<char>)>, x: (DiffLineType, Seq<char>), t: DiffLineType)
    ensures
        count_type(lines.push(x), t) == count_type(lines, t) + if x.0 == t {
            1int
        } else {
            0
        },
{
    assert(lines.push(x).drop_last() =~= lines);
}

proof fn lemma_count_bound(lines: Seq<(DiffLineType, Seq<char>)>, t: DiffLineType)
    ensures
        0 <= count_type(lines, t) <= lines.len(),
    decreases lines.len(),
{
    if lines.len() > 0 {
        lemma_count_bound(lines.drop_last(), t);
    }
}

/// The summary of a comparison: its items, how many lines it shows, and how
/// many were added, replaced and deleted.
pub open spec fn summary(src: Seq<char>, tgt: Seq<char>, lines: Seq<(DiffLineType, Seq<char>)>) -> Seq<char> {
    "✦ Diff: "@ + src + " vs "@ + tgt + " — "@ + decimal_text(lines.len() as int) + " lines (+"@ + decimal_text(
        count_type(lines, DiffLineType::Added),
    ) + " / ~"@ + decimal_text(count_type(lines, DiffLineType::Replaced)) + " / -"@ + decimal_text(
        count_type(lines, DiffLineType::Deleted),
    ) + ")"@
}

/// The summary of a comparison with a file the source does not have.
pub open spec fn new_file_summary(src: Seq<char>, tgt: Seq<char>, n: int) -> Seq<char> {
    "✦ Diff: "@ + src + " vs "@ + tgt + " — "@ + decimal_text(n) + " lines (new file)"@
}

/// The browser after a comparison of `path` between the entries of the
/// source and of the target, with the contents in `inks`: the view is
/// cleared first; a file missing from the target is an error; a file new
/// in the target shows all its lines as added; otherwise the line diff of
/// the two contents (each side's lines joined with `'\n'`) is shown, and
/// the summary is added to the output.
pub open spec fn compared(
    v: UiView,
    path: Seq<char>,
    src_name: Seq<char>,
    tgt_name: Seq<char>,
    src: Seq<FileEntry>,
    tgt: Seq<FileEntry>,
    inks: InkStore,
) -> UiView {
    let oe = entry_at(src, path);
    let ne = entry_at(tgt, path);
    let ol = side_lines(inks, oe);
    let nl = side_lines(inks, ne);
    let cleared = UiView { compare_result_lines: Seq::empty(), compare_error: None, diff_scroll: 0, ..v };
    if ne is None {
        UiView { compare_error: Some("File not available to compare"@), ..cleared }
    } else if oe is None && nl.len() > 0 {
        with_output(
            UiView { compare_result_lines: nl.map_values(|l: Seq<char>| (DiffLineType::Added, l)), ..cleared },
            new_file_summary(src_name, tgt_name, nl.len() as int),
        )
    } else {
        let d = crate::diff::line_diff_of(join_lines_spec(ol), join_lines_spec(nl));
        let lines = ops_shown(d.1, d.2, d.0, d.0.len() as int);
        with_output(UiView { compare_result_lines: lines, ..cleared }, summary(src_name, tgt_name, lines))
    }
}

fn read_side(inks: &InkStore, entries: &[FileEntry], idx: Option<usize>) -> (r: Vec<String>)
    requires
        match idx {
            Some(i) => i < entries.len(),
            None => true,
        },
    ensures
        views(r@) == side_lines(*inks, match idx {
            Some(i) => Some(entries@[i as int]),
            None => None,
        }),
{
    match idx {
        None => {
            let r: Vec<String> = Vec::new();
            assert(views(r@) =~= Seq::empty());
            r
        },
        Some(i) => match &entries[i].ink_hash {
            None => {
                let r: Vec<String> = Vec::new();
                assert(views(r@) =~= Seq::empty());
                r
            },
            Some(h) => match inks.read_ink(h.as_str()) {
                Ok(data) => content_to_lines(data.as_slice()),
                Err(_) => {
                    let mut r: Vec<String> = Vec::new();
                    r.push(lit("<<error reading>>"));
                    assert(views(r@) =~= seq!["<<error reading>>"@]);
                    r
                },
            },
        },
    }
}

fn push_shown(out: &mut Vec<DiffLine>, tokens: &[String], a: usize, b: usize, t: DiffLineType)
    ensures
        diff_lines_view(final(out)@) == diff_lines_view(old(out)@) + shown(views(tokens@), a as int, b as int, t),
{
    let ghost start = diff_lines_view(out@);
    if a <= b && b <= tokens.len() {
        let mut i: usize = a;
        while i < b
            invariant
                a <= i <= b,
                b <= tokens@.len(),
                diff_lines_view(out@) == start + shown(views(tokens@), a as int, i as int, t),
            decreases b - i,
        {
            let cs = chars_of(tokens[i].as_str());
            let tr = trim_newlines(cs.as_slice());
            let ghost before = out@;
            out.push(DiffLine { line_type: t, content: string_from_chars(tr.as_slice()) });
            proof {
                assert(slice_or_empty(views(tokens@), a as int, i + 1) =~= slice_or_empty(views(tokens@), a as int, i as int).push(tokens@[i as int]@));
                assert(diff_lines_view(out@) =~= diff_lines_view(before).push((t, trim_newlines_end(tokens@[i as int]@))));
                assert(shown(views(tokens@), a as int, i + 1, t) =~= shown(views(tokens@), a as int, i as int, t).push((t, trim_newlines_end(tokens@[i as int]@))));
            }
            i += 1;
        }
    } else {
        assert(shown(views(tokens@), a as int, b as int, t) =~= Seq::empty());
    }
    assert(diff_lines_view(out@) =~= start + shown(views(tokens@), a as int, b as int, t));
}

/// The texts of the shown lines that come from the old file: all but the
/// added ones, in order.
pub open spec fn old_side(lines: Seq<(DiffLineType, Seq<char>)>) -> Seq<Seq<char>>
    decreases lines.len(),
{
    if lines.len() == 0 {
        seq![]
    } else if lines.last().0 != DiffLineType::Added {
        old_side(lines.drop_last()).push(lines.last().1)
    } else {
        old_side(lines.drop_last())
    }
}

/// The texts of the shown lines that come from the new file: the same and
/// the added ones, in order.
pub open spec fn new_side(lines: Seq<(DiffLineType, Seq<char>)>) -> Seq<Seq<char>>
    decreases lines.len(),
{
    if lines.len() == 0 {
        seq![]
    } else if lines.last().0 == DiffLineType::Same || lines.last().0 == DiffLineType::Added {
        new_side(lines.drop_last()).push(lines.last().1)
    } else {
        new_side(lines.drop_last())
    }
}

/// The lines of a side without their line endings.
pub open spec fn trimmed(tokens: Seq<Seq<char>>) -> Seq<Seq<char>> {
    tokens.map_values(|s: Seq<char>| trim_newlines_end(s))
}

proof fn lemma_sides_append(a: Seq<(DiffLineType, Seq<char>)>, b: Seq<(DiffLineType, Seq<char>)>)
    ensures
        old_side(a + b) == old_side(a) + old_side(b),
        new_side(a + b) == new_side(a) + new_side(b),
    decreases b.len(),
{
    if b.len() == 0 {
        assert(a + b =~= a);
        assert(old_side(a) + old_side(b) =~= old_side(a));
        assert(new_side(a) + new_side(b) =~= new_side(a));
    } else {
        lemma_sides_append(a, b.drop_last());
        assert((a + b).drop_last() =~= a + b.drop_last());
        assert((a + b).last() == b.last());
        assert(old_side(a) + old_side(b.drop_last()).push(b.last().1) =~= (old_side(a) + old_side(b.drop_last())).push(b.last().1));
        assert(new_side(a) + new_side(b.drop_last()).push(b.last().1) =~= (new_side(a) + new_side(b.drop_last())).push(b.last().1));
    }
}

proof fn lemma_sides_shown(tokens: Seq<Seq<char>>, a: int, b: int, t: DiffLineType)
    requires
        0 <= a <= b <= tokens.len(),
    ensures
        old_side(shown(tokens, a, b, t)) == (if t != DiffLineType::Added { trimmed(tokens.subrange(a, b)) } else { seq![] }),
        new_side(shown(tokens, a, b, t)) == (if t == DiffLineType::Same || t == DiffLineType::Added {
            trimmed(tokens.subrange(a, b))
        } else {
            seq![]
        }),
    decreases b - a,
{
    if b == a {
        assert(shown(tokens, a, b, t) =~= Seq::<(DiffLineType, Seq<char>)>::empty());
        assert(trimmed(tokens.subrange(a, b)) =~= Seq::<Seq<char>>::empty());
    } else {
        lemma_sides_shown(tokens, a, b - 1, t);
        assert(shown(tokens, a, b, t) =~= shown(tokens, a, b - 1, t).push((t, trim_newlines_end(tokens[b - 1]))));
        assert(shown(tokens, a, b, t).drop_last() =~= shown(tokens, a, b - 1, t));
        assert(trimmed(tokens.subrange(a, b)) =~= trimmed(tokens.subrange(a, b - 1)).push(trim_newlines_end(tokens[b - 1])));
    }
}

proof fn lemma_ends_within(old: Seq<Seq<char>>, new: Seq<Seq<char>>, ops: Seq<OpSpan>, i: int)
    requires
        is_edit_script(old, new, ops),
        0 <= i < ops.len(),
    ensures
        ops[i].old_end <= old.len(),
        ops[i].new_end <= new.len(),
    decreases ops.len() - i,
{
    lemma_script_at(old, new, ops, i);
    if i + 1 < ops.len() {
        lemma_ends_within(old, new, ops, i + 1);
        lemma_script_at(old, new, ops, i + 1);
    }
}

proof fn lemma_ops_sides(old: Seq<Seq<char>>, new: Seq<Seq<char>>, ops: Seq<OpSpan>, n: int)
    requires
        is_edit_script(old, new, ops),
        0 <= n <= ops.len(),
    ensures
        ({
            let po = if n == 0 { 0int } else { ops[n - 1].old_end as int };
            let pn = if n == 0 { 0int } else { ops[n - 1].new_end as int };
            &&& po <= old.len() && pn <= new.len()
            &&& old_side(ops_shown(old, new, ops, n)) == trimmed(old.subrange(0, po))
            &&& new_side(ops_shown(old, new, ops, n)) == trimmed(new.subrange(0, pn))
        }),
    decreases n,
{
    if n == 0 {
        assert(trimmed(old.subrange(0, 0)) =~= Seq::<Seq<char>>::empty());
        assert(trimmed(new.subrange(0, 0)) =~= Seq::<Seq<char>>::empty());
    } else {
        lemma_ops_sides(old, new, ops, n - 1);
        lemma_script_at(old, new, ops, n - 1);
        lemma_script_ends(old, new, ops);
        lemma_ends_within(old, new, ops, n - 1);
        if n >= 2 {
            lemma_script_at(old, new, ops, n - 2);
        }
        let op = ops[n - 1];
        let a = op.old_start as int;
        let b = op.old_end as int;
        let c = op.new_start as int;
        let d = op.new_end as int;
        let prev = ops_shown(old, new, ops, n - 1);
        let cur = op_shown(old, new, op);
        lemma_sides_append(prev, cur);
        assert(slice_or_empty(old, a, b) == old.subrange(a, b));
        assert(slice_or_empty(new, c, d) == new.subrange(c, d));
        match op.tag {
            DiffChangeType::Equal => {
                lemma_sides_shown(old, a, b, DiffLineType::Same);
                assert(old.subrange(a, b) == new.subrange(c, d));
            },
            DiffChangeType::Insert => {
                lemma_sides_shown(new, c, d, DiffLineType::Added);
                assert(old.subrange(a, b) =~= Seq::<Seq<char>>::empty());
                assert(trimmed(old.subrange(a, b)) =~= Seq::<Seq<char>>::empty());
            },
            DiffChangeType::Delete => {
                lemma_sides_shown(old, a, b, DiffLineType::Deleted);
                assert(trimmed(new.subrange(c, d)) =~= Seq::<Seq<char>>::empty());
            },
            DiffChangeType::Replace => {
                lemma_sides_shown(old, a, b, DiffLineType::Replaced);
                lemma_sides_shown(new, c, d, DiffLineType::Added);
                lemma_sides_append(shown(old, a, b, DiffLineType::Replaced), shown(new, c, d, DiffLineType::Added));
            },
        }
        assert(trimmed(old.subrange(0, a)) + trimmed(old.subrange(a, b)) =~= trimmed(old.subrange(0, b)));
        assert(trimmed(new.subrange(0, c)) + trimmed(new.subrange(c, d)) =~= trimmed(new.subrange(0, d)));
    }
}

/// Law: the lines a comparison shows rebuild both files. Along an edit
/// script, the lines not marked added are the old side's lines, and the
/// lines marked same or added are the new side's lines (each without its
/// line ending).
pub proof fn law_shown_rebuilds_sides(old: Seq<Seq<char>>, new: Seq<Seq<char>>, ops: Seq<OpSpan>)
    requires
        is_edit_script(old, new, ops),
    ensures
        old_side(ops_shown(old, new, ops, ops.len() as int)) == trimmed(old),
        new_side(ops_shown(old, new, ops, ops.len() as int)) == trimmed(new),
{
    lemma_ops_sides(old, new, ops, ops.len() as int);
    lemma_script_ends(old, new, ops);
    assert(old.subrange(0, old.len() as int) =~= old);
    assert(new.subrange(0, new.len() as int) =~= new);
    if ops.len() == 0 {
        assert(trimmed(old) =~= Seq::<Seq<char>>::empty());
        assert(trimmed(new) =~= Seq::<Seq<char>>::empty());
    }
}

/// The lines a line diff shows, operation by operation. When the diff is an
/// edit script of its tokens (as every diff `myers_line_diff` makes is),
/// they rebuild both sides.
pub fn shown_lines(d: &LineDiff) -> (r: Vec<DiffLine>)
    ensures
        diff_lines_view(r@) == ops_shown(views(d.old_tokens@), views(d.new_tokens@), d.ops@, d.ops@.len() as int),
        is_edit_script(views(d.old_tokens@), views(d.new_tokens@), d.ops@) ==> old_side(diff_lines_view(r@))
            == trimmed(views(d.old_tokens@)) && new_side(diff_lines_view(r@)) == trimmed(views(d.new_tokens@)),
{
    let mut out: Vec<DiffLine> = Vec::new();
    let mut k: usize = 0;
    assert(diff_lines_view(out@) =~= Seq::empty());
    while k < d.ops.len()
        invariant
            k <= d.ops.len(),
            diff_lines_view(out@) == ops_shown(views(d.old_tokens@), views(d.new_tokens@), d.ops@, k as int),
        decreases d.ops.len() - k,
    {
        let op = d.ops[k];
        let ghost before = diff_lines_view(out@);
        match op.tag {
            DiffChangeType::Equal => push_shown(&mut out, d.old_tokens.as_slice(), op.old_start, op.old_end, DiffLineType::Same),
            DiffChangeType::Insert => push_shown(&mut out, d.new_tokens.as_slice(), op.new_start, op.new_end, DiffLineType::Added),
            DiffChangeType::Delete => push_shown(&mut out, d.old_tokens.as_slice(), op.old_start, op.old_end, DiffLineType::Deleted),
            DiffChangeType::Replace => {
                push_shown(&mut out, d.old_tokens.as_slice(), op.old_start, op.old_end, DiffLineType::Replaced);
                push_shown(&mut out, d.new_tokens.as_slice(), op.new_start, op.new_end, DiffLineType::Added);
            },
        }
        assert(diff_lines_view(out@) =~= before + op_shown(views(d.old_tokens@), views(d.new_tokens@), d.ops@[k as int]));
        k += 1;
    }
    proof {
        if is_edit_script(views(d.old_tokens@), views(d.new_tokens@), d.ops@) {
            law_shown_rebuilds_sides(views(d.old_tokens@), views(d.new_tokens@), d.ops@);
        }
    }
    out
}

fn count_lines_of(lines: &[DiffLine], t: DiffLineType) -> (r: usize)
    ensures
        r == count_type(diff_lines_view(lines@), t),
{
    let mut c: usize = 0;
    let mut i: usize = 0;
    let ghost all = diff_lines_view(lines@);
    while i < lines.len()
        invariant
            i <= lines.len(),
            all == diff_lines_view(lines@),
            c == count_type(all.take(i as int), t),
            c <= i,
        decreases lines.len() - i,
    {
        proof {
            assert(all.take(i + 1) =~= all.take(i as int).push(all[i as int]));
            lemma_count_push(all.take(i as int), all[i as int], t);
        }
        if lines[i].line_type == t {
            c += 1;
        }
        i += 1;
    }
    assert(all.take(lines.len() as int) =~= all);
    c
}

fn summary_text(src: &str, tgt: &str, lines: &[DiffLine]) -> (r: String)
    ensures
        r@ == summary(src@, tgt@, diff_lines_view(lines@)),
{
    let n = format_usize(lines.len());
    let a = format_usize(count_lines_of(lines, DiffLineType::Added));
    let m = format_usize(count_lines_of(lines, DiffLineType::Replaced));
    let d = format_usize(count_lines_of(lines, DiffLineType::Deleted));
    let s = chars_of(src);
    let t = chars_of(tgt);
    let mut out: Vec<char> = chars_of("✦ Diff: ");
    crate::text::push_all(&mut out, s.as_slice());
    crate::text::push_all(&mut out, chars_of(" vs ").as_slice());
    crate::text::push_all(&mut out, t.as_slice());
    crate::text::push_all(&mut out, chars_of(" — ").as_slice());
    crate::text::push_all(&mut out, n.as_slice());
    crate::text::push_all(&mut out, chars_of(" lines (+").as_slice());
    crate::text::push_all(&mut out, a.as_slice());
    crate::text::push_all(&mut out, chars_of(" / ~").as_slice());
    crate::text::push_all(&mut out, m.as_slice());
    crate::text::push_all(&mut out, chars_of(" / -").as_slice());
    crate::text::push_all(&mut out, d.as_slice());
    crate::text::push_all(&mut out, chars_of(")").as_slice());
    string_from_chars(out.as_slice())
}

fn new_file_text(src: &str, tgt: &str, n: usize) -> (r: String)
    ensures
        r@ == new_file_summary(src@, tgt@, n as int),
{
    let k = format_usize(n);
    let s = chars_of(src);
    let t = chars_of(tgt);
    let mut out: Vec<char> = chars_of("✦ Diff: ");
    crate::text::push_all(&mut out, s.as_slice());
    crate::text::push_all(&mut out, chars_of(" vs ").as_slice());
    crate::text::push_all(&mut out, t.as_slice());
    crate::text::push_all(&mut out, chars_of(" — ").as_slice());
    crate::text::push_all(&mut out, k.as_slice());
    crate::text::push_all(&mut out, chars_of(" lines (new file)").as_slice());
    string_from_chars(out.as_slice())
}

fn added_lines(lines: &[String]) -> (r: Vec<DiffLine>)
    ensures
        diff_lines_view(r@) == views(lines@).map_values(|l: Seq<char>| (DiffLineType::Added, l)),
{
    let mut out: Vec<DiffLine> = Vec::new();
    let mut i: usize = 0;
    while i < lines.len()
        invariant
            i <= lines.len(),
            out@.len() == i,
            forall|k: int| 0 <= k < i ==> #[trigger] out@[k].line_type == DiffLineType::Added && out@[k].content@ == lines@[k]@,
        decreases lines.len() - i,
    {
        out.push(DiffLine { line_type: DiffLineType::Added, content: lines[i].clone() });
        i += 1;
    }
    assert(diff_lines_view(out@) =~= views(lines@).map_values(|l: Seq<char>| (DiffLineType::Added, l)));
    out
}

proof fn lemma_output_keeps_lines(v: UiView, line: Seq<char>)
    ensures
        with_output(v, line).compare_result_lines == v.compare_result_lines,
{
    reveal(with_output);
}

/// Lines all shown as added hold nothing of the old side and all of the new.
proof fn lemma_sides_all_added(ls: Seq<Seq<char>>)
    ensures
        old_side(ls.map_values(|l: Seq<char>| (DiffLineType::Added, l))) == Seq::<Seq<char>>::empty(),
        new_side(ls.map_values(|l: Seq<char>| (DiffLineType::Added, l))) == ls,
    decreases ls.len(),
{
    let m = ls.map_values(|l: Seq<char>| (DiffLineType::Added, l));
    if ls.len() > 0 {
        lemma_sides_all_added(ls.drop_last());
        assert(m.drop_last() =~= ls.drop_last().map_values(|l: Seq<char>| (DiffLineType::Added, l)));
        assert(ls.drop_last().push(ls.last()) =~= ls);
    } else {
        assert(m =~= Seq::<(DiffLineType, Seq<char>)>::empty());
        assert(ls =~= Seq::<Seq<char>>::empty());
    }
}

impl UiState {
    /// Makes the comparison of `req` from the entries of its source and
    /// target and the contents in `inks`. When the target has the file and
    /// both sides are plain lines, the lines shown rebuild both files: those
    /// not marked added are the source's lines, and those marked same or
    /// added are the target's.
    #[verifier::rlimit(60)]
    #[verifier::spinoff_prover]
    pub fn finish_compare(&mut self, req: &CompareRequest, source_entries: &[FileEntry], target_entries: &[FileEntry], inks: &InkStore)
        requires
            old(self).wf(),
        ensures
            final(self)@ == compared(
                old(self)@,
                req.file_path@,
                req.source_name@,
                req.target_name@,
                source_entries@,
                target_entries@,
                *inks,
            ),
            final(self).wf(),
            ({
                let oe = entry_at(source_entries@, req.file_path@);
                let ne = entry_at(target_entries@, req.file_path@);
                ne is Some && plain_lines(side_lines(*inks, oe)) && plain_lines(side_lines(*inks, ne)) ==> {
                    &&& old_side(final(self)@.compare_result_lines) == side_lines(*inks, oe)
                    &&& new_side(final(self)@.compare_result_lines) == side_lines(*inks, ne)
                }
            }),
    {
        let ghost v = self@;
        let ghost c = compared(v, req.file_path@, req.source_name@, req.target_name@, source_entries@, target_entries@, *inks);
        proof {
            lemma_first_with_path_pub(source_entries@, req.file_path@);
            lemma_first_with_path_pub(target_entries@, req.file_path@);
        }
        let oi = find_entry(source_entries, req.file_path.as_str());
        let ni = find_entry(target_entries, req.file_path.as_str());
        let old_lines = read_side(inks, source_entries, oi);
        let new_lines = read_side(inks, target_entries, ni);
        let ghost oe = entry_at(source_entries@, req.file_path@);
        let ghost ne = entry_at(target_entries@, req.file_path@);
        assert(oe == match oi { Some(i) => Some(source_entries@[i as int]), None => None::<FileEntry> });
        assert(ne == match ni { Some(i) => Some(target_entries@[i as int]), None => None::<FileEntry> });
        if ni.is_none() {
            assert(c == UiView {
                compare_result_lines: Seq::empty(),
                compare_error: Some("File not available to compare"@),
                diff_scroll: 0,
                ..v
            });
            self.compare_missing();
            return;
        }
        if oi.is_none() && new_lines.len() > 0 {
            let lines = added_lines(new_lines.as_slice());
            let msg = new_file_text(req.source_name.as_str(), req.target_name.as_str(), new_lines.len());
            assert(c == with_output(
                UiView { compare_result_lines: diff_lines_view(lines@), compare_error: None, diff_scroll: 0, ..v },
                msg@,
            ));
            proof {
                lemma_output_keeps_lines(
                    UiView { compare_result_lines: diff_lines_view(lines@), compare_error: None, diff_scroll: 0, ..v },
                    msg@,
                );
                lemma_sides_all_added(views(new_lines@));
                assert(views(old_lines@) =~= Seq::<Seq<char>>::empty());
            }
            self.show_compare(lines, msg);
            return;
        }
        let oj = join_lines(old_lines.as_slice());
        let nj = join_lines(new_lines.as_slice());
        let os = string_from_chars(oj.as_slice());
        let ns = string_from_chars(nj.as_slice());
        let d = myers_line_diff(os.as_str(), ns.as_str());
        let lines = shown_lines(&d);
        let msg = summary_text(req.source_name.as_str(), req.target_name.as_str(), lines.as_slice());
        assert(c == with_output(
            UiView { compare_result_lines: diff_lines_view(lines@), compare_error: None, diff_scroll: 0, ..v },
            msg@,
        ));
        proof {
            lemma_output_keeps_lines(
                UiView { compare_result_lines: diff_lines_view(lines@), compare_error: None, diff_scroll: 0, ..v },
                msg@,
            );
            if plain_lines(views(old_lines@)) && plain_lines(views(new_lines@)) {
                lemma_tokens_are_lines(views(d.old_tokens@), views(old_lines@));
                lemma_tokens_are_lines(views(d.new_tokens@), views(new_lines@));
                assert(trimmed(views(d.old_tokens@)) =~= views(old_lines@));
                assert(trimmed(views(d.new_tokens@)) =~= views(new_lines@));
            }
        }
        self.show_compare(lines, msg);
    }
}

} // verus!
