//! Line diffs between two versions of a file. The edit script comes from the
//! `similar` crate (Myers algorithm over lines); this module turns it into
//! hunks, counts and whole-file results.

use vstd::prelude::*;
use crate::ink::{InkError, InkStore};
use crate::text::{decode_utf8_lossy, join_lines, join_lines_spec, lines_of, split_lines, str_eq,
    string_from_chars, trim_newlines_end, utf8_lossy_of, views};
use similar::DiffTag as T;
use crate::tree::{entry_inserted, path_before, sorted_entries, sorted_order};
use crate::types::{opt_view, DiffChangeType, DiffHunk, FileDiff, FileEntry, FileStatus};

verus! {

// ─── The edit script ────────────────────────────────────────────────────

/// One operation of an edit script: its kind and the ranges
/// `old_start..old_end` and `new_start..new_end` of lines it covers.
#[derive(Debug, Clone, Copy, PartialEq, Eq, Structural)]
pub struct OpSpan {
    pub tag: DiffChangeType,
    pub old_start: usize,
    pub old_end: usize,
    pub new_start: usize,
    pub new_end: usize,
}

/// A line diff as `similar` produces it: the operations, and the lines it
/// split each text into (each line with its line ending).
#[derive(Debug)]
pub struct LineDiff {
    pub ops: Vec<OpSpan>,
    pub old_tokens: Vec<String>,
    pub new_tokens: Vec<String>,
}

impl LineDiff {
    /// The operations and the two token sequences.
    pub open spec fn view_parts(&self) -> (Seq<OpSpan>, Seq<Seq<char>>, Seq<Seq<char>>) {
        (self.ops@, views(self.old_tokens@), views(self.new_tokens@))
    }
}

/// The line diff that `similar::TextDiff::from_lines` computes between two
/// texts (Myers algorithm, no deadline): its operations and the lines of each text.
pub uninterp spec fn line_diff_of(old: Seq<char>, new: Seq<char>) -> (Seq<OpSpan>, Seq<Seq<char>>, Seq<Seq<char>>);

/// Diffs two texts line by line with `similar::TextDiff::from_lines`, and
/// returns its operations (`ops()`, each as `as_tag_tuple()`) and the lines
/// of each side (`old_slices()`, `new_slices()`). As the Myers algorithm and
/// the hooks it is captured through (`Compact`, `Replace`, `Capture`) build
/// them, the operations cover both token sequences in order, one after the
/// other, with equal tokens under each `Equal` operation, no old token under
/// an `Insert` and no new token under a `Delete`; and equal texts,
/// whose common prefix is everything, give only `Equal` operations. The
/// tokens of each side are its lines as `tokenize_lines` cuts them: they
/// concatenate to the text, each is non-empty, a `'\n'` only ends one, and
/// each but the last ends with `'\n'` or `'\r'`.
#[verifier::external_body]
pub(crate) fn myers_line_diff(old: &str, new: &str) -> (r: LineDiff)
    ensures
        r.view_parts() == line_diff_of(old@, new@),
        is_edit_script(views(r.old_tokens@), views(r.new_tokens@), r.ops@),
        old@ == new@ ==> forall|i: int| 0 <= i < r.ops@.len() ==> (#[trigger] r.ops@[i]).tag == DiffChangeType::Equal,
        concat_all(views(r.old_tokens@)) == old@,
        concat_all(views(r.new_tokens@)) == new@,
        line_tokens(views(r.old_tokens@)),
        line_tokens(views(r.new_tokens@)),
{
    let d = similar::TextDiff::from_lines(old, new);
    let ops = d.ops().iter().map(|op| op.as_tag_tuple()).map(|(t, o, n)| OpSpan {
        tag: match t { T::Equal => DiffChangeType::Equal, T::Insert => DiffChangeType::Insert,
            T::Delete => DiffChangeType::Delete, T::Replace => DiffChangeType::Replace },
        old_start: o.start, old_end: o.end, new_start: n.start, new_end: n.end,
    }).collect();
    let old_tokens = d.old_slices().iter().map(|s| s.to_string()).collect();
    let new_tokens = d.new_slices().iter().map(|s| s.to_string()).collect();
    LineDiff { ops, old_tokens, new_tokens }
}


// ─── Hunks ──────────────────────────────────────────────────────────────

/// A hunk as a mathematical value.
pub struct HunkSpec {
    pub old_start: int,
    pub old_lines: Seq<Seq<char>>,
    pub new_start: int,
    pub new_lines: Seq<Seq<char>>,
    pub change_type: DiffChangeType,
}

/// The value of a hunk.
pub open spec fn hunk_spec(h: DiffHunk) -> HunkSpec {
    HunkSpec {
        old_start: h.old_start as int,
        old_lines: views(h.old_lines@),
        new_start: h.new_start as int,
        new_lines: views(h.new_lines@),
        change_type: h.change_type,
    }
}

/// The values of a sequence of hunks.
pub open spec fn hunk_specs(hs: Seq<DiffHunk>) -> Seq<HunkSpec> {
    hs.map_values(|h: DiffHunk| hunk_spec(h))
}

/// `lines[a..b]`, or nothing when that range is not inside `lines`
/// (`slice::get(a..b)` then `unwrap_or_default`).
pub open spec fn slice_or_empty(lines: Seq<Seq<char>>, a: int, b: int) -> Seq<Seq<char>> {
    if a <= b && b <= lines.len() {
        lines.subrange(a, b)
    } else {
        seq![]
    }
}

/// The hunk made from a non-equal operation: 1-based starts, the old and new
/// lines it covers.
pub open spec fn op_hunk(old: Seq<Seq<char>>, new: Seq<Seq<char>>, op: OpSpan) -> HunkSpec {
    HunkSpec {
        old_start: op.old_start + 1,
        old_lines: slice_or_empty(old, op.old_start as int, op.old_end as int),
        new_start: op.new_start + 1,
        new_lines: slice_or_empty(new, op.new_start as int, op.new_end as int),
        change_type: op.tag,
    }
}

/// The hunks of an edit script: one per operation that is not `Equal`, in order.
pub open spec fn hunks_of(old: Seq<Seq<char>>, new: Seq<Seq<char>>, ops: Seq<OpSpan>) -> Seq<HunkSpec>
    decreases ops.len(),
{
    if ops.len() == 0 {
        seq![]
    } else {
        let first = if ops[0].tag == DiffChangeType::Equal {
            Seq::<HunkSpec>::empty()
        } else {
            seq![op_hunk(old, new, ops[0])]
        };
        first + hunks_of(old, new, ops.skip(1))
    }
}

proof fn lemma_hunks_of_take(old: Seq<Seq<char>>, new: Seq<Seq<char>>, ops: Seq<OpSpan>, i: int)
    requires
        0 <= i < ops.len(),
    ensures
        hunks_of(old, new, ops.take(i + 1)) == hunks_of(old, new, ops.take(i)) + (if ops[i].tag
            == DiffChangeType::Equal {
            Seq::<HunkSpec>::empty()
        } else {
            seq![op_hunk(old, new, ops[i])]
        }),
    decreases i,
{
    if i == 0 {
        assert(ops.take(1).skip(1) =~= Seq::<OpSpan>::empty());
        assert(ops.take(0) =~= Seq::<OpSpan>::empty());
        assert(hunks_of(old, new, ops.take(1)) =~= hunks_of(old, new, ops.take(1)) + Seq::<HunkSpec>::empty());
    } else {
        lemma_hunks_of_take(old, new, ops.skip(1), i - 1);
        assert(ops.take(i + 1).skip(1) =~= ops.skip(1).take(i));
        assert(ops.take(i).skip(1) =~= ops.skip(1).take(i - 1));
        assert(ops.take(i + 1)[0] == ops[0]);
        assert(ops.take(i)[0] == ops[0]);
        assert(ops.skip(1)[i - 1] == ops[i]);
        let f = if ops[0].tag == DiffChangeType::Equal {
            Seq::<HunkSpec>::empty()
        } else {
            seq![op_hunk(old, new, ops[0])]
        };
        let g = if ops[i].tag == DiffChangeType::Equal {
            Seq::<HunkSpec>::empty()
        } else {
            seq![op_hunk(old, new, ops[i])]
        };
        assert(hunks_of(old, new, ops.take(i + 1)) == f + hunks_of(old, new, ops.skip(1).take(i)));
        assert(hunks_of(old, new, ops.take(i)) == f + hunks_of(old, new, ops.skip(1).take(i - 1)));
        assert(f + (hunks_of(old, new, ops.skip(1).take(i - 1)) + g) =~= (f + hunks_of(
            old,
            new,
            ops.skip(1).take(i - 1),
        )) + g);
    }
}

/// Whether every operation's starts can be written as 1-based line numbers.
pub open spec fn starts_fit(ops: Seq<OpSpan>) -> bool {
    forall|i: int| 0 <= i < ops.len() ==> (#[trigger] ops[i]).old_start < usize::MAX && ops[i].new_start
        < usize::MAX
}

fn lines_slice(lines: &[String], a: usize, b: usize) -> (r: Vec<String>)
    ensures
        views(r@) == slice_or_empty(views(lines@), a as int, b as int),
{
    let mut r: Vec<String> = Vec::new();
    if a <= b && b <= lines.len() {
        let mut i: usize = a;
        while i < b
            invariant
                a <= i <= b,
                b <= lines@.len(),
                views(r@) =~= views(lines@).subrange(a as int, i as int),
            decreases b - i,
        {
            let c = lines[i].clone();
            assert(c@ == views(lines@)[i as int]);
            let ghost before = r@;
            r.push(c);
            assert(views(r@) =~= views(before).push(c@));
            i = i + 1;
            assert(views(r@) =~= views(lines@).subrange(a as int, i as int));
        }
    }
    r
}

/// Turns an edit script over `old_lines` and `new_lines` into hunks: one for
/// each operation that is not `Equal`, with 1-based starts and the lines each
/// side covers (none where a range falls outside its side).
pub fn hunks_from_ops(old_lines: &[String], new_lines: &[String], ops: &[OpSpan]) -> (r: Vec<DiffHunk>)
    requires
        starts_fit(ops@),
    ensures
        hunk_specs(r@) == hunks_of(views(old_lines@), views(new_lines@), ops@),
{
    let ghost old = views(old_lines@);
    let ghost new = views(new_lines@);
    let mut r: Vec<DiffHunk> = Vec::new();
    let mut i: usize = 0;
    assert(ops@.take(0) =~= Seq::<OpSpan>::empty());
    assert(hunk_specs(r@) =~= Seq::<HunkSpec>::empty());
    while i < ops.len()
        invariant
            0 <= i <= ops@.len(),
            starts_fit(ops@),
            old == views(old_lines@),
            new == views(new_lines@),
            hunk_specs(r@) == hunks_of(old, new, ops@.take(i as int)),
        decreases ops.len() - i,
    {
        proof {
            lemma_hunks_of_take(old, new, ops@, i as int);
        }
        let op = ops[i];
        if op.tag != DiffChangeType::Equal {
            assert(op == ops@[i as int]);
            let h = DiffHunk {
                old_start: op.old_start + 1,
                old_lines: lines_slice(old_lines, op.old_start, op.old_end),
                new_start: op.new_start + 1,
                new_lines: lines_slice(new_lines, op.new_start, op.new_end),
                change_type: op.tag,
            };
            let ghost before = r@;
            r.push(h);
            assert(hunk_specs(r@) =~= hunk_specs(before) + seq![op_hunk(old, new, op)]);
        }
        i = i + 1;
    }
    assert(ops@.take(ops@.len() as int) =~= ops@);
    r
}

/// The hunks `diff_lines` computes: the non-equal operations of the `similar`
/// line diff of the two sides joined with `'\n'`.
pub open spec fn diff_lines_spec(old: Seq<Seq<char>>, new: Seq<Seq<char>>) -> Seq<HunkSpec> {
    hunks_of(old, new, line_diff_of(join_lines_spec(old), join_lines_spec(new)).0)
}

proof fn lemma_all_equal_no_hunks(old: Seq<Seq<char>>, new: Seq<Seq<char>>, ops: Seq<OpSpan>)
    requires
        forall|i: int| 0 <= i < ops.len() ==> (#[trigger] ops[i]).tag == DiffChangeType::Equal,
    ensures
        hunks_of(old, new, ops).len() == 0,
    decreases ops.len(),
{
    if ops.len() > 0 {
        assert(ops[0].tag == DiffChangeType::Equal);
        assert forall|i: int| 0 <= i < ops.skip(1).len() implies (#[trigger] ops.skip(1)[i]).tag == DiffChangeType::Equal by {
            assert(ops.skip(1)[i] == ops[i + 1]);
        }
        lemma_all_equal_no_hunks(old, new, ops.skip(1));
    }
}

proof fn lemma_hunks_not_equal(old: Seq<Seq<char>>, new: Seq<Seq<char>>, ops: Seq<OpSpan>)
    ensures
        forall|k: int| 0 <= k < hunks_of(old, new, ops).len() ==> (#[trigger] hunks_of(old, new, ops)[k]).change_type
            != DiffChangeType::Equal,
    decreases ops.len(),
{
    if ops.len() > 0 {
        lemma_hunks_not_equal(old, new, ops.skip(1));
        let first = if ops[0].tag == DiffChangeType::Equal {
            Seq::<HunkSpec>::empty()
        } else {
            seq![op_hunk(old, new, ops[0])]
        };
        let rest = hunks_of(old, new, ops.skip(1));
        assert(hunks_of(old, new, ops) == first + rest);
        assert forall|k: int| 0 <= k < hunks_of(old, new, ops).len() implies (#[trigger] hunks_of(old, new, ops)[k]).change_type
            != DiffChangeType::Equal by {
            if k < first.len() {
                assert(hunks_of(old, new, ops)[k] == first[k]);
            } else {
                assert(hunks_of(old, new, ops)[k] == rest[k - first.len()]);
            }
        }
    }
}

/// Whether two versions of a file given as lines are compared line for line:
/// both are plain lines (no line holds a line break, the last is not
/// empty), and each has fewer lines than the largest `usize`.
pub open spec fn comparable_lines(old: Seq<Seq<char>>, new: Seq<Seq<char>>) -> bool {
    plain_lines(old) && plain_lines(new) && old.len() < usize::MAX && new.len() < usize::MAX
}

/// Computes the hunks between two versions of a file given as lines. Should
/// an operation start at the largest `usize` (its line number would not fit),
/// no hunk is returned. Identical versions give no hunks, and no hunk is an
/// `Equal` one. Versions compared line for line (`comparable_lines`) are
/// rebuilt by the hunks: applied to the old lines they give the new ones,
/// each hunk covers an exact slice of each version, and the hunks follow one
/// another on both sides without overlapping.
pub fn diff_lines(old_lines: &[String], new_lines: &[String]) -> (r: Vec<DiffHunk>)
    ensures
        views(old_lines@) == views(new_lines@) ==> r@.len() == 0,
        comparable_lines(views(old_lines@), views(new_lines@)) ==> {
            &&& apply_hunks(views(old_lines@), hunk_specs(r@)) == views(new_lines@)
            &&& exact_slices(views(old_lines@), views(new_lines@), hunk_specs(r@))
            &&& hunks_in_order(hunk_specs(r@))
        },
        forall|k: int| 0 <= k < r@.len() ==> (#[trigger] r@[k]).change_type != DiffChangeType::Equal,
        starts_fit(line_diff_of(join_lines_spec(views(old_lines@)), join_lines_spec(views(new_lines@))).0)
            ==> hunk_specs(r@) == diff_lines_spec(views(old_lines@), views(new_lines@)),
        !starts_fit(line_diff_of(join_lines_spec(views(old_lines@)), join_lines_spec(views(new_lines@))).0)
            ==> r@.len() == 0,
{
    let old_text = string_from_chars(join_lines(old_lines).as_slice());
    let new_text = string_from_chars(join_lines(new_lines).as_slice());
    let d = myers_line_diff(old_text.as_str(), new_text.as_str());
    assert(d.ops@ == line_diff_of(join_lines_spec(views(old_lines@)), join_lines_spec(views(new_lines@))).0);
    proof {
        lemma_hunks_not_equal(views(old_lines@), views(new_lines@), d.ops@);
        if views(old_lines@) == views(new_lines@) {
            lemma_all_equal_no_hunks(views(old_lines@), views(new_lines@), d.ops@);
        }
        if comparable_lines(views(old_lines@), views(new_lines@)) {
            lemma_tokens_are_lines(views(d.old_tokens@), views(old_lines@));
            lemma_tokens_are_lines(views(d.new_tokens@), views(new_lines@));
            lemma_script_on_lines(views(d.old_tokens@), views(d.new_tokens@), views(old_lines@), views(new_lines@), d.ops@);
        }
    }
    let mut i: usize = 0;
    while i < d.ops.len()
        invariant
            0 <= i <= d.ops@.len(),
            d.ops@ == line_diff_of(join_lines_spec(views(old_lines@)), join_lines_spec(views(new_lines@))).0,
            forall|j: int| 0 <= j < i ==> (#[trigger] d.ops@[j]).old_start < usize::MAX && d.ops@[j].new_start
                < usize::MAX,
            comparable_lines(views(old_lines@), views(new_lines@)) ==> is_edit_script(views(old_lines@), views(new_lines@), d.ops@),
        decreases d.ops.len() - i,
    {
        if d.ops[i].old_start == usize::MAX || d.ops[i].new_start == usize::MAX {
            assert(!starts_fit(d.ops@));
            proof {
                if comparable_lines(views(old_lines@), views(new_lines@)) {
                    lemma_script_bounds(views(old_lines@), views(new_lines@), d.ops@, i as int);
                    assert(false);
                }
            }
            return Vec::new();
        }
        i = i + 1;
    }
    let r = hunks_from_ops(old_lines, new_lines, d.ops.as_slice());
    proof {
        let hs = hunks_of(views(old_lines@), views(new_lines@), d.ops@);
        assert(hunk_specs(r@).len() == r@.len());
        assert forall|k: int| 0 <= k < r@.len() implies (#[trigger] r@[k]).change_type != DiffChangeType::Equal by {
            assert(hunk_specs(r@)[k] == hunk_spec(r@[k]));
            assert(hs[k].change_type != DiffChangeType::Equal);
        }
        if comparable_lines(views(old_lines@), views(new_lines@)) {
            let o = views(old_lines@);
            let n = views(new_lines@);
            law_hunks_rebuild_new(o, n, d.ops@);
            assert forall|j: int| 0 <= j < d.ops@.len() implies (#[trigger] d.ops@[j]).old_start <= d.ops@[j].old_end
                <= o.len() && d.ops@[j].new_start <= d.ops@[j].new_end <= n.len() by {
                lemma_script_bounds(o, n, d.ops@, j);
            }
            lemma_hunks_exact(o, n, d.ops@);
            lemma_script_hunks_ordered(o, n, d.ops@);
        }
    }
    r
}


// ─── Applying hunks ─────────────────────────────────────────────────────

/// The lines of `old` from position `p` on, with each hunk applied: old lines
/// up to the hunk's start are kept, the hunk's old lines are replaced by its
/// new lines.
pub open spec fn apply_from(old: Seq<Seq<char>>, hunks: Seq<HunkSpec>, p: int) -> Seq<Seq<char>>
    decreases hunks.len(),
{
    if hunks.len() == 0 {
        old.subrange(p, old.len() as int)
    } else {
        let h = hunks[0];
        old.subrange(p, h.old_start - 1) + h.new_lines + apply_from(
            old,
            hunks.skip(1),
            h.old_start - 1 + h.old_lines.len(),
        )
    }
}

/// `old` with the hunks applied.
pub open spec fn apply_hunks(old: Seq<Seq<char>>, hunks: Seq<HunkSpec>) -> Seq<Seq<char>> {
    apply_from(old, hunks, 0)
}

/// Whether `ops` is an edit script from `old` to `new`: its ranges follow one
/// another from the start to the end of each side, each `Equal` operation
/// covers equal lines on both sides, an `Insert` covers no old line and a
/// `Delete` no new line.
#[verifier::opaque]
pub open spec fn is_edit_script(old: Seq<Seq<char>>, new: Seq<Seq<char>>, ops: Seq<OpSpan>) -> bool {
    &&& ops.len() == 0 ==> old.len() == 0 && new.len() == 0
    &&& ops.len() > 0 ==> ops[0].old_start == 0 && ops[0].new_start == 0 && ops.last().old_end == old.len()
        && ops.last().new_end == new.len()
    &&& forall|i: int|
        0 <= i < ops.len() ==> (#[trigger] ops[i]).old_start <= ops[i].old_end && ops[i].new_start
            <= ops[i].new_end
    &&& forall|i: int, j: int|
        #![trigger ops[i], ops[j]]
        0 <= i && j == i + 1 && j < ops.len() ==> ops[i].old_end == ops[j].old_start && ops[i].new_end
            == ops[j].new_start
    &&& forall|i: int|
        0 <= i < ops.len() && (#[trigger] ops[i]).tag == DiffChangeType::Equal ==> old.subrange(
            ops[i].old_start as int,
            ops[i].old_end as int,
        ) == new.subrange(ops[i].new_start as int, ops[i].new_end as int)
    &&& forall|i: int|
        0 <= i < ops.len() && (#[trigger] ops[i]).tag == DiffChangeType::Insert ==> ops[i].old_start == ops[i].old_end
    &&& forall|i: int|
        0 <= i < ops.len() && (#[trigger] ops[i]).tag == DiffChangeType::Delete ==> ops[i].new_start == ops[i].new_end
}

proof fn lemma_apply_shift(old: Seq<Seq<char>>, hunks: Seq<HunkSpec>, p: int, p2: int)
    requires
        0 <= p <= p2,
        hunks.len() == 0 ==> p2 <= old.len(),
        hunks.len() > 0 ==> p2 <= hunks[0].old_start - 1 <= old.len(),
    ensures
        apply_from(old, hunks, p) == old.subrange(p, p2) + apply_from(old, hunks, p2),
{
    if hunks.len() == 0 {
        assert(old.subrange(p, old.len() as int) =~= old.subrange(p, p2) + old.subrange(p2, old.len() as int));
    } else {
        let h = hunks[0];
        let rest = h.new_lines + apply_from(old, hunks.skip(1), h.old_start - 1 + h.old_lines.len());
        assert(old.subrange(p, h.old_start - 1) =~= old.subrange(p, p2) + old.subrange(p2, h.old_start - 1));
        assert(old.subrange(p, h.old_start - 1) + rest =~= old.subrange(p, p2) + (old.subrange(
            p2,
            h.old_start - 1,
        ) + rest));
    }
}

pub(crate) proof fn lemma_script_at(old: Seq<Seq<char>>, new: Seq<Seq<char>>, ops: Seq<OpSpan>, i: int)
    requires
        is_edit_script(old, new, ops),
        0 <= i < ops.len(),
    ensures
        ops[i].old_start <= ops[i].old_end,
        ops[i].new_start <= ops[i].new_end,
        i + 1 < ops.len() ==> ops[i].old_end == ops[i + 1].old_start && ops[i].new_end == ops[i + 1].new_start,
        i + 1 == ops.len() ==> ops[i].old_end == old.len() && ops[i].new_end == new.len(),
        ops[i].tag == DiffChangeType::Equal ==> old.subrange(ops[i].old_start as int, ops[i].old_end as int)
            == new.subrange(ops[i].new_start as int, ops[i].new_end as int),
        ops[i].tag == DiffChangeType::Insert ==> ops[i].old_start == ops[i].old_end,
        ops[i].tag == DiffChangeType::Delete ==> ops[i].new_start == ops[i].new_end,
{
    reveal(is_edit_script);
    assert(ops[i].old_start <= ops[i].old_end);
    if i + 1 < ops.len() {
        assert(ops[i + 1] == ops[i + 1]);
    }
}

pub(crate) proof fn lemma_script_ends(old: Seq<Seq<char>>, new: Seq<Seq<char>>, ops: Seq<OpSpan>)
    requires
        is_edit_script(old, new, ops),
    ensures
        ops.len() == 0 ==> old.len() == 0 && new.len() == 0,
        ops.len() > 0 ==> ops[0].old_start == 0 && ops[0].new_start == 0,
        ops.len() > 0 ==> ops.last().old_end == old.len() && ops.last().new_end == new.len(),
{
    reveal(is_edit_script);
}

proof fn lemma_apply_script(old: Seq<Seq<char>>, new: Seq<Seq<char>>, ops: Seq<OpSpan>, i: int)
    requires
        is_edit_script(old, new, ops),
        0 <= i <= ops.len(),
    ensures
        ({
            let p = if i < ops.len() { ops[i].old_start as int } else { old.len() as int };
            let q = if i < ops.len() { ops[i].new_start as int } else { new.len() as int };
            let hs = hunks_of(old, new, ops.skip(i));
            &&& p <= old.len() && q <= new.len()
            &&& apply_from(old, hs, p) == new.subrange(q, new.len() as int)
            &&& hs.len() > 0 ==> p <= hs[0].old_start - 1 <= old.len()
        }),
    decreases ops.len() - i,
{
    if i == ops.len() {
        assert(ops.skip(i) =~= Seq::<OpSpan>::empty());
        assert(new.subrange(new.len() as int, new.len() as int) =~= Seq::<Seq<char>>::empty());
    } else {
        lemma_apply_script(old, new, ops, i + 1);
        lemma_script_at(old, new, ops, i);
        let op = ops[i];
        assert(ops.skip(i).skip(1) =~= ops.skip(i + 1));
        assert(ops.skip(i)[0] == op);
        let p = op.old_start as int;
        let q = op.new_start as int;
        let p2 = if i + 1 < ops.len() { ops[i + 1].old_start as int } else { old.len() as int };
        let q2 = if i + 1 < ops.len() { ops[i + 1].new_start as int } else { new.len() as int };
        assert(p2 == op.old_end && q2 == op.new_end);
        let tail = hunks_of(old, new, ops.skip(i + 1));
        let hs = hunks_of(old, new, ops.skip(i));
        if op.tag == DiffChangeType::Equal {
            assert(hs =~= tail);
            lemma_apply_shift(old, tail, p, p2);
            assert(old.subrange(p, p2) == new.subrange(q, q2));
            assert(new.subrange(q, new.len() as int) =~= new.subrange(q, q2) + new.subrange(
                q2,
                new.len() as int,
            ));
        } else {
            let h = op_hunk(old, new, op);
            assert(hs =~= seq![h] + tail);
            assert(hs[0] == h);
            assert(hs.skip(1) =~= tail);
            assert(h.old_lines == old.subrange(p, p2));
            assert(h.new_lines == new.subrange(q, q2));
            assert(old.subrange(p, p) =~= Seq::<Seq<char>>::empty());
            assert(apply_from(old, hs, p) == old.subrange(p, p) + h.new_lines + apply_from(old, tail, p2));
            assert(new.subrange(q, new.len() as int) =~= new.subrange(q, q2) + new.subrange(
                q2,
                new.len() as int,
            ));
            assert(apply_from(old, hs, p) =~= new.subrange(q, q2) + new.subrange(q2, new.len() as int));
        }
    }
}

/// Law: the hunks of an edit script from `old` to `new`, applied to `old`,
/// give `new`.
pub proof fn law_hunks_rebuild_new(old: Seq<Seq<char>>, new: Seq<Seq<char>>, ops: Seq<OpSpan>)
    requires
        is_edit_script(old, new, ops),
    ensures
        apply_hunks(old, hunks_of(old, new, ops)) == new,
{
    lemma_apply_script(old, new, ops, 0);
    lemma_script_ends(old, new, ops);
    assert(ops.skip(0) =~= ops);
    assert(new.subrange(0, new.len() as int) =~= new);
}


// ─── Line tokens ────────────────────────────────────────────────────────

/// The text a sequence of pieces concatenates to.
pub open spec fn concat_all(ts: Seq<Seq<char>>) -> Seq<char>
    decreases ts.len(),
{
    if ts.len() == 0 {
        seq![]
    } else {
        ts[0] + concat_all(ts.skip(1))
    }
}

/// Whether `ts` splits a text into lines as `similar`'s line tokenizer does:
/// every piece is non-empty, a `'\n'` can only end a piece, and every piece
/// but the last ends with a line break (`'\n'`, or `'\r'` on its own).
pub open spec fn line_tokens(ts: Seq<Seq<char>>) -> bool {
    forall|i: int| 0 <= i < ts.len() ==> {
        &&& (#[trigger] ts[i]).len() > 0
        &&& forall|j: int| 0 <= j < ts[i].len() - 1 ==> ts[i][j] != '\n'
        &&& (i < ts.len() - 1 ==> ts[i].last() == '\n' || ts[i].last() == '\r')
    }
}

/// Whether lines can be joined with `'\n'` and split back: no line holds a
/// `'\n'` or a `'\r'`, and the last line is not empty.
pub open spec fn plain_lines(ls: Seq<Seq<char>>) -> bool {
    &&& forall|i: int, j: int| 0 <= i < ls.len() && 0 <= j < ls[i].len() ==> (#[trigger] ls[i][j]) != '\n' && ls[i][j] != '\r'
    &&& ls.len() > 0 ==> ls.last().len() > 0
}

/// The index of the first `'\n'` of `s` at or after `i` (`s.len()` if none).
spec fn first_nl_from(s: Seq<char>, i: int) -> int
    decreases s.len() - i,
{
    if i >= s.len() || i < 0 {
        s.len() as int
    } else if s[i] == '\n' {
        i
    } else {
        first_nl_from(s, i + 1)
    }
}

/// `s` cut after each `'\n'`.
spec fn split_at_nl(s: Seq<char>) -> Seq<Seq<char>>
    decreases s.len(),
{
    if s.len() == 0 {
        seq![]
    } else {
        let k = first_nl_from(s, 0);
        if 0 <= k < s.len() {
            seq![s.take(k + 1)] + split_at_nl(s.skip(k + 1))
        } else {
            seq![s]
        }
    }
}

proof fn lemma_first_nl(s: Seq<char>, i: int, m: int)
    requires
        0 <= i <= m <= s.len(),
        forall|j: int| i <= j < m ==> s[j] != '\n',
        m == s.len() || s[m] == '\n',
    ensures
        first_nl_from(s, i) == m,
    decreases m - i,
{
    if i < m {
        lemma_first_nl(s, i + 1, m);
    }
}

proof fn lemma_tokens_split(ts: Seq<Seq<char>>, s: Seq<char>)
    requires
        line_tokens(ts),
        concat_all(ts) == s,
        forall|j: int| 0 <= j < s.len() ==> s[j] != '\r',
    ensures
        ts == split_at_nl(s),
    decreases ts.len(),
{
    if ts.len() > 0 {
        let t0 = ts[0];
        let rest = ts.skip(1);
        let r = concat_all(rest);
        assert(s == t0 + r);
        assert(t0.len() > 0);
        assert forall|i: int| 0 <= i < rest.len() implies {
            &&& (#[trigger] rest[i]).len() > 0
            &&& forall|j: int| 0 <= j < rest[i].len() - 1 ==> rest[i][j] != '\n'
            &&& (i < rest.len() - 1 ==> rest[i].last() == '\n' || rest[i].last() == '\r')
        } by {
            assert(rest[i] == ts[i + 1]);
        }
        assert forall|j: int| 0 <= j < t0.len() implies s[j] == t0[j] by {}
        assert forall|j: int| 0 <= j < r.len() implies #[trigger] r[j] != '\r' by {
            assert(s[t0.len() + j] == r[j]);
        }
        let m = t0.len() - 1;
        if ts.len() == 1 {
            assert(rest.len() == 0);
            assert(r =~= Seq::<char>::empty());
            assert(s =~= t0);
            if t0.last() == '\n' {
                lemma_first_nl(s, 0, m);
                assert(s.take(m + 1) =~= s);
                assert(s.skip(m + 1) =~= Seq::<char>::empty());
                assert(split_at_nl(s.skip(m + 1)) =~= Seq::<Seq<char>>::empty());
            } else {
                lemma_first_nl(s, 0, s.len() as int);
            }
            assert(split_at_nl(s) =~= ts);
        } else {
            assert(t0.last() == '\n' || t0.last() == '\r');
            assert(s[m] == t0[m]);
            assert(t0.last() == '\n');
            lemma_first_nl(s, 0, m);
            assert(s.take(m + 1) =~= t0);
            assert(s.skip(m + 1) =~= r);
            lemma_tokens_split(rest, r);
            assert(split_at_nl(s) =~= seq![t0] + rest);
            assert(seq![t0] + rest =~= ts);
        }
    } else {
        assert(s =~= Seq::<char>::empty());
    }
}

proof fn lemma_join_front(ls: Seq<Seq<char>>)
    requires
        ls.len() >= 2,
    ensures
        join_lines_spec(ls) == ls[0] + seq!['\n'] + join_lines_spec(ls.skip(1)),
    decreases ls.len(),
{
    if ls.len() == 2 {
        assert(ls.drop_last() =~= seq![ls[0]]);
        assert(ls.skip(1) =~= seq![ls[1]]);
        assert(join_lines_spec(seq![ls[0]]) == ls[0]);
        assert(join_lines_spec(seq![ls[1]]) == ls[1]);
        assert(join_lines_spec(ls) == join_lines_spec(ls.drop_last()) + seq!['\n'] + ls.last());
    } else {
        let dl = ls.drop_last();
        lemma_join_front(dl);
        assert(ls.skip(1).drop_last() =~= dl.skip(1));
        assert(ls.skip(1).last() == ls.last());
        assert(dl[0] == ls[0]);
        assert(join_lines_spec(ls) =~= ls[0] + seq!['\n'] + join_lines_spec(ls.skip(1)));
    }
}

proof fn lemma_split_join(ls: Seq<Seq<char>>)
    requires
        plain_lines(ls),
    ensures
        split_at_nl(join_lines_spec(ls)).len() == ls.len(),
        forall|i: int| 0 <= i < ls.len() ==> trim_newlines_end(#[trigger] split_at_nl(join_lines_spec(ls))[i]) == ls[i],
        forall|j: int| 0 <= j < join_lines_spec(ls).len() ==> join_lines_spec(ls)[j] != '\r',
    decreases ls.len(),
{
    let s = join_lines_spec(ls);
    if ls.len() == 0 {
        assert(s =~= Seq::<char>::empty());
    } else if ls.len() == 1 {
        let l0 = ls[0];
        assert(s == l0);
        assert forall|j: int| 0 <= j < l0.len() implies l0[j] != '\n' && l0[j] != '\r' by {
            assert(ls[0][j] == l0[j]);
        }
        lemma_first_nl(s, 0, s.len() as int);
        assert(split_at_nl(s) =~= seq![l0]);
        assert(l0.last() != '\n') by {
            assert(ls[0][l0.len() - 1] == l0.last());
        }
    } else {
        lemma_join_front(ls);
        let l0 = ls[0];
        let rest = ls.skip(1);
        let jr = join_lines_spec(rest);
        assert forall|i: int, j: int| 0 <= i < rest.len() && 0 <= j < rest[i].len() implies (#[trigger] rest[i][j]) != '\n' && rest[i][j] != '\r' by {
            assert(rest[i] == ls[i + 1]);
        }
        assert(rest.last() == ls.last());
        lemma_split_join(rest);
        assert forall|j: int| 0 <= j < l0.len() implies l0[j] != '\n' && l0[j] != '\r' by {
            assert(ls[0][j] == l0[j]);
        }
        let m = l0.len() as int;
        assert(s == l0 + seq!['\n'] + jr);
        assert forall|j: int| 0 <= j < m implies s[j] != '\n' by {
            assert(s[j] == l0[j]);
        }
        assert(s[m] == '\n');
        lemma_first_nl(s, 0, m);
        assert(s.take(m + 1) =~= l0 + seq!['\n']);
        assert(s.skip(m + 1) =~= jr);
        let sp = split_at_nl(s);
        assert(sp =~= seq![l0 + seq!['\n']] + split_at_nl(jr));
        assert((l0 + seq!['\n']).drop_last() =~= l0);
        assert(trim_newlines_end(l0) == l0) by {
            if l0.len() > 0 {
                assert(l0.last() == l0[l0.len() - 1]);
            }
        }
        assert(trim_newlines_end(l0 + seq!['\n']) == l0);
        assert forall|i: int| 0 <= i < ls.len() implies trim_newlines_end(#[trigger] sp[i]) == ls[i] by {
            if i > 0 {
                assert(sp[i] == split_at_nl(jr)[i - 1]);
                assert(ls[i] == rest[i - 1]);
            }
        }
        assert forall|j: int| 0 <= j < s.len() implies s[j] != '\r' by {
            if j < m {
                assert(s[j] == l0[j]);
            } else if j > m {
                assert(s[j] == jr[j - m - 1]);
            }
        }
    }
}

/// The line tokens of a text joined from plain lines are those lines, each
/// with its line ending.
pub(crate) proof fn lemma_tokens_are_lines(ts: Seq<Seq<char>>, ls: Seq<Seq<char>>)
    requires
        plain_lines(ls),
        line_tokens(ts),
        concat_all(ts) == join_lines_spec(ls),
    ensures
        ts.len() == ls.len(),
        forall|i: int| 0 <= i < ls.len() ==> trim_newlines_end(#[trigger] ts[i]) == ls[i],
{
    lemma_split_join(ls);
    lemma_tokens_split(ts, join_lines_spec(ls));
}

pub(crate) proof fn lemma_script_bounds(old: Seq<Seq<char>>, new: Seq<Seq<char>>, ops: Seq<OpSpan>, i: int)
    requires
        is_edit_script(old, new, ops),
        0 <= i < ops.len(),
    ensures
        ops[i].old_start <= ops[i].old_end <= old.len(),
        ops[i].new_start <= ops[i].new_end <= new.len(),
    decreases ops.len() - i,
{
    lemma_script_at(old, new, ops, i);
    if i + 1 < ops.len() {
        lemma_script_bounds(old, new, ops, i + 1);
        lemma_script_at(old, new, ops, i + 1);
    }
}

/// An edit script of the line tokens of two texts joined from plain lines
/// is an edit script of the lines.
proof fn lemma_script_on_lines(to: Seq<Seq<char>>, tn: Seq<Seq<char>>, o: Seq<Seq<char>>, n: Seq<Seq<char>>, ops: Seq<OpSpan>)
    requires
        is_edit_script(to, tn, ops),
        to.len() == o.len(),
        tn.len() == n.len(),
        forall|i: int| 0 <= i < o.len() ==> trim_newlines_end(#[trigger] to[i]) == o[i],
        forall|i: int| 0 <= i < n.len() ==> trim_newlines_end(#[trigger] tn[i]) == n[i],
    ensures
        is_edit_script(o, n, ops),
{
    assert forall|i: int| 0 <= i < ops.len() && (#[trigger] ops[i]).tag == DiffChangeType::Equal implies o.subrange(
        ops[i].old_start as int,
        ops[i].old_end as int,
    ) == n.subrange(ops[i].new_start as int, ops[i].new_end as int) by {
        lemma_script_bounds(to, tn, ops, i);
        lemma_script_at(to, tn, ops, i);
        let a = ops[i].old_start as int;
        let b = ops[i].old_end as int;
        let c = ops[i].new_start as int;
        let d = ops[i].new_end as int;
        assert(to.subrange(a, b) == tn.subrange(c, d));
        assert(to.subrange(a, b).len() == b - a);
        assert(tn.subrange(c, d).len() == d - c);
        assert(b - a == d - c);
        assert forall|k: int| 0 <= k < b - a implies o.subrange(a, b)[k] == n.subrange(c, d)[k] by {
            assert(to.subrange(a, b)[k] == tn.subrange(c, d)[k]);
            assert(to[a + k] == tn[c + k]);
        }
        assert(o.subrange(a, b) =~= n.subrange(c, d));
    }
    reveal(is_edit_script);
}

/// Each hunk of an edit script whose ranges lie within both sides covers an
/// exact slice of each side.
pub open spec fn exact_slices(old: Seq<Seq<char>>, new: Seq<Seq<char>>, hs: Seq<HunkSpec>) -> bool {
    forall|k: int| 0 <= k < hs.len() ==> {
        let h = #[trigger] hs[k];
        &&& 1 <= h.old_start && h.old_start - 1 + h.old_lines.len() <= old.len()
        &&& h.old_lines == old.subrange(h.old_start - 1, h.old_start - 1 + h.old_lines.len())
        &&& 1 <= h.new_start && h.new_start - 1 + h.new_lines.len() <= new.len()
        &&& h.new_lines == new.subrange(h.new_start - 1, h.new_start - 1 + h.new_lines.len())
    }
}

proof fn lemma_hunks_exact(old: Seq<Seq<char>>, new: Seq<Seq<char>>, ops: Seq<OpSpan>)
    requires
        forall|i: int| 0 <= i < ops.len() ==> (#[trigger] ops[i]).old_start <= ops[i].old_end <= old.len()
            && ops[i].new_start <= ops[i].new_end <= new.len(),
    ensures
        exact_slices(old, new, hunks_of(old, new, ops)),
    decreases ops.len(),
{
    if ops.len() > 0 {
        assert forall|i: int| 0 <= i < ops.skip(1).len() implies (#[trigger] ops.skip(1)[i]).old_start <= ops.skip(1)[i].old_end
            <= old.len() && ops.skip(1)[i].new_start <= ops.skip(1)[i].new_end <= new.len() by {
            assert(ops.skip(1)[i] == ops[i + 1]);
        }
        lemma_hunks_exact(old, new, ops.skip(1));
        let op = ops[0];
        let first = if op.tag == DiffChangeType::Equal {
            Seq::<HunkSpec>::empty()
        } else {
            seq![op_hunk(old, new, op)]
        };
        let rest = hunks_of(old, new, ops.skip(1));
        let hs = hunks_of(old, new, ops);
        assert(hs == first + rest);
        assert forall|k: int| 0 <= k < hs.len() implies {
            let h = #[trigger] hs[k];
            &&& 1 <= h.old_start && h.old_start - 1 + h.old_lines.len() <= old.len()
            &&& h.old_lines == old.subrange(h.old_start - 1, h.old_start - 1 + h.old_lines.len())
            &&& 1 <= h.new_start && h.new_start - 1 + h.new_lines.len() <= new.len()
            &&& h.new_lines == new.subrange(h.new_start - 1, h.new_start - 1 + h.new_lines.len())
        } by {
            if k < first.len() {
                assert(hs[k] == op_hunk(old, new, op));
                assert(slice_or_empty(old, op.old_start as int, op.old_end as int) == old.subrange(op.old_start as int, op.old_end as int));
                assert(slice_or_empty(new, op.new_start as int, op.new_end as int) == new.subrange(op.new_start as int, op.new_end as int));
            } else {
                assert(hs[k] == rest[k - first.len()]);
            }
        }
    }
}

/// The hunks follow one another on both sides without overlapping: each
/// ends, on each side, at or before the line where the next one starts.
pub open spec fn hunks_in_order(hs: Seq<HunkSpec>) -> bool {
    forall|k: int, l: int|
        #![trigger hs[k], hs[l]]
        0 <= k && l == k + 1 && l < hs.len() ==> {
            &&& hs[k].old_start + hs[k].old_lines.len() <= hs[l].old_start
            &&& hs[k].new_start + hs[k].new_lines.len() <= hs[l].new_start
        }
}

proof fn lemma_hunks_ordered(old: Seq<Seq<char>>, new: Seq<Seq<char>>, ops: Seq<OpSpan>)
    requires
        forall|i: int| 0 <= i < ops.len() ==> (#[trigger] ops[i]).old_start <= ops[i].old_end <= old.len()
            && ops[i].new_start <= ops[i].new_end <= new.len(),
        forall|i: int, j: int|
            #![trigger ops[i], ops[j]]
            0 <= i && j == i + 1 && j < ops.len() ==> ops[i].old_end == ops[j].old_start && ops[i].new_end
                == ops[j].new_start,
    ensures
        hunks_in_order(hunks_of(old, new, ops)),
        ops.len() > 0 ==> forall|k: int| 0 <= k < hunks_of(old, new, ops).len() ==> {
            &&& (#[trigger] hunks_of(old, new, ops)[k]).old_start - 1 >= ops[0].old_start
            &&& hunks_of(old, new, ops)[k].new_start - 1 >= ops[0].new_start
        },
    decreases ops.len(),
{
    if ops.len() > 0 {
        let tail = ops.skip(1);
        assert forall|i: int| 0 <= i < tail.len() implies (#[trigger] tail[i]).old_start <= tail[i].old_end <= old.len()
            && tail[i].new_start <= tail[i].new_end <= new.len() by {
            assert(tail[i] == ops[i + 1]);
        }
        assert forall|i: int, j: int|
            #![trigger tail[i], tail[j]]
            0 <= i && j == i + 1 && j < tail.len() implies tail[i].old_end == tail[j].old_start && tail[i].new_end
                == tail[j].new_start by {
            assert(tail[i] == ops[i + 1]);
            assert(tail[j] == ops[j + 1]);
        }
        lemma_hunks_ordered(old, new, tail);
        let op = ops[0];
        let first = if op.tag == DiffChangeType::Equal {
            Seq::<HunkSpec>::empty()
        } else {
            seq![op_hunk(old, new, op)]
        };
        let rest = hunks_of(old, new, tail);
        let hs = hunks_of(old, new, ops);
        assert(hs == first + rest);
        if tail.len() > 0 {
            assert(tail[0] == ops[1]);
            assert(ops[0].old_end == ops[1].old_start && ops[0].new_end == ops[1].new_start);
        }
        assert(rest.len() > 0 ==> tail.len() > 0);
        assert(slice_or_empty(old, op.old_start as int, op.old_end as int).len() == op.old_end - op.old_start);
        assert(slice_or_empty(new, op.new_start as int, op.new_end as int).len() == op.new_end - op.new_start);
        assert forall|k: int| 0 <= k < hs.len() implies {
            &&& (#[trigger] hs[k]).old_start - 1 >= op.old_start
            &&& hs[k].new_start - 1 >= op.new_start
        } by {
            if k < first.len() {
                assert(hs[k] == op_hunk(old, new, op));
            } else {
                assert(hs[k] == rest[k - first.len()]);
            }
        }
        assert forall|k: int, l: int|
            #![trigger hs[k], hs[l]]
            0 <= k && l == k + 1 && l < hs.len() implies {
                &&& hs[k].old_start + hs[k].old_lines.len() <= hs[l].old_start
                &&& hs[k].new_start + hs[k].new_lines.len() <= hs[l].new_start
            } by {
            if k < first.len() {
                assert(hs[k] == op_hunk(old, new, op));
                assert(hs[l] == rest[0]);
            } else {
                assert(hs[k] == rest[k - first.len()]);
                assert(hs[l] == rest[l - first.len()]);
            }
        }
    }
}

proof fn lemma_script_hunks_ordered(old: Seq<Seq<char>>, new: Seq<Seq<char>>, ops: Seq<OpSpan>)
    requires
        is_edit_script(old, new, ops),
    ensures
        hunks_in_order(hunks_of(old, new, ops)),
{
    assert forall|i: int| 0 <= i < ops.len() implies (#[trigger] ops[i]).old_start <= ops[i].old_end <= old.len()
        && ops[i].new_start <= ops[i].new_end <= new.len() by {
        lemma_script_bounds(old, new, ops, i);
    }
    assert forall|i: int, j: int|
        #![trigger ops[i], ops[j]]
        0 <= i && j == i + 1 && j < ops.len() implies ops[i].old_end == ops[j].old_start && ops[i].new_end
            == ops[j].new_start by {
        lemma_script_at(old, new, ops, i);
    }
    lemma_hunks_ordered(old, new, ops);
}

// ─── Whole-file comparison ──────────────────────────────────────────────

/// The lines of stored content: decoded as lossy UTF-8, split as `str::lines`.
pub open spec fn content_lines(content: Seq<u8>) -> Seq<Seq<char>> {
    lines_of(utf8_lossy_of(content))
}

/// Decodes content and splits it into lines.
pub fn content_to_lines(content: &[u8]) -> (r: Vec<String>)
    ensures
        views(r@) == content_lines(content@),
{
    let cs = decode_utf8_lossy(content);
    split_lines(cs.as_slice())
}

/// The content of an entry: empty when it has no hash, the stored ink
/// otherwise; `None` when that ink is missing.
pub open spec fn entry_content(inks: InkStore, e: FileEntry) -> Option<Seq<u8>> {
    match opt_view(e.ink_hash) {
        None => Some(Seq::<u8>::empty()),
        Some(h) => inks.lookup(h),
    }
}

/// Reads the content of an entry from the ink store.
pub fn get_entry_content(inks: &InkStore, entry: &FileEntry) -> (r: Result<Vec<u8>, InkError>)
    ensures
        match entry_content(*inks, *entry) {
            Some(c) => r is Ok && r->Ok_0@ == c,
            None => r == Err::<Vec<u8>, InkError>(InkError::NotFound),
        },
{
    match &entry.ink_hash {
        Some(hash) => inks.read_ink(hash.as_str()),
        None => Ok(Vec::new()),
    }
}

/// Index of the first entry with path `path`.
pub open spec fn first_with_path(entries: Seq<FileEntry>, path: Seq<char>) -> Option<int>
    decreases entries.len(),
{
    if entries.len() == 0 {
        None
    } else if entries[0].file_path@ == path {
        Some(0)
    } else {
        match first_with_path(entries.skip(1), path) {
            Some(i) => Some(i + 1),
            None => None,
        }
    }
}

proof fn lemma_first_with_path(entries: Seq<FileEntry>, path: Seq<char>)
    ensures
        match first_with_path(entries, path) {
            Some(i) => 0 <= i < entries.len() && entries[i].file_path@ == path && forall|k: int|
                0 <= k < i ==> (#[trigger] entries[k]).file_path@ != path,
            None => forall|k: int| 0 <= k < entries.len() ==> (#[trigger] entries[k]).file_path@ != path,
        },
    decreases entries.len(),
{
    if entries.len() > 0 {
        lemma_first_with_path(entries.skip(1), path);
        assert(forall|k: int| 0 <= k < entries.len() - 1 ==> #[trigger] entries.skip(1)[k] == entries[k + 1]);
        match first_with_path(entries.skip(1), path) {
            Some(i) => {
                assert forall|k: int| 0 <= k < i + 1 && entries[0].file_path@ != path implies (
                #[trigger] entries[k]).file_path@ != path by {
                    if k > 0 {
                        assert(entries[k] == entries.skip(1)[k - 1]);
                    }
                }
            },
            None => {
                assert forall|k: int| 0 <= k < entries.len() && entries[0].file_path@ != path implies (
                #[trigger] entries[k]).file_path@ != path by {
                    if k > 0 {
                        assert(entries[k] == entries.skip(1)[k - 1]);
                    }
                }
            },
        }
    }
}

/// Facts about the first entry with a path.
pub proof fn lemma_first_with_path_pub(entries: Seq<FileEntry>, path: Seq<char>)
    ensures
        match first_with_path(entries, path) {
            Some(i) => 0 <= i < entries.len() && entries[i].file_path@ == path && forall|k: int|
                0 <= k < i ==> (#[trigger] entries[k]).file_path@ != path,
            None => forall|k: int| 0 <= k < entries.len() ==> (#[trigger] entries[k]).file_path@ != path,
        },
{
    lemma_first_with_path(entries, path);
}

/// Finds the first entry with path `path`.
pub fn find_entry(entries: &[FileEntry], path: &str) -> (r: Option<usize>)
    ensures
        match first_with_path(entries@, path@) {
            Some(i) => r is Some && r->Some_0 as int == i,
            None => r is None,
        },
{
    proof {
        lemma_first_with_path(entries@, path@);
    }
    let mut i: usize = 0;
    while i < entries.len()
        invariant
            0 <= i <= entries@.len(),
            forall|k: int| 0 <= k < i ==> (#[trigger] entries@[k]).file_path@ != path@,
            match first_with_path(entries@, path@) {
                Some(j) => 0 <= j < entries@.len() && entries@[j].file_path@ == path@ && forall|k: int|
                    0 <= k < j ==> (#[trigger] entries@[k]).file_path@ != path@,
                None => forall|k: int| 0 <= k < entries@.len() ==> (#[trigger] entries@[k]).file_path@ != path@,
            },
        decreases entries.len() - i,
    {
        if str_eq(entries[i].file_path.as_str(), path) {
            return Some(i);
        }
        i = i + 1;
    }
    None
}

/// The number of new lines over all hunks.
pub open spec fn total_new_lines(hs: Seq<HunkSpec>) -> int
    decreases hs.len(),
{
    if hs.len() == 0 {
        0
    } else {
        total_new_lines(hs.drop_last()) + hs.last().new_lines.len()
    }
}

/// The number of old lines over all hunks.
pub open spec fn total_old_lines(hs: Seq<HunkSpec>) -> int
    decreases hs.len(),
{
    if hs.len() == 0 {
        0
    } else {
        total_old_lines(hs.drop_last()) + hs.last().old_lines.len()
    }
}

/// `n`, or the largest `usize` when `n` exceeds it.
pub open spec fn cap_usize(n: int) -> int {
    if n > usize::MAX {
        usize::MAX as int
    } else {
        n
    }
}

fn count_lines(hunks: &[DiffHunk]) -> (r: (usize, usize))
    ensures
        r.0 == cap_usize(total_new_lines(hunk_specs(hunks@))),
        r.1 == cap_usize(total_old_lines(hunk_specs(hunks@))),
{
    let mut adds: usize = 0;
    let mut dels: usize = 0;
    let mut add_over = false;
    let mut del_over = false;
    let mut i: usize = 0;
    while i < hunks.len()
        invariant
            0 <= i <= hunks@.len(),
            add_over ==> total_new_lines(hunk_specs(hunks@.take(i as int))) > usize::MAX,
            !add_over ==> adds == total_new_lines(hunk_specs(hunks@.take(i as int))),
            del_over ==> total_old_lines(hunk_specs(hunks@.take(i as int))) > usize::MAX,
            !del_over ==> dels == total_old_lines(hunk_specs(hunks@.take(i as int))),
        decreases hunks.len() - i,
    {
        let ghost t = hunk_specs(hunks@.take(i + 1));
        assert(t.drop_last() =~= hunk_specs(hunks@.take(i as int)));
        assert(t.last() == hunk_spec(hunks@[i as int]));
        proof {
            lemma_totals_nonneg(hunk_specs(hunks@.take(i as int)));
        }
        let a = hunks[i].new_lines.len();
        let d = hunks[i].old_lines.len();
        if !add_over {
            if adds > usize::MAX - a {
                add_over = true;
            } else {
                adds = adds + a;
            }
        }
        if !del_over {
            if dels > usize::MAX - d {
                del_over = true;
            } else {
                dels = dels + d;
            }
        }
        i = i + 1;
    }
    assert(hunks@.take(hunks@.len() as int) =~= hunks@);
    (if add_over { usize::MAX } else { adds }, if del_over { usize::MAX } else { dels })
}

proof fn lemma_totals_nonneg(hs: Seq<HunkSpec>)
    ensures
        total_new_lines(hs) >= 0,
        total_old_lines(hs) >= 0,
    decreases hs.len(),
{
    if hs.len() > 0 {
        lemma_totals_nonneg(hs.drop_last());
    }
}

/// A file comparison as a mathematical value.
pub struct FileDiffSpec {
    pub file_path: Seq<char>,
    pub status: FileStatus,
    pub hunks: Seq<HunkSpec>,
    pub additions: int,
    pub deletions: int,
}

/// The value of a file comparison.
pub open spec fn file_diff_spec(d: FileDiff) -> FileDiffSpec {
    FileDiffSpec {
        file_path: d.file_path@,
        status: d.status,
        hunks: hunk_specs(d.hunks@),
        additions: d.additions as int,
        deletions: d.deletions as int,
    }
}

/// What comparing `path` between two snapshots gives, given the contents of
/// its entries on each side (`None` for a side where the file is absent).
/// Lines counted are capped at the largest `usize`.
pub open spec fn compare_contents(
    path: Seq<char>,
    old_present: bool,
    old_content: Seq<u8>,
    new_present: bool,
    new_content: Seq<u8>,
    same_hash: bool,
) -> Option<FileDiffSpec> {
    if !old_present && !new_present {
        None
    } else if old_present && !new_present {
        let lines = content_lines(old_content);
        Some(FileDiffSpec {
            file_path: path,
            status: FileStatus::Deleted,
            hunks: seq![HunkSpec { old_start: 1, old_lines: lines, new_start: 0, new_lines: seq![], change_type: DiffChangeType::Delete }],
            additions: 0,
            deletions: lines.len() as int,
        })
    } else if !old_present && new_present {
        let lines = content_lines(new_content);
        Some(FileDiffSpec {
            file_path: path,
            status: FileStatus::Added,
            hunks: seq![HunkSpec { old_start: 0, old_lines: seq![], new_start: 1, new_lines: lines, change_type: DiffChangeType::Insert }],
            additions: lines.len() as int,
            deletions: 0,
        })
    } else if same_hash {
        Some(FileDiffSpec { file_path: path, status: FileStatus::Unchanged, hunks: seq![], additions: 0, deletions: 0 })
    } else {
        let o = content_lines(old_content);
        let n = content_lines(new_content);
        let ops = line_diff_of(join_lines_spec(o), join_lines_spec(n)).0;
        let hs = if starts_fit(ops) { hunks_of(o, n, ops) } else { seq![] };
        Some(FileDiffSpec {
            file_path: path,
            status: FileStatus::Modified,
            hunks: hs,
            additions: cap_usize(total_new_lines(hs)),
            deletions: cap_usize(total_old_lines(hs)),
        })
    }
}

/// Law: the line counts follow the sides of the hunks: over all hunks,
/// the new-side lines add up to the added count and the old-side lines to the
/// deleted count. For a modified file both counts stop at the largest
/// `usize`; an added file counts all its lines as added and none as deleted,
/// a deleted file the reverse, an unchanged file none.
pub proof fn law_file_diff_counts_hunk_sides(
    path: Seq<char>,
    old_present: bool,
    old_content: Seq<u8>,
    new_present: bool,
    new_content: Seq<u8>,
    same_hash: bool,
)
    ensures
        compare_contents(path, old_present, old_content, new_present, new_content, same_hash) matches Some(d) ==> {
            &&& d.status == FileStatus::Modified ==> {
                &&& d.additions == cap_usize(total_new_lines(d.hunks))
                &&& d.deletions == cap_usize(total_old_lines(d.hunks))
            }
            &&& d.status != FileStatus::Modified ==> {
                &&& d.additions == total_new_lines(d.hunks)
                &&& d.deletions == total_old_lines(d.hunks)
            }
            &&& d.status == FileStatus::Added ==> d.deletions == 0 && d.additions == content_lines(new_content).len()
            &&& d.status == FileStatus::Deleted ==> d.additions == 0 && d.deletions == content_lines(old_content).len()
            &&& d.status == FileStatus::Unchanged ==> d.additions == 0 && d.deletions == 0
        },
{
    let lines_new = content_lines(new_content);
    let lines_old = content_lines(old_content);
    let hn = seq![HunkSpec { old_start: 0, old_lines: seq![], new_start: 1, new_lines: lines_new, change_type: DiffChangeType::Insert }];
    let ho = seq![HunkSpec { old_start: 1, old_lines: lines_old, new_start: 0, new_lines: seq![], change_type: DiffChangeType::Delete }];
    assert(hn.drop_last() =~= Seq::<HunkSpec>::empty());
    assert(ho.drop_last() =~= Seq::<HunkSpec>::empty());
    law_hunk_totals(Seq::<HunkSpec>::empty(), hn[0]);
    law_hunk_totals(Seq::<HunkSpec>::empty(), ho[0]);
}

proof fn lemma_totals_concat(a: Seq<HunkSpec>, b: Seq<HunkSpec>)
    ensures
        total_new_lines(a + b) == total_new_lines(a) + total_new_lines(b),
        total_old_lines(a + b) == total_old_lines(a) + total_old_lines(b),
    decreases b.len(),
{
    if b.len() == 0 {
        assert(a + b =~= a);
    } else {
        lemma_totals_concat(a, b.drop_last());
        assert((a + b).drop_last() =~= a + b.drop_last());
        assert((a + b).last() == b.last());
    }
}

proof fn lemma_apply_len(old: Seq<Seq<char>>, new: Seq<Seq<char>>, hs: Seq<HunkSpec>, p: int)
    requires
        exact_slices(old, new, hs),
        hunks_in_order(hs),
        0 <= p,
        hs.len() == 0 ==> p <= old.len(),
        hs.len() > 0 ==> p <= hs[0].old_start - 1,
    ensures
        apply_from(old, hs, p).len() == old.len() - p - total_old_lines(hs) + total_new_lines(hs),
    decreases hs.len(),
{
    if hs.len() > 0 {
        let h = hs[0];
        let t = hs.skip(1);
        assert(exact_slices(old, new, t)) by {
            assert forall|k: int| 0 <= k < t.len() implies {
                let g = #[trigger] t[k];
                &&& 1 <= g.old_start && g.old_start - 1 + g.old_lines.len() <= old.len()
                &&& g.old_lines == old.subrange(g.old_start - 1, g.old_start - 1 + g.old_lines.len())
                &&& 1 <= g.new_start && g.new_start - 1 + g.new_lines.len() <= new.len()
                &&& g.new_lines == new.subrange(g.new_start - 1, g.new_start - 1 + g.new_lines.len())
            } by {
                assert(t[k] == hs[k + 1]);
            }
        }
        assert(hunks_in_order(t)) by {
            assert forall|k: int, l: int|
                #![trigger t[k], t[l]]
                0 <= k && l == k + 1 && l < t.len() implies {
                    &&& t[k].old_start + t[k].old_lines.len() <= t[l].old_start
                    &&& t[k].new_start + t[k].new_lines.len() <= t[l].new_start
                } by {
                assert(t[k] == hs[k + 1]);
                assert(t[l] == hs[l + 1]);
            }
        }
        assert(hs[0] == h);
        if t.len() > 0 {
            assert(t[0] == hs[1]);
        }
        lemma_apply_len(old, new, t, h.old_start - 1 + h.old_lines.len());
        assert(seq![h] + t =~= hs);
        lemma_totals_concat(seq![h], t);
        law_hunk_totals(Seq::<HunkSpec>::empty(), h);
        assert(Seq::<HunkSpec>::empty().push(h) =~= seq![h]);
    }
}

/// Law: the totals of a sequence of hunks grow, with each hunk added, by the
/// number of lines on that hunk's side, starting from none.
pub proof fn law_hunk_totals(hs: Seq<HunkSpec>, h: HunkSpec)
    ensures
        total_new_lines(Seq::<HunkSpec>::empty()) == 0,
        total_old_lines(Seq::<HunkSpec>::empty()) == 0,
        total_new_lines(hs.push(h)) == total_new_lines(hs) + h.new_lines.len(),
        total_old_lines(hs.push(h)) == total_old_lines(hs) + h.old_lines.len(),
{
    assert(hs.push(h).drop_last() =~= hs);
}

/// Compares the file `file_path` between two snapshots: deleted when only the
/// old one has it, added when only the new one has it (one hunk with all its
/// lines), unchanged when both have the same hash, otherwise modified with the
/// line hunks and the numbers of added and deleted lines. The first entry with
/// the path counts on each side. Fails when an ink that is needed is missing.
/// For a modified file whose versions are plain lines, the added count minus
/// the deleted count is the number of lines the file gained (below the
/// largest `usize`).
pub fn diff_file(file_path: &str, old_entries: &[FileEntry], new_entries: &[FileEntry], inks: &InkStore) -> (r: Result<Option<FileDiff>, InkError>)
    ensures
        ({
            let oc = entry_content(*inks, old_entries@[first_with_path(old_entries@, file_path@)->Some_0]);
            let nc = entry_content(*inks, new_entries@[first_with_path(new_entries@, file_path@)->Some_0]);
            match r {
                Ok(Some(d)) => d.status == FileStatus::Modified && d.additions < usize::MAX && d.deletions < usize::MAX
                    && comparable_lines(content_lines(oc->Some_0), content_lines(nc->Some_0)) ==> d.additions
                    - d.deletions == content_lines(nc->Some_0).len() - content_lines(oc->Some_0).len(),
                _ => true,
            }
        }),
        ({
            let oi = first_with_path(old_entries@, file_path@);
            let ni = first_with_path(new_entries@, file_path@);
            let oc = match oi { Some(i) => entry_content(*inks, old_entries@[i]), None => Some(Seq::<u8>::empty()) };
            let nc = match ni { Some(i) => entry_content(*inks, new_entries@[i]), None => Some(Seq::<u8>::empty()) };
            let same = oi is Some && ni is Some && opt_view(old_entries@[oi->Some_0].ink_hash) == opt_view(new_entries@[ni->Some_0].ink_hash);
            let needs = oi is Some && ni is Some && !same;
            if (oi is Some && ni is None && oc is None) || (oi is None && ni is Some && nc is None)
                || (needs && (oc is None || nc is None)) {
                r == Err::<Option<FileDiff>, InkError>(InkError::NotFound)
            } else {
                r is Ok && match r->Ok_0 {
                    None => compare_contents(file_path@, oi is Some, oc->Some_0, ni is Some, nc->Some_0, same) is None,
                    Some(d) => compare_contents(file_path@, oi is Some, oc->Some_0, ni is Some, nc->Some_0, same)
                        == Some(file_diff_spec(d)),
                }
            }
        }),
{
    proof {
        lemma_first_with_path(old_entries@, file_path@);
        lemma_first_with_path(new_entries@, file_path@);
    }
    let oi = find_entry(old_entries, file_path);
    let ni = find_entry(new_entries, file_path);
    match (oi, ni) {
        (None, None) => Ok(None),
        (Some(i), None) => {
            let content = get_entry_content(inks, &old_entries[i])?;
            let lines = content_to_lines(content.as_slice());
            let n = lines.len();
            let path = string_from_chars(crate::text::chars_of(file_path).as_slice());
            let empty: Vec<String> = Vec::new();
            assert(views(empty@) =~= Seq::<Seq<char>>::empty());
            let h = DiffHunk { old_start: 1, old_lines: lines, new_start: 0, new_lines: empty, change_type: DiffChangeType::Delete };
            assert(hunk_spec(h) == HunkSpec { old_start: 1, old_lines: content_lines(content@), new_start: 0, new_lines: seq![], change_type: DiffChangeType::Delete });
            let mut hunks: Vec<DiffHunk> = Vec::new();
            hunks.push(h);
            let d = FileDiff {
                file_path: path,
                status: FileStatus::Deleted,
                hunks,
                additions: 0,
                deletions: n,
            };
            assert(hunk_specs(d.hunks@) =~= seq![HunkSpec { old_start: 1, old_lines: content_lines(content@), new_start: 0, new_lines: seq![], change_type: DiffChangeType::Delete }]);
            Ok(Some(d))
        },
        (None, Some(j)) => {
            let content = get_entry_content(inks, &new_entries[j])?;
            let lines = content_to_lines(content.as_slice());
            let n = lines.len();
            let path = string_from_chars(crate::text::chars_of(file_path).as_slice());
            let empty: Vec<String> = Vec::new();
            assert(views(empty@) =~= Seq::<Seq<char>>::empty());
            let h = DiffHunk { old_start: 0, old_lines: empty, new_start: 1, new_lines: lines, change_type: DiffChangeType::Insert };
            assert(hunk_spec(h) == HunkSpec { old_start: 0, old_lines: seq![], new_start: 1, new_lines: content_lines(content@), change_type: DiffChangeType::Insert });
            let mut hunks: Vec<DiffHunk> = Vec::new();
            hunks.push(h);
            let d = FileDiff {
                file_path: path,
                status: FileStatus::Added,
                hunks,
                additions: n,
                deletions: 0,
            };
            assert(hunk_specs(d.hunks@) =~= seq![HunkSpec { old_start: 0, old_lines: seq![], new_start: 1, new_lines: content_lines(content@), change_type: DiffChangeType::Insert }]);
            Ok(Some(d))
        },
        (Some(i), Some(j)) => {
            let same = match (&old_entries[i].ink_hash, &new_entries[j].ink_hash) {
                (Some(a), Some(b)) => str_eq(a.as_str(), b.as_str()),
                (None, None) => true,
                _ => false,
            };
            let path = string_from_chars(crate::text::chars_of(file_path).as_slice());
            if same {
                let d = FileDiff { file_path: path, status: FileStatus::Unchanged, hunks: Vec::new(), additions: 0, deletions: 0 };
                assert(hunk_specs(d.hunks@) =~= Seq::<HunkSpec>::empty());
                return Ok(Some(d));
            }
            let old_content = get_entry_content(inks, &old_entries[i])?;
            let new_content = get_entry_content(inks, &new_entries[j])?;
            let old_lines = content_to_lines(old_content.as_slice());
            let new_lines = content_to_lines(new_content.as_slice());
            let hunks = diff_lines(old_lines.as_slice(), new_lines.as_slice());
            proof {
                let o = content_lines(old_content@);
                let n = content_lines(new_content@);
                let ops = line_diff_of(join_lines_spec(o), join_lines_spec(n)).0;
                if !starts_fit(ops) {
                    assert(hunk_specs(hunks@) =~= Seq::<HunkSpec>::empty());
                }
            }
            let (additions, deletions) = count_lines(hunks.as_slice());
            proof {
                let o = views(old_lines@);
                let n = views(new_lines@);
                if comparable_lines(o, n) {
                    lemma_apply_len(o, n, hunk_specs(hunks@), 0);
                    assert(apply_hunks(o, hunk_specs(hunks@)) == n);
                }
            }
            Ok(Some(FileDiff { file_path: path, status: FileStatus::Modified, hunks, additions, deletions }))
        },
    }
}

// ─── The paths of a comparison ──────────────────────────────────────────

/// The paths of a sequence of entries.
pub open spec fn paths_of(s: Seq<FileEntry>) -> Seq<Seq<char>> {
    s.map_values(|e: FileEntry| e.file_path@)
}

/// `s` with each run of equal neighbours kept once (as `Vec::dedup` does).
pub open spec fn dedup_adjacent(s: Seq<Seq<char>>) -> Seq<Seq<char>>
    decreases s.len(),
{
    if s.len() == 0 {
        s
    } else {
        let r = dedup_adjacent(s.drop_last());
        if r.len() > 0 && r.last() == s.last() {
            r
        } else {
            r.push(s.last())
        }
    }
}

/// The paths that a comparison of two snapshots goes through: those of the
/// entries of both sides, sorted, each once.
pub open spec fn diff_paths_spec(old: Seq<FileEntry>, new: Seq<FileEntry>) -> Seq<Seq<char>> {
    dedup_adjacent(paths_of(sorted_entries(old + new)))
}

proof fn lemma_inserted_paths(a: Seq<FileEntry>, b: Seq<FileEntry>, x: FileEntry, y: FileEntry)
    requires
        paths_of(a) == paths_of(b),
        x.file_path@ == y.file_path@,
    ensures
        paths_of(entry_inserted(a, x)) == paths_of(entry_inserted(b, y)),
    decreases a.len(),
{
    assert(a.len() == paths_of(a).len() && b.len() == paths_of(b).len());
    if a.len() == 0 {
        assert(paths_of(entry_inserted(a, x)) =~= seq![x.file_path@]);
        assert(paths_of(entry_inserted(b, y)) =~= seq![y.file_path@]);
    } else {
        assert(a.last().file_path@ == paths_of(a)[a.len() - 1]);
        assert(b.last().file_path@ == paths_of(b)[b.len() - 1]);
        assert(paths_of(a.drop_last()) =~= paths_of(a).drop_last());
        assert(paths_of(b.drop_last()) =~= paths_of(b).drop_last());
        if path_before(x, a.last()) {
            lemma_inserted_paths(a.drop_last(), b.drop_last(), x, y);
            let ia = entry_inserted(a.drop_last(), x);
            let ib = entry_inserted(b.drop_last(), y);
            assert(paths_of(ia.push(a.last())) =~= paths_of(ia).push(a.last().file_path@));
            assert(paths_of(ib.push(b.last())) =~= paths_of(ib).push(b.last().file_path@));
        } else {
            assert(paths_of(a.push(x)) =~= paths_of(a).push(x.file_path@));
            assert(paths_of(b.push(y)) =~= paths_of(b).push(y.file_path@));
        }
    }
}

proof fn lemma_sorted_paths(s1: Seq<FileEntry>, s2: Seq<FileEntry>)
    requires
        paths_of(s1) == paths_of(s2),
    ensures
        paths_of(sorted_entries(s1)) == paths_of(sorted_entries(s2)),
    decreases s1.len(),
{
    assert(s1.len() == paths_of(s1).len() && s2.len() == paths_of(s2).len());
    if s1.len() > 0 {
        assert(paths_of(s1.drop_last()) =~= paths_of(s1).drop_last());
        assert(paths_of(s2.drop_last()) =~= paths_of(s2).drop_last());
        assert(s1.last().file_path@ == paths_of(s1)[s1.len() - 1]);
        assert(s2.last().file_path@ == paths_of(s2)[s2.len() - 1]);
        lemma_sorted_paths(s1.drop_last(), s2.drop_last());
        lemma_inserted_paths(sorted_entries(s1.drop_last()), sorted_entries(s2.drop_last()), s1.last(), s2.last());
    }
}

fn push_copies(all: &mut Vec<FileEntry>, entries: &[FileEntry])
    ensures
        paths_of(final(all)@) == paths_of(old(all)@ + entries@),
{
    let ghost start = all@;
    let mut i: usize = 0;
    while i < entries.len()
        invariant
            0 <= i <= entries@.len(),
            paths_of(all@) == paths_of(start + entries@.take(i as int)),
        decreases entries.len() - i,
    {
        let c = entries[i].copy();
        let ghost before = all@;
        all.push(c);
        assert(paths_of(all@) =~= paths_of(before).push(c.file_path@));
        assert(start + entries@.take(i + 1) =~= (start + entries@.take(i as int)).push(entries@[i as int]));
        assert(paths_of(start + entries@.take(i + 1)) =~= paths_of(start + entries@.take(i as int)).push(entries@[i as int].file_path@));
        i = i + 1;
    }
    assert(entries@.take(entries@.len() as int) =~= entries@);
}

/// The paths a comparison of two snapshots goes through: every path of
/// either side, sorted, each once.
#[verifier::rlimit(40)]
pub fn diff_paths(old_entries: &[FileEntry], new_entries: &[FileEntry]) -> (r: Vec<String>)
    ensures
        views(r@) == diff_paths_spec(old_entries@, new_entries@),
{
    let mut all: Vec<FileEntry> = Vec::new();
    push_copies(&mut all, old_entries);
    let ghost first = all@;
    assert(Seq::<FileEntry>::empty() + old_entries@ =~= old_entries@);
    push_copies(&mut all, new_entries);
    assert(paths_of(all@) =~= paths_of(old_entries@ + new_entries@)) by {
        assert(paths_of(first + new_entries@) =~= paths_of(first) + paths_of(new_entries@));
        assert(paths_of(old_entries@ + new_entries@) =~= paths_of(old_entries@) + paths_of(new_entries@));
    }
    let ord = sorted_order(all.as_slice());
    let ghost sp = paths_of(sorted_entries(all@));
    assert(sp.len() == ord@.len());
    let mut out: Vec<String> = Vec::new();
    let mut k: usize = 0;
    while k < ord.len()
        invariant
            0 <= k <= ord@.len(),
            ord@.len() == all@.len(),
            sp.len() == ord@.len(),
            forall|m: int| 0 <= m < ord@.len() ==> #[trigger] ord@[m] < all@.len(),
            forall|m: int| 0 <= m < ord@.len() ==> #[trigger] sp[m] == all@[ord@[m] as int].file_path@,
            views(out@) == dedup_adjacent(sp.take(k as int)),
        decreases ord.len() - k,
    {
        let p = &all[ord[k]].file_path;
        assert(sp.take(k + 1).drop_last() =~= sp.take(k as int));
        assert(sp.take(k + 1).last() == sp[k as int]);
        let ghost before = out@;
        let dup = out.len() > 0 && str_eq(out[out.len() - 1].as_str(), p.as_str());
        if !dup {
            out.push(p.clone());
            assert(views(out@) =~= views(before).push(p@));
        }
        k = k + 1;
    }
    assert(sp.take(sp.len() as int) =~= sp);
    proof {
        lemma_sorted_paths(all@, old_entries@ + new_entries@);
    }
    out
}

} // verus!
