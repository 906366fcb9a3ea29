//! Restore planning: what restoring a directory to a snapshot writes, removes
//! and prunes, and the messages that describe it.

use vstd::prelude::*;
use crate::ink::{InkError, InkStore};
use crate::text::{chars_of, concat_chars, str_eq, string_from_chars, views};
use crate::types::{opt_view, FileEntry, FileStatus};

verus! {

/// Whether an entry's status makes a restore write the file back.
pub open spec fn is_restored_status(s: FileStatus) -> bool {
    s == FileStatus::Added || s == FileStatus::Modified || s == FileStatus::Unchanged
}

/// The number of entries among the first `n` of `entries` that satisfy `keep`
/// on their status.
pub open spec fn count_status(entries: Seq<FileEntry>, n: int, deleted: bool) -> int
    decreases n,
{
    if n <= 0 {
        0
    } else {
        count_status(entries, n - 1, deleted) + if (entries[n - 1].status == FileStatus::Deleted) == deleted {
            1int
        } else {
            0int
        }
    }
}

proof fn lemma_counts_sum(entries: Seq<FileEntry>, n: int)
    requires
        0 <= n <= entries.len(),
    ensures
        count_status(entries, n, true) + count_status(entries, n, false) == n,
        0 <= count_status(entries, n, true) <= n,
        0 <= count_status(entries, n, false) <= n,
    decreases n,
{
    if n > 0 {
        lemma_counts_sum(entries, n - 1);
    }
}

/// How many files a restore writes back (added, modified or unchanged
/// entries) and how many it removes (deleted entries).
pub fn count_restore_changes(entries: &[FileEntry]) -> (r: (usize, usize))
    ensures
        r.0 == count_status(entries@, entries@.len() as int, false),
        r.1 == count_status(entries@, entries@.len() as int, true),
{
    let mut restore: usize = 0;
    let mut delete: usize = 0;
    let mut i: usize = 0;
    while i < entries.len()
        invariant
            0 <= i <= entries@.len(),
            restore == count_status(entries@, i as int, false),
            delete == count_status(entries@, i as int, true),
        decreases entries.len() - i,
    {
        proof {
            lemma_counts_sum(entries@, i as int);
        }
        if entries[i].status == FileStatus::Deleted {
            delete = delete + 1;
        } else {
            restore = restore + 1;
        }
        i = i + 1;
    }
    (restore, delete)
}

/// Law: every entry is counted once, as restored or as removed.
pub proof fn law_restore_counts_cover(entries: Seq<FileEntry>)
    ensures
        count_status(entries, entries.len() as int, false) + count_status(entries, entries.len() as int, true)
            == entries.len(),
{
    lemma_counts_sum(entries, entries.len() as int);
}

proof fn lemma_count_is_filter(entries: Seq<FileEntry>, n: int)
    requires
        0 <= n <= entries.len(),
    ensures
        count_status(entries, n, false) == entries.take(n).filter(|e: FileEntry| e.status != FileStatus::Deleted).len(),
        count_status(entries, n, true) == entries.take(n).filter(|e: FileEntry| e.status == FileStatus::Deleted).len(),
    decreases n,
{
    reveal(Seq::filter);
    if n > 0 {
        lemma_count_is_filter(entries, n - 1);
        let t = entries.take(n);
        assert(t.drop_last() =~= entries.take(n - 1));
        assert(t.last() == entries[n - 1]);
    } else {
        assert(entries.take(0) =~= Seq::<FileEntry>::empty());
    }
}

/// Law: a restore writes back every entry that is not deleted, whatever its
/// status (added, modified or unchanged), and removes every deleted one: the
/// first count is the number of entries that are not deleted, the second the
/// number of deleted ones.
pub proof fn law_restore_counts_by_status(entries: Seq<FileEntry>)
    ensures
        count_status(entries, entries.len() as int, false) == entries.filter(|e: FileEntry| e.status != FileStatus::Deleted).len(),
        count_status(entries, entries.len() as int, true) == entries.filter(|e: FileEntry| e.status == FileStatus::Deleted).len(),
{
    lemma_count_is_filter(entries, entries.len() as int);
    assert(entries.take(entries.len() as int) =~= entries);
}

/// Law: a snapshot without deleted entries restores every entry and removes
/// none; one holding only deleted entries removes every entry and restores none.
pub proof fn law_restore_counts_without_deletions(entries: Seq<FileEntry>)
    ensures
        (forall|i: int| 0 <= i < entries.len() ==> (#[trigger] entries[i]).status != FileStatus::Deleted) ==> {
            &&& count_status(entries, entries.len() as int, false) == entries.len()
            &&& count_status(entries, entries.len() as int, true) == 0
        },
        (forall|i: int| 0 <= i < entries.len() ==> (#[trigger] entries[i]).status == FileStatus::Deleted) ==> {
            &&& count_status(entries, entries.len() as int, false) == 0
            &&& count_status(entries, entries.len() as int, true) == entries.len()
        },
{
    lemma_counts_uniform(entries, entries.len() as int);
}

proof fn lemma_counts_uniform(entries: Seq<FileEntry>, n: int)
    requires
        0 <= n <= entries.len(),
    ensures
        (forall|i: int| 0 <= i < entries.len() ==> (#[trigger] entries[i]).status != FileStatus::Deleted) ==> {
            &&& count_status(entries, n, false) == n
            &&& count_status(entries, n, true) == 0
        },
        (forall|i: int| 0 <= i < entries.len() ==> (#[trigger] entries[i]).status == FileStatus::Deleted) ==> {
            &&& count_status(entries, n, false) == 0
            &&& count_status(entries, n, true) == n
        },
    decreases n,
{
    if n > 0 {
        lemma_counts_uniform(entries, n - 1);
        let e = entries[n - 1];
    }
}

/// One step of a restore.
#[derive(Debug)]
pub enum RestoreAction {
    /// Write `content` to `path` (creating parent directories).
    Write { path: String, content: Vec<u8> },
    /// Remove `path`, which the snapshot records as deleted, if it exists.
    Remove { path: String },
    /// Remove `path`, which exists on disk but is not tracked by the snapshot.
    Prune { path: String },
}

/// A restore step as a mathematical value: 0 = write, 1 = remove, 2 = prune.
pub open spec fn action_spec(a: RestoreAction) -> (int, Seq<char>, Seq<u8>) {
    match a {
        RestoreAction::Write { path, content } => (0, path@, content@),
        RestoreAction::Remove { path } => (1, path@, seq![]),
        RestoreAction::Prune { path } => (2, path@, seq![]),
    }
}

/// The steps for the entries of a snapshot, in order; `None` when an ink to
/// write is missing. Entries without a hash that are not deleted give no step.
pub open spec fn entry_steps(inks: InkStore, entries: Seq<FileEntry>) -> Option<Seq<(int, Seq<char>, Seq<u8>)>>
    decreases entries.len(),
{
    if entries.len() == 0 {
        Some(seq![])
    } else {
        match entry_steps(inks, entries.drop_last()) {
            None => None,
            Some(prev) => {
                let e = entries.last();
                if e.status == FileStatus::Deleted {
                    Some(prev.push((1, e.file_path@, seq![])))
                } else {
                    match opt_view(e.ink_hash) {
                        None => Some(prev),
                        Some(h) => match inks.lookup(h) {
                            None => None,
                            Some(c) => Some(prev.push((0, e.file_path@, c))),
                        },
                    }
                }
            },
        }
    }
}

/// Whether some entry of the snapshot has path `p`.
pub open spec fn is_tracked(entries: Seq<FileEntry>, p: Seq<char>) -> bool {
    exists|i: int| 0 <= i < entries.len() && (#[trigger] entries[i]).file_path@ == p
}

/// The prune steps: the files on disk that no entry tracks, in walk order.
pub open spec fn prune_steps(entries: Seq<FileEntry>, disk: Seq<Seq<char>>) -> Seq<(int, Seq<char>, Seq<u8>)>
    decreases disk.len(),
{
    if disk.len() == 0 {
        seq![]
    } else if is_tracked(entries, disk.last()) {
        prune_steps(entries, disk.drop_last())
    } else {
        prune_steps(entries, disk.drop_last()).push((2, disk.last(), seq![]))
    }
}

fn is_tracked_path(entries: &[FileEntry], p: &str) -> (r: bool)
    ensures
        r == is_tracked(entries@, p@),
{
    let mut i: usize = 0;
    while i < entries.len()
        invariant
            0 <= i <= entries@.len(),
            forall|j: int| 0 <= j < i ==> (#[trigger] entries@[j]).file_path@ != p@,
        decreases entries.len() - i,
    {
        if str_eq(entries[i].file_path.as_str(), p) {
            return true;
        }
        i = i + 1;
    }
    false
}

/// The steps of restoring a directory to a snapshot with entries `entries`,
/// with `disk` the relative paths found on disk in walk order: the entries'
/// steps, then the prunes; `None` when an ink to write is missing.
pub open spec fn planned_steps(inks: InkStore, entries: Seq<FileEntry>, disk: Seq<Seq<char>>) -> Option<Seq<(int, Seq<char>, Seq<u8>)>> {
    match entry_steps(inks, entries) {
        None => None,
        Some(steps) => Some(steps + prune_steps(entries, disk)),
    }
}

/// The lines a dry run of that restore prints: one per planned step; `None`
/// when the restore itself would fail.
pub open spec fn previewed_lines(inks: InkStore, entries: Seq<FileEntry>, disk: Seq<Seq<char>>) -> Option<Seq<Seq<char>>> {
    match planned_steps(inks, entries, disk) {
        None => None,
        Some(all) => Some(all.map_values(|s: (int, Seq<char>, Seq<u8>)| action_line_spec(s.0, s.1))),
    }
}

/// Law: a dry run previews exactly the restore. It fails exactly when the
/// restore fails, and otherwise prints one line for each step the restore
/// performs, in the same order, naming that step's kind and path.
pub proof fn law_dry_run_previews_restore(inks: InkStore, entries: Seq<FileEntry>, disk: Seq<Seq<char>>)
    ensures
        previewed_lines(inks, entries, disk) is None <==> planned_steps(inks, entries, disk) is None,
        planned_steps(inks, entries, disk) matches Some(all) ==> {
            let lines = previewed_lines(inks, entries, disk)->Some_0;
            &&& lines.len() == all.len()
            &&& forall|i: int| 0 <= i < all.len() ==> #[trigger] lines[i] == action_line_spec(all[i].0, all[i].1)
        },
{
}

/// Plans restoring a directory to a snapshot with entries `entries`: for each
/// entry in order, write back its ink (added, modified, unchanged entries with
/// a hash) or remove it (deleted entries); then prune the files found on disk
/// (`disk_files`, relative paths in walk order) that no entry tracks. Fails
/// when an ink to write is missing.
pub fn plan_restore(entries: &[FileEntry], inks: &InkStore, disk_files: &[String]) -> (r: Result<Vec<RestoreAction>, InkError>)
    ensures
        match planned_steps(*inks, entries@, views(disk_files@)) {
            None => r == Err::<Vec<RestoreAction>, InkError>(InkError::NotFound),
            Some(all) => r is Ok && r->Ok_0@.map_values(|a: RestoreAction| action_spec(a)) == all,
        },
{
    let mut out: Vec<RestoreAction> = Vec::new();
    let mut i: usize = 0;
    assert(entries@.take(0) =~= Seq::<FileEntry>::empty());
    while i < entries.len()
        invariant
            0 <= i <= entries@.len(),
            entry_steps(*inks, entries@.take(i as int)) == Some(out@.map_values(|a: RestoreAction| action_spec(a))),
        decreases entries.len() - i,
    {
        let e = &entries[i];
        let ghost t = entries@.take(i + 1);
        assert(t.drop_last() =~= entries@.take(i as int));
        assert(t.last() == entries@[i as int]);
        let ghost before = out@;
        if e.status == FileStatus::Deleted {
            out.push(RestoreAction::Remove { path: e.file_path.clone() });
            assert(out@.map_values(|a: RestoreAction| action_spec(a)) =~= before.map_values(|a: RestoreAction| action_spec(a)).push((1, e.file_path@, seq![])));
        } else {
            match &e.ink_hash {
                None => {},
                Some(h) => {
                    match inks.read_ink(h.as_str()) {
                        Err(err) => {
                            proof {
                                lemma_steps_none_extends(*inks, entries@, i as int + 1);
                            }
                            return Err(err);
                        },
                        Ok(content) => {
                            out.push(RestoreAction::Write { path: e.file_path.clone(), content });
                            assert(out@.map_values(|a: RestoreAction| action_spec(a)) =~= before.map_values(|a: RestoreAction| action_spec(a)).push((0, e.file_path@, content@)));
                        },
                    }
                },
            }
        }
        i = i + 1;
    }
    assert(entries@.take(entries@.len() as int) =~= entries@);
    let ghost steps = out@.map_values(|a: RestoreAction| action_spec(a));
    let mut k: usize = 0;
    assert(disk_files@.take(0) =~= Seq::<String>::empty());
    assert(prune_steps(entries@, views(disk_files@.take(0))) =~= Seq::<(int, Seq<char>, Seq<u8>)>::empty());
    while k < disk_files.len()
        invariant
            0 <= k <= disk_files@.len(),
            out@.map_values(|a: RestoreAction| action_spec(a)) == steps + prune_steps(entries@, views(disk_files@.take(k as int))),
        decreases disk_files.len() - k,
    {
        let ghost d = views(disk_files@.take(k + 1));
        assert(d.drop_last() =~= views(disk_files@.take(k as int)));
        assert(d.last() == disk_files@[k as int]@);
        let ghost before = out@;
        if !is_tracked_path(entries, disk_files[k].as_str()) {
            out.push(RestoreAction::Prune { path: disk_files[k].clone() });
            assert(out@.map_values(|a: RestoreAction| action_spec(a)) =~= before.map_values(|a: RestoreAction| action_spec(a)).push((2, disk_files@[k as int]@, seq![])));
        }
        k = k + 1;
    }
    assert(disk_files@.take(disk_files@.len() as int) =~= disk_files@);
    Ok(out)
}

proof fn lemma_steps_none_extends(inks: InkStore, entries: Seq<FileEntry>, n: int)
    requires
        0 <= n <= entries.len(),
        entry_steps(inks, entries.take(n)) is None,
    ensures
        entry_steps(inks, entries) is None,
    decreases entries.len() - n,
{
    if n < entries.len() {
        let t = entries.take(n + 1);
        assert(t.drop_last() =~= entries.take(n));
        lemma_steps_none_extends(inks, entries, n + 1);
    } else {
        assert(entries.take(n) =~= entries);
    }
}

/// The steps of the entries that come before the first entry whose ink is
/// missing (all of them when none is missing): what a restore performs before
/// it fails.
pub open spec fn steps_before_missing(inks: InkStore, entries: Seq<FileEntry>) -> Seq<(int, Seq<char>, Seq<u8>)>
    decreases entries.len(),
{
    if entries.len() == 0 {
        seq![]
    } else {
        match entry_steps(inks, entries) {
            Some(steps) => steps,
            None => steps_before_missing(inks, entries.drop_last()),
        }
    }
}

proof fn lemma_before_missing_at(inks: InkStore, entries: Seq<FileEntry>, i: int, n: int)
    requires
        0 <= i < n <= entries.len(),
        entry_steps(inks, entries.take(i + 1)) is None,
    ensures
        steps_before_missing(inks, entries.take(n)) == steps_before_missing(inks, entries.take(i)),
    decreases n - i,
{
    let t = entries.take(n);
    assert(t.drop_last() =~= entries.take(n - 1));
    assert(t.take(i + 1) =~= entries.take(i + 1));
    lemma_steps_none_extends(inks, t, i + 1);
    if n - 1 > i {
        lemma_before_missing_at(inks, entries, i, n - 1);
    }
}

/// The steps a restore performs for the entries of a snapshot before it
/// stops at the first entry whose ink is missing (all the entries' steps
/// when no ink is missing).
pub fn steps_before_missing_ink(entries: &[FileEntry], inks: &InkStore) -> (r: Vec<RestoreAction>)
    ensures
        r@.map_values(|a: RestoreAction| action_spec(a)) == steps_before_missing(*inks, entries@),
{
    let mut out: Vec<RestoreAction> = Vec::new();
    let mut i: usize = 0;
    assert(entries@.take(0) =~= Seq::<FileEntry>::empty());
    while i < entries.len()
        invariant
            0 <= i <= entries@.len(),
            entry_steps(*inks, entries@.take(i as int)) == Some(out@.map_values(|a: RestoreAction| action_spec(a))),
        decreases entries.len() - i,
    {
        let e = &entries[i];
        let ghost t = entries@.take(i + 1);
        assert(t.drop_last() =~= entries@.take(i as int));
        assert(t.last() == entries@[i as int]);
        let ghost before = out@;
        if e.status == FileStatus::Deleted {
            out.push(RestoreAction::Remove { path: e.file_path.clone() });
            assert(out@.map_values(|a: RestoreAction| action_spec(a)) =~= before.map_values(|a: RestoreAction| action_spec(a)).push((1, e.file_path@, seq![])));
        } else {
            match &e.ink_hash {
                None => {},
                Some(h) => {
                    match inks.read_ink(h.as_str()) {
                        Err(_) => {
                            proof {
                                lemma_before_missing_at(*inks, entries@, i as int, entries@.len() as int);
                                assert(entries@.take(entries@.len() as int) =~= entries@);
                                if i > 0 {
                                    assert(entries@.take(i as int).len() > 0);
                                }
                            }
                            return out;
                        },
                        Ok(content) => {
                            out.push(RestoreAction::Write { path: e.file_path.clone(), content });
                            assert(out@.map_values(|a: RestoreAction| action_spec(a)) =~= before.map_values(|a: RestoreAction| action_spec(a)).push((0, e.file_path@, content@)));
                        },
                    }
                },
            }
        }
        i = i + 1;
    }
    assert(entries@.take(entries@.len() as int) =~= entries@);
    out
}

/// The text describing a restore step: `  + restore  PATH`, `  - remove  PATH`
/// or `  - prune   PATH`.
pub open spec fn action_line_spec(kind: int, path: Seq<char>) -> Seq<char> {
    if kind == 0 {
        "  + restore  "@ + path
    } else if kind == 1 {
        "  - remove  "@ + path
    } else {
        "  - prune   "@ + path
    }
}

/// Describes a restore step.
pub fn action_line(a: &RestoreAction) -> (r: String)
    ensures
        r@ == action_line_spec(action_spec(*a).0, action_spec(*a).1),
{
    let (prefix, path) = match a {
        RestoreAction::Write { path, .. } => (chars_of("  + restore  "), path),
        RestoreAction::Remove { path } => (chars_of("  - remove  "), path),
        RestoreAction::Prune { path } => (chars_of("  - prune   "), path),
    };
    let p = chars_of(path.as_str());
    let v = concat_chars(prefix.as_slice(), p.as_slice());
    string_from_chars(v.as_slice())
}

/// The description of a restore: one line per step, as a dry run prints it.
pub fn preview_restore(entries: &[FileEntry], inks: &InkStore, disk_files: &[String]) -> (r: Result<Vec<String>, InkError>)
    ensures
        match previewed_lines(*inks, entries@, views(disk_files@)) {
            None => r == Err::<Vec<String>, InkError>(InkError::NotFound),
            Some(lines) => r is Ok && views(r->Ok_0@) == lines,
        },
{
    let plan = plan_restore(entries, inks, disk_files)?;
    let ghost all = plan@.map_values(|a: RestoreAction| action_spec(a));
    let mut lines: Vec<String> = Vec::new();
    let mut i: usize = 0;
    while i < plan.len()
        invariant
            0 <= i <= plan@.len(),
            all == plan@.map_values(|a: RestoreAction| action_spec(a)),
            views(lines@) =~= all.take(i as int).map_values(|s: (int, Seq<char>, Seq<u8>)| action_line_spec(s.0, s.1)),
        decreases plan.len() - i,
    {
        let l = action_line(&plan[i]);
        assert(all[i as int] == action_spec(plan@[i as int]));
        let ghost before = lines@;
        lines.push(l);
        assert(views(lines@) =~= views(before).push(l@));
        assert(all.take(i + 1).drop_last() =~= all.take(i as int));
        i = i + 1;
        assert(views(lines@) =~= all.take(i as int).map_values(|s: (int, Seq<char>, Seq<u8>)| action_line_spec(s.0, s.1)));
    }
    assert(all.take(plan@.len() as int) =~= all);
    Ok(lines)
}

/// Directory names that a restore never walks into when pruning.
pub open spec fn is_control_dir_spec(name: Seq<char>) -> bool {
    name == ".git"@ || name == ".svn"@ || name == ".hg"@ || name == "node_modules"@ || name == "target"@
}

/// Whether the pruning walk skips a directory of this name.
pub fn is_control_dir(name: &str) -> (r: bool)
    ensures
        r == is_control_dir_spec(name@),
{
    str_eq(name, ".git") || str_eq(name, ".svn") || str_eq(name, ".hg") || str_eq(name, "node_modules")
        || str_eq(name, "target")
}

} // verus!
