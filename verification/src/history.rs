//! Views over the history of a palin: the timeline, change summaries, blame,
//! and searches by file name and by content.

use vstd::prelude::*;
use crate::number::{decimal_text, format_i64};
use crate::order::{is_stable_desc_order, stable_order_desc};
use crate::diff::{content_lines, content_to_lines, first_with_path, find_entry};
use crate::ink::InkStore;
use crate::text::{chars_of, concat_chars, contains_chars, contains_run, lowercase_of, string_from_chars, to_lowercase, views};
use crate::types::epoch_display_name;
use crate::types::{opt_view, copy_opt_string, Epoch, FileEntry, FileStatus, Phantom, StatusSummary};

verus! {

// ─── Timeline ───────────────────────────────────────────────────────────

/// One line of the timeline: a snapshot's label, time (nanoseconds since the
/// Unix epoch), message and lock flag, and whether it is a phantom.
#[derive(Debug)]
pub struct TimelineEntry {
    pub display: String,
    pub timestamp: i64,
    pub message: Option<String>,
    pub is_locked: bool,
    pub is_phantom: bool,
}

/// The label of an epoch in the timeline: `Origin` or `Epoch #N`.
pub open spec fn epoch_label(is_origin: bool, num: int) -> Seq<char> {
    if is_origin {
        "Origin"@
    } else {
        "Epoch #"@ + decimal_text(num)
    }
}

/// The label of a phantom in the timeline: `Phantom #N`.
pub open spec fn phantom_label(num: int) -> Seq<char> {
    "Phantom #"@ + decimal_text(num)
}

/// The timeline entry of the `k`-th snapshot: epochs first, then phantoms.
pub open spec fn timeline_source(epochs: Seq<Epoch>, phantoms: Seq<Phantom>, k: int) -> (Seq<char>, i64, Option<Seq<char>>, bool, bool) {
    if k < epochs.len() {
        let e = epochs[k];
        (epoch_label(e.is_origin, e.epoch_num as int), e.timestamp, opt_view(e.message), e.is_locked, false)
    } else {
        let p = phantoms[k - epochs.len()];
        (phantom_label(p.phantom_num as int), p.timestamp, opt_view(p.message), false, true)
    }
}

/// The times of all snapshots: epochs first, then phantoms.
pub open spec fn timeline_keys(epochs: Seq<Epoch>, phantoms: Seq<Phantom>) -> Seq<i64> {
    Seq::new((epochs.len() + phantoms.len()) as nat, |k: int| timeline_source(epochs, phantoms, k).1)
}

/// The value of a timeline entry.
pub open spec fn timeline_view(t: TimelineEntry) -> (Seq<char>, i64, Option<Seq<char>>, bool, bool) {
    (t.display@, t.timestamp, opt_view(t.message), t.is_locked, t.is_phantom)
}

fn label_with_number(prefix: &str, n: i64) -> (r: String)
    ensures
        r@ == prefix@ + decimal_text(n as int),
{
    let p = chars_of(prefix);
    let d = format_i64(n);
    let v = concat_chars(p.as_slice(), d.as_slice());
    string_from_chars(v.as_slice())
}

/// The timeline of `log`: every epoch and phantom, most recent first; among
/// snapshots with the same time, epochs before phantoms and each list in its
/// own order (a stable sort).
pub fn timeline(epochs: &[Epoch], phantoms: &[Phantom]) -> (r: Vec<TimelineEntry>)
    requires
        epochs@.len() + phantoms@.len() <= usize::MAX,
    ensures
        exists|order: Seq<usize>|
            #![trigger is_stable_desc_order(timeline_keys(epochs@, phantoms@), order)]
            {
            &&& is_stable_desc_order(timeline_keys(epochs@, phantoms@), order)
            &&& r@.len() == order.len()
            &&& forall|k: int| 0 <= k < r@.len() ==> timeline_view(#[trigger] r@[k]) == timeline_source(
                epochs@,
                phantoms@,
                order[k] as int,
            )
        },
{
    let ne = epochs.len();
    let total = epochs.len() + phantoms.len();
    let mut keys: Vec<i64> = Vec::new();
    let mut k: usize = 0;
    while k < total
        invariant
            ne == epochs@.len(),
            total == epochs@.len() + phantoms@.len(),
            0 <= k <= total,
            keys@.len() == k,
            forall|j: int| 0 <= j < k ==> keys@[j] == timeline_source(epochs@, phantoms@, j).1,
        decreases total - k,
    {
        if k < ne {
            keys.push(epochs[k].timestamp);
        } else {
            keys.push(phantoms[k - ne].timestamp);
        }
        k = k + 1;
    }
    let ghost want = timeline_keys(epochs@, phantoms@);
    assert(keys@ =~= want);
    let order = stable_order_desc(keys.as_slice());
    let mut out: Vec<TimelineEntry> = Vec::new();
    let mut i: usize = 0;
    while i < order.len()
        invariant
            ne == epochs@.len(),
            total == epochs@.len() + phantoms@.len(),
            keys@ == want,
            keys@.len() == total,
            is_stable_desc_order(keys@, order@),
            0 <= i <= order@.len(),
            out@.len() == i,
            forall|m: int| 0 <= m < i ==> timeline_view(#[trigger] out@[m]) == timeline_source(epochs@, phantoms@, order@[m] as int),
        decreases order.len() - i,
    {
        let j = order[i];
        assert(order@[i as int] < keys@.len());
        let entry = if j < ne {
            let e = &epochs[j];
            let display = if e.is_origin {
                string_from_chars(chars_of("Origin").as_slice())
            } else {
                label_with_number("Epoch #", e.epoch_num)
            };
            TimelineEntry { display, timestamp: e.timestamp, message: copy_opt_string(&e.message), is_locked: e.is_locked, is_phantom: false }
        } else {
            let p = &phantoms[j - ne];
            TimelineEntry { display: label_with_number("Phantom #", p.phantom_num), timestamp: p.timestamp, message: copy_opt_string(&p.message), is_locked: false, is_phantom: true }
        };
        assert(timeline_view(entry) == timeline_source(epochs@, phantoms@, j as int));
        out.push(entry);
        i = i + 1;
    }
    out
}

// ─── Change summary ─────────────────────────────────────────────────────

/// The paths of the entries (among the first `n`) with status `s`, in order.
pub open spec fn paths_with_status(entries: Seq<FileEntry>, s: FileStatus, n: int) -> Seq<Seq<char>>
    decreases n,
{
    if n <= 0 {
        seq![]
    } else if entries[n - 1].status == s {
        paths_with_status(entries, s, n - 1).push(entries[n - 1].file_path@)
    } else {
        paths_with_status(entries, s, n - 1)
    }
}

proof fn lemma_status_partition(entries: Seq<FileEntry>, n: int)
    requires
        0 <= n <= entries.len(),
    ensures
        paths_with_status(entries, FileStatus::Added, n).len() + paths_with_status(entries, FileStatus::Modified, n).len()
            + paths_with_status(entries, FileStatus::Deleted, n).len() + paths_with_status(entries, FileStatus::Unchanged, n).len() == n,
    decreases n,
{
    if n > 0 {
        lemma_status_partition(entries, n - 1);
    }
}

/// Sorts the entries of a snapshot by status: the paths added, modified and
/// deleted, each in entry order, and the number unchanged.
pub fn summarize_status(entries: &[FileEntry]) -> (r: StatusSummary)
    ensures
        views(r.added@) == paths_with_status(entries@, FileStatus::Added, entries@.len() as int),
        views(r.modified@) == paths_with_status(entries@, FileStatus::Modified, entries@.len() as int),
        views(r.deleted@) == paths_with_status(entries@, FileStatus::Deleted, entries@.len() as int),
        r.unchanged == paths_with_status(entries@, FileStatus::Unchanged, entries@.len() as int).len(),
{
    let mut added: Vec<String> = Vec::new();
    let mut modified: Vec<String> = Vec::new();
    let mut deleted: Vec<String> = Vec::new();
    let mut unchanged: usize = 0;
    let mut i: usize = 0;
    while i < entries.len()
        invariant
            0 <= i <= entries@.len(),
            views(added@) == paths_with_status(entries@, FileStatus::Added, i as int),
            views(modified@) == paths_with_status(entries@, FileStatus::Modified, i as int),
            views(deleted@) == paths_with_status(entries@, FileStatus::Deleted, i as int),
            unchanged == paths_with_status(entries@, FileStatus::Unchanged, i as int).len(),
        decreases entries.len() - i,
    {
        proof {
            lemma_status_partition(entries@, i as int);
        }
        let e = &entries[i];
        let p = e.file_path.clone();
        match e.status {
            FileStatus::Added => {
                let ghost b = added@;
                added.push(p);
                assert(views(added@) =~= views(b).push(p@));
            },
            FileStatus::Modified => {
                let ghost b = modified@;
                modified.push(p);
                assert(views(modified@) =~= views(b).push(p@));
            },
            FileStatus::Deleted => {
                let ghost b = deleted@;
                deleted.push(p);
                assert(views(deleted@) =~= views(b).push(p@));
            },
            FileStatus::Unchanged => {
                unchanged = unchanged + 1;
            },
        }
        i = i + 1;
    }
    StatusSummary { added, modified, deleted, unchanged }
}

/// Law: every entry of a snapshot is counted exactly once by its summary.
pub proof fn law_summary_counts_every_entry(entries: Seq<FileEntry>)
    ensures
        paths_with_status(entries, FileStatus::Added, entries.len() as int).len() + paths_with_status(
            entries,
            FileStatus::Modified,
            entries.len() as int,
        ).len() + paths_with_status(entries, FileStatus::Deleted, entries.len() as int).len()
            + paths_with_status(entries, FileStatus::Unchanged, entries.len() as int).len() == entries.len(),
{
    lemma_status_partition(entries, entries.len() as int);
}


// ─── Blame ──────────────────────────────────────────────────────────────

/// The content of `path` in a snapshot with entries `entries`, when the first
/// entry with that path is not deleted, has a hash, and its ink is stored.
pub open spec fn present_content(inks: InkStore, entries: Seq<FileEntry>, path: Seq<char>) -> Option<Seq<u8>> {
    match first_with_path(entries, path) {
        None => None,
        Some(i) => if entries[i].status == FileStatus::Deleted {
            None
        } else {
            match opt_view(entries[i].ink_hash) {
                None => None,
                Some(h) => inks.lookup(h),
            }
        },
    }
}

/// The last of the first `n` snapshots whose content of `path` is available.
pub open spec fn latest_with_content(inks: InkStore, entries: Seq<Vec<FileEntry>>, path: Seq<char>, n: int) -> Option<int>
    decreases n,
{
    if n <= 0 {
        None
    } else if present_content(inks, entries[n - 1]@, path) is Some {
        Some(n - 1)
    } else {
        latest_with_content(inks, entries, path, n - 1)
    }
}

fn content_in(inks: &InkStore, entries: &[FileEntry], path: &str) -> (r: Option<Vec<u8>>)
    ensures
        match present_content(*inks, entries@, path@) {
            None => r is None,
            Some(c) => r is Some && r->Some_0@ == c,
        },
{
    proof {
        crate::diff::lemma_first_with_path_pub(entries@, path@);
    }
    match find_entry(entries, path) {
        None => None,
        Some(i) => {
            let e = &entries[i];
            if e.status == FileStatus::Deleted {
                None
            } else {
                match &e.ink_hash {
                    None => None,
                    Some(h) => match inks.read_ink(h.as_str()) {
                        Ok(c) => Some(c),
                        Err(_) => None,
                    },
                }
            }
        },
    }
}

/// The epoch line `i` (reading `line` in the latest content) is attributed
/// to, walking back over epochs `k - 1` down to `0` with the line attributed
/// to epoch `cur` so far: an epoch without the file's content is passed
/// over; an epoch whose line `i` still reads `line` takes the line over; at
/// the first epoch whose line `i` differs (or that has no line `i`) the
/// attribution stays with `cur`. Started from the latest epoch `m` with the
/// file's content, as `line_owner(.., m, m)`, it gives the earliest epoch from
/// which the line stayed the same in every epoch up to `m` that has the file:
/// the epoch in which the line last changed.
pub open spec fn line_owner(inks: InkStore, entries: Seq<Vec<FileEntry>>, path: Seq<char>, i: int, line: Seq<char>, k: int, cur: int) -> int
    decreases k,
{
    if k <= 0 {
        cur
    } else {
        match present_content(inks, entries[k - 1]@, path) {
            None => line_owner(inks, entries, path, i, line, k - 1, cur),
            Some(c) => if i < content_lines(c).len() && content_lines(c)[i] == line {
                line_owner(inks, entries, path, i, line, k - 1, k - 1)
            } else {
                cur
            },
        }
    }
}

fn latest_content(inks: &InkStore, entries: &[Vec<FileEntry>], path: &str) -> (r: Option<(usize, Vec<u8>)>)
    ensures
        match latest_with_content(*inks, entries@, path@, entries@.len() as int) {
            None => r is None,
            Some(k) => r is Some && r->Some_0.0 == k && r->Some_0.1@ == present_content(*inks, entries@[k]@, path@)->Some_0,
        },
        r matches Some(x) ==> x.0 < entries@.len(),
{
    let mut k: usize = entries.len();
    while k > 0
        invariant
            0 <= k <= entries@.len(),
            latest_with_content(*inks, entries@, path@, entries@.len() as int) == latest_with_content(*inks, entries@, path@, k as int),
        decreases k,
    {
        match content_in(inks, entries[k - 1].as_slice(), path) {
            Some(content) => {
                return Some((k - 1, content));
            },
            None => {},
        }
        k = k - 1;
    }
    None
}

/// Annotates each line of `file_path` with the epoch in which it last changed.
/// `epochs` are the live epochs, oldest first, and `entries[k]` the file
/// entries of `epochs[k]`. The lines are those of the latest epoch `m` whose
/// content of the file is available (its first entry for the path is not
/// deleted and its ink is stored); line `i` goes to the epoch
/// `line_owner(.., i, line, m, m)`: the earliest epoch from which line `i`
/// read the same in every epoch up to `m` that has the file. `None` when no
/// epoch has the file's content.
pub fn blame(epochs: &[Epoch], entries: &[Vec<FileEntry>], file_path: &str, inks: &InkStore) -> (r: Option<Vec<crate::types::BlameLine>>)
    requires
        epochs@.len() == entries@.len(),
    ensures
        match latest_with_content(*inks, entries@, file_path@, entries@.len() as int) {
            None => r is None,
            Some(m) => r is Some && ({
                let lines = content_lines(present_content(*inks, entries@[m]@, file_path@)->Some_0);
                let out = r->Some_0@;
                &&& out.len() == lines.len()
                &&& forall|i: int| 0 <= i < out.len() ==> {
                    let o = line_owner(*inks, entries@, file_path@, i, lines[i], m, m);
                    &&& (#[trigger] out[i]).line_number == i + 1
                    &&& out[i].content@ == lines[i]
                    &&& 0 <= o <= m
                    &&& out[i].epoch_num == Some(epochs@[o].epoch_num)
                    &&& out[i].epoch_display@ == epoch_display_name(epochs@[o].is_origin, epochs@[o].epoch_num as int)
                }
            }),
        },
{
    let (m, content) = match latest_content(inks, entries, file_path) {
        None => return None,
        Some(x) => x,
    };
    let lines = content_to_lines(content.as_slice());
    let ghost ls = views(lines@);
    let ghost es = entries@;
    let n = lines.len();
    let mut owners: Vec<usize> = Vec::new();
    let mut alive: Vec<bool> = Vec::new();
    let mut j: usize = 0;
    while j < n
        invariant
            0 <= j <= n,
            n == lines@.len(),
            owners@.len() == j,
            alive@.len() == j,
            forall|i: int| 0 <= i < j ==> #[trigger] owners@[i] == m && alive@[i],
        decreases n - j,
    {
        owners.push(m);
        alive.push(true);
        j = j + 1;
    }
    let mut k: usize = m;
    while k > 0
        invariant
            0 <= k <= m < entries@.len(),
            epochs@.len() == entries@.len(),
            n == lines@.len(),
            ls == views(lines@),
            es == entries@,
            owners@.len() == n,
            alive@.len() == n,
            forall|i: int| 0 <= i < n ==> #[trigger] owners@[i] <= m,
            forall|i: int| 0 <= i < n && alive@[i] ==> line_owner(*inks, es, file_path@, i, ls[i], m as int, m as int)
                == line_owner(*inks, es, file_path@, i, ls[i], k as int, #[trigger] owners@[i] as int),
            forall|i: int| 0 <= i < n && !alive@[i] ==> line_owner(*inks, es, file_path@, i, ls[i], m as int, m as int)
                == #[trigger] owners@[i] as int,
        decreases k,
    {
        match content_in(inks, entries[k - 1].as_slice(), file_path) {
            None => {
                assert forall|i: int| 0 <= i < n && alive@[i] implies line_owner(*inks, es, file_path@, i, ls[i], k as int, #[trigger] owners@[i] as int)
                    == line_owner(*inks, es, file_path@, i, ls[i], k - 1, owners@[i] as int) by {}
            },
            Some(c) => {
                let lk = content_to_lines(c.as_slice());
                let ghost old_owners = owners@;
                let ghost old_alive = alive@;
                let mut i: usize = 0;
                while i < n
                    invariant
                        0 <= i <= n,
                        0 < k <= m < entries@.len(),
                        n == lines@.len(),
                        ls == views(lines@),
                        es == entries@,
                        views(lk@) == content_lines(c@),
                        present_content(*inks, es[k - 1]@, file_path@) == Some(c@),
                        owners@.len() == n,
                        alive@.len() == n,
                        old_owners.len() == n,
                        old_alive.len() == n,
                        forall|t: int| 0 <= t < n ==> #[trigger] owners@[t] <= m,
                        forall|t: int| i <= t < n ==> #[trigger] owners@[t] == old_owners[t],
                        forall|t: int| i <= t < n ==> #[trigger] alive@[t] == old_alive[t],
                        forall|t: int| 0 <= t < n && old_alive[t] ==> line_owner(*inks, es, file_path@, t, ls[t], m as int, m as int)
                            == line_owner(*inks, es, file_path@, t, ls[t], k as int, #[trigger] old_owners[t] as int),
                        forall|t: int| 0 <= t < n && !old_alive[t] ==> line_owner(*inks, es, file_path@, t, ls[t], m as int, m as int)
                            == #[trigger] old_owners[t] as int,
                        forall|t: int| 0 <= t < i && alive@[t] ==> line_owner(*inks, es, file_path@, t, ls[t], m as int, m as int)
                            == line_owner(*inks, es, file_path@, t, ls[t], k - 1, #[trigger] owners@[t] as int),
                        forall|t: int| 0 <= t < i && !alive@[t] ==> line_owner(*inks, es, file_path@, t, ls[t], m as int, m as int)
                            == #[trigger] owners@[t] as int,
                    decreases n - i,
                {
                    let ghost before_o = owners@;
                    let ghost before_a = alive@;
                    let ghost ti = i as int;
                    assert(before_o[ti] == old_owners[ti] && before_a[ti] == old_alive[ti]);
                    if alive[i] {
                        let same = i < lk.len() && crate::text::str_eq(lk[i].as_str(), lines[i].as_str());
                        proof {
                            assert(ls[ti] == lines@[ti]@);
                            if i < lk.len() {
                                assert(content_lines(c@)[ti] == lk@[ti]@);
                            }
                            assert(same == (ti < content_lines(c@).len() && content_lines(c@)[ti] == ls[ti]));
                        }
                        if same {
                            owners.set(i, k - 1);
                            proof {
                                assert(line_owner(*inks, es, file_path@, ti, ls[ti], k as int, old_owners[ti] as int)
                                    == line_owner(*inks, es, file_path@, ti, ls[ti], k - 1, k - 1));
                            }
                        } else {
                            alive.set(i, false);
                            proof {
                                assert(line_owner(*inks, es, file_path@, ti, ls[ti], k as int, old_owners[ti] as int)
                                    == old_owners[ti] as int);
                            }
                        }
                    }
                    proof {
                        assert forall|t: int| ti + 1 <= t < n implies #[trigger] owners@[t] == old_owners[t] by {
                            assert(owners@[t] == before_o[t]);
                        }
                        assert forall|t: int| ti + 1 <= t < n implies #[trigger] alive@[t] == old_alive[t] by {
                            assert(alive@[t] == before_a[t]);
                        }
                        assert forall|t: int| 0 <= t < n implies #[trigger] owners@[t] <= m by {
                            if t != ti {
                                assert(owners@[t] == before_o[t]);
                            }
                        }
                        assert forall|t: int| 0 <= t < ti + 1 && alive@[t] implies line_owner(*inks, es, file_path@, t, ls[t], m as int, m as int)
                            == line_owner(*inks, es, file_path@, t, ls[t], k - 1, #[trigger] owners@[t] as int) by {
                            if t < ti {
                                assert(owners@[t] == before_o[t]);
                                assert(alive@[t] == before_a[t]);
                            }
                        }
                        assert forall|t: int| 0 <= t < ti + 1 && !alive@[t] implies line_owner(*inks, es, file_path@, t, ls[t], m as int, m as int)
                            == #[trigger] owners@[t] as int by {
                            if t < ti {
                                assert(owners@[t] == before_o[t]);
                                assert(alive@[t] == before_a[t]);
                            }
                        }
                    }
                    i = i + 1;
                }
            },
        }
        k = k - 1;
    }
    let mut out: Vec<crate::types::BlameLine> = Vec::new();
    let mut i: usize = 0;
    while i < n
        invariant
            0 <= i <= n,
            m < entries@.len(),
            epochs@.len() == entries@.len(),
            n == lines@.len(),
            ls == views(lines@),
            es == entries@,
            owners@.len() == n,
            out@.len() == i,
            forall|t: int| 0 <= t < n ==> #[trigger] owners@[t] <= m,
            forall|t: int| 0 <= t < n ==> line_owner(*inks, es, file_path@, t, ls[t], m as int, m as int) == #[trigger] owners@[t] as int,
            forall|t: int| 0 <= t < i ==> {
                let o = owners@[t] as int;
                &&& (#[trigger] out@[t]).line_number == t + 1
                &&& out@[t].content@ == ls[t]
                &&& out@[t].epoch_num == Some(epochs@[o].epoch_num)
                &&& out@[t].epoch_display@ == epoch_display_name(epochs@[o].is_origin, epochs@[o].epoch_num as int)
            },
        decreases n - i,
    {
        let e = &epochs[owners[i]];
        out.push(crate::types::BlameLine {
            line_number: i + 1,
            content: lines[i].clone(),
            epoch_num: Some(e.epoch_num),
            epoch_display: e.display_name(),
        });
        i = i + 1;
    }
    Some(out)
}

// ─── Search by file name ────────────────────────────────────────────────

/// A file found by name: the epoch it is in, its path and size.
#[derive(Debug)]
pub struct FindHit {
    pub epoch_display: String,
    pub file_path: String,
    pub size: i64,
}

/// Whether an entry matches a name search: not deleted, and its lowercased
/// path contains the lowercased pattern.
pub open spec fn find_matches(e: FileEntry, pattern: Seq<char>) -> bool {
    e.status != FileStatus::Deleted && contains_run(lowercase_of(e.file_path@), lowercase_of(pattern))
}

/// The hits among the first `m` entries of epoch `k`.
pub open spec fn find_hits_in(epochs: Seq<Epoch>, entries: Seq<Vec<FileEntry>>, pattern: Seq<char>, k: int, m: int) -> Seq<(Seq<char>, Seq<char>, i64)>
    decreases m,
{
    if m <= 0 {
        seq![]
    } else {
        let e = entries[k]@[m - 1];
        let rest = find_hits_in(epochs, entries, pattern, k, m - 1);
        if find_matches(e, pattern) {
            rest.push((epoch_display_name(epochs[k].is_origin, epochs[k].epoch_num as int), e.file_path@, match e.file_size { Some(s) => s, None => 0 }))
        } else {
            rest
        }
    }
}

/// The hits in the first `n` epochs, epoch by epoch.
pub open spec fn find_hits(epochs: Seq<Epoch>, entries: Seq<Vec<FileEntry>>, pattern: Seq<char>, n: int) -> Seq<(Seq<char>, Seq<char>, i64)>
    decreases n,
{
    if n <= 0 {
        seq![]
    } else {
        find_hits(epochs, entries, pattern, n - 1) + find_hits_in(epochs, entries, pattern, n - 1, entries[n - 1]@.len() as int)
    }
}

/// Whether two entries look alike to a name search whatever the case of
/// their paths: same status and size, and paths equal once lowercased.
pub open spec fn same_but_path_case(a: FileEntry, b: FileEntry) -> bool {
    &&& a.status == b.status
    &&& a.file_size == b.file_size
    &&& lowercase_of(a.file_path@) == lowercase_of(b.file_path@)
}

/// A hit without its path: the epoch and the size.
pub open spec fn hit_place(h: (Seq<char>, Seq<char>, i64)) -> (Seq<char>, i64) {
    (h.0, h.2)
}

proof fn lemma_find_in_ignores_case(
    epochs: Seq<Epoch>,
    entries: Seq<Vec<FileEntry>>,
    entries2: Seq<Vec<FileEntry>>,
    p: Seq<char>,
    p2: Seq<char>,
    k: int,
    m: int,
)
    requires
        lowercase_of(p) == lowercase_of(p2),
        0 <= m <= entries[k]@.len(),
        entries2[k]@.len() == entries[k]@.len(),
        forall|j: int| 0 <= j < entries[k]@.len() ==> same_but_path_case(#[trigger] entries[k]@[j], entries2[k]@[j]),
    ensures
        find_hits_in(epochs, entries, p, k, m).map_values(|h: (Seq<char>, Seq<char>, i64)| hit_place(h))
            == find_hits_in(epochs, entries2, p2, k, m).map_values(|h: (Seq<char>, Seq<char>, i64)| hit_place(h)),
    decreases m,
{
    if m > 0 {
        lemma_find_in_ignores_case(epochs, entries, entries2, p, p2, k, m - 1);
        let e = entries[k]@[m - 1];
        let e2 = entries2[k]@[m - 1];
        assert(same_but_path_case(e, e2));
        let r1 = find_hits_in(epochs, entries, p, k, m - 1);
        let r2 = find_hits_in(epochs, entries2, p2, k, m - 1);
        if find_matches(e, p) {
            let x1 = (epoch_display_name(epochs[k].is_origin, epochs[k].epoch_num as int), e.file_path@, match e.file_size { Some(s) => s, None => 0 });
            let x2 = (epoch_display_name(epochs[k].is_origin, epochs[k].epoch_num as int), e2.file_path@, match e2.file_size { Some(s) => s, None => 0 });
            assert(r1.push(x1).map_values(|h: (Seq<char>, Seq<char>, i64)| hit_place(h)) =~= r1.map_values(|h: (Seq<char>, Seq<char>, i64)| hit_place(h)).push(hit_place(x1)));
            assert(r2.push(x2).map_values(|h: (Seq<char>, Seq<char>, i64)| hit_place(h)) =~= r2.map_values(|h: (Seq<char>, Seq<char>, i64)| hit_place(h)).push(hit_place(x2)));
        }
    }
}

/// Law: a name search ignores case. Searching for a pattern that lowercases
/// to the same text, among entries whose paths lowercase to the same text
/// (with the same statuses and sizes), finds hits in the same epochs with the
/// same sizes, in the same order.
pub proof fn law_find_ignores_case(
    epochs: Seq<Epoch>,
    entries: Seq<Vec<FileEntry>>,
    entries2: Seq<Vec<FileEntry>>,
    p: Seq<char>,
    p2: Seq<char>,
)
    requires
        lowercase_of(p) == lowercase_of(p2),
        entries2.len() == entries.len(),
        forall|k: int| 0 <= k < entries.len() ==> (#[trigger] entries2[k])@.len() == entries[k]@.len(),
        forall|k: int, j: int|
            0 <= k < entries.len() && 0 <= j < entries[k]@.len() ==> same_but_path_case(
                #[trigger] entries[k]@[j],
                entries2[k]@[j],
            ),
    ensures
        find_hits(epochs, entries, p, entries.len() as int).map_values(|h: (Seq<char>, Seq<char>, i64)| hit_place(h))
            == find_hits(epochs, entries2, p2, entries.len() as int).map_values(|h: (Seq<char>, Seq<char>, i64)| hit_place(h)),
{
    lemma_find_ignores_case(epochs, entries, entries2, p, p2, entries.len() as int);
}

proof fn lemma_find_ignores_case(
    epochs: Seq<Epoch>,
    entries: Seq<Vec<FileEntry>>,
    entries2: Seq<Vec<FileEntry>>,
    p: Seq<char>,
    p2: Seq<char>,
    n: int,
)
    requires
        lowercase_of(p) == lowercase_of(p2),
        0 <= n <= entries.len(),
        entries2.len() == entries.len(),
        forall|k: int| 0 <= k < entries.len() ==> (#[trigger] entries2[k])@.len() == entries[k]@.len(),
        forall|k: int, j: int|
            0 <= k < entries.len() && 0 <= j < entries[k]@.len() ==> same_but_path_case(
                #[trigger] entries[k]@[j],
                entries2[k]@[j],
            ),
    ensures
        find_hits(epochs, entries, p, n).map_values(|h: (Seq<char>, Seq<char>, i64)| hit_place(h))
            == find_hits(epochs, entries2, p2, n).map_values(|h: (Seq<char>, Seq<char>, i64)| hit_place(h)),
    decreases n,
{
    if n > 0 {
        lemma_find_ignores_case(epochs, entries, entries2, p, p2, n - 1);
        let k = n - 1;
        assert(entries2[k]@.len() == entries[k]@.len());
        assert forall|j: int| 0 <= j < entries[k]@.len() implies same_but_path_case(#[trigger] entries[k]@[j], entries2[k]@[j]) by {
        }
        lemma_find_in_ignores_case(epochs, entries, entries2, p, p2, k, entries[k]@.len() as int);
        let a1 = find_hits(epochs, entries, p, n - 1);
        let b1 = find_hits_in(epochs, entries, p, k, entries[k]@.len() as int);
        let a2 = find_hits(epochs, entries2, p2, n - 1);
        let b2 = find_hits_in(epochs, entries2, p2, k, entries2[k]@.len() as int);
        assert((a1 + b1).map_values(|h: (Seq<char>, Seq<char>, i64)| hit_place(h)) =~= a1.map_values(|h: (Seq<char>, Seq<char>, i64)| hit_place(h)) + b1.map_values(|h: (Seq<char>, Seq<char>, i64)| hit_place(h)));
        assert((a2 + b2).map_values(|h: (Seq<char>, Seq<char>, i64)| hit_place(h)) =~= a2.map_values(|h: (Seq<char>, Seq<char>, i64)| hit_place(h)) + b2.map_values(|h: (Seq<char>, Seq<char>, i64)| hit_place(h)));
    }
}

/// Law: searching one epoch that holds one entry finds that entry (with the
/// epoch's name, its path and its size, 0 when unknown) exactly when it is not
/// deleted and its lowercased path contains the lowercased pattern.
pub proof fn law_find_single_entry(epochs: Seq<Epoch>, entries: Seq<Vec<FileEntry>>, p: Seq<char>)
    requires
        epochs.len() == 1,
        entries.len() == 1,
        entries[0]@.len() == 1,
    ensures
        ({
            let e = entries[0]@[0];
            find_hits(epochs, entries, p, 1) == if e.status != FileStatus::Deleted && contains_run(
                lowercase_of(e.file_path@),
                lowercase_of(p),
            ) {
                seq![(epoch_display_name(epochs[0].is_origin, epochs[0].epoch_num as int), e.file_path@, match e.file_size {
                    Some(s) => s,
                    None => 0,
                })]
            } else {
                Seq::<(Seq<char>, Seq<char>, i64)>::empty()
            }
        }),
{
    assert(find_hits(epochs, entries, p, 0) =~= Seq::<(Seq<char>, Seq<char>, i64)>::empty());
    assert(find_hits_in(epochs, entries, p, 0, 0) =~= Seq::<(Seq<char>, Seq<char>, i64)>::empty());
    let b = find_hits_in(epochs, entries, p, 0, 1);
    assert(find_hits(epochs, entries, p, 1) == find_hits(epochs, entries, p, 0) + b);
    assert(Seq::<(Seq<char>, Seq<char>, i64)>::empty() + b =~= b);
    assert(Seq::<(Seq<char>, Seq<char>, i64)>::empty().push(
        (epoch_display_name(epochs[0].is_origin, epochs[0].epoch_num as int), entries[0]@[0].file_path@, match entries[0]@[0].file_size {
            Some(s) => s,
            None => 0,
        })) =~= seq![(epoch_display_name(epochs[0].is_origin, epochs[0].epoch_num as int), entries[0]@[0].file_path@, match entries[0]@[0].file_size {
            Some(s) => s,
            None => 0,
        })]);
}

/// The value of a name-search hit.
pub open spec fn find_hit_view(h: FindHit) -> (Seq<char>, Seq<char>, i64) {
    (h.epoch_display@, h.file_path@, h.size)
}

/// Searches every epoch (oldest first, `entries[k]` being the entries of
/// `epochs[k]`) for files whose path contains `filename`, ignoring case;
/// deleted entries are skipped. Sizes default to 0.
pub fn find_files(epochs: &[Epoch], entries: &[Vec<FileEntry>], filename: &str) -> (r: Vec<FindHit>)
    requires
        epochs@.len() == entries@.len(),
    ensures
        r@.map_values(|h: FindHit| find_hit_view(h)) == find_hits(epochs@, entries@, filename@, entries@.len() as int),
{
    let pat = to_lowercase(filename);
    let pc = chars_of(pat.as_str());
    let mut out: Vec<FindHit> = Vec::new();
    let mut k: usize = 0;
    while k < entries.len()
        invariant
            0 <= k <= entries@.len(),
            epochs@.len() == entries@.len(),
            pc@ == lowercase_of(filename@),
            out@.map_values(|h: FindHit| find_hit_view(h)) == find_hits(epochs@, entries@, filename@, k as int),
        decreases entries.len() - k,
    {
        let list = &entries[k];
        let ghost start = out@.map_values(|h: FindHit| find_hit_view(h));
        let mut m: usize = 0;
        while m < list.len()
            invariant
                0 <= m <= list@.len(),
                k < entries@.len(),
                epochs@.len() == entries@.len(),
                list == entries@[k as int],
                pc@ == lowercase_of(filename@),
                out@.map_values(|h: FindHit| find_hit_view(h)) == start + find_hits_in(epochs@, entries@, filename@, k as int, m as int),
            decreases list.len() - m,
        {
            let e = &list[m];
            if e.status != FileStatus::Deleted {
                let lp = to_lowercase(e.file_path.as_str());
                let lc = chars_of(lp.as_str());
                if contains_chars(lc.as_slice(), pc.as_slice()) {
                    let ghost b = out@;
                    let hit = FindHit {
                        epoch_display: epochs[k].display_name(),
                        file_path: e.file_path.clone(),
                        size: match e.file_size { Some(s) => s, None => 0 },
                    };
                    out.push(hit);
                    assert(out@.map_values(|h: FindHit| find_hit_view(h)) =~= b.map_values(|h: FindHit| find_hit_view(h)).push(find_hit_view(hit)));
                }
            }
            m = m + 1;
        }
        k = k + 1;
    }
    out
}

// ─── Search by content ──────────────────────────────────────────────────

/// Whether `pattern` compiles as a `regex` crate regular expression.
pub uninterp spec fn regex_compiles(pattern: Seq<char>) -> bool;

/// Whether the regular expression `pattern` matches somewhere in `text`
/// (`regex::Regex::is_match`).
pub uninterp spec fn regex_matches(pattern: Seq<char>, text: Seq<char>) -> bool;

/// The `regex` crate's compiled regular expression.
#[verifier::external_type_specification]
#[verifier::external_body]
pub struct ExRegex(regex::Regex);

/// A compiled regular expression and the pattern it was compiled from.
pub struct LinePattern {
    re: regex::Regex,
    source: Ghost<Seq<char>>,
}

impl LinePattern {
    /// The pattern the expression was compiled from.
    pub closed spec fn pattern_source(&self) -> Seq<char> {
        self.source@
    }
}

/// Compiles a regular expression (`regex::Regex::new`); on failure, the
/// error's text.
#[verifier::external_body]
pub(crate) fn compile_pattern(pattern: &str) -> (r: Result<LinePattern, String>)
    ensures
        r is Ok == regex_compiles(pattern@),
        r matches Ok(p) ==> p.pattern_source() == pattern@,
{
    match regex::Regex::new(pattern) {
        Ok(re) => Ok(LinePattern { re, source: Ghost(pattern@) }),
        Err(e) => Err(e.to_string()),
    }
}

/// Whether the compiled expression matches somewhere in `line`
/// (`regex::Regex::is_match`).
#[verifier::external_body]
fn pattern_matches(p: &LinePattern, line: &str) -> (r: bool)
    ensures
        r == regex_matches(p.pattern_source(), line@),
{
    p.re.is_match(line)
}

/// A line found by content: the epoch, the file, the 1-based line number and the line.
#[derive(Debug)]
pub struct GrepHit {
    pub epoch_display: String,
    pub file_path: String,
    pub line_number: usize,
    pub line: String,
}

/// Whether a content search reads an entry: not deleted, with a hash, not binary.
pub open spec fn grep_reads(e: FileEntry) -> bool {
    e.status != FileStatus::Deleted && e.ink_hash is Some && !e.is_binary
}

/// The hits among the first `n` lines of a file.
pub open spec fn line_hits(display: Seq<char>, path: Seq<char>, lines: Seq<Seq<char>>, pattern: Seq<char>, n: int) -> Seq<(Seq<char>, Seq<char>, int, Seq<char>)>
    decreases n,
{
    if n <= 0 {
        seq![]
    } else if regex_matches(pattern, lines[n - 1]) {
        line_hits(display, path, lines, pattern, n - 1).push((display, path, n, lines[n - 1]))
    } else {
        line_hits(display, path, lines, pattern, n - 1)
    }
}

/// The hits of one entry: its matching lines, when it is read and its ink is stored.
pub open spec fn entry_hits(inks: InkStore, display: Seq<char>, e: FileEntry, pattern: Seq<char>) -> Seq<(Seq<char>, Seq<char>, int, Seq<char>)> {
    if grep_reads(e) {
        match inks.lookup(opt_view(e.ink_hash)->Some_0) {
            None => seq![],
            Some(c) => line_hits(display, e.file_path@, content_lines(c), pattern, content_lines(c).len() as int),
        }
    } else {
        seq![]
    }
}

/// The hits among the first `m` entries of epoch `k`.
pub open spec fn grep_hits_in(inks: InkStore, epochs: Seq<Epoch>, entries: Seq<Vec<FileEntry>>, pattern: Seq<char>, k: int, m: int) -> Seq<(Seq<char>, Seq<char>, int, Seq<char>)>
    decreases m,
{
    if m <= 0 {
        seq![]
    } else {
        grep_hits_in(inks, epochs, entries, pattern, k, m - 1) + entry_hits(
            inks,
            epoch_display_name(epochs[k].is_origin, epochs[k].epoch_num as int),
            entries[k]@[m - 1],
            pattern,
        )
    }
}

/// The hits in the first `n` epochs.
pub open spec fn grep_hits(inks: InkStore, epochs: Seq<Epoch>, entries: Seq<Vec<FileEntry>>, pattern: Seq<char>, n: int) -> Seq<(Seq<char>, Seq<char>, int, Seq<char>)>
    decreases n,
{
    if n <= 0 {
        seq![]
    } else {
        grep_hits(inks, epochs, entries, pattern, n - 1) + grep_hits_in(inks, epochs, entries, pattern, n - 1, entries[n - 1]@.len() as int)
    }
}

/// Whether two entries look alike to a content search whatever their status
/// beyond being deleted: same path, hash and binary flag, and both deleted or
/// both not.
pub open spec fn same_but_live_status(a: FileEntry, b: FileEntry) -> bool {
    &&& a.file_path@ == b.file_path@
    &&& opt_view(a.ink_hash) == opt_view(b.ink_hash)
    &&& a.is_binary == b.is_binary
    &&& (a.status == FileStatus::Deleted) == (b.status == FileStatus::Deleted)
}

proof fn lemma_grep_in_ignores_status(
    inks: InkStore,
    epochs: Seq<Epoch>,
    entries: Seq<Vec<FileEntry>>,
    entries2: Seq<Vec<FileEntry>>,
    p: Seq<char>,
    k: int,
    m: int,
)
    requires
        0 <= m <= entries[k]@.len(),
        entries2[k]@.len() == entries[k]@.len(),
        forall|j: int| 0 <= j < entries[k]@.len() ==> same_but_live_status(#[trigger] entries[k]@[j], entries2[k]@[j]),
    ensures
        grep_hits_in(inks, epochs, entries, p, k, m) == grep_hits_in(inks, epochs, entries2, p, k, m),
    decreases m,
{
    if m > 0 {
        lemma_grep_in_ignores_status(inks, epochs, entries, entries2, p, k, m - 1);
        let e = entries[k]@[m - 1];
        let e2 = entries2[k]@[m - 1];
        assert(same_but_live_status(e, e2));
        assert(grep_reads(e) == grep_reads(e2));
    }
}

proof fn lemma_grep_ignores_status(
    inks: InkStore,
    epochs: Seq<Epoch>,
    entries: Seq<Vec<FileEntry>>,
    entries2: Seq<Vec<FileEntry>>,
    p: Seq<char>,
    n: int,
)
    requires
        0 <= n <= entries.len(),
        entries2.len() == entries.len(),
        forall|k: int| 0 <= k < entries.len() ==> (#[trigger] entries2[k])@.len() == entries[k]@.len(),
        forall|k: int, j: int|
            0 <= k < entries.len() && 0 <= j < entries[k]@.len() ==> same_but_live_status(
                #[trigger] entries[k]@[j],
                entries2[k]@[j],
            ),
    ensures
        grep_hits(inks, epochs, entries, p, n) == grep_hits(inks, epochs, entries2, p, n),
    decreases n,
{
    if n > 0 {
        lemma_grep_ignores_status(inks, epochs, entries, entries2, p, n - 1);
        let k = n - 1;
        assert(entries2[k]@.len() == entries[k]@.len());
        assert forall|j: int| 0 <= j < entries[k]@.len() implies same_but_live_status(#[trigger] entries[k]@[j], entries2[k]@[j]) by {
        }
        lemma_grep_in_ignores_status(inks, epochs, entries, entries2, p, k, entries[k]@.len() as int);
    }
}

/// Law: a content search reads every entry that is not deleted, whatever its
/// status: entries that differ only in status (added, modified or unchanged,
/// or deleted on both sides) give the same hits.
pub proof fn law_grep_ignores_live_status(
    inks: InkStore,
    epochs: Seq<Epoch>,
    entries: Seq<Vec<FileEntry>>,
    entries2: Seq<Vec<FileEntry>>,
    p: Seq<char>,
)
    requires
        entries2.len() == entries.len(),
        forall|k: int| 0 <= k < entries.len() ==> (#[trigger] entries2[k])@.len() == entries[k]@.len(),
        forall|k: int, j: int|
            0 <= k < entries.len() && 0 <= j < entries[k]@.len() ==> same_but_live_status(
                #[trigger] entries[k]@[j],
                entries2[k]@[j],
            ),
    ensures
        grep_hits(inks, epochs, entries, p, entries.len() as int) == grep_hits(inks, epochs, entries2, p, entries.len() as int),
{
    lemma_grep_ignores_status(inks, epochs, entries, entries2, p, entries.len() as int);
}

/// Law: searching one epoch that holds one entry gives, when the entry is not
/// deleted, has a hash, is not binary and its ink is stored, the lines of its
/// content that the expression matches (numbered from 1, with the epoch's
/// name and the path), whatever its status; otherwise nothing.
pub proof fn law_grep_single_entry(inks: InkStore, epochs: Seq<Epoch>, entries: Seq<Vec<FileEntry>>, p: Seq<char>)
    requires
        epochs.len() == 1,
        entries.len() == 1,
        entries[0]@.len() == 1,
    ensures
        ({
            let e = entries[0]@[0];
            let d = epoch_display_name(epochs[0].is_origin, epochs[0].epoch_num as int);
            grep_hits(inks, epochs, entries, p, 1) == if e.status != FileStatus::Deleted && !e.is_binary
                && e.ink_hash is Some && inks.lookup(opt_view(e.ink_hash)->Some_0) is Some {
                let c = inks.lookup(opt_view(e.ink_hash)->Some_0)->Some_0;
                line_hits(d, e.file_path@, content_lines(c), p, content_lines(c).len() as int)
            } else {
                Seq::<(Seq<char>, Seq<char>, int, Seq<char>)>::empty()
            }
        }),
{
    let e = entries[0]@[0];
    let d = epoch_display_name(epochs[0].is_origin, epochs[0].epoch_num as int);
    assert(grep_hits(inks, epochs, entries, p, 0) =~= Seq::<(Seq<char>, Seq<char>, int, Seq<char>)>::empty());
    assert(grep_hits_in(inks, epochs, entries, p, 0, 0) =~= Seq::<(Seq<char>, Seq<char>, int, Seq<char>)>::empty());
    let h = entry_hits(inks, d, e, p);
    assert(grep_hits_in(inks, epochs, entries, p, 0, 1) == Seq::<(Seq<char>, Seq<char>, int, Seq<char>)>::empty() + h);
    assert(Seq::<(Seq<char>, Seq<char>, int, Seq<char>)>::empty() + h =~= h);
    assert(grep_hits(inks, epochs, entries, p, 1) == Seq::<(Seq<char>, Seq<char>, int, Seq<char>)>::empty() + grep_hits_in(inks, epochs, entries, p, 0, 1));
    if e.ink_hash is Some {
        assert(opt_view(e.ink_hash) is Some);
    } else {
        assert(opt_view(e.ink_hash) is None);
    }
}

/// Law: each line a content search reports is a line of the file, at the
/// number given (counting from 1), that the expression matches; the lines
/// come in order.
pub proof fn law_line_hits_are_matching_lines(display: Seq<char>, path: Seq<char>, lines: Seq<Seq<char>>, p: Seq<char>, n: int)
    requires
        0 <= n <= lines.len(),
    ensures
        forall|i: int| 0 <= i < line_hits(display, path, lines, p, n).len() ==> {
            let h = #[trigger] line_hits(display, path, lines, p, n)[i];
            &&& 1 <= h.2 <= n
            &&& h.3 == lines[h.2 - 1]
            &&& regex_matches(p, h.3)
            &&& h.0 == display && h.1 == path
        },
        forall|i: int, j: int|
            0 <= i < j < line_hits(display, path, lines, p, n).len() ==> (#[trigger] line_hits(display, path, lines, p, n)[i]).2
                < (#[trigger] line_hits(display, path, lines, p, n)[j]).2,
        forall|l: int| 0 <= l < n && regex_matches(p, #[trigger] lines[l]) ==> exists|i: int|
            0 <= i < line_hits(display, path, lines, p, n).len() && (#[trigger] line_hits(display, path, lines, p, n)[i]).2 == l + 1,
    decreases n,
{
    if n > 0 {
        law_line_hits_are_matching_lines(display, path, lines, p, n - 1);
        let prev = line_hits(display, path, lines, p, n - 1);
        let cur = line_hits(display, path, lines, p, n);
        if regex_matches(p, lines[n - 1]) {
            assert(cur == prev.push((display, path, n, lines[n - 1])));
            assert forall|l: int| 0 <= l < n && regex_matches(p, #[trigger] lines[l]) implies exists|i: int|
                0 <= i < cur.len() && (#[trigger] cur[i]).2 == l + 1 by {
                if l == n - 1 {
                    assert(cur[prev.len() as int].2 == l + 1);
                } else {
                    let i = choose|i: int| 0 <= i < prev.len() && (#[trigger] prev[i]).2 == l + 1;
                    assert(cur[i] == prev[i]);
                }
            }
            assert forall|i: int| 0 <= i < cur.len() implies {
                let h = #[trigger] cur[i];
                &&& 1 <= h.2 <= n
                &&& h.3 == lines[h.2 - 1]
                &&& regex_matches(p, h.3)
                &&& h.0 == display && h.1 == path
            } by {
                if i < prev.len() {
                    assert(cur[i] == prev[i]);
                }
            }
            assert forall|i: int, j: int| 0 <= i < j < cur.len() implies (#[trigger] cur[i]).2 < (#[trigger] cur[j]).2 by {
                assert(cur[i] == prev[i]);
                if j < prev.len() {
                    assert(cur[j] == prev[j]);
                }
            }
        }
    }
}

/// The value of a content-search hit.
pub open spec fn grep_hit_view(h: GrepHit) -> (Seq<char>, Seq<char>, int, Seq<char>) {
    (h.epoch_display@, h.file_path@, h.line_number as int, h.line@)
}

/// Searches the content of every epoch (oldest first, `entries[k]` being the
/// entries of `epochs[k]`) for lines the expression matches. Deleted and
/// binary entries, entries without a hash and entries whose ink is missing
/// are skipped.
pub fn grep_lines(epochs: &[Epoch], entries: &[Vec<FileEntry>], pattern: &LinePattern, inks: &InkStore) -> (r: Vec<GrepHit>)
    requires
        epochs@.len() == entries@.len(),
    ensures
        r@.map_values(|h: GrepHit| grep_hit_view(h)) == grep_hits(*inks, epochs@, entries@, pattern.pattern_source(), entries@.len() as int),
{
    let mut out: Vec<GrepHit> = Vec::new();
    let mut k: usize = 0;
    while k < entries.len()
        invariant
            0 <= k <= entries@.len(),
            epochs@.len() == entries@.len(),
            out@.map_values(|h: GrepHit| grep_hit_view(h)) == grep_hits(*inks, epochs@, entries@, pattern.pattern_source(), k as int),
        decreases entries.len() - k,
    {
        let list = &entries[k];
        let display = epochs[k].display_name();
        let ghost start = out@.map_values(|h: GrepHit| grep_hit_view(h));
        let mut m: usize = 0;
        while m < list.len()
            invariant
                0 <= m <= list@.len(),
                k < entries@.len(),
                epochs@.len() == entries@.len(),
                list == entries@[k as int],
                display@ == epoch_display_name(epochs@[k as int].is_origin, epochs@[k as int].epoch_num as int),
                out@.map_values(|h: GrepHit| grep_hit_view(h)) == start + grep_hits_in(*inks, epochs@, entries@, pattern.pattern_source(), k as int, m as int),
            decreases list.len() - m,
        {
            let e = &list[m];
            let ghost mid = out@.map_values(|h: GrepHit| grep_hit_view(h));
            if e.status != FileStatus::Deleted && !e.is_binary {
                match &e.ink_hash {
                    None => {},
                    Some(h) => match inks.read_ink(h.as_str()) {
                        Err(_) => {},
                        Ok(content) => {
                            let lines = content_to_lines(content.as_slice());
                            let mut n: usize = 0;
                            while n < lines.len()
                                invariant
                                    0 <= n <= lines@.len(),
                                    views(lines@) == content_lines(content@),
                                    out@.map_values(|h: GrepHit| grep_hit_view(h)) == mid + line_hits(display@, e.file_path@, views(lines@), pattern.pattern_source(), n as int),
                                decreases lines.len() - n,
                            {
                                if pattern_matches(pattern, lines[n].as_str()) {
                                    let ghost b = out@;
                                    let hit = GrepHit {
                                        epoch_display: display.clone(),
                                        file_path: e.file_path.clone(),
                                        line_number: n + 1,
                                        line: lines[n].clone(),
                                    };
                                    out.push(hit);
                                    assert(views(lines@)[n as int] == lines@[n as int]@);
                                    assert(out@.map_values(|h: GrepHit| grep_hit_view(h)) =~= b.map_values(|h: GrepHit| grep_hit_view(h)).push(grep_hit_view(hit)));
                                } else {
                                    assert(views(lines@)[n as int] == lines@[n as int]@);
                                }
                                n = n + 1;
                            }
                        },
                    },
                }
            }
            m = m + 1;
            proof {
                assert(grep_hits_in(*inks, epochs@, entries@, pattern.pattern_source(), k as int, m as int) == grep_hits_in(*inks, epochs@, entries@, pattern.pattern_source(), k as int, m - 1) + entry_hits(*inks, display@, entries@[k as int]@[m - 1], pattern.pattern_source()));
                assert(out@.map_values(|h: GrepHit| grep_hit_view(h)) =~= start + grep_hits_in(*inks, epochs@, entries@, pattern.pattern_source(), k as int, m as int));
            }
        }
        k = k + 1;
    }
    out
}

/// Searches the content of every epoch (oldest first, `entries[k]` being
/// the entries of `epochs[k]`) for lines the regular expression `pattern`
/// matches; an error when the pattern does not compile.
pub fn grep(epochs: &[Epoch], entries: &[Vec<FileEntry>], pattern: &str, inks: &InkStore) -> (r: Result<Vec<GrepHit>, String>)
    requires
        epochs@.len() == entries@.len(),
    ensures
        r is Ok == regex_compiles(pattern@),
        r matches Ok(hits) ==> hits@.map_values(|h: GrepHit| grep_hit_view(h)) == grep_hits(*inks, epochs@, entries@, pattern@, entries@.len() as int),
{
    match compile_pattern(pattern) {
        Ok(p) => Ok(grep_lines(epochs, entries, &p, inks)),
        Err(e) => Err(e),
    }
}

} // verus!
