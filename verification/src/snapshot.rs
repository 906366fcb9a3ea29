//! Decisions of taking a snapshot: its number and name, and what to do with
//! the ink of each file entry; and of removing an epoch.

use vstd::prelude::*;
use crate::diff::{find_entry, first_with_path, lemma_first_with_path_pub};
use crate::text::views;
use crate::types::{epoch_display_name, opt_view, Epoch, FileEntry, FileStatus};

verus! {

/// The number of the next epoch and whether it is the origin: the origin
/// (number 0) when no live epoch exists (`latest` is negative), else one more
/// than the latest number.
pub open spec fn next_epoch_spec(latest: int) -> (int, bool) {
    if latest < 0 {
        (0, true)
    } else {
        (latest + 1, false)
    }
}

/// Numbers the next epoch from the latest live epoch number (negative when
/// there is none).
pub fn next_epoch(latest: i64) -> (r: (i64, bool))
    requires
        latest < i64::MAX,
    ensures
        r.0 == next_epoch_spec(latest as int).0,
        r.1 == next_epoch_spec(latest as int).1,
{
    if latest < 0 {
        (0, true)
    } else {
        (latest + 1, false)
    }
}

/// The name under which a new snapshot is announced: `origin`, or `epoch-N`.
pub fn snapshot_name(num: i64, is_origin: bool) -> (r: String)
    ensures
        r@ == epoch_display_name(is_origin, num as int),
{
    let e = crate::types::Epoch {
        id: 0,
        epoch_num: num,
        timestamp: 0,
        message: None,
        is_origin,
        is_deleted: false,
        is_locked: false,
    };
    e.display_name()
}

/// The number of the next phantom: one more than the latest (0 when none).
pub fn next_phantom_num(latest: i64) -> (r: i64)
    requires
        latest < i64::MAX,
    ensures
        r == latest + 1,
{
    latest + 1
}

/// What a snapshot does with the ink of one entry.
#[derive(Debug)]
pub enum InkStep {
    /// Read the file, store its content as an ink, and record its hash.
    Store,
    /// Reference the ink the previous snapshot had for this deleted file.
    Reference { hash: String, size: i64 },
    /// Leave the entry as it is.
    Keep,
}

/// The value of an ink step: 0 = store, 1 = reference (with hash and size), 2 = keep.
pub open spec fn ink_step_view(s: InkStep) -> (int, Seq<char>, i64) {
    match s {
        InkStep::Store => (0, seq![], 0),
        InkStep::Reference { hash, size } => (1, hash@, size),
        InkStep::Keep => (2, seq![], 0),
    }
}

/// The step for an entry with a hash: a file that exists and is not deleted
/// is stored; a deleted file references the hash of the first previous entry
/// with its path (size defaulting to 0), if that entry has one; anything else
/// is kept.
pub open spec fn ink_step_spec(e: FileEntry, exists: bool, previous: Seq<FileEntry>) -> (int, Seq<char>, i64) {
    if e.ink_hash is None {
        (2, seq![], 0)
    } else if exists && e.status != FileStatus::Deleted {
        (0, seq![], 0)
    } else if e.status == FileStatus::Deleted {
        match first_with_path(previous, e.file_path@) {
            Some(i) => match opt_view(previous[i].ink_hash) {
                Some(h) => (1, h, match e.file_size { Some(s) => s, None => 0 }),
                None => (2, seq![], 0),
            },
            None => (2, seq![], 0),
        }
    } else {
        (2, seq![], 0)
    }
}

/// Law: a snapshot stores the content of an entry exactly when the entry has
/// a hash, its file exists and it is not deleted, whatever its status
/// (added, modified or unchanged); such an entry is never kept or referenced.
pub proof fn law_existing_files_are_stored(e: FileEntry, exists: bool, previous: Seq<FileEntry>)
    ensures
        (e.ink_hash is Some && exists && e.status != FileStatus::Deleted) ==> ink_step_spec(e, exists, previous)
            == ink_step_view(InkStep::Store),
        ink_step_spec(e, exists, previous) == ink_step_view(InkStep::Store) ==> e.ink_hash is Some && exists
            && e.status != FileStatus::Deleted,
{
}

/// Law: a deleted entry with a hash references the ink the previous snapshot
/// had for its path, with the entry's size (0 when unknown).
pub proof fn law_deleted_files_reference_previous_ink(e: FileEntry, exists: bool, previous: Seq<FileEntry>, i: int)
    requires
        e.ink_hash is Some,
        e.status == FileStatus::Deleted,
        0 <= i < previous.len(),
        previous[i].file_path@ == e.file_path@,
        forall|j: int| 0 <= j < i ==> (#[trigger] previous[j]).file_path@ != e.file_path@,
        previous[i].ink_hash is Some,
    ensures
        ink_step_spec(e, exists, previous) == (1int, previous[i].ink_hash->Some_0@, match e.file_size {
            Some(s) => s,
            None => 0i64,
        }),
{
    crate::diff::lemma_first_with_path_pub(previous, e.file_path@);
}

/// Decides what a snapshot does with an entry's ink, given whether its file
/// exists now and the entries of the previous snapshot.
pub fn ink_step(entry: &FileEntry, file_exists: bool, previous: &[FileEntry]) -> (r: InkStep)
    ensures
        ink_step_view(r) == ink_step_spec(*entry, file_exists, previous@),
{
    if entry.ink_hash.is_none() {
        return InkStep::Keep;
    }
    if file_exists && entry.status != FileStatus::Deleted {
        return InkStep::Store;
    }
    if entry.status == FileStatus::Deleted {
        proof {
            lemma_first_with_path_pub(previous@, entry.file_path@);
        }
        match find_entry(previous, entry.file_path.as_str()) {
            Some(i) => match &previous[i].ink_hash {
                Some(h) => InkStep::Reference {
                    hash: h.clone(),
                    size: match entry.file_size { Some(s) => s, None => 0 },
                },
                None => InkStep::Keep,
            },
            None => InkStep::Keep,
        }
    } else {
        InkStep::Keep
    }
}

/// `a` divided by `b`, rounded toward zero (Rust's `/`).
pub open spec fn trunc_div(a: int, b: int) -> int {
    if a >= 0 {
        a / b
    } else {
        -((-a) / b)
    }
}

/// The hours and the remaining minutes (`num_hours()` and
/// `num_minutes() % 60` of a `chrono::TimeDelta`) of a duration given in
/// nanoseconds; whole seconds are counted toward zero.
pub open spec fn hours_minutes_spec(ns: int) -> (int, int) {
    let secs = trunc_div(ns, 1_000_000_000);
    let mins = trunc_div(secs, 60);
    (trunc_div(secs, 3600), mins - 60 * trunc_div(mins, 60))
}

/// Splits a duration in nanoseconds into whole hours and the minutes left over
/// (negative durations give negative parts).
pub fn hours_minutes(ns: i128) -> (r: (i64, i64))
    requires
        -18446744073709551616 <= ns <= 18446744073709551616,
    ensures
        r.0 == hours_minutes_spec(ns as int).0,
        r.1 == hours_minutes_spec(ns as int).1,
{
    let neg = ns < 0;
    let mag: u128 = if neg { (-ns) as u128 } else { ns as u128 };
    let secs = mag / 1_000_000_000;
    let mins = secs / 60;
    let hours = secs / 3600;
    let rem = mins % 60;
    assert(secs <= 18446744074) by (nonlinear_arith)
        requires
            mag <= 18446744073709551616,
            secs == mag / 1_000_000_000,
    ;
    assert(mins - 60 * (mins / 60) == mins % 60) by (nonlinear_arith);
    if neg {
        (-(hours as i64), -(rem as i64))
    } else {
        (hours as i64, rem as i64)
    }
}

/// Why an epoch cannot be removed.
#[derive(Debug, Clone, Copy, PartialEq, Eq, Structural)]
pub enum RemovalError {
    /// The epoch is locked.
    Locked,
}

/// The inks whose references a removal gives up: the hash of each entry
/// that has one, in the entries' order.
pub open spec fn released_inks(entries: Seq<FileEntry>) -> Seq<Seq<char>>
    decreases entries.len(),
{
    if entries.len() == 0 {
        seq![]
    } else {
        let rest = released_inks(entries.drop_last());
        match opt_view(entries.last().ink_hash) {
            Some(h) => rest.push(h),
            None => rest,
        }
    }
}

/// Plans the removal of an epoch with these entries: refused when the epoch
/// is locked; otherwise the hashes whose reference counts drop, one for
/// each entry with an ink.
pub fn removal_plan(epoch: &Epoch, entries: &[FileEntry]) -> (r: Result<Vec<String>, RemovalError>)
    ensures
        epoch.is_locked ==> r == Err::<Vec<String>, RemovalError>(RemovalError::Locked),
        !epoch.is_locked ==> r is Ok && views(r->Ok_0@) == released_inks(entries@),
{
    if epoch.is_locked {
        return Err(RemovalError::Locked);
    }
    let mut out: Vec<String> = Vec::new();
    let mut i: usize = 0;
    while i < entries.len()
        invariant
            0 <= i <= entries@.len(),
            views(out@) == released_inks(entries@.take(i as int)),
        decreases entries.len() - i,
    {
        assert(entries@.take(i + 1).drop_last() =~= entries@.take(i as int));
        let ghost before = out@;
        match &entries[i].ink_hash {
            Some(h) => {
                out.push(h.clone());
                assert(views(out@) =~= views(before).push(h@));
            },
            None => {},
        }
        i = i + 1;
    }
    assert(entries@.take(entries@.len() as int) =~= entries@);
    Ok(out)
}

} // verus!
