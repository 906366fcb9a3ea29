//! The data shared by the whole library: snapshots, file entries, diffs,
//! configuration and summaries.

use vstd::prelude::*;
use crate::number::{decimal_text, format_i64};
use crate::text::{chars_of, concat_chars, lowercase_of, str_eq, string_from_chars, to_lowercase};

verus! {

/// The kind of a snapshot: a user-made epoch, or a phantom made automatically
/// before a restore.
#[derive(Debug, Clone, Copy, PartialEq, Eq, Structural)]
pub enum SnapshotType {
    Epoch,
    Phantom,
}

/// The name under which a snapshot kind is stored.
pub open spec fn snapshot_type_name(t: SnapshotType) -> Seq<char> {
    match t {
        SnapshotType::Epoch => "epoch"@,
        SnapshotType::Phantom => "phantom"@,
    }
}

impl SnapshotType {
    /// The stored name of this kind: `"epoch"` or `"phantom"`.
    pub fn as_str(&self) -> (r: &'static str)
        ensures
            r@ == snapshot_type_name(*self),
    {
        match self {
            SnapshotType::Epoch => "epoch",
            SnapshotType::Phantom => "phantom",
        }
    }
}

/// How a file in a snapshot relates to the same path in the snapshot before it.
#[derive(Debug, Clone, Copy, PartialEq, Eq, Structural)]
pub enum FileStatus {
    Added,
    Modified,
    Deleted,
    Unchanged,
}

/// The name under which a file status is stored.
pub open spec fn file_status_name(s: FileStatus) -> Seq<char> {
    match s {
        FileStatus::Added => "added"@,
        FileStatus::Modified => "modified"@,
        FileStatus::Deleted => "deleted"@,
        FileStatus::Unchanged => "unchanged"@,
    }
}

/// The status stored under the name `s`, if any.
pub open spec fn file_status_from_name(s: Seq<char>) -> Option<FileStatus> {
    if s == "added"@ {
        Some(FileStatus::Added)
    } else if s == "modified"@ {
        Some(FileStatus::Modified)
    } else if s == "deleted"@ {
        Some(FileStatus::Deleted)
    } else if s == "unchanged"@ {
        Some(FileStatus::Unchanged)
    } else {
        None
    }
}

impl FileStatus {
    /// The stored name of this status.
    pub fn as_str(&self) -> (r: &'static str)
        ensures
            r@ == file_status_name(*self),
    {
        match self {
            FileStatus::Added => "added",
            FileStatus::Modified => "modified",
            FileStatus::Deleted => "deleted",
            FileStatus::Unchanged => "unchanged",
        }
    }

    /// The status stored under the name `s`; `None` for any other text.
    pub fn from_str(s: &str) -> (r: Option<FileStatus>)
        ensures
            r == file_status_from_name(s@),
    {
        if str_eq(s, "added") {
            Some(FileStatus::Added)
        } else if str_eq(s, "modified") {
            Some(FileStatus::Modified)
        } else if str_eq(s, "deleted") {
            Some(FileStatus::Deleted)
        } else if str_eq(s, "unchanged") {
            Some(FileStatus::Unchanged)
        } else {
            None
        }
    }
}

/// Law: a status's stored name reads back as the same status.
pub proof fn law_file_status_name_roundtrip(s: FileStatus)
    ensures
        file_status_from_name(file_status_name(s)) == Some(s),
{
    reveal_strlit("added");
    reveal_strlit("modified");
    reveal_strlit("deleted");
    reveal_strlit("unchanged");
    assert("added"@.len() == 5);
    assert("modified"@.len() == 8);
    assert("deleted"@.len() == 7);
    assert("unchanged"@.len() == 9);
}

/// The display name of an epoch: `origin`, or `epoch-N`.
pub open spec fn epoch_display_name(is_origin: bool, epoch_num: int) -> Seq<char> {
    if is_origin {
        "origin"@
    } else {
        "epoch-"@ + decimal_text(epoch_num)
    }
}

/// The display name of a phantom: `phantom-N`.
pub open spec fn phantom_display_name(phantom_num: int) -> Seq<char> {
    "phantom-"@ + decimal_text(phantom_num)
}

/// An epoch (a snapshot). Times are nanoseconds since the Unix epoch, UTC.
#[derive(Debug, Clone)]
pub struct Epoch {
    pub id: i64,
    pub epoch_num: i64,
    pub timestamp: i64,
    pub message: Option<String>,
    pub is_origin: bool,
    pub is_deleted: bool,
    pub is_locked: bool,
}

impl Epoch {
    /// `origin` for the origin, `epoch-N` for the others.
    pub fn display_name(&self) -> (r: String)
        ensures
            r@ == epoch_display_name(self.is_origin, self.epoch_num as int),
    {
        if self.is_origin {
            let v = chars_of("origin");
            string_from_chars(v.as_slice())
        } else {
            let p = chars_of("epoch-");
            let d = format_i64(self.epoch_num);
            let v = concat_chars(p.as_slice(), d.as_slice());
            string_from_chars(v.as_slice())
        }
    }
}

/// How long a phantom lives: 24 hours, in nanoseconds.
pub const PHANTOM_TTL_NANOS: i64 = 86_400_000_000_000;

/// A phantom: an automatic backup made before a restore, which expires
/// after a day. Times are nanoseconds since the Unix epoch, UTC.
#[derive(Debug, Clone)]
pub struct Phantom {
    pub id: i64,
    pub phantom_num: i64,
    pub timestamp: i64,
    pub expires_at: i64,
    pub message: Option<String>,
    pub is_deleted: bool,
}

impl Phantom {
    /// `phantom-N`.
    pub fn display_name(&self) -> (r: String)
        ensures
            r@ == phantom_display_name(self.phantom_num as int),
    {
        let p = chars_of("phantom-");
        let d = format_i64(self.phantom_num);
        let v = concat_chars(p.as_slice(), d.as_slice());
        string_from_chars(v.as_slice())
    }

    /// When a phantom made at `now` expires: 24 hours later (times in
    /// nanoseconds since the Unix epoch).
    pub fn expiry_for(now: i64) -> (r: i64)
        requires
            now <= i64::MAX - PHANTOM_TTL_NANOS,
        ensures
            r == now + PHANTOM_TTL_NANOS,
    {
        now + PHANTOM_TTL_NANOS
    }

    /// Nanoseconds from `now` until the phantom expires (negative once expired).
    pub fn remaining_ttl(&self, now: i64) -> (r: i128)
        ensures
            r == self.expires_at - now,
    {
        self.expires_at as i128 - now as i128
    }

    /// Whether the phantom has expired at time `now`.
    pub fn is_expired(&self, now: i64) -> (r: bool)
        ensures
            r == (now >= self.expires_at),
    {
        now >= self.expires_at
    }
}

/// A file within a snapshot (epoch or phantom).
#[derive(Debug, Clone)]
pub struct FileEntry {
    pub id: i64,
    pub snapshot_id: i64,
    pub snapshot_type: SnapshotType,
    pub file_path: String,
    pub ink_hash: Option<String>,
    pub file_size: Option<i64>,
    pub modified_at: Option<String>,
    pub status: FileStatus,
    pub is_binary: bool,
}

/// The character view of an optional string.
pub open spec fn opt_view(o: Option<String>) -> Option<Seq<char>> {
    match o {
        Some(s) => Some(s@),
        None => None,
    }
}

/// Copies an optional string.
pub fn copy_opt_string(o: &Option<String>) -> (r: Option<String>)
    ensures
        opt_view(r) == opt_view(*o),
{
    match o {
        Some(s) => Some(s.clone()),
        None => None,
    }
}

impl FileEntry {
    /// Whether `other` records the same file in the same way (every field equal,
    /// strings compared by their characters).
    pub open spec fn same_as(&self, other: &FileEntry) -> bool {
        &&& self.id == other.id
        &&& self.snapshot_id == other.snapshot_id
        &&& self.snapshot_type == other.snapshot_type
        &&& self.file_path@ == other.file_path@
        &&& opt_view(self.ink_hash) == opt_view(other.ink_hash)
        &&& self.file_size == other.file_size
        &&& opt_view(self.modified_at) == opt_view(other.modified_at)
        &&& self.status == other.status
        &&& self.is_binary == other.is_binary
    }

    /// A copy of this entry.
    pub fn copy(&self) -> (r: FileEntry)
        ensures
            r.same_as(self),
    {
        FileEntry {
            id: self.id,
            snapshot_id: self.snapshot_id,
            snapshot_type: self.snapshot_type,
            file_path: self.file_path.clone(),
            ink_hash: copy_opt_string(&self.ink_hash),
            file_size: self.file_size,
            modified_at: copy_opt_string(&self.modified_at),
            status: self.status,
            is_binary: self.is_binary,
        }
    }
}

/// Ink metadata: a stored file content, keyed by its SHA-256 hash.
#[derive(Debug, Clone)]
pub struct InkInfo {
    pub hash: String,
    pub size: i64,
    pub compressed: bool,
    pub created_at: i64,
    pub ref_count: i64,
}

/// A named tag for an epoch.
#[derive(Debug, Clone)]
pub struct Tag {
    pub id: i64,
    pub epoch_id: i64,
    pub name: String,
    pub created: i64,
}

/// A note attached to an epoch.
#[derive(Debug, Clone)]
pub struct Note {
    pub id: i64,
    pub epoch_id: i64,
    pub text: String,
    pub created: i64,
}

/// The kind of a diff hunk.
#[derive(Debug, Clone, Copy, PartialEq, Eq, Structural)]
pub enum DiffChangeType {
    Equal,
    Insert,
    Delete,
    Replace,
}

/// A changed region between two versions of a file. Starts are 1-based line
/// numbers (0 where a side of a whole-file hunk is empty).
#[derive(Debug, Clone)]
pub struct DiffHunk {
    pub old_start: usize,
    pub old_lines: Vec<String>,
    pub new_start: usize,
    pub new_lines: Vec<String>,
    pub change_type: DiffChangeType,
}

/// The result of comparing one file between two epochs.
#[derive(Debug, Clone)]
pub struct FileDiff {
    pub file_path: String,
    pub status: FileStatus,
    pub hunks: Vec<DiffHunk>,
    pub additions: usize,
    pub deletions: usize,
}

/// A line of a blame annotation.
#[derive(Debug, Clone)]
pub struct BlameLine {
    pub line_number: usize,
    pub content: String,
    pub epoch_num: Option<i64>,
    pub epoch_display: String,
}

/// Archive format of an export.
#[derive(Debug, Clone, Copy, PartialEq, Eq, Structural)]
pub enum ExportFormat {
    Zip,
    Tar,
}

/// The format named by `lowered`, which is the lowercased argument.
pub open spec fn export_format_from_lowered(lowered: Seq<char>) -> Option<ExportFormat> {
    if lowered == "zip"@ {
        Some(ExportFormat::Zip)
    } else if lowered == "tar"@ {
        Some(ExportFormat::Tar)
    } else {
        None
    }
}

/// The file extension of an export format.
pub open spec fn export_extension(f: ExportFormat) -> Seq<char> {
    match f {
        ExportFormat::Zip => "zip"@,
        ExportFormat::Tar => "tar.gz"@,
    }
}

impl ExportFormat {
    /// The format named by `s`, compared after Unicode lowercasing.
    pub fn from_str(s: &str) -> (r: Option<ExportFormat>)
        ensures
            r == export_format_from_lowered(lowercase_of(s@)),
    {
        let l = to_lowercase(s);
        if str_eq(l.as_str(), "zip") {
            Some(ExportFormat::Zip)
        } else if str_eq(l.as_str(), "tar") {
            Some(ExportFormat::Tar)
        } else {
            None
        }
    }

    /// `zip` or `tar.gz`.
    pub fn extension(&self) -> (r: &'static str)
        ensures
            r@ == export_extension(*self),
    {
        match self {
            ExportFormat::Zip => "zip",
            ExportFormat::Tar => "tar.gz",
        }
    }
}

/// Summary of changes recorded in a snapshot, for `status`.
#[derive(Debug, Clone)]
pub struct StatusSummary {
    pub added: Vec<String>,
    pub modified: Vec<String>,
    pub deleted: Vec<String>,
    pub unchanged: usize,
}

impl StatusSummary {
    /// The number of added, modified and deleted files together.
    pub fn total_changed(&self) -> (r: usize)
        requires
            self.added@.len() + self.modified@.len() + self.deleted@.len() <= usize::MAX,
        ensures
            r == self.added@.len() + self.modified@.len() + self.deleted@.len(),
    {
        self.added.len() + self.modified.len() + self.deleted.len()
    }
}

/// Per-palin configuration (`config.toml`).
#[derive(Debug, Clone)]
pub struct PalinConfig {
    pub name: String,
    pub path: String,
    pub created: String,
    pub snapshots: Option<SnapshotConfig>,
    pub excludes: Option<ExcludeConfig>,
    pub binaries: Option<BinaryConfig>,
}

/// Snapshot settings of a palin.
#[derive(Debug, Clone)]
pub struct SnapshotConfig {
    pub auto_interval_minutes: Option<u32>,
    pub compress_after_days: Option<u32>,
}

/// Exclusion patterns of a palin.
#[derive(Debug, Clone)]
pub struct ExcludeConfig {
    pub patterns: Vec<String>,
}

/// Treatment of binary files.
#[derive(Debug, Clone)]
pub struct BinaryConfig {
    pub skip_content: bool,
}

/// State of a bisect session.
#[derive(Debug)]
pub struct BisectState {
    pub palin_name: String,
    pub good_epoch: i64,
    pub bad_epoch: i64,
    pub current_epoch: i64,
    pub remaining_range: (i64, i64),
}

/// A palin resolved from a name or from the current directory.
#[derive(Debug, Clone)]
pub struct ResolvedPalin {
    pub name: String,
    pub path: String,
    pub config: PalinConfig,
}

} // verus!
