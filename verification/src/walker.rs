//! Decisions of the directory walk: which paths are excluded, which files are
//! binary, and how the walked files compare with the previous snapshot.

use vstd::prelude::*;
use crate::text::{chars_of, replace_char, replace_char_spec, str_eq, string_from_chars, views};
use crate::types::{opt_view, copy_opt_string, FileEntry, FileStatus, SnapshotType};

verus! {

/// A file found by the walk: its path relative to the tracked root (with `/`
/// separators), its hash, size, modification time (RFC 3339) and binary flag.
#[derive(Debug, Clone)]
pub struct WalkedFile {
    pub relative_path: String,
    pub hash: String,
    pub size: i64,
    pub modified_at: String,
    pub is_binary: bool,
}

// ─── Binary detection ───────────────────────────────────────────────────

/// A file is binary when it is non-empty and one of its first 8192 bytes is 0.
pub open spec fn is_binary_spec(data: Seq<u8>) -> bool {
    data.len() > 0 && exists|i: int| 0 <= i < data.len() && i < 8192 && #[trigger] data[i] == 0
}

/// Whether content looks binary: a zero byte among its first 8192 bytes.
pub fn is_binary_content(data: &[u8]) -> (r: bool)
    ensures
        r == is_binary_spec(data@),
{
    if data.len() == 0 {
        return false;
    }
    let check_len: usize = if data.len() < 8192 { data.len() } else { 8192 };
    let mut i: usize = 0;
    while i < check_len
        invariant
            check_len <= data@.len(),
            check_len == data@.len() || check_len == 8192,
            check_len <= 8192,
            0 <= i <= check_len,
            forall|j: int| 0 <= j < i ==> #[trigger] data@[j] != 0,
        decreases check_len - i,
    {
        if data[i] == 0 {
            assert(0 <= i < data@.len() && i < 8192 && data@[i as int] == 0);
            return true;
        }
        i = i + 1;
    }
    false
}

// ─── Exclusion ──────────────────────────────────────────────────────────

/// The platform the program runs on, as far as glob matching depends on it:
/// its main path separator (`/` on Unix, `\\` on Windows), which decides
/// whether `\\` escapes in a pattern and separates in a path. A value is only
/// made by `Platform::current`.
#[derive(Debug, Clone, Copy)]
pub struct Platform {
    separator: char,
}

/// The main path separator of the platform (`std::path::MAIN_SEPARATOR`).
#[verifier::external_body]
fn main_separator() -> (r: char)
    ensures
        r == '/' || r == '\\',
{
    std::path::MAIN_SEPARATOR
}

impl Platform {
    /// Its main path separator.
    pub closed spec fn sep(&self) -> char {
        self.separator
    }

    /// Its main path separator.
    pub fn separator(&self) -> (r: char)
        ensures
            r == self.sep(),
    {
        self.separator
    }

    /// The platform the program was built for.
    pub fn current() -> (r: Platform)
        ensures
            r.sep() == '/' || r.sep() == '\\',
    {
        Platform { separator: main_separator() }
    }
}

/// Whether `pattern` builds into a glob (`globset::GlobBuilder::new` with
/// `literal_separator(true)`, then `build`) on a platform whose main path
/// separator is `sep`.
pub uninterp spec fn glob_parses(sep: char, pattern: Seq<char>) -> bool;

/// Whether the glob built from `pattern` on a platform whose main path
/// separator is `sep` matches `path`, as a `globset::GlobSet` holding it
/// tests a path.
pub uninterp spec fn glob_matches(sep: char, pattern: Seq<char>, path: Seq<char>) -> bool;

/// Whether the globs built from `patterns` on a platform whose main path
/// separator is `sep` compile together into a `globset::GlobSet`
/// (`GlobSetBuilder::build`, whose regular expressions must fit globset's
/// size limits).
pub uninterp spec fn glob_set_compiles(sep: char, patterns: Seq<Seq<char>>) -> bool;

#[verifier::external_type_specification]
#[verifier::external_body]
pub struct ExGlobSet(globset::GlobSet);

/// Whether `pattern` builds into a glob on the platform `pf`, the one this
/// runs on (`GlobBuilder::new`, `literal_separator(true)`, `build`, tested
/// for an error).
#[verifier::external_body]
fn glob_builds(pf: &Platform, pattern: &str) -> (r: bool)
    ensures
        r == glob_parses(pf.sep(), pattern@),
{
    globset::GlobBuilder::new(pattern).literal_separator(true).build().is_ok()
}

/// The exclusion globs of a walk compiled together into one set, with the
/// patterns they were built from and the platform they were built on.
pub struct ExcludeSet {
    set: globset::GlobSet,
    sources: Ghost<Seq<Seq<char>>>,
    separator: Ghost<char>,
}

impl ExcludeSet {
    /// The patterns the set was built from, in order.
    pub closed spec fn sources(&self) -> Seq<Seq<char>> {
        self.sources@
    }

    /// The main path separator of the platform the set was built on.
    pub closed spec fn sep(&self) -> char {
        self.separator@
    }
}

/// Builds the globs of `patterns` (each of which builds) on the platform
/// `pf`, adds them to a `globset::GlobSetBuilder` and compiles them into one
/// `globset::GlobSet` with its `build`, which returns an error (never panics)
/// when the regular expressions do not compile; on failure, the error's text.
#[verifier::external_body]
fn compile_set(pf: &Platform, patterns: &[String]) -> (r: Result<ExcludeSet, String>)
    requires
        forall|i: int| 0 <= i < patterns@.len() ==> glob_parses(pf.sep(), #[trigger] patterns@[i]@),
    ensures
        r is Ok == glob_set_compiles(pf.sep(), views(patterns@)),
        r matches Ok(s) ==> s.sources() == views(patterns@) && s.sep() == pf.sep(),
{
    let mut builder = globset::GlobSetBuilder::new();
    for p in patterns {
        match globset::GlobBuilder::new(p).literal_separator(true).build() {
            Ok(g) => { builder.add(g); }
            Err(e) => return Err(e.to_string()),
        }
    }
    match builder.build() {
        Ok(set) => Ok(ExcludeSet { set, sources: Ghost(views(patterns@)), separator: Ghost(pf.sep()) }),
        Err(e) => Err(e.to_string()),
    }
}

/// Whether a glob among those built from `patterns` matches `path`.
pub open spec fn any_glob_matches(sep: char, patterns: Seq<Seq<char>>, path: Seq<char>) -> bool {
    exists|i: int| 0 <= i < patterns.len() && glob_matches(sep, #[trigger] patterns[i], path)
}

/// Whether any glob of the set matches `path` (`GlobSet::is_match`, which
/// is true when any glob in the set matches).
#[verifier::external_body]
fn set_matches(s: &ExcludeSet, path: &str) -> (r: bool)
    ensures
        r == (exists|i: int| 0 <= i < s.sources().len() && glob_matches(s.sep(), #[trigger] s.sources()[i], path@)),
{
    s.set.is_match(path)
}

/// The RFC 3339 text (UTC) that chrono writes for the time `secs` whole
/// seconds after the Unix epoch; `None` when chrono cannot represent it.
pub uninterp spec fn utc_rfc3339_of(secs: i64) -> Option<Seq<char>>;

/// Writes a time given in whole seconds since the Unix epoch as RFC 3339 in
/// UTC (`chrono::DateTime::from_timestamp(secs, 0)`, then `to_rfc3339`).
#[verifier::external_body]
fn utc_rfc3339(secs: i64) -> (r: Option<String>)
    ensures
        opt_view(r) == utc_rfc3339_of(secs),
{
    match chrono::DateTime::from_timestamp(secs, 0) {
        Some(dt) => Some(dt.to_rfc3339()),
        None => None,
    }
}

/// The modification time the walk records for a file modified `secs` whole
/// seconds after the Unix epoch (the count read as an `i64`): its RFC 3339
/// text in UTC, or empty when it cannot be written.
pub fn modified_text(secs: u64) -> (r: String)
    ensures
        r@ == match utc_rfc3339_of(secs as i64) {
            Some(t) => t,
            None => Seq::<char>::empty(),
        },
{
    match utc_rfc3339(secs as i64) {
        Some(t) => t,
        None => String::new(),
    }
}

/// The patterns every walk excludes, before the palin's own.
pub open spec fn default_excludes() -> Seq<Seq<char>> {
    seq![".git/**"@, ".svn/**"@, ".hg/**"@]
}

/// The patterns among `patterns` that build into globs, in order (the others
/// are passed over).
pub open spec fn parsing_patterns(sep: char, patterns: Seq<Seq<char>>) -> Seq<Seq<char>>
    decreases patterns.len(),
{
    if patterns.len() == 0 {
        seq![]
    } else if glob_parses(sep, patterns.last()) {
        parsing_patterns(sep, patterns.drop_last()).push(patterns.last())
    } else {
        parsing_patterns(sep, patterns.drop_last())
    }
}

proof fn lemma_parsing_all_parse(sep: char, patterns: Seq<Seq<char>>)
    ensures
        forall|i: int| 0 <= i < parsing_patterns(sep, patterns).len() ==> glob_parses(sep, #[trigger] parsing_patterns(sep, patterns)[i]),
    decreases patterns.len(),
{
    if patterns.len() > 0 {
        lemma_parsing_all_parse(sep, patterns.drop_last());
        let prev = parsing_patterns(sep, patterns.drop_last());
        let cur = parsing_patterns(sep, patterns);
        assert forall|i: int| 0 <= i < cur.len() implies glob_parses(sep, #[trigger] cur[i]) by {
            if i < prev.len() {
                assert(cur[i] == prev[i]);
            }
        }
    }
}

/// The exclusion set of a walk on the platform `pf`: of the default patterns
/// followed by the palin's own, those that build into globs, compiled
/// together. Fails, with globset's error, when they do not compile together.
pub fn exclude_set(pf: &Platform, patterns: &[String]) -> (r: Result<ExcludeSet, String>)
    ensures
        ({
            let valid = parsing_patterns(pf.sep(), default_excludes() + views(patterns@));
            &&& r is Ok == glob_set_compiles(pf.sep(), valid)
            &&& r matches Ok(s) ==> s.sources() == valid && s.sep() == pf.sep()
        }),
{
    let mut all: Vec<String> = Vec::new();
    all.push(crate::browser::lit(".git/**"));
    all.push(crate::browser::lit(".svn/**"));
    all.push(crate::browser::lit(".hg/**"));
    let mut i: usize = 0;
    while i < patterns.len()
        invariant
            0 <= i <= patterns@.len(),
            views(all@) == default_excludes() + views(patterns@).take(i as int),
        decreases patterns.len() - i,
    {
        let ghost before = all@;
        all.push(patterns[i].clone());
        assert(views(all@) =~= views(before).push(patterns@[i as int]@));
        assert(views(patterns@).take(i + 1) =~= views(patterns@).take(i as int).push(patterns@[i as int]@));
        i = i + 1;
    }
    assert(views(patterns@).take(patterns@.len() as int) =~= views(patterns@));
    let ghost sep = pf.sep();
    let mut valid: Vec<String> = Vec::new();
    let mut k: usize = 0;
    while k < all.len()
        invariant
            0 <= k <= all@.len(),
            sep == pf.sep(),
            views(valid@) == parsing_patterns(sep, views(all@).take(k as int)),
        decreases all.len() - k,
    {
        assert(views(all@).take(k + 1).drop_last() =~= views(all@).take(k as int));
        assert(views(all@).take(k + 1).last() == all@[k as int]@);
        if glob_builds(pf, all[k].as_str()) {
            let ghost before = valid@;
            valid.push(all[k].clone());
            assert(views(valid@) =~= views(before).push(all@[k as int]@));
        }
        k = k + 1;
    }
    assert(views(all@).take(all@.len() as int) =~= views(all@));
    proof {
        lemma_parsing_all_parse(sep, views(all@));
        assert forall|j: int| 0 <= j < valid@.len() implies glob_parses(pf.sep(), #[trigger] valid@[j]@) by {
            assert(views(valid@)[j] == valid@[j]@);
        }
    }
    compile_set(pf, valid.as_slice())
}

/// A walked path is skipped when a glob of the exclusion set matches its
/// relative path or its full path.
pub open spec fn is_excluded_spec(sep: char, sources: Seq<Seq<char>>, relative: Seq<char>, full: Seq<char>) -> bool {
    any_glob_matches(sep, sources, relative) || any_glob_matches(sep, sources, full)
}

/// Decides whether the walk skips a path, given its exclusion set, the path
/// relative to the root and the full path.
pub fn is_excluded(set: &ExcludeSet, relative: &str, full: &str) -> (r: bool)
    ensures
        r == is_excluded_spec(set.sep(), set.sources(), relative@, full@),
{
    set_matches(set, relative) || set_matches(set, full)
}

/// A relative path with `\` separators written as `/`.
pub fn normalize_relative(path: &str) -> (r: String)
    ensures
        r@ == replace_char_spec(path@, '\\', '/'),
{
    let cs = chars_of(path);
    let v = replace_char(cs.as_slice(), '\\', '/');
    string_from_chars(v.as_slice())
}

// ─── Comparison with the previous snapshot ──────────────────────────────

/// Index of the last entry of `prev` for `path` that is not marked deleted.
pub open spec fn last_live_index(prev: Seq<FileEntry>, path: Seq<char>) -> Option<int>
    decreases prev.len(),
{
    if prev.len() == 0 {
        None
    } else if prev.last().file_path@ == path && prev.last().status != FileStatus::Deleted {
        Some(prev.len() - 1)
    } else {
        last_live_index(prev.drop_last(), path)
    }
}

proof fn lemma_last_live_index(prev: Seq<FileEntry>, path: Seq<char>)
    ensures
        match last_live_index(prev, path) {
            Some(j) => 0 <= j < prev.len() && prev[j].file_path@ == path && prev[j].status
                != FileStatus::Deleted && forall|k: int|
                j < k < prev.len() ==> !((#[trigger] prev[k]).file_path@ == path && prev[k].status
                    != FileStatus::Deleted),
            None => forall|k: int|
                0 <= k < prev.len() ==> !((#[trigger] prev[k]).file_path@ == path && prev[k].status
                    != FileStatus::Deleted),
        },
    decreases prev.len(),
{
    if prev.len() > 0 {
        let d = prev.drop_last();
        lemma_last_live_index(d, path);
        assert(forall|k: int| 0 <= k < prev.len() - 1 ==> #[trigger] d[k] == prev[k]);
        if prev.last().file_path@ == path && prev.last().status != FileStatus::Deleted {
        } else {
            match last_live_index(d, path) {
                Some(j) => {
                    assert forall|k: int| j < k < prev.len() implies !((#[trigger] prev[k]).file_path@ == path
                        && prev[k].status != FileStatus::Deleted) by {
                        if k < prev.len() - 1 {
                            assert(d[k] == prev[k]);
                        }
                    }
                },
                None => {
                    assert forall|k: int| 0 <= k < prev.len() implies !((#[trigger] prev[k]).file_path@ == path
                        && prev[k].status != FileStatus::Deleted) by {
                        if k < prev.len() - 1 {
                            assert(d[k] == prev[k]);
                        }
                    }
                },
            }
        }
    }
}

/// The status of a walked file relative to the previous snapshot: added when
/// no live entry has its path, modified when the last live one has another
/// hash, unchanged otherwise.
pub open spec fn walked_status(prev: Seq<FileEntry>, path: Seq<char>, hash: Seq<char>) -> FileStatus {
    match last_live_index(prev, path) {
        None => FileStatus::Added,
        Some(j) => if opt_view(prev[j].ink_hash) != Some(hash) {
            FileStatus::Modified
        } else {
            FileStatus::Unchanged
        },
    }
}

/// Whether some walked file has relative path `path`.
pub open spec fn path_walked(cur: Seq<WalkedFile>, path: Seq<char>) -> bool {
    exists|i: int| 0 <= i < cur.len() && (#[trigger] cur[i]).relative_path@ == path
}

/// Whether `prev[j]` is the last live entry of its path and that path was not walked.
pub open spec fn vanished_at(prev: Seq<FileEntry>, cur: Seq<WalkedFile>, j: int) -> bool {
    last_live_index(prev, prev[j].file_path@) == Some(j) && !path_walked(cur, prev[j].file_path@)
}

/// The indices `j < n` of previous entries whose files have vanished, in order.
pub open spec fn vanished_indices(prev: Seq<FileEntry>, cur: Seq<WalkedFile>, n: int) -> Seq<int>
    decreases n,
{
    if n <= 0 {
        seq![]
    } else if vanished_at(prev, cur, n - 1) {
        vanished_indices(prev, cur, n - 1).push(n - 1)
    } else {
        vanished_indices(prev, cur, n - 1)
    }
}

/// The entry recorded for a walked file with status `status`.
pub open spec fn is_walked_entry(e: FileEntry, w: WalkedFile, status: FileStatus) -> bool {
    &&& e.id == 0 && e.snapshot_id == 0 && e.snapshot_type == SnapshotType::Epoch
    &&& e.file_path@ == w.relative_path@
    &&& opt_view(e.ink_hash) == Some(w.hash@)
    &&& e.file_size == Some(w.size)
    &&& opt_view(e.modified_at) == Some(w.modified_at@)
    &&& e.status == status
    &&& e.is_binary == w.is_binary
}

/// The entry recorded for a previous file that has vanished.
pub open spec fn is_vanished_entry(e: FileEntry, p: FileEntry) -> bool {
    &&& e.id == 0 && e.snapshot_id == 0 && e.snapshot_type == SnapshotType::Epoch
    &&& e.file_path@ == p.file_path@
    &&& opt_view(e.ink_hash) == opt_view(p.ink_hash)
    &&& e.file_size == p.file_size
    &&& opt_view(e.modified_at) == opt_view(p.modified_at)
    &&& e.status == FileStatus::Deleted
    &&& e.is_binary == p.is_binary
}

fn find_last_live(prev: &[FileEntry], path: &str) -> (r: Option<usize>)
    ensures
        match last_live_index(prev@, path@) {
            Some(j) => r is Some && r->Some_0 as int == j,
            None => r is None,
        },
        r matches Some(j) ==> j < prev@.len(),
{
    proof {
        lemma_last_live_index(prev@, path@);
    }
    let mut k: usize = prev.len();
    assert(prev@.take(k as int) =~= prev@);
    while k > 0
        invariant
            0 <= k <= prev@.len(),
            last_live_index(prev@, path@) == last_live_index(prev@.take(k as int), path@),
        decreases k,
    {
        let e = &prev[k - 1];
        let ghost t = prev@.take(k as int);
        assert(t.last() == prev@[k - 1]);
        assert(t.drop_last() =~= prev@.take(k - 1));
        if str_eq(e.file_path.as_str(), path) && e.status != FileStatus::Deleted {
            return Some(k - 1);
        }
        k = k - 1;
    }
    None
}

fn walked_contains(cur: &[WalkedFile], path: &str) -> (r: bool)
    ensures
        r == path_walked(cur@, path@),
{
    let mut i: usize = 0;
    while i < cur.len()
        invariant
            0 <= i <= cur@.len(),
            forall|j: int| 0 <= j < i ==> (#[trigger] cur@[j]).relative_path@ != path@,
        decreases cur.len() - i,
    {
        if str_eq(cur[i].relative_path.as_str(), path) {
            return true;
        }
        i = i + 1;
    }
    false
}

/// Compares the files of a walk with the entries of the previous snapshot.
/// Each walked file gives an entry, in walk order, with its status; then each
/// path that was live before and was not walked gives a deleted entry carrying
/// the previous hash, size, time and binary flag (one per path, from its last
/// live entry, in the order of those entries).
pub fn walk_and_diff(current_files: &[WalkedFile], previous_entries: &[FileEntry]) -> (r: Vec<FileEntry>)
    ensures
        r@.len() == current_files@.len() + vanished_indices(
            previous_entries@,
            current_files@,
            previous_entries@.len() as int,
        ).len(),
        forall|i: int|
            0 <= i < current_files@.len() ==> is_walked_entry(
                #[trigger] r@[i],
                current_files@[i],
                walked_status(previous_entries@, current_files@[i].relative_path@, current_files@[i].hash@),
            ),
        forall|k: int|
            0 <= k < vanished_indices(previous_entries@, current_files@, previous_entries@.len() as int).len()
                ==> is_vanished_entry(
                #[trigger] r@[current_files@.len() + k],
                previous_entries@[vanished_indices(
                    previous_entries@,
                    current_files@,
                    previous_entries@.len() as int,
                )[k]],
            ),
{
    let mut result: Vec<FileEntry> = Vec::new();
    let mut i: usize = 0;
    while i < current_files.len()
        invariant
            0 <= i <= current_files@.len(),
            result@.len() == i,
            forall|m: int|
                0 <= m < i ==> is_walked_entry(
                    #[trigger] result@[m],
                    current_files@[m],
                    walked_status(previous_entries@, current_files@[m].relative_path@, current_files@[m].hash@),
                ),
        decreases current_files.len() - i,
    {
        let wf = &current_files[i];
        let ghost before = result@;
        let status = match find_last_live(previous_entries, wf.relative_path.as_str()) {
            None => FileStatus::Added,
            Some(j) => {
                let same = match &previous_entries[j].ink_hash {
                    Some(h) => str_eq(h.as_str(), wf.hash.as_str()),
                    None => false,
                };
                if !same {
                    FileStatus::Modified
                } else {
                    FileStatus::Unchanged
                }
            },
        };
        let entry = FileEntry {
            id: 0,
            snapshot_id: 0,
            snapshot_type: SnapshotType::Epoch,
            file_path: wf.relative_path.clone(),
            ink_hash: Some(wf.hash.clone()),
            file_size: Some(wf.size),
            modified_at: Some(wf.modified_at.clone()),
            status,
            is_binary: wf.is_binary,
        };
        assert(status == walked_status(previous_entries@, wf.relative_path@, wf.hash@));
        assert(is_walked_entry(entry, current_files@[i as int], status));
        result.push(entry);
        proof {
            assert forall|m: int| 0 <= m < i + 1 implies is_walked_entry(
                #[trigger] result@[m],
                current_files@[m],
                walked_status(previous_entries@, current_files@[m].relative_path@, current_files@[m].hash@),
            ) by {
                if m < i {
                    assert(result@[m] == before[m]);
                }
            }
        }
        i = i + 1;
    }
    let n0 = current_files.len();
    let mut j: usize = 0;
    while j < previous_entries.len()
        invariant
            0 <= j <= previous_entries@.len(),
            n0 == current_files@.len(),
            result@.len() == n0 + vanished_indices(previous_entries@, current_files@, j as int).len(),
            forall|m: int|
                0 <= m < n0 ==> is_walked_entry(
                    #[trigger] result@[m],
                    current_files@[m],
                    walked_status(previous_entries@, current_files@[m].relative_path@, current_files@[m].hash@),
                ),
            forall|k: int|
                0 <= k < vanished_indices(previous_entries@, current_files@, j as int).len()
                    ==> is_vanished_entry(
                    #[trigger] result@[n0 + k],
                    previous_entries@[vanished_indices(previous_entries@, current_files@, j as int)[k]],
                ),
        decreases previous_entries.len() - j,
    {
        let p = &previous_entries[j];
        let last = find_last_live(previous_entries, p.file_path.as_str());
        let is_last = match last {
            Some(k) => k == j,
            None => false,
        };
        let ghost before = result@;
        let walked = walked_contains(current_files, p.file_path.as_str());
        assert(is_last ==> last_live_index(previous_entries@, previous_entries@[j as int].file_path@) == Some(j as int));
        if is_last && !walked {
            assert(vanished_at(previous_entries@, current_files@, j as int));
            result.push(
                FileEntry {
                    id: 0,
                    snapshot_id: 0,
                    snapshot_type: SnapshotType::Epoch,
                    file_path: p.file_path.clone(),
                    ink_hash: copy_opt_string(&p.ink_hash),
                    file_size: p.file_size,
                    modified_at: copy_opt_string(&p.modified_at),
                    status: FileStatus::Deleted,
                    is_binary: p.is_binary,
                },
            );
            proof {
                assert forall|m: int| 0 <= m < n0 implies is_walked_entry(
                    #[trigger] result@[m],
                    current_files@[m],
                    walked_status(previous_entries@, current_files@[m].relative_path@, current_files@[m].hash@),
                ) by {
                    assert(result@[m] == before[m]);
                }
            }
        } else {
            assert(!vanished_at(previous_entries@, current_files@, j as int));
        }
        j = j + 1;
    }
    result
}

// ─── Unchanged-file shortcut ────────────────────────────────────────────

/// Index of the last live previous entry with this path, size (a missing size
/// counts as 0) and modification time.
pub open spec fn last_meta_match(prev: Seq<FileEntry>, path: Seq<char>, size: i64, mtime: Seq<char>) -> Option<int>
    decreases prev.len(),
{
    if prev.len() == 0 {
        None
    } else if ({
        let e = prev.last();
        &&& e.status != FileStatus::Deleted
        &&& e.file_path@ == path
        &&& (match e.file_size { Some(s) => s, None => 0 }) == size
        &&& opt_view(e.modified_at) == Some(mtime)
    }) {
        Some(prev.len() - 1)
    } else {
        last_meta_match(prev.drop_last(), path, size, mtime)
    }
}

/// The hash the walk reuses, without reading the file, when the previous
/// snapshot has a live entry with the same path, size and modification time:
/// that entry's hash (empty text when it had none).
pub fn reusable_hash(previous_entries: &[FileEntry], path: &str, size: i64, mtime: &str) -> (r: Option<String>)
    ensures
        match last_meta_match(previous_entries@, path@, size, mtime@) {
            None => r is None,
            Some(j) => r is Some && r->Some_0@ == (match opt_view(previous_entries@[j].ink_hash) {
                Some(h) => h,
                None => Seq::<char>::empty(),
            }),
        },
{
    let mut k: usize = previous_entries.len();
    assert(previous_entries@.take(k as int) =~= previous_entries@);
    while k > 0
        invariant
            0 <= k <= previous_entries@.len(),
            last_meta_match(previous_entries@, path@, size, mtime@) == last_meta_match(
                previous_entries@.take(k as int),
                path@,
                size,
                mtime@,
            ),
        decreases k,
    {
        let e = &previous_entries[k - 1];
        let ghost t = previous_entries@.take(k as int);
        assert(t.last() == previous_entries@[k - 1]);
        assert(t.drop_last() =~= previous_entries@.take(k - 1));
        let esize = match e.file_size {
            Some(s) => s,
            None => 0,
        };
        let time_same = match &e.modified_at {
            Some(m) => str_eq(m.as_str(), mtime),
            None => false,
        };
        if e.status != FileStatus::Deleted && str_eq(e.file_path.as_str(), path) && esize == size && time_same {
            return match &e.ink_hash {
                Some(h) => Some(h.clone()),
                None => Some(String::new()),
            };
        }
        k = k - 1;
    }
    None
}

// ─── One step of the walk ───────────────────────────────────────────────

/// What the walk learned of a directory entry before deciding on it: its
/// full path and its path below the root (both as lossy text), whether it
/// is a directory or a file, and, when its metadata could be read, its size
/// and modification time (RFC 3339, or empty when unknown).
#[derive(Debug, Clone)]
pub struct DirEntryInfo {
    pub full_path: String,
    pub relative: String,
    pub is_dir: bool,
    pub is_file: bool,
    pub metadata: Option<(i64, String)>,
}

/// What to do with a directory entry.
#[derive(Debug)]
pub enum WalkStep {
    /// Leave it out.
    Skip,
    /// Walk into it.
    Descend,
    /// Record this file without reading it.
    Record(WalkedFile),
    /// Read the file and hand its content to `walked_from_content`.
    ReadContent,
}

/// The value of a walk step: the kind, and for a record its path, hash,
/// size, time and binary flag.
pub open spec fn step_view(s: WalkStep) -> Option<Option<(Seq<char>, Seq<char>, i64, Seq<char>, bool)>> {
    match s {
        WalkStep::Skip => None,
        WalkStep::Descend => Some(None),
        WalkStep::Record(w) => Some(Some((w.relative_path@, w.hash@, w.size, w.modified_at@, w.is_binary))),
        WalkStep::ReadContent => Some(None),
    }
}

/// The step for entry `e`: excluded entries are skipped; directories are
/// walked into; files whose metadata cannot be read are skipped; on the
/// first snapshot files are recorded unread with an empty hash; files whose
/// path, size and time match a previous live entry are recorded unread with
/// that entry's hash; other files are read. Anything else is skipped.
/// Exclusion is matched with the globs built from `sources` on a platform
/// with main path separator `sep`.
pub open spec fn walk_step_spec(
    sep: char,
    sources: Seq<Seq<char>>,
    previous: Seq<FileEntry>,
    first_snap: bool,
    full: Seq<char>,
    relative: Seq<char>,
    is_dir: bool,
    is_file: bool,
    metadata: Option<(i64, Seq<char>)>,
) -> (int, Option<(Seq<char>, Seq<char>, i64, Seq<char>, bool)>) {
    let rel = replace_char_spec(relative, '\\', '/');
    if is_excluded_spec(sep, sources, rel, full) {
        (0, None)
    } else if is_dir {
        (1, None)
    } else if !is_file {
        (0, None)
    } else {
        match metadata {
            None => (0, None),
            Some(m) => if first_snap {
                (2, Some((rel, Seq::empty(), m.0, m.1, false)))
            } else {
                match last_meta_match(previous, rel, m.0, m.1) {
                    Some(j) => (2, Some((rel, match opt_view(previous[j].ink_hash) {
                        Some(h) => h,
                        None => Seq::empty(),
                    }, m.0, m.1, false))),
                    None => (3, None),
                }
            },
        }
    }
}

/// The number of a step's kind: skip 0, descend 1, record 2, read 3.
pub open spec fn step_kind(s: WalkStep) -> int {
    match s {
        WalkStep::Skip => 0,
        WalkStep::Descend => 1,
        WalkStep::Record(_) => 2,
        WalkStep::ReadContent => 3,
    }
}

/// The record of a step, if it is one.
pub open spec fn step_record(s: WalkStep) -> Option<(Seq<char>, Seq<char>, i64, Seq<char>, bool)> {
    match s {
        WalkStep::Record(w) => Some((w.relative_path@, w.hash@, w.size, w.modified_at@, w.is_binary)),
        _ => None,
    }
}

/// Decides what the walk does with directory entry `e`, given its
/// exclusion set.
pub fn walk_step(set: &ExcludeSet, e: &DirEntryInfo, previous_entries: &[FileEntry], first_snap: bool) -> (r: WalkStep)
    ensures
        (step_kind(r), step_record(r)) == walk_step_spec(
            set.sep(),
            set.sources(),
            previous_entries@,
            first_snap,
            e.full_path@,
            e.relative@,
            e.is_dir,
            e.is_file,
            match e.metadata {
                Some(m) => Some((m.0, m.1@)),
                None => None,
            },
        ),
{
    let rel = normalize_relative(e.relative.as_str());
    if is_excluded(set, rel.as_str(), e.full_path.as_str()) {
        return WalkStep::Skip;
    }
    if e.is_dir {
        return WalkStep::Descend;
    }
    if !e.is_file {
        return WalkStep::Skip;
    }
    match &e.metadata {
        None => WalkStep::Skip,
        Some((size, modified)) => {
            if first_snap {
                WalkStep::Record(WalkedFile {
                    relative_path: rel,
                    hash: String::new(),
                    size: *size,
                    modified_at: modified.clone(),
                    is_binary: false,
                })
            } else {
                match reusable_hash(previous_entries, rel.as_str(), *size, modified.as_str()) {
                    Some(h) => WalkStep::Record(WalkedFile {
                        relative_path: rel,
                        hash: h,
                        size: *size,
                        modified_at: modified.clone(),
                        is_binary: false,
                    }),
                    None => WalkStep::ReadContent,
                }
            }
        },
    }
}

/// The text hashed for a binary file in place of its content:
/// `path:length:time`, the time as the program writes the file's
/// modification time for debugging.
pub open spec fn binary_marker(relative: Seq<char>, len: u64, mtime_debug: Seq<char>) -> Seq<char> {
    relative + seq![':'] + crate::number::decimal_text(len as int) + seq![':'] + mtime_debug
}

/// The walked file for a file that was read: binary content is hashed by
/// its path, length and time; other content by itself.
pub fn walked_from_content(relative: &str, size: i64, len: u64, modified: &str, data: &[u8], mtime_debug: &str) -> (r: WalkedFile)
    ensures
        r.relative_path@ == relative@,
        r.size == size,
        r.modified_at@ == modified@,
        r.is_binary == is_binary_spec(data@),
        r.hash@ == (if is_binary_spec(data@) {
            crate::ink::ink_hash_of(vstd::utf8::encode_utf8(binary_marker(relative@, len, mtime_debug@)))
        } else {
            crate::ink::ink_hash_of(data@)
        }),
{
    let is_bin = is_binary_content(data);
    let hash = if is_bin {
        let mut t: Vec<char> = chars_of(relative);
        t.push(':');
        let digits = crate::number::format_u64(len);
        crate::text::push_all(&mut t, digits.as_slice());
        t.push(':');
        let md = chars_of(mtime_debug);
        crate::text::push_all(&mut t, md.as_slice());
        assert(t@ =~= binary_marker(relative@, len, mtime_debug@));
        let s = string_from_chars(t.as_slice());
        let b = s.as_str().as_bytes();
        crate::ink::hash_content(b)
    } else {
        crate::ink::hash_content(data)
    };
    WalkedFile {
        relative_path: relative.to_string(),
        hash,
        size,
        modified_at: modified.to_string(),
        is_binary: is_bin,
    }
}

} // verus!
