use palimpsest::diff::{content_to_lines, diff_file, diff_lines, diff_paths, find_entry};
use palimpsest::history::{blame, find_files, grep, summarize_status, timeline};
use palimpsest::ident::{parse_epoch_ident, parse_restore_target, resolve_epoch, resolve_restore_target, EpochLookupError, IdentError, SnapshotRef};
use palimpsest::ink::{hash_content, InkError, InkStore};
use palimpsest::number::{format_i64, parse_i64};
use palimpsest::registry::{
    palin_dir, register_palin, registry_path, rename_palin_in_registry, resolve_palin_from_dir, unregister_palin,
    Registry, RegistryError, ResolveError,
};
use palimpsest::restore::{action_line, count_restore_changes, plan_restore, preview_restore, steps_before_missing_ink};
use palimpsest::snapshot::{hours_minutes, next_epoch, next_phantom_num, removal_plan, snapshot_name, RemovalError};
use palimpsest::types::{
    DiffChangeType, Epoch, ExportFormat, FileEntry, FileStatus, Phantom, SnapshotType, StatusSummary,
};
use palimpsest::update::{archive_ext, is_up_to_date, select_asset, target_triple, AssetError, AssetInfo};
use palimpsest::walker::{
    exclude_set, is_binary_content, is_excluded, walk_and_diff, walk_step, walked_from_content, DirEntryInfo, Platform, WalkStep, WalkedFile,
};

fn entry(path: &str, hash: Option<&str>, status: FileStatus) -> FileEntry {
    FileEntry {
        id: 0,
        snapshot_id: 1,
        snapshot_type: SnapshotType::Epoch,
        file_path: path.to_string(),
        ink_hash: hash.map(|h| h.to_string()),
        file_size: Some(3),
        modified_at: Some("2024-01-01T00:00:00+00:00".to_string()),
        status,
        is_binary: false,
    }
}

fn epoch(id: i64, num: i64, origin: bool, ts: i64) -> Epoch {
    Epoch { id, epoch_num: num, timestamp: ts, message: None, is_origin: origin, is_deleted: false, is_locked: false }
}

fn phantom(id: i64, num: i64, ts: i64) -> Phantom {
    Phantom { id, phantom_num: num, timestamp: ts, expires_at: ts + 10, message: None, is_deleted: false }
}

fn chars(s: &str) -> Vec<char> {
    s.chars().collect()
}

#[test]
fn file_status_names_round_trip() {
    for s in [FileStatus::Added, FileStatus::Modified, FileStatus::Deleted, FileStatus::Unchanged] {
        assert_eq!(FileStatus::from_str(s.as_str()), Some(s));
    }
    assert_eq!(FileStatus::Added.as_str(), "added");
    assert_eq!(FileStatus::from_str("renamed"), None);
    assert_eq!(SnapshotType::Phantom.as_str(), "phantom");
}

#[test]
fn export_format_parses_any_case() {
    assert_eq!(ExportFormat::from_str("ZIP"), Some(ExportFormat::Zip));
    assert_eq!(ExportFormat::from_str("tar"), Some(ExportFormat::Tar));
    assert_eq!(ExportFormat::from_str("rar"), None);
    assert_eq!(ExportFormat::Tar.extension(), "tar.gz");
}

#[test]
fn status_summary_counts_changes() {
    let s = StatusSummary {
        added: vec!["a".to_string()],
        modified: vec!["b".to_string(), "c".to_string()],
        deleted: vec![],
        unchanged: 7,
    };
    assert_eq!(s.total_changed(), 3);
}

#[test]
fn display_names_and_expiry() {
    assert_eq!(epoch(1, 0, true, 0).display_name(), "origin");
    assert_eq!(epoch(2, 12, false, 0).display_name(), "epoch-12");
    let p = phantom(3, 4, 100);
    assert_eq!(p.display_name(), "phantom-4");
    assert_eq!(p.remaining_ttl(105), 5);
    assert!(!p.is_expired(109));
    assert!(p.is_expired(110));
}

#[test]
fn numbers_format_and_parse_back() {
    for n in [0i64, 7, -42, i64::MAX, i64::MIN] {
        let text: String = format_i64(n).into_iter().collect();
        assert_eq!(text, n.to_string());
        assert_eq!(parse_i64(&chars(&text)), Some(n));
    }
    assert_eq!(parse_i64(&chars("12a")), None);
    assert_eq!(parse_i64(&chars("9223372036854775808")), None);
}

#[test]
fn epoch_identifiers() {
    assert_eq!(parse_epoch_ident("epoch-3"), Ok(3));
    assert_eq!(parse_epoch_ident("epoch_5"), Ok(5));
    assert_eq!(parse_epoch_ident("7"), Ok(7));
    assert_eq!(parse_epoch_ident("origin"), Ok(0));
    assert_eq!(parse_epoch_ident("epoch-x"), Err(IdentError::BadEpochNumber));
    assert_eq!(parse_epoch_ident("nonsense"), Err(IdentError::InvalidEpoch));
    let epochs = vec![epoch(1, 0, true, 0), epoch(2, 1, false, 1)];
    assert_eq!(resolve_epoch(&epochs, "epoch-1"), Ok(1));
    assert_eq!(resolve_epoch(&epochs, "epoch-9"), Err(EpochLookupError::NotFound));
    assert_eq!(parse_restore_target("phantom-2"), Ok(SnapshotRef::Phantom(2)));
    assert_eq!(parse_restore_target("p3"), Ok(SnapshotRef::Phantom(3)));
    assert_eq!(parse_restore_target("epoch-4"), Ok(SnapshotRef::Epoch(4)));
    assert_eq!(parse_restore_target("phantom-z"), Err(IdentError::InvalidPhantom));
}

#[test]
fn ink_hash_is_sha256_hex() {
    assert_eq!(hash_content(b"abc"), "ba7816bf8f01cfea414140de5dae2223b00361a396177a9cb410ff61f20015ad");
    assert_eq!(hash_content(b"").len(), 64);
}

#[test]
fn ink_store_reads_back_what_was_added() {
    let mut inks = InkStore::new();
    inks.add("h1".to_string(), b"first".to_vec());
    inks.add("h1".to_string(), b"second".to_vec());
    assert_eq!(inks.read_ink("h1"), Ok(b"first".to_vec()));
    assert_eq!(inks.read_ink("h2"), Err(InkError::NotFound));
}

#[test]
fn binary_detection_and_exclusion() {
    assert!(!is_binary_content(b""));
    assert!(!is_binary_content(b"plain text"));
    assert!(is_binary_content(b"a\0b"));
    let mut late = vec![b'a'; 9000];
    late[8500] = 0;
    assert!(!is_binary_content(&late));
    let pf = Platform::current();
    let defaults = exclude_set(&pf, &[]).unwrap();
    assert!(is_excluded(&defaults, ".git/config", "/home/u/p/.git/config"));
    assert!(!is_excluded(&defaults, "app.log", "/p/app.log"));
    let logs = exclude_set(&pf, &["*.log".to_string()]).unwrap();
    assert!(is_excluded(&logs, "app.log", "/p/app.log"));
    assert!(!is_excluded(&logs, "src/app.log", "/p/src/app.log"));
    // A pattern that does not build is passed over.
    let bad = exclude_set(&pf, &["[".to_string(), "*.tmp".to_string()]).unwrap();
    assert!(!is_excluded(&bad, "a", "/p/a"));
    assert!(is_excluded(&bad, "x.tmp", "/p/x.tmp"));
}

#[test]
fn walk_steps() {
    let info = |rel: &str, dir: bool| DirEntryInfo {
        full_path: format!("/p/{}", rel),
        relative: rel.to_string(),
        is_dir: dir,
        is_file: !dir,
        metadata: Some((3, "t".to_string())),
    };
    let prev = vec![FileEntry { modified_at: Some("t".to_string()), ..entry("a.txt", Some("hash-a"), FileStatus::Added) }];
    let pf = exclude_set(&Platform::current(), &[]).unwrap();
    assert!(matches!(walk_step(&pf, &info(".git/HEAD", false), &prev, false), WalkStep::Skip));
    assert!(matches!(walk_step(&pf, &info("src", true), &prev, false), WalkStep::Descend));
    match walk_step(&pf, &info("a.txt", false), &prev, false) {
        WalkStep::Record(w) => assert_eq!(w.hash, "hash-a"),
        other => panic!("unexpected {:?}", other),
    }
    assert!(matches!(walk_step(&pf, &info("b.txt", false), &prev, false), WalkStep::ReadContent));
    match walk_step(&pf, &info("dir\\b.txt", false), &prev, true) {
        WalkStep::Record(w) => {
            assert_eq!(w.relative_path, "dir/b.txt");
            assert_eq!(w.hash, "");
        },
        other => panic!("unexpected {:?}", other),
    }
    let w = walked_from_content("a.txt", 3, 3, "t", b"abc", "None");
    assert_eq!(w.hash, hash_content(b"abc"));
    assert!(!w.is_binary);
    let b = walked_from_content("b.bin", 3, 3, "t", b"a\0c", "None");
    assert!(b.is_binary);
    assert_eq!(b.hash, hash_content(b"b.bin:3:None"));
}

#[test]
fn walk_and_diff_marks_each_file() {
    let walked = |p: &str, h: &str| WalkedFile {
        relative_path: p.to_string(),
        hash: h.to_string(),
        size: 1,
        modified_at: "t".to_string(),
        is_binary: false,
    };
    let prev = vec![
        entry("same.txt", Some("h1"), FileStatus::Added),
        entry("changed.txt", Some("h2"), FileStatus::Added),
        entry("gone.txt", Some("h3"), FileStatus::Added),
        entry("long_gone.txt", Some("h4"), FileStatus::Deleted),
    ];
    let cur = vec![walked("same.txt", "h1"), walked("changed.txt", "h9"), walked("new.txt", "h5")];
    let out = walk_and_diff(&cur, &prev);
    let got: Vec<(String, FileStatus)> = out.iter().map(|e| (e.file_path.clone(), e.status)).collect();
    assert_eq!(
        got,
        vec![
            ("same.txt".to_string(), FileStatus::Unchanged),
            ("changed.txt".to_string(), FileStatus::Modified),
            ("new.txt".to_string(), FileStatus::Added),
            ("gone.txt".to_string(), FileStatus::Deleted),
        ]
    );
}

#[test]
fn line_diff_hunks() {
    let old: Vec<String> = vec!["a".into(), "b".into(), "c".into()];
    let new: Vec<String> = vec!["a".into(), "B".into(), "c".into(), "d".into()];
    // The lines are joined with '\n' before diffing, so the old last line
    // ("c", without a line ending) differs from the new "c\n".
    let hunks = diff_lines(&old, &new);
    assert_eq!(hunks.len(), 1);
    assert_eq!(hunks[0].change_type, DiffChangeType::Replace);
    assert_eq!(hunks[0].old_start, 2);
    assert_eq!(hunks[0].new_start, 2);
    assert_eq!(hunks[0].old_lines, vec!["b".to_string(), "c".to_string()]);
    assert_eq!(hunks[0].new_lines, vec!["B".to_string(), "c".to_string(), "d".to_string()]);
    assert!(diff_lines(&old, &old).is_empty());
    let first: Vec<String> = vec!["x".into(), "a".into()];
    let second: Vec<String> = vec!["y".into(), "a".into()];
    let hunks = diff_lines(&first, &second);
    assert_eq!(hunks.len(), 1);
    assert_eq!(hunks[0].change_type, DiffChangeType::Replace);
    assert_eq!(hunks[0].old_start, 1);
    assert_eq!(hunks[0].old_lines, vec!["x".to_string()]);
    assert_eq!(hunks[0].new_lines, vec!["y".to_string()]);
}

#[test]
fn content_lines_follow_str_lines() {
    assert_eq!(content_to_lines(b"a\r\nb\n\nc"), vec!["a", "b", "", "c"]);
    assert!(content_to_lines(b"").is_empty());
    assert_eq!(content_to_lines(&[0x61, 0xff]), vec!["a\u{fffd}".to_string()]);
}

#[test]
fn diff_of_one_file() {
    let mut inks = InkStore::new();
    inks.add("h-old".to_string(), b"one\ntwo\n".to_vec());
    inks.add("h-new".to_string(), b"one\nthree\n".to_vec());
    let old = vec![entry("f.txt", Some("h-old"), FileStatus::Added)];
    let new = vec![entry("f.txt", Some("h-new"), FileStatus::Modified)];
    let d = diff_file("f.txt", &old, &new, &inks).unwrap().unwrap();
    assert_eq!(d.status, FileStatus::Modified);
    assert_eq!(d.additions, 1);
    assert_eq!(d.deletions, 1);
    let same = diff_file("f.txt", &old, &old, &inks).unwrap().unwrap();
    assert_eq!(same.status, FileStatus::Unchanged);
    assert!(same.hunks.is_empty());
    assert_eq!((same.additions, same.deletions), (0, 0));
    assert!(diff_file("g.txt", &old, &new, &inks).unwrap().is_none());
    let missing = vec![entry("f.txt", Some("nope"), FileStatus::Added)];
    assert_eq!(diff_file("f.txt", &missing, &new, &inks).err(), Some(InkError::NotFound));
    assert_eq!(find_entry(&new, "f.txt"), Some(0));
    assert_eq!(find_entry(&new, "g.txt"), None);
}

#[test]
fn restore_preview_and_counts() {
    let mut inks = InkStore::new();
    inks.add("h".to_string(), b"x".to_vec());
    let entries = vec![
        entry("keep.txt", Some("h"), FileStatus::Unchanged),
        entry("gone.txt", Some("h"), FileStatus::Deleted),
    ];
    assert_eq!(count_restore_changes(&entries), (1, 1));
    let lines = preview_restore(&entries, &inks, &["extra.txt".to_string()]).unwrap();
    assert!(!lines.is_empty());
    let broken = vec![entry("keep.txt", Some("missing"), FileStatus::Unchanged)];
    assert_eq!(preview_restore(&broken, &inks, &[]).err(), Some(InkError::NotFound));
}

#[test]
fn dry_run_previews_each_restore_step() {
    let mut inks = InkStore::new();
    inks.add("h".to_string(), b"x".to_vec());
    let entries = vec![
        entry("keep.txt", Some("h"), FileStatus::Unchanged),
        entry("gone.txt", Some("h"), FileStatus::Deleted),
    ];
    let disk = vec!["keep.txt".to_string(), "extra.txt".to_string()];
    let lines = preview_restore(&entries, &inks, &disk).unwrap();
    assert_eq!(lines, vec!["  + restore  keep.txt", "  - remove  gone.txt", "  - prune   extra.txt"]);
    let plan = plan_restore(&entries, &inks, &disk).unwrap();
    let described: Vec<String> = plan.iter().map(action_line).collect();
    assert_eq!(described, lines);
    let broken = vec![entry("keep.txt", Some("missing"), FileStatus::Unchanged)];
    assert_eq!(plan_restore(&broken, &inks, &disk).err(), Some(InkError::NotFound));
    assert_eq!(preview_restore(&broken, &inks, &disk).err(), Some(InkError::NotFound));
}

#[test]
fn restore_stops_at_the_first_missing_ink() {
    let mut inks = InkStore::new();
    inks.add("h".to_string(), b"x".to_vec());
    let entries = vec![
        entry("a.txt", Some("h"), FileStatus::Unchanged),
        entry("gone.txt", Some("h"), FileStatus::Deleted),
        entry("b.txt", Some("missing"), FileStatus::Modified),
        entry("c.txt", Some("h"), FileStatus::Added),
    ];
    let done: Vec<String> = steps_before_missing_ink(&entries, &inks).iter().map(action_line).collect();
    assert_eq!(done, vec!["  + restore  a.txt", "  - remove  gone.txt"]);
    let whole = vec![entries[0].clone(), entries[3].clone()];
    let all: Vec<String> = steps_before_missing_ink(&whole, &inks).iter().map(action_line).collect();
    assert_eq!(all, vec!["  + restore  a.txt", "  + restore  c.txt"]);
}

#[test]
fn diff_hunks_follow_one_another_and_rebuild() {
    let old: Vec<String> = vec!["a".into(), "b".into(), "c".into(), "d".into(), "e".into()];
    let new: Vec<String> = vec!["a".into(), "B".into(), "c".into(), "d".into(), "E".into()];
    let hunks = diff_lines(&old, &new);
    assert_eq!(hunks.len(), 2);
    for w in hunks.windows(2) {
        assert!(w[0].old_start + w[0].old_lines.len() <= w[1].old_start);
        assert!(w[0].new_start + w[0].new_lines.len() <= w[1].new_start);
    }
    let mut rebuilt: Vec<String> = Vec::new();
    let mut next = 0;
    for h in &hunks {
        assert_eq!(h.old_lines[..], old[h.old_start - 1..h.old_start - 1 + h.old_lines.len()]);
        assert_eq!(h.new_lines[..], new[h.new_start - 1..h.new_start - 1 + h.new_lines.len()]);
        rebuilt.extend_from_slice(&old[next..h.old_start - 1]);
        rebuilt.extend_from_slice(&h.new_lines);
        next = h.old_start - 1 + h.old_lines.len();
    }
    rebuilt.extend_from_slice(&old[next..]);
    assert_eq!(rebuilt, new);
}

#[test]
fn registry_register_rename_unregister() {
    let mut r = Registry::new();
    assert_eq!(register_palin(&mut r, "proj", "/home/u/proj", "2024"), Ok(()));
    assert_eq!(register_palin(&mut r, "proj", "/elsewhere", "2024"), Err(RegistryError::AlreadyExists));
    assert_eq!(rename_palin_in_registry(&mut r, "proj", "work"), Ok(()));
    assert!(!r.contains_key("proj"));
    assert_eq!(r.get("work").map(|e| e.path.clone()), Some("/home/u/proj".to_string()));
    assert_eq!(rename_palin_in_registry(&mut r, "nope", "x"), Err(RegistryError::NotFound));
    assert_eq!(unregister_palin(&mut r, "work"), Ok(()));
    assert_eq!(unregister_palin(&mut r, "work"), Err(RegistryError::NotFound));
    assert_eq!(r.len(), 0);
}

#[test]
fn palin_resolution_by_directory() {
    let pf = Platform::current();
    let sep = std::path::MAIN_SEPARATOR;
    let path = |parts: &[&str]| -> String { parts.iter().map(|p| format!("{}{}", sep, p)).collect() };
    let palins = vec![
        ("a".to_string(), path(&["Users", "u", "a"])),
        ("b".to_string(), path(&["home", "u", "b"])),
        ("b2".to_string(), path(&["home", "u", "b2x"])),
    ];
    // Case-insensitive, the palin's own directory or any directory below it.
    assert_eq!(resolve_palin_from_dir(&pf, &path(&["users", "U", "A", "src"]), &palins), Ok(0));
    assert_eq!(resolve_palin_from_dir(&pf, &path(&["home", "u", "b"]), &palins), Ok(1));
    assert_eq!(resolve_palin_from_dir(&pf, &path(&["home", "u", "b", "src", "x"]), &palins), Ok(1));
    // A longer name is not below: the match is on a component boundary.
    assert_eq!(resolve_palin_from_dir(&pf, &path(&["home", "u", "b2"]), &palins), Err(ResolveError::NoMatch));
    assert_eq!(resolve_palin_from_dir(&pf, &path(&["tmp"]), &palins), Err(ResolveError::NoMatch));
    let nested = vec![("a".to_string(), path(&["x"])), ("b".to_string(), path(&["x", "y"]))];
    assert_eq!(resolve_palin_from_dir(&pf, &path(&["x", "y", "z"]), &nested), Err(ResolveError::Ambiguous));
    assert_eq!(resolve_palin_from_dir(&pf, &path(&["x", "q"]), &nested), Ok(0));
    let root = vec![("r".to_string(), sep.to_string())];
    assert_eq!(resolve_palin_from_dir(&pf, &path(&["anything"]), &root), Ok(0));
    assert!(palin_dir(&pf, "/base", "proj").ends_with("proj"));
    assert!(palin_dir(&pf, "/base", "proj").starts_with("/base"));
    assert!(registry_path(&pf, "/base").ends_with("registry.toml"));
    let data = palimpsest::registry::palimpsest_dir(&pf, Some("/home/u")).unwrap();
    assert_eq!(data, format!("/home/u{}palimpsest{}palin", sep, sep));
    assert_eq!(palimpsest::registry::palimpsest_dir(&pf, None), None);
}

#[test]
fn snapshot_numbers_and_times() {
    assert_eq!(next_epoch(-1), (0, true));
    assert_eq!(next_epoch(4), (5, false));
    assert_eq!(snapshot_name(0, true), "origin");
    assert_eq!(snapshot_name(3, false), "epoch-3");
    assert_eq!(next_phantom_num(0), 1);
    assert_eq!(hours_minutes(3_600_000_000_000 + 120_000_000_000), (1, 2));
}

#[test]
fn timeline_is_newest_first() {
    let epochs = vec![epoch(1, 0, true, 10), epoch(2, 1, false, 30)];
    let phantoms = vec![phantom(9, 1, 20)];
    let t = timeline(&epochs, &phantoms);
    let names: Vec<String> = t.iter().map(|e| e.display.clone()).collect();
    assert_eq!(names, vec!["Epoch #1", "Phantom #1", "Origin"]);
    assert!(t[1].is_phantom && !t[0].is_phantom);
    assert_eq!(t.iter().map(|e| e.timestamp).collect::<Vec<i64>>(), vec![30, 20, 10]);
}

#[test]
fn status_summary_of_entries() {
    let entries = vec![
        entry("a", None, FileStatus::Added),
        entry("m", None, FileStatus::Modified),
        entry("u", None, FileStatus::Unchanged),
        entry("d", None, FileStatus::Deleted),
    ];
    let s = summarize_status(&entries);
    assert_eq!(s.added, vec!["a".to_string()]);
    assert_eq!(s.modified, vec!["m".to_string()]);
    assert_eq!(s.deleted, vec!["d".to_string()]);
    assert_eq!(s.unchanged, 1);
}

#[test]
fn find_blame_and_grep() {
    let mut inks = InkStore::new();
    inks.add("h0".to_string(), b"alpha\nbeta\n".to_vec());
    inks.add("h1".to_string(), b"alpha\ngamma\n".to_vec());
    let epochs = vec![epoch(1, 0, true, 1), epoch(2, 1, false, 2)];
    let entries = vec![
        vec![entry("notes.txt", Some("h0"), FileStatus::Added)],
        vec![entry("notes.txt", Some("h1"), FileStatus::Modified)],
    ];
    let hits = find_files(&epochs, &entries, "notes");
    assert_eq!(hits.len(), 2);
    let lines = blame(&epochs, &entries, "notes.txt", &inks).unwrap();
    assert_eq!(lines.len(), 2);
    assert_eq!(lines[1].content, "gamma");
    // "alpha" has not changed since the origin; "gamma" came in epoch-1.
    assert_eq!(lines[0].epoch_display, "origin");
    assert_eq!(lines[0].epoch_num, Some(0));
    assert_eq!(lines[1].epoch_display, "epoch-1");
    assert_eq!(lines[1].line_number, 2);
    assert!(blame(&epochs, &entries, "other.txt", &inks).is_none());
    let g = grep(&epochs, &entries, "^a", &inks).unwrap();
    assert_eq!(g.len(), 2);
    assert_eq!(g[0].line_number, 1);
    assert!(grep(&epochs, &entries, "(", &inks).is_err());
}

#[test]
fn update_helpers() {
    assert_eq!(target_triple("linux", "x86_64"), Some("x86_64-unknown-linux-gnu"));
    assert_eq!(target_triple("plan9", "x86_64"), None);
    assert_eq!(archive_ext(true), "zip");
    assert_eq!(archive_ext(false), "tar.gz");
    assert!(is_up_to_date("v1.2.3", "1.2.3"));
    assert!(!is_up_to_date("v1.2.4", "1.2.3"));
    let assets = vec![
        AssetInfo { name: Some("a.zip".to_string()), download_url: None, size: Some(5) },
        AssetInfo { name: Some("b.tar.gz".to_string()), download_url: Some("u".to_string()), size: None },
    ];
    assert_eq!(select_asset(&assets, "b.tar.gz"), Ok(("u".to_string(), 0)));
    assert_eq!(select_asset(&assets, "a.zip"), Err(AssetError::NoDownloadUrl));
    assert_eq!(select_asset(&assets, "c"), Err(AssetError::NoMatchingAsset));
}

#[test]
fn removing_an_epoch_releases_its_inks() {
    let entries = vec![
        entry("a", Some("h1"), FileStatus::Added),
        entry("b", None, FileStatus::Added),
        entry("c", Some("h2"), FileStatus::Deleted),
    ];
    let open = epoch(1, 2, false, 10);
    assert_eq!(removal_plan(&open, &entries), Ok(vec!["h1".to_string(), "h2".to_string()]));
    assert_eq!(removal_plan(&open, &[]), Ok(vec![]));
    let mut locked = epoch(1, 2, false, 10);
    locked.is_locked = true;
    assert_eq!(removal_plan(&locked, &entries), Err(RemovalError::Locked));
}

#[test]
fn paths_of_a_comparison_are_sorted_once() {
    let old = vec![
        entry("src/b.rs", None, FileStatus::Added),
        entry("a.txt", None, FileStatus::Added),
        entry("src/b.rs", None, FileStatus::Modified),
    ];
    let new = vec![entry("z.md", None, FileStatus::Added), entry("a.txt", None, FileStatus::Modified)];
    assert_eq!(diff_paths(&old, &new), vec!["a.txt".to_string(), "src/b.rs".to_string(), "z.md".to_string()]);
    assert!(diff_paths(&[], &[]).is_empty());
    let upper = vec![entry("b", None, FileStatus::Added), entry("B", None, FileStatus::Added)];
    assert_eq!(diff_paths(&upper, &[]), vec!["B".to_string(), "b".to_string()]);
}

#[test]
fn restore_targets_by_tag() {
    let tags = vec![("v1.0".to_string(), 3), ("prod".to_string(), 5), ("v1.0".to_string(), 9)];
    // A tag names the epoch it marks, the first tag of that name winning.
    assert_eq!(resolve_restore_target("v1.0", &tags), Ok(SnapshotRef::Epoch(3)));
    // A tag is looked up before a name starting with `p` is read as a phantom.
    assert_eq!(resolve_restore_target("prod", &tags), Ok(SnapshotRef::Epoch(5)));
    // Other targets are read as phantom or epoch identifiers.
    assert_eq!(resolve_restore_target("phantom-2", &tags), Ok(SnapshotRef::Phantom(2)));
    assert_eq!(resolve_restore_target("epoch-4", &tags), Ok(SnapshotRef::Epoch(4)));
    assert_eq!(resolve_restore_target("origin", &tags), Ok(SnapshotRef::Epoch(0)));
    assert_eq!(resolve_restore_target("v2.0", &tags), Err(IdentError::InvalidEpoch));
    assert_eq!(resolve_restore_target("pear", &tags), Err(IdentError::InvalidPhantom));
    assert_eq!(resolve_restore_target("v1.0", &[]), Err(IdentError::InvalidEpoch));
}

#[test]
fn blame_finds_where_each_line_last_changed() {
    let mut inks = InkStore::new();
    inks.add("a".to_string(), b"one\ntwo\nthree\n".to_vec());
    inks.add("b".to_string(), b"one\nTWO\nthree\n".to_vec());
    inks.add("c".to_string(), b"one\ntwo\nthree\nfour\n".to_vec());
    let epochs = vec![epoch(1, 0, true, 1), epoch(2, 1, false, 2), epoch(3, 2, false, 3), epoch(4, 3, false, 4), epoch(5, 4, false, 5)];
    let entries = vec![
        vec![entry("f", Some("a"), FileStatus::Added)],
        vec![entry("f", Some("b"), FileStatus::Modified)],
        // An epoch without the file is passed over.
        vec![entry("f", Some("b"), FileStatus::Deleted)],
        vec![entry("f", Some("c"), FileStatus::Added)],
        // The latest epoch lacks the file: the lines come from epoch-3.
        vec![],
    ];
    let lines = blame(&epochs, &entries, "f", &inks).unwrap();
    let owners: Vec<&str> = lines.iter().map(|l| l.epoch_display.as_str()).collect();
    assert_eq!(owners, vec!["origin", "epoch-3", "origin", "epoch-3"]);
    let contents: Vec<&str> = lines.iter().map(|l| l.content.as_str()).collect();
    assert_eq!(contents, vec!["one", "two", "three", "four"]);
}

#[test]
fn phantoms_live_a_day() {
    assert_eq!(Phantom::expiry_for(0), 86_400_000_000_000);
    let p = Phantom { id: 1, phantom_num: 1, timestamp: 5, expires_at: Phantom::expiry_for(5), message: None, is_deleted: false };
    assert!(!p.is_expired(5));
    assert!(p.is_expired(5 + 86_400_000_000_000));
    assert_eq!(p.remaining_ttl(5), 86_400_000_000_000);
}

#[test]
fn file_times_are_written_in_utc() {
    assert_eq!(palimpsest::walker::modified_text(0), "1970-01-01T00:00:00+00:00");
    assert_eq!(palimpsest::walker::modified_text(86_400), "1970-01-02T00:00:00+00:00");
}
