//! Decisions of the self-updater: which release asset fits this platform,
//! whether an update is needed, and which archive entry is the program.

use vstd::prelude::*;
use crate::text::{chars_of, concat_chars, has_prefix, replace_char, replace_char_spec, str_eq, string_from_chars};

verus! {

/// The release target triple of an operating system and architecture, for
/// the platforms releases are built for.
pub open spec fn target_triple_spec(os: Seq<char>, arch: Seq<char>) -> Option<Seq<char>> {
    if os == "windows"@ && arch == "x86_64"@ {
        Some("x86_64-pc-windows-msvc"@)
    } else if os == "windows"@ && arch == "aarch64"@ {
        Some("aarch64-pc-windows-msvc"@)
    } else if os == "macos"@ && arch == "x86_64"@ {
        Some("x86_64-apple-darwin"@)
    } else if os == "macos"@ && arch == "aarch64"@ {
        Some("aarch64-apple-darwin"@)
    } else if os == "linux"@ && arch == "x86_64"@ {
        Some("x86_64-unknown-linux-gnu"@)
    } else if os == "linux"@ && arch == "aarch64"@ {
        Some("aarch64-unknown-linux-gnu"@)
    } else {
        None
    }
}

/// The target triple of the release asset for `os`/`arch` (as in
/// `std::env::consts`); `None` for an unsupported platform.
pub fn target_triple(os: &str, arch: &str) -> (r: Option<&'static str>)
    ensures
        match target_triple_spec(os@, arch@) {
            Some(t) => r is Some && r->Some_0@ == t,
            None => r is None,
        },
{
    if str_eq(os, "windows") && str_eq(arch, "x86_64") {
        Some("x86_64-pc-windows-msvc")
    } else if str_eq(os, "windows") && str_eq(arch, "aarch64") {
        Some("aarch64-pc-windows-msvc")
    } else if str_eq(os, "macos") && str_eq(arch, "x86_64") {
        Some("x86_64-apple-darwin")
    } else if str_eq(os, "macos") && str_eq(arch, "aarch64") {
        Some("aarch64-apple-darwin")
    } else if str_eq(os, "linux") && str_eq(arch, "x86_64") {
        Some("x86_64-unknown-linux-gnu")
    } else if str_eq(os, "linux") && str_eq(arch, "aarch64") {
        Some("aarch64-unknown-linux-gnu")
    } else {
        None
    }
}

/// The archive format of releases: `zip` on Windows, `tar.gz` elsewhere.
pub fn archive_ext(is_windows: bool) -> (r: &'static str)
    ensures
        r@ == (if is_windows { "zip"@ } else { "tar.gz"@ }),
{
    if is_windows {
        "zip"
    } else {
        "tar.gz"
    }
}

/// The name of the program file inside a release archive.
pub fn binary_name(is_windows: bool) -> (r: &'static str)
    ensures
        r@ == (if is_windows { "palin.exe"@ } else { "palin"@ }),
{
    if is_windows {
        "palin.exe"
    } else {
        "palin"
    }
}

/// The release asset for a target: `palimpsest-TARGET.EXT`.
pub fn asset_name(target: &str, ext: &str) -> (r: String)
    ensures
        r@ == "palimpsest-"@ + target@ + "."@ + ext@,
{
    let a = chars_of("palimpsest-");
    let b = chars_of(target);
    let c = chars_of(".");
    let d = chars_of(ext);
    let ab = concat_chars(a.as_slice(), b.as_slice());
    let abc = concat_chars(ab.as_slice(), c.as_slice());
    let all = concat_chars(abc.as_slice(), d.as_slice());
    string_from_chars(all.as_slice())
}

/// `s` without its leading `v` characters (`trim_start_matches('v')`).
pub open spec fn trim_leading_v(s: Seq<char>) -> Seq<char>
    decreases s.len(),
{
    if s.len() > 0 && s[0] == 'v' {
        trim_leading_v(s.skip(1))
    } else {
        s
    }
}

/// Whether the latest release tag names the running version: the tag without
/// its leading `v`s equals the version.
pub fn is_up_to_date(latest_tag: &str, current_version: &str) -> (r: bool)
    ensures
        r == (trim_leading_v(latest_tag@) == current_version@),
{
    let t = chars_of(latest_tag);
    let mut i: usize = 0;
    assert(t@.skip(0) =~= t@);
    while i < t.len() && t[i] == 'v'
        invariant
            0 <= i <= t@.len(),
            trim_leading_v(t@) == trim_leading_v(t@.skip(i as int)),
        decreases t.len() - i,
    {
        assert(t@.skip(i as int).skip(1) =~= t@.skip(i + 1));
        i = i + 1;
    }
    let rest = crate::text::slice_chars(t.as_slice(), i, t.len());
    assert(rest@ =~= t@.skip(i as int));
    let v = chars_of(current_version);
    let same = rest.len() == v.len() && crate::text::starts_with(rest.as_slice(), v.as_slice());
    assert(same == (rest@ == v@)) by {
        if rest@.len() == v@.len() {
            assert(rest@.take(v@.len() as int) =~= rest@);
        }
    }
    same
}

/// A release asset as the release listing describes it.
#[derive(Debug, Clone)]
pub struct AssetInfo {
    pub name: Option<String>,
    pub download_url: Option<String>,
    pub size: Option<u64>,
}

/// Why no download could be chosen.
#[derive(Debug, Clone, Copy, PartialEq, Eq, Structural)]
pub enum AssetError {
    /// No asset has the wanted name.
    NoMatchingAsset,
    /// The matching asset has no download URL.
    NoDownloadUrl,
}

/// Index of the first asset named `wanted`.
pub open spec fn first_asset_named(assets: Seq<AssetInfo>, wanted: Seq<char>, n: int) -> Option<int>
    decreases n,
{
    if n <= 0 {
        None
    } else {
        match first_asset_named(assets, wanted, n - 1) {
            Some(i) => Some(i),
            None => if crate::types::opt_view(assets[n - 1].name) == Some(wanted) {
                Some(n - 1)
            } else {
                None
            },
        }
    }
}

/// Chooses the download: the URL and size (0 when unknown) of the first asset
/// named `wanted`.
pub fn select_asset(assets: &[AssetInfo], wanted: &str) -> (r: Result<(String, u64), AssetError>)
    ensures
        match first_asset_named(assets@, wanted@, assets@.len() as int) {
            None => r == Err::<(String, u64), AssetError>(AssetError::NoMatchingAsset),
            Some(i) => match crate::types::opt_view(assets@[i].download_url) {
                None => r == Err::<(String, u64), AssetError>(AssetError::NoDownloadUrl),
                Some(u) => r is Ok && r->Ok_0.0@ == u && r->Ok_0.1 == (match assets@[i].size {
                    Some(s) => s,
                    None => 0,
                }),
            },
        },
{
    let mut i: usize = 0;
    while i < assets.len()
        invariant
            0 <= i <= assets@.len(),
            first_asset_named(assets@, wanted@, i as int) is None,
            forall|n: int| i <= n <= assets@.len() ==> #[trigger] first_asset_named(assets@, wanted@, n) == first_asset_named(assets@, wanted@, n),
        decreases assets.len() - i,
    {
        let hit = match &assets[i].name {
            Some(n) => str_eq(n.as_str(), wanted),
            None => false,
        };
        if hit {
            proof {
                lemma_first_asset_stable(assets@, wanted@, i as int + 1, assets@.len() as int);
            }
            return match &assets[i].download_url {
                None => Err(AssetError::NoDownloadUrl),
                Some(u) => Ok((u.clone(), match assets[i].size { Some(s) => s, None => 0 })),
            };
        }
        i = i + 1;
    }
    Err(AssetError::NoMatchingAsset)
}

proof fn lemma_first_asset_stable(assets: Seq<AssetInfo>, wanted: Seq<char>, m: int, n: int)
    requires
        0 <= m <= n,
        first_asset_named(assets, wanted, m) is Some,
    ensures
        first_asset_named(assets, wanted, n) == first_asset_named(assets, wanted, m),
    decreases n - m,
{
    if m < n {
        lemma_first_asset_stable(assets, wanted, m, n - 1);
    }
}

/// Whether an archive entry is the program: its name, with `\` written as
/// `/`, ends with the program's file name.
pub open spec fn is_program_entry_spec(entry_name: Seq<char>, binary: Seq<char>) -> bool {
    let n = replace_char_spec(entry_name, '\\', '/');
    binary.len() <= n.len() && n.skip(n.len() - binary.len()) == binary
}

/// Decides whether an archive entry is the program file.
pub fn is_program_entry(entry_name: &str, binary: &str) -> (r: bool)
    ensures
        r == is_program_entry_spec(entry_name@, binary@),
{
    let n = replace_char(chars_of(entry_name).as_slice(), '\\', '/');
    let b = chars_of(binary);
    if b.len() > n.len() {
        return false;
    }
    let tail = crate::text::slice_chars(n.as_slice(), n.len() - b.len(), n.len());
    assert(tail@ =~= n@.skip(n@.len() - b@.len()));
    let same = crate::text::starts_with(tail.as_slice(), b.as_slice());
    assert(same == (tail@ == b@)) by {
        assert(tail@.take(b@.len() as int) =~= tail@);
    }
    same
}

} // verus!
