//! The registry of palins (name → tracked directory) and the resolution of a
//! palin from the current directory.

use vstd::prelude::*;
use crate::walker::Platform;
use crate::text::{chars_of, concat_chars, has_prefix, lowercase_of, starts_with, str_eq, string_from_chars,
    to_lowercase};

verus! {

/// Where a palin's tracked directory is and when it was created.
#[derive(Debug, Clone)]
pub struct RegistryEntry {
    pub path: String,
    pub created: String,
}

/// A registered palin.
#[derive(Debug)]
pub struct RegistryItem {
    pub name: String,
    pub entry: RegistryEntry,
}

/// The registry: each palin name maps to its entry. Names are distinct.
#[derive(Debug)]
pub struct Registry {
    palins: Vec<RegistryItem>,
}

/// The value of an entry: its path and creation time.
pub open spec fn entry_view(e: RegistryEntry) -> (Seq<char>, Seq<char>) {
    (e.path@, e.created@)
}

fn copy_entry(e: &RegistryEntry) -> (r: RegistryEntry)
    ensures
        entry_view(r) == entry_view(*e),
{
    RegistryEntry { path: e.path.clone(), created: e.created.clone() }
}

impl Registry {
    /// Well-formedness: the names are distinct.
    pub closed spec fn wf(&self) -> bool {
        self.names_distinct()
    }

    closed spec fn names_distinct(self) -> bool {
        forall|i: int, j: int|
            0 <= i < j < self.palins@.len() ==> (#[trigger] self.palins@[i]).name@ != (
            #[trigger] self.palins@[j]).name@
    }

    /// The registry as a map from names to entries.
    pub closed spec fn view(&self) -> Map<Seq<char>, (Seq<char>, Seq<char>)> {
        Map::new(
            |n: Seq<char>| exists|i: int| 0 <= i < self.palins@.len() && (#[trigger] self.palins@[i]).name@ == n,
            |n: Seq<char>| {
                let i = choose|i: int| 0 <= i < self.palins@.len() && (#[trigger] self.palins@[i]).name@ == n;
                entry_view(self.palins@[i].entry)
            },
        )
    }

    proof fn lemma_view_at(&self, i: int)
        requires
            self.names_distinct(),
            0 <= i < self.palins@.len(),
        ensures
            self.view().contains_key(self.palins@[i].name@),
            self.view()[self.palins@[i].name@] == entry_view(self.palins@[i].entry),
    {
        let n = self.palins@[i].name@;
        assert(self.view().dom().contains(n));
        let k = choose|k: int| 0 <= k < self.palins@.len() && (#[trigger] self.palins@[k]).name@ == n;
        if k != i {
            if k < i {
                assert(self.palins@[k].name@ != self.palins@[i].name@);
            } else {
                assert(self.palins@[i].name@ != self.palins@[k].name@);
            }
        }
    }

    /// An empty registry.
    pub fn new() -> (r: Registry)
        ensures
            r.wf(),
            r.view() == Map::<Seq<char>, (Seq<char>, Seq<char>)>::empty(),
    {
        let r = Registry { palins: Vec::new() };
        assert(r.view() =~= Map::<Seq<char>, (Seq<char>, Seq<char>)>::empty());
        r
    }

    fn position(&self, name: &str) -> (r: Option<usize>)
        ensures
            match r {
                Some(i) => i < self.palins@.len() && self.palins@[i as int].name@ == name@,
                None => forall|k: int| 0 <= k < self.palins@.len() ==> (#[trigger] self.palins@[k]).name@ != name@,
            },
    {
        let mut i: usize = 0;
        while i < self.palins.len()
            invariant
                0 <= i <= self.palins@.len(),
                forall|k: int| 0 <= k < i ==> (#[trigger] self.palins@[k]).name@ != name@,
            decreases self.palins.len() - i,
        {
            if str_eq(self.palins[i].name.as_str(), name) {
                return Some(i);
            }
            i = i + 1;
        }
        None
    }

    /// Whether a palin of this name is registered.
    pub fn contains_key(&self, name: &str) -> (r: bool)
        requires
            self.wf(),
        ensures
            r == self.view().contains_key(name@),
    {
        match self.position(name) {
            Some(i) => {
                proof {
                    self.lemma_view_at(i as int);
                }
                true
            },
            None => false,
        }
    }

    /// The entry of a palin, if registered.
    pub fn get(&self, name: &str) -> (r: Option<&RegistryEntry>)
        requires
            self.wf(),
        ensures
            match r {
                Some(e) => self.view().contains_key(name@) && self.view()[name@] == entry_view(*e),
                None => !self.view().contains_key(name@),
            },
    {
        match self.position(name) {
            Some(i) => {
                proof {
                    self.lemma_view_at(i as int);
                }
                Some(&self.palins[i].entry)
            },
            None => None,
        }
    }

    /// The number of registered palins.
    pub fn len(&self) -> (r: usize)
        requires
            self.wf(),
        ensures
            r == self.view().len(),
    {
        proof {
            self.lemma_len();
        }
        self.palins.len()
    }

    proof fn lemma_len(&self)
        requires
            self.names_distinct(),
        ensures
            self.view().len() == self.palins@.len(),
            self.view().dom().finite(),
    {
        let names = self.palins@.map_values(|it: RegistryItem| it.name@);
        assert(self.view().dom() =~= names.to_set()) by {
            assert forall|n: Seq<char>| self.view().dom().contains(n) implies names.to_set().contains(n) by {
                let i = choose|i: int| 0 <= i < self.palins@.len() && (#[trigger] self.palins@[i]).name@ == n;
                assert(names[i] == n);
            }
            assert forall|n: Seq<char>| names.to_set().contains(n) implies self.view().dom().contains(n) by {
                let i = choose|i: int| 0 <= i < names.len() && names[i] == n;
                assert(self.palins@[i].name@ == n);
            }
        }
        assert(names.no_duplicates()) by {
            assert forall|i: int, j: int| 0 <= i < names.len() && 0 <= j < names.len() && i != j implies names[i]
                != names[j] by {
                if i < j {
                    assert(self.palins@[i].name@ != self.palins@[j].name@);
                } else {
                    assert(self.palins@[j].name@ != self.palins@[i].name@);
                }
            }
        }
        names.unique_seq_to_set();
    }

    /// Registers `entry` under `name`, replacing any entry of that name.
    pub fn insert(&mut self, name: String, entry: RegistryEntry)
        requires
            old(self).wf(),
        ensures
            final(self).wf(),
            final(self).view() == old(self).view().insert(name@, entry_view(entry)),
    {
        let ghost n = name@;
        let ghost ev = entry_view(entry);
        match self.position(name.as_str()) {
            Some(i) => {
                let ghost before = self.palins@;
                let item = RegistryItem { name, entry };
                self.palins.set(i, item);
                proof {
                    assert forall|k: int| 0 <= k < self.palins@.len() implies (#[trigger] self.palins@[k]).name@
                        == before[k].name@ by {}
                    assert(self.view() =~= old(self).view().insert(n, ev)) by {
                        assert forall|m: Seq<char>| #[trigger] self.view().contains_key(m) == old(self).view().insert(n, ev).contains_key(m) by {
                            if self.view().contains_key(m) {
                                let k = choose|k: int| 0 <= k < self.palins@.len() && (#[trigger] self.palins@[k]).name@ == m;
                                assert(before[k].name@ == m);
                            }
                            if old(self).view().contains_key(m) {
                                let k = choose|k: int| 0 <= k < before.len() && (#[trigger] before[k]).name@ == m;
                                assert(self.palins@[k].name@ == m);
                            }
                        }
                        assert forall|m: Seq<char>| self.view().contains_key(m) implies #[trigger] self.view()[m]
                            == old(self).view().insert(n, ev)[m] by {
                            let k = choose|k: int| 0 <= k < self.palins@.len() && (#[trigger] self.palins@[k]).name@ == m;
                            self.lemma_view_at(k);
                            if k != i {
                                old(self).lemma_view_at(k);
                                assert(self.palins@[k] == before[k]);
                            }
                        }
                    }
                }
            },
            None => {
                let ghost before = self.palins@;
                self.palins.push(RegistryItem { name, entry });
                proof {
                    assert(self.view() =~= old(self).view().insert(n, ev)) by {
                        assert forall|m: Seq<char>| #[trigger] self.view().contains_key(m) == old(self).view().insert(n, ev).contains_key(m) by {
                            if self.view().contains_key(m) {
                                let k = choose|k: int| 0 <= k < self.palins@.len() && (#[trigger] self.palins@[k]).name@ == m;
                                if k < before.len() {
                                    assert(before[k].name@ == m);
                                }
                            }
                            if old(self).view().contains_key(m) {
                                let k = choose|k: int| 0 <= k < before.len() && (#[trigger] before[k]).name@ == m;
                                assert(self.palins@[k].name@ == m);
                            }
                            if m == n {
                                assert(self.palins@[before.len() as int].name@ == m);
                            }
                        }
                        assert forall|m: Seq<char>| self.view().contains_key(m) implies #[trigger] self.view()[m]
                            == old(self).view().insert(n, ev)[m] by {
                            let k = choose|k: int| 0 <= k < self.palins@.len() && (#[trigger] self.palins@[k]).name@ == m;
                            self.lemma_view_at(k);
                            if k < before.len() {
                                old(self).lemma_view_at(k);
                                assert(self.palins@[k] == before[k]);
                            }
                        }
                    }
                }
            },
        }
    }

    /// Removes the palin `name`, returning its entry if it was registered.
    pub fn remove(&mut self, name: &str) -> (r: Option<RegistryEntry>)
        requires
            old(self).wf(),
        ensures
            final(self).wf(),
            final(self).view() == old(self).view().remove(name@),
            match r {
                Some(e) => old(self).view().contains_key(name@) && old(self).view()[name@] == entry_view(e),
                None => !old(self).view().contains_key(name@),
            },
    {
        match self.position(name) {
            None => {
                assert(old(self).view() =~= old(self).view().remove(name@));
                None
            },
            Some(i) => {
                proof {
                    self.lemma_view_at(i as int);
                }
                let ghost before = self.palins@;
                let item = self.palins.remove(i);
                proof {
                    assert forall|k: int| 0 <= k < self.palins@.len() implies #[trigger] self.palins@[k] == (if k < i {
                        before[k]
                    } else {
                        before[k + 1]
                    }) by {}
                    assert(self.view() =~= old(self).view().remove(name@)) by {
                        assert forall|m: Seq<char>| #[trigger] self.view().contains_key(m) == old(self).view().remove(name@).contains_key(m) by {
                            if self.view().contains_key(m) {
                                let k = choose|k: int| 0 <= k < self.palins@.len() && (#[trigger] self.palins@[k]).name@ == m;
                                if k < i {
                                    assert(before[k].name@ == m);
                                    assert(before[k].name@ != before[i as int].name@);
                                } else {
                                    assert(before[k + 1].name@ == m);
                                    assert(before[i as int].name@ != before[k + 1].name@);
                                }
                            }
                            if old(self).view().remove(name@).contains_key(m) {
                                let k = choose|k: int| 0 <= k < before.len() && (#[trigger] before[k]).name@ == m;
                                assert(k != i);
                                if k < i {
                                    assert(self.palins@[k].name@ == m);
                                } else {
                                    assert(self.palins@[k - 1].name@ == m);
                                }
                            }
                        }
                        assert forall|m: Seq<char>| self.view().contains_key(m) implies #[trigger] self.view()[m]
                            == old(self).view().remove(name@)[m] by {
                            let k = choose|k: int| 0 <= k < self.palins@.len() && (#[trigger] self.palins@[k]).name@ == m;
                            self.lemma_view_at(k);
                            if k < i {
                                old(self).lemma_view_at(k);
                            } else {
                                old(self).lemma_view_at(k + 1);
                            }
                        }
                    }
                }
                Some(item.entry)
            },
        }
    }

    /// The registered palins as (name, path) pairs, in storage order.
    pub fn pairs(&self) -> (r: Vec<(String, String)>)
        requires
            self.wf(),
        ensures
            r@.len() == self.view().len(),
            forall|i: int| 0 <= i < r@.len() ==> self.view().contains_key((#[trigger] r@[i]).0@) && self.view()[r@[i].0@].0 == r@[i].1@,
            forall|n: Seq<char>| #[trigger] self.view().contains_key(n) ==> exists|i: int| 0 <= i < r@.len() && (#[trigger] r@[i]).0@ == n,
    {
        proof {
            self.lemma_len();
        }
        let mut out: Vec<(String, String)> = Vec::new();
        let mut i: usize = 0;
        while i < self.palins.len()
            invariant
                0 <= i <= self.palins@.len(),
                self.names_distinct(),
                out@.len() == i,
                forall|k: int| 0 <= k < i ==> (#[trigger] out@[k]).0@ == self.palins@[k].name@ && out@[k].1@ == self.palins@[k].entry.path@,
            decreases self.palins.len() - i,
        {
            out.push((self.palins[i].name.clone(), self.palins[i].entry.path.clone()));
            i = i + 1;
        }
        proof {
            assert forall|k: int| 0 <= k < out@.len() implies self.view().contains_key((#[trigger] out@[k]).0@) && self.view()[out@[k].0@].0 == out@[k].1@ by {
                self.lemma_view_at(k);
            }
            assert forall|n: Seq<char>| #[trigger] self.view().contains_key(n) implies exists|k: int| 0 <= k < out@.len() && (#[trigger] out@[k]).0@ == n by {
                let k = choose|k: int| 0 <= k < self.palins@.len() && (#[trigger] self.palins@[k]).name@ == n;
                assert(out@[k].0@ == n);
            }
        }
        out
    }
}

/// Why a registry operation was refused.
#[derive(Debug, Clone, Copy, PartialEq, Eq, Structural)]
pub enum RegistryError {
    /// A palin of that name is already registered.
    AlreadyExists,
    /// No palin of that name is registered.
    NotFound,
}

/// Registers a new palin tracking `canonical_dir`. Refused, with the registry
/// unchanged, when the name is taken.
pub fn register_palin(registry: &mut Registry, name: &str, canonical_dir: &str, created: &str) -> (r: Result<(), RegistryError>)
    requires
        old(registry).wf(),
    ensures
        final(registry).wf(),
        old(registry).view().contains_key(name@) ==> r == Err::<(), RegistryError>(RegistryError::AlreadyExists)
            && final(registry).view() == old(registry).view(),
        !old(registry).view().contains_key(name@) ==> r is Ok && final(registry).view() == old(registry).view().insert(
            name@,
            (canonical_dir@, created@),
        ),
{
    if registry.contains_key(name) {
        return Err(RegistryError::AlreadyExists);
    }
    let n = string_from_chars(chars_of(name).as_slice());
    let p = string_from_chars(chars_of(canonical_dir).as_slice());
    let c = string_from_chars(chars_of(created).as_slice());
    registry.insert(n, RegistryEntry { path: p, created: c });
    Ok(())
}

/// Unregisters a palin. Refused, with the registry unchanged, when no palin
/// has that name.
pub fn unregister_palin(registry: &mut Registry, name: &str) -> (r: Result<(), RegistryError>)
    requires
        old(registry).wf(),
    ensures
        final(registry).wf(),
        !old(registry).view().contains_key(name@) ==> r == Err::<(), RegistryError>(RegistryError::NotFound)
            && final(registry).view() == old(registry).view(),
        old(registry).view().contains_key(name@) ==> r is Ok && final(registry).view() == old(registry).view().remove(name@),
{
    match registry.remove(name) {
        Some(_) => Ok(()),
        None => {
            assert(old(registry).view().remove(name@) =~= old(registry).view());
            Err(RegistryError::NotFound)
        },
    }
}

/// Renames a palin, keeping its entry. Refused, with the registry unchanged,
/// when the old name is not registered, or when the new name is registered
/// and differs from the old one.
pub fn rename_palin_in_registry(registry: &mut Registry, old_name: &str, new_name: &str) -> (r: Result<(), RegistryError>)
    requires
        old(registry).wf(),
    ensures
        final(registry).wf(),
        !old(registry).view().contains_key(old_name@) ==> r == Err::<(), RegistryError>(RegistryError::NotFound)
            && final(registry).view() == old(registry).view(),
        old(registry).view().contains_key(old_name@) && old_name@ != new_name@ && old(registry).view().contains_key(new_name@)
            ==> r == Err::<(), RegistryError>(RegistryError::AlreadyExists) && final(registry).view() == old(registry).view(),
        old(registry).view().contains_key(old_name@) && (old_name@ == new_name@ || !old(registry).view().contains_key(new_name@))
            ==> r is Ok && final(registry).view() == old(registry).view().remove(old_name@).insert(
            new_name@,
            old(registry).view()[old_name@],
        ),
{
    let found = match registry.get(old_name) {
        None => return Err(RegistryError::NotFound),
        Some(e) => copy_entry(e),
    };
    let same = str_eq(old_name, new_name);
    if !same && registry.contains_key(new_name) {
        return Err(RegistryError::AlreadyExists);
    }
    registry.remove(old_name);
    let n = string_from_chars(chars_of(new_name).as_slice());
    registry.insert(n, found);
    Ok(())
}

/// Law: registering a new name and then unregistering it gives back the
/// registry as it was.
pub proof fn law_register_then_unregister(before: Map<Seq<char>, (Seq<char>, Seq<char>)>, name: Seq<char>, entry: (Seq<char>, Seq<char>))
    requires
        !before.contains_key(name),
    ensures
        before.insert(name, entry).remove(name) == before,
{
    assert(before.insert(name, entry).remove(name) =~= before);
}

/// Law: renaming a palin and renaming it back gives back the registry as it was.
pub proof fn law_rename_roundtrip(before: Map<Seq<char>, (Seq<char>, Seq<char>)>, a: Seq<char>, b: Seq<char>)
    requires
        before.contains_key(a),
        !before.contains_key(b),
    ensures
        ({
            let mid = before.remove(a).insert(b, before[a]);
            mid.remove(b).insert(a, mid[b]) == before
        }),
{
    let mid = before.remove(a).insert(b, before[a]);
    assert(mid.remove(b).insert(a, mid[b]) =~= before);
}

// ─── Resolution from a directory ────────────────────────────────────────

/// Whether a palin whose (canonical, lowercased) path is `p` covers the
/// (canonical, lowercased) directory `cur` on a platform with path separator
/// `sep`: the same path, or a directory below it (its path continues `p` at a
/// component boundary: after a separator that ends `p` or that follows it).
pub open spec fn covers(sep: char, cur: Seq<char>, p: Seq<char>) -> bool {
    ||| cur == p
    ||| has_prefix(cur, p + seq![sep])
    ||| (p.len() > 0 && p.last() == sep && has_prefix(cur, p))
}

/// The indices of the palins covering `cur`, in order.
pub open spec fn covering(sep: char, cur: Seq<char>, palins: Seq<(String, String)>, n: int) -> Seq<int>
    decreases n,
{
    if n <= 0 {
        seq![]
    } else if covers(sep, lowercase_of(cur), lowercase_of(palins[n - 1].1@)) {
        covering(sep, cur, palins, n - 1).push(n - 1)
    } else {
        covering(sep, cur, palins, n - 1)
    }
}

/// Why no palin could be resolved from a directory.
#[derive(Debug, Clone, Copy, PartialEq, Eq, Structural)]
pub enum ResolveError {
    /// No palin covers the directory.
    NoMatch,
    /// More than one palin covers the directory.
    Ambiguous,
}

/// Resolves the palin of the directory `current` (canonical), given each
/// registered palin as (name, canonical path) and the platform `pf` whose
/// separator splits path components: the one palin whose path, compared
/// after lowercasing, is the directory or a parent of it; refused when there
/// is none or more than one.
pub fn resolve_palin_from_dir(pf: &Platform, current: &str, palins: &[(String, String)]) -> (r: Result<usize, ResolveError>)
    ensures
        ({
            let m = covering(pf.sep(), current@, palins@, palins@.len() as int);
            &&& m.len() == 0 ==> r == Err::<usize, ResolveError>(ResolveError::NoMatch)
            &&& m.len() == 1 ==> r == Ok::<usize, ResolveError>(m[0] as usize)
            &&& m.len() > 1 ==> r == Err::<usize, ResolveError>(ResolveError::Ambiguous)
        }),
{
    let sep = pf.separator();
    let cur = to_lowercase(current);
    let cur_chars = chars_of(cur.as_str());
    let mut found: Vec<usize> = Vec::new();
    let mut i: usize = 0;
    while i < palins.len()
        invariant
            0 <= i <= palins@.len(),
            cur_chars@ == lowercase_of(current@),
            sep == pf.sep(),
            found@.len() == covering(sep, current@, palins@, i as int).len(),
            forall|k: int| 0 <= k < found@.len() ==> found@[k] as int == #[trigger] covering(sep, current@, palins@, i as int)[k],
            forall|k: int| 0 <= k < found@.len() ==> found@[k] < i,
        decreases palins.len() - i,
    {
        let p = to_lowercase(palins[i].1.as_str());
        let pc = chars_of(p.as_str());
        let mut ps = pc.clone();
        ps.push(sep);
        assert(ps@ =~= pc@ + seq![sep]);
        let ends_sep = pc.len() > 0 && pc[pc.len() - 1] == sep;
        let same = cur_chars.len() == pc.len() && starts_with(cur_chars.as_slice(), pc.as_slice());
        assert(same == (cur_chars@ == pc@)) by {
            if cur_chars@.len() == pc@.len() && has_prefix(cur_chars@, pc@) {
                assert(cur_chars@.take(pc@.len() as int) =~= cur_chars@);
            }
            if cur_chars@ == pc@ {
                assert(cur_chars@.take(pc@.len() as int) =~= cur_chars@);
            }
        }
        if same || starts_with(cur_chars.as_slice(), ps.as_slice()) || (ends_sep && starts_with(cur_chars.as_slice(), pc.as_slice())) {
            found.push(i);
        }
        i = i + 1;
    }
    if found.len() == 0 {
        Err(ResolveError::NoMatch)
    } else if found.len() == 1 {
        Ok(found[0])
    } else {
        Err(ResolveError::Ambiguous)
    }
}

// ─── Storage layout ─────────────────────────────────────────────────────

/// The path `base` joined with `part`, as `Path::join` forms it on a
/// platform whose main path separator is `sep` (`/` on Unix, `\\` on Windows).
pub uninterp spec fn path_join_of(sep: char, base: Seq<char>, part: Seq<char>) -> Seq<char>;

/// Joins a path component onto a base path (`Path::join`) on the platform
/// `pf`, the one this runs on.
#[verifier::external_body]
fn join_path(pf: &Platform, base: &str, part: &str) -> (r: String)
    ensures
        r@ == path_join_of(pf.sep(), base@, part@),
{
    std::path::Path::new(base).join(part).to_string_lossy().into_owned()
}

/// The Palimpsest data directory under the home directory `home`:
/// `<home>/palimpsest/palin`, joined as the platform `pf` joins paths;
/// `None` when the home directory is not known.
pub fn palimpsest_dir(pf: &Platform, home: Option<&str>) -> (r: Option<String>)
    ensures
        match home {
            None => r is None,
            Some(h) => r is Some && r->Some_0@ == path_join_of(pf.sep(), path_join_of(pf.sep(), h@, "palimpsest"@), "palin"@),
        },
{
    match home {
        None => None,
        Some(h) => {
            let top = join_path(pf, h, "palimpsest");
            Some(join_path(pf, top.as_str(), "palin"))
        },
    }
}

/// The storage directory of a palin: `<base>/<name>`, where `base` is the
/// Palimpsest data directory, joined as the platform `pf` joins paths.
pub fn palin_dir(pf: &Platform, base: &str, name: &str) -> (r: String)
    ensures
        r@ == path_join_of(pf.sep(), base@, name@),
{
    join_path(pf, base, name)
}

/// The registry file: `<base>/registry.toml`, joined as the platform `pf`
/// joins paths.
pub fn registry_path(pf: &Platform, base: &str) -> (r: String)
    ensures
        r@ == path_join_of(pf.sep(), base@, "registry.toml"@),
{
    join_path(pf, base, "registry.toml")
}

} // verus!
