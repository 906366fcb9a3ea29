//! Identifiers of snapshots as users type them: `origin`, `epoch-N`,
//! `epoch_N`, `N`, and `phantom-N`, `phantom_N`, `pN`.

use vstd::prelude::*;
use crate::number::{decimal_text, parse_i64, parse_i64_spec};
use crate::text::{chars_of, has_prefix, starts_with};
use crate::types::{epoch_display_name, phantom_display_name, Epoch};

verus! {

/// The ASCII lowercase of `c` (other characters unchanged).
pub open spec fn ascii_lower(c: char) -> char {
    if 'A' <= c && c <= 'Z' {
        ((c as int) + 32) as char
    } else {
        c
    }
}

/// Whether `a` and `b` are equal ignoring ASCII case (`str::eq_ignore_ascii_case`).
pub open spec fn eq_ignore_ascii_case_spec(a: Seq<char>, b: Seq<char>) -> bool {
    a.len() == b.len() && forall|i: int| 0 <= i < a.len() ==> ascii_lower(#[trigger] a[i]) == ascii_lower(b[i])
}

fn lower_char(c: char) -> (r: char)
    ensures
        r == ascii_lower(c),
{
    if 'A' <= c && c <= 'Z' {
        ((c as u32) + 32) as u8 as char
    } else {
        c
    }
}

/// Compares two strings ignoring ASCII case.
pub fn eq_ignore_ascii_case(a: &[char], b: &[char]) -> (r: bool)
    ensures
        r == eq_ignore_ascii_case_spec(a@, b@),
{
    if a.len() != b.len() {
        return false;
    }
    let mut i: usize = 0;
    while i < a.len()
        invariant
            a@.len() == b@.len(),
            0 <= i <= a@.len(),
            forall|j: int| 0 <= j < i ==> ascii_lower(#[trigger] a@[j]) == ascii_lower(b@[j]),
        decreases a.len() - i,
    {
        if lower_char(a[i]) != lower_char(b[i]) {
            return false;
        }
        i = i + 1;
    }
    true
}

/// Why an identifier could not be turned into a snapshot number.
#[derive(Debug, Clone, Copy, PartialEq, Eq, Structural)]
pub enum IdentError {
    /// `epoch-`/`epoch_` followed by something that is not an `i64`.
    BadEpochNumber,
    /// Neither `origin`, `epoch-N`, `epoch_N` nor a number.
    InvalidEpoch,
    /// A phantom identifier whose number does not parse.
    InvalidPhantom,
}

/// The epoch number named by an identifier: `origin` (any ASCII case) is 0,
/// `epoch-N` and `epoch_N` are N, a bare number is itself.
pub open spec fn epoch_ident_spec(ident: Seq<char>) -> Result<i64, IdentError> {
    if eq_ignore_ascii_case_spec(ident, "origin"@) {
        Ok(0)
    } else if has_prefix(ident, "epoch-"@) || has_prefix(ident, "epoch_"@) {
        match parse_i64_spec(ident.skip(6)) {
            Some(n) => Ok(n),
            None => Err(IdentError::BadEpochNumber),
        }
    } else {
        match parse_i64_spec(ident) {
            Some(n) => Ok(n),
            None => Err(IdentError::InvalidEpoch),
        }
    }
}

/// Reads an epoch identifier into an epoch number.
pub fn parse_epoch_ident(ident: &str) -> (r: Result<i64, IdentError>)
    ensures
        r == epoch_ident_spec(ident@),
{
    let s = chars_of(ident);
    let origin = chars_of("origin");
    if eq_ignore_ascii_case(s.as_slice(), origin.as_slice()) {
        return Ok(0);
    }
    let p1 = chars_of("epoch-");
    let p2 = chars_of("epoch_");
    if starts_with(s.as_slice(), p1.as_slice()) || starts_with(s.as_slice(), p2.as_slice()) {
        proof {
            reveal_strlit("epoch-");
            reveal_strlit("epoch_");
        }
        let rest = crate::text::slice_chars(s.as_slice(), 6, s.len());
        assert(rest@ =~= s@.skip(6));
        match parse_i64(rest.as_slice()) {
            Some(n) => Ok(n),
            None => Err(IdentError::BadEpochNumber),
        }
    } else {
        match parse_i64(s.as_slice()) {
            Some(n) => Ok(n),
            None => Err(IdentError::InvalidEpoch),
        }
    }
}

/// Why an epoch could not be found from an identifier.
#[derive(Debug, Clone, Copy, PartialEq, Eq, Structural)]
pub enum EpochLookupError {
    /// The identifier is malformed.
    Ident(IdentError),
    /// No live epoch has the number it names.
    NotFound,
}

/// Index of the first epoch in `epochs` with number `num`, if any.
pub open spec fn first_epoch_with_num(epochs: Seq<Epoch>, num: i64) -> Option<int>
    decreases epochs.len(),
{
    if epochs.len() == 0 {
        None
    } else if epochs[0].epoch_num == num {
        Some(0)
    } else {
        match first_epoch_with_num(epochs.skip(1), num) {
            Some(i) => Some(i + 1),
            None => None,
        }
    }
}

proof fn lemma_first_epoch_step(epochs: Seq<Epoch>, num: i64, i: int)
    requires
        0 <= i < epochs.len(),
        forall|j: int| 0 <= j < i ==> (#[trigger] epochs[j]).epoch_num != num,
    ensures
        first_epoch_with_num(epochs, num) == (if epochs[i].epoch_num == num {
            Some(i)
        } else {
            match first_epoch_with_num(epochs.skip(i + 1), num) {
                Some(k) => Some(k + i + 1),
                None => None,
            }
        }),
    decreases i,
{
    if i > 0 {
        lemma_first_epoch_step(epochs.skip(1), num, i - 1);
        assert(epochs.skip(1).skip(i) =~= epochs.skip(i + 1));
        assert(epochs[0].epoch_num != num);
    }
}

/// Finds the epoch named by `ident` among the live epochs `epochs` (the first
/// one with that number).
pub fn resolve_epoch(epochs: &[Epoch], ident: &str) -> (r: Result<usize, EpochLookupError>)
    ensures
        match epoch_ident_spec(ident@) {
            Err(e) => r == Err::<usize, EpochLookupError>(EpochLookupError::Ident(e)),
            Ok(num) => match first_epoch_with_num(epochs@, num) {
                Some(i) => r == Ok::<usize, EpochLookupError>(i as usize),
                None => r == Err::<usize, EpochLookupError>(EpochLookupError::NotFound),
            },
        },
{
    let num = match parse_epoch_ident(ident) {
        Ok(n) => n,
        Err(e) => return Err(EpochLookupError::Ident(e)),
    };
    let mut i: usize = 0;
    while i < epochs.len()
        invariant
            0 <= i <= epochs@.len(),
            epoch_ident_spec(ident@) == Ok::<i64, IdentError>(num),
            forall|j: int| 0 <= j < i ==> (#[trigger] epochs@[j]).epoch_num != num,
        decreases epochs.len() - i,
    {
        proof {
            lemma_first_epoch_step(epochs@, num, i as int);
        }
        if epochs[i].epoch_num == num {
            return Ok(i);
        }
        i = i + 1;
    }
    proof {
        lemma_no_epoch_with_num(epochs@, num);
    }
    Err(EpochLookupError::NotFound)
}

proof fn lemma_no_epoch_with_num(epochs: Seq<Epoch>, num: i64)
    requires
        forall|j: int| 0 <= j < epochs.len() ==> (#[trigger] epochs[j]).epoch_num != num,
    ensures
        first_epoch_with_num(epochs, num) == None::<int>,
    decreases epochs.len(),
{
    if epochs.len() > 0 {
        assert forall|j: int| 0 <= j < epochs.skip(1).len() implies (
        #[trigger] epochs.skip(1)[j]).epoch_num != num by {
            assert(epochs.skip(1)[j] == epochs[j + 1]);
        }
        lemma_no_epoch_with_num(epochs.skip(1), num);
    }
}

/// What a restore target names: a phantom by number, or an epoch by number.
#[derive(Debug, Clone, Copy, PartialEq, Eq, Structural)]
pub enum SnapshotRef {
    Phantom(i64),
    Epoch(i64),
}

/// How a restore target is read: one that starts with `phantom-`, `phantom_`
/// or `p` names a phantom (the number after that prefix must parse); any other
/// is an epoch identifier.
pub open spec fn restore_target_spec(ident: Seq<char>) -> Result<SnapshotRef, IdentError> {
    if has_prefix(ident, "phantom-"@) || has_prefix(ident, "phantom_"@) || has_prefix(ident, "p"@) {
        let rest = if has_prefix(ident, "phantom-"@) || has_prefix(ident, "phantom_"@) {
            ident.skip(8)
        } else {
            ident.skip(1)
        };
        match parse_i64_spec(rest) {
            Some(n) => Ok(SnapshotRef::Phantom(n)),
            None => Err(IdentError::InvalidPhantom),
        }
    } else {
        match epoch_ident_spec(ident) {
            Ok(n) => Ok(SnapshotRef::Epoch(n)),
            Err(e) => Err(e),
        }
    }
}

/// Reads the target of a restore.
pub fn parse_restore_target(ident: &str) -> (r: Result<SnapshotRef, IdentError>)
    ensures
        r == restore_target_spec(ident@),
{
    let s = chars_of(ident);
    let p1 = chars_of("phantom-");
    let p2 = chars_of("phantom_");
    let p3 = chars_of("p");
    let long = starts_with(s.as_slice(), p1.as_slice()) || starts_with(s.as_slice(), p2.as_slice());
    if long || starts_with(s.as_slice(), p3.as_slice()) {
        proof {
            reveal_strlit("phantom-");
            reveal_strlit("phantom_");
            reveal_strlit("p");
        }
        let skip: usize = if long { 8 } else { 1 };
        let rest = crate::text::slice_chars(s.as_slice(), skip, s.len());
        assert(rest@ =~= s@.skip(skip as int));
        match parse_i64(rest.as_slice()) {
            Some(n) => Ok(SnapshotRef::Phantom(n)),
            None => Err(IdentError::InvalidPhantom),
        }
    } else {
        match parse_epoch_ident(ident) {
            Ok(n) => Ok(SnapshotRef::Epoch(n)),
            Err(e) => Err(e),
        }
    }
}

/// The epoch number of the first tag named `name` among `tags` (each a tag
/// name and the number of the epoch it marks), if any.
pub open spec fn tag_lookup(tags: Seq<(String, i64)>, name: Seq<char>) -> Option<i64>
    decreases tags.len(),
{
    if tags.len() == 0 {
        None
    } else if tags[0].0@ == name {
        Some(tags[0].1)
    } else {
        tag_lookup(tags.skip(1), name)
    }
}

/// How a restore target is resolved: a tag's name names the epoch it marks,
/// before anything else; otherwise it is read as `restore_target_spec` says.
pub open spec fn resolved_target_spec(ident: Seq<char>, tags: Seq<(String, i64)>) -> Result<SnapshotRef, IdentError> {
    match tag_lookup(tags, ident) {
        Some(n) => Ok(SnapshotRef::Epoch(n)),
        None => restore_target_spec(ident),
    }
}

/// Resolves the target of a restore, given the palin's tags as (tag name,
/// number of the tagged epoch): a tag name gives its epoch; any other target
/// is a phantom or epoch identifier.
pub fn resolve_restore_target(ident: &str, tags: &[(String, i64)]) -> (r: Result<SnapshotRef, IdentError>)
    ensures
        r == resolved_target_spec(ident@, tags@),
{
    let mut i: usize = 0;
    assert(tags@.skip(0) =~= tags@);
    while i < tags.len()
        invariant
            0 <= i <= tags@.len(),
            tag_lookup(tags@, ident@) == tag_lookup(tags@.skip(i as int), ident@),
        decreases tags.len() - i,
    {
        assert(tags@.skip(i as int).skip(1) =~= tags@.skip(i + 1));
        assert(tags@.skip(i as int)[0] == tags@[i as int]);
        if crate::text::str_eq(tags[i].0.as_str(), ident) {
            return Ok(SnapshotRef::Epoch(tags[i].1));
        }
        i = i + 1;
    }
    parse_restore_target(ident)
}

/// Law: an epoch's display name reads back as its number (the origin is
/// numbered 0).
pub proof fn law_epoch_name_roundtrip(is_origin: bool, epoch_num: i64)
    requires
        is_origin ==> epoch_num == 0,
    ensures
        epoch_ident_spec(epoch_display_name(is_origin, epoch_num as int)) == Ok::<i64, IdentError>(epoch_num),
{
    reveal_strlit("origin");
    reveal_strlit("epoch-");
    reveal_strlit("epoch_");
    if !is_origin {
        let s = epoch_display_name(false, epoch_num as int);
        assert(s.take(6) =~= "epoch-"@);
        assert(s.skip(6) =~= decimal_text(epoch_num as int));
        assert(!eq_ignore_ascii_case_spec(s, "origin"@)) by {
            if s.len() == 6 {
                assert(ascii_lower(s[5]) == '-');
            }
        }
        crate::number::law_format_then_parse_i64(epoch_num);
    }
}

/// Law: restoring to a tag restores to the epoch it marks. When the first
/// tag named `t` marks epoch number `num` (the origin being number 0) and no
/// tag bears that epoch's display name, `t` resolves to the same target as
/// the epoch's display name.
pub proof fn law_tag_target_is_epoch_target(t: Seq<char>, tags: Seq<(String, i64)>, is_origin: bool, num: i64)
    requires
        tag_lookup(tags, t) == Some(num),
        is_origin ==> num == 0,
        tag_lookup(tags, epoch_display_name(is_origin, num as int)) is None,
    ensures
        resolved_target_spec(t, tags) == resolved_target_spec(epoch_display_name(is_origin, num as int), tags),
{
    law_epoch_name_roundtrip(is_origin, num);
    reveal_strlit("p");
    reveal_strlit("phantom-");
    reveal_strlit("phantom_");
    reveal_strlit("origin");
    reveal_strlit("epoch-");
    let d = epoch_display_name(is_origin, num as int);
    assert(d.len() > 0);
    assert(d[0] != 'p') by {
        if is_origin {
            assert(d[0] == 'o');
        } else {
            assert(d[0] == ("epoch-"@ + decimal_text(num as int))[0]);
        }
    }
    assert(!has_prefix(d, "p"@)) by {
        if has_prefix(d, "p"@) {
            assert(d.take(1)[0] == d[0]);
        }
    }
    assert(!has_prefix(d, "phantom-"@)) by {
        if has_prefix(d, "phantom-"@) {
            assert(d.take(8)[0] == d[0]);
        }
    }
    assert(!has_prefix(d, "phantom_"@)) by {
        if has_prefix(d, "phantom_"@) {
            assert(d.take(8)[0] == d[0]);
        }
    }
}

/// Law: a phantom's display name, given as a restore target, names that phantom.
pub proof fn law_phantom_name_roundtrip(phantom_num: i64)
    ensures
        restore_target_spec(phantom_display_name(phantom_num as int)) == Ok::<SnapshotRef, IdentError>(
            SnapshotRef::Phantom(phantom_num),
        ),
{
    reveal_strlit("phantom-");
    reveal_strlit("phantom_");
    reveal_strlit("p");
    let s = phantom_display_name(phantom_num as int);
    assert(s.take(8) =~= "phantom-"@);
    assert(s.skip(8) =~= decimal_text(phantom_num as int));
    crate::number::law_format_then_parse_i64(phantom_num);
}

} // verus!
