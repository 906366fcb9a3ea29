//! Inks: file contents addressed by the lowercase hex SHA-256 of their bytes.

use vstd::prelude::*;
use crate::text::str_eq;

verus! {

/// The SHA-256 digest of `data`, as the `sha2` crate computes it.
pub uninterp spec fn sha256_of(data: Seq<u8>) -> Seq<u8>;

/// Hashes `data` with SHA-256 (`sha2::Sha256`, one update, then finalize).
/// The digest has 32 bytes (the output size of SHA-256).
#[verifier::external_body]
fn sha256_digest(data: &[u8]) -> (r: Vec<u8>)
    ensures
        r@ == sha256_of(data@),
        r@.len() == 32,
{
    let mut hasher = <sha2::Sha256 as sha2::Digest>::new();
    sha2::Digest::update(&mut hasher, data);
    sha2::Digest::finalize(hasher).to_vec()
}

/// The lowercase hexadecimal digit for `d` (`0 <= d < 16`).
pub open spec fn hex_digit(d: int) -> char {
    if d < 10 {
        ((d + 48) as char)
    } else {
        ((d - 10 + 97) as char)
    }
}

/// Lowercase hexadecimal text of `bytes`: two digits per byte, high nibble first.
pub open spec fn hex_lower(bytes: Seq<u8>) -> Seq<char>
    decreases bytes.len(),
{
    if bytes.len() == 0 {
        seq![]
    } else {
        seq![hex_digit(bytes[0] as int / 16), hex_digit(bytes[0] as int % 16)] + hex_lower(bytes.skip(1))
    }
}

/// Encodes bytes as lowercase hexadecimal (`hex::encode`): for each byte, the
/// digit of its high nibble then that of its low nibble, from `0123456789abcdef`.
#[verifier::external_body]
fn hex_encode(data: &[u8]) -> (r: String)
    ensures
        r@ == hex_lower(data@),
{
    hex::encode(data)
}

/// The name under which content `data` is stored: the lowercase hex of its SHA-256.
pub open spec fn ink_hash_of(data: Seq<u8>) -> Seq<char> {
    hex_lower(sha256_of(data))
}

proof fn lemma_hex_lower_len(bytes: Seq<u8>)
    ensures
        hex_lower(bytes).len() == 2 * bytes.len(),
    decreases bytes.len(),
{
    if bytes.len() > 0 {
        lemma_hex_lower_len(bytes.skip(1));
    }
}

/// Computes the ink hash of `content`.
pub fn hash_content(content: &[u8]) -> (r: String)
    ensures
        r@ == ink_hash_of(content@),
        r@.len() == 64,
{
    let d = sha256_digest(content);
    let r = hex_encode(d.as_slice());
    proof {
        lemma_hex_lower_len(d@);
    }
    r
}

/// One stored ink: its hash and its bytes.
#[derive(Debug)]
pub struct StoredInk {
    pub hash: String,
    pub content: Vec<u8>,
}

/// The inks of a palin that the caller has loaded from disk.
#[derive(Debug)]
pub struct InkStore {
    pub inks: Vec<StoredInk>,
}

/// Why an ink could not be read.
#[derive(Debug, Clone, Copy, PartialEq, Eq, Structural)]
pub enum InkError {
    /// No ink with that hash exists.
    NotFound,
}

/// The content stored under `hash` (the first ink with that hash), if any.
pub open spec fn ink_lookup(inks: Seq<StoredInk>, hash: Seq<char>) -> Option<Seq<u8>>
    decreases inks.len(),
{
    if inks.len() == 0 {
        None
    } else if inks[0].hash@ == hash {
        Some(inks[0].content@)
    } else {
        ink_lookup(inks.skip(1), hash)
    }
}

/// Copies a byte vector.
pub fn copy_bytes(b: &[u8]) -> (r: Vec<u8>)
    ensures
        r@ == b@,
{
    let mut r: Vec<u8> = Vec::new();
    let mut i: usize = 0;
    while i < b.len()
        invariant
            0 <= i <= b@.len(),
            r@ =~= b@.take(i as int),
        decreases b.len() - i,
    {
        r.push(b[i]);
        i = i + 1;
        assert(r@ =~= b@.take(i as int));
    }
    assert(b@.take(b@.len() as int) =~= b@);
    r
}

impl InkStore {
    /// The content stored under `hash`, as the ink store gives it back.
    pub open spec fn lookup(&self, hash: Seq<char>) -> Option<Seq<u8>> {
        ink_lookup(self.inks@, hash)
    }

    /// An empty store.
    pub fn new() -> (r: InkStore)
        ensures
            r.inks@.len() == 0,
    {
        InkStore { inks: Vec::new() }
    }

    /// Adds an ink. An ink already stored under the same hash keeps precedence.
    pub fn add(&mut self, hash: String, content: Vec<u8>)
        ensures
            forall|h: Seq<char>| #[trigger] final(self).lookup(h) == (if old(self).lookup(h) is Some {
                old(self).lookup(h)
            } else if h == hash@ {
                Some(content@)
            } else {
                None
            }),
    {
        let ghost before = self.inks@;
        let ghost hv = hash@;
        let ghost cv = content@;
        self.inks.push(StoredInk { hash, content });
        proof {
            assert forall|h: Seq<char>| #[trigger] ink_lookup(self.inks@, h) == (if ink_lookup(before, h) is Some {
                ink_lookup(before, h)
            } else if h == hv {
                Some(cv)
            } else {
                None
            }) by {
                lemma_lookup_push(before, self.inks@.last(), h);
                assert(self.inks@ =~= before.push(self.inks@.last()));
            }
        }
    }

    /// Reads the ink stored under `hash`.
    pub fn read_ink(&self, hash: &str) -> (r: Result<Vec<u8>, InkError>)
        ensures
            match self.lookup(hash@) {
                Some(c) => r == Ok::<Vec<u8>, InkError>(r->Ok_0) && r->Ok_0@ == c,
                None => r == Err::<Vec<u8>, InkError>(InkError::NotFound),
            },
    {
        let mut i: usize = 0;
        assert(self.inks@.skip(0) =~= self.inks@);
        while i < self.inks.len()
            invariant
                0 <= i <= self.inks@.len(),
                ink_lookup(self.inks@, hash@) == ink_lookup(self.inks@.skip(i as int), hash@),
            decreases self.inks.len() - i,
        {
            assert(self.inks@.skip(i as int).skip(1) =~= self.inks@.skip(i + 1));
            if str_eq(self.inks[i].hash.as_str(), hash) {
                return Ok(copy_bytes(self.inks[i].content.as_slice()));
            }
            i = i + 1;
        }
        Err(InkError::NotFound)
    }
}

proof fn lemma_lookup_push(inks: Seq<StoredInk>, x: StoredInk, h: Seq<char>)
    ensures
        ink_lookup(inks.push(x), h) == (if ink_lookup(inks, h) is Some {
            ink_lookup(inks, h)
        } else if h == x.hash@ {
            Some(x.content@)
        } else {
            None
        }),
    decreases inks.len(),
{
    if inks.len() > 0 {
        assert(inks.push(x).skip(1) =~= inks.skip(1).push(x));
        assert(inks.push(x)[0] == inks[0]);
        lemma_lookup_push(inks.skip(1), x, h);
    } else {
        assert(inks.push(x).skip(1) =~= Seq::<StoredInk>::empty());
        assert(inks.push(x)[0] == x);
        assert(ink_lookup(Seq::<StoredInk>::empty(), h) is None);
        assert(ink_lookup(inks, h) is None);
    }
}

} // verus!
