//! The content-addressed store: where an object lies, and what is recorded of it.

use crate::artifact::{address, id_for_bytes, ArtifactId, ArtifactMeta};
use crate::digest::{
    blake3_digest, finish, hex_chars, hex_chars_are_digits, hex_text, is_hex_digit, new_hasher,
    take_in, taken_in,
};
use crate::error::{joined_text, KernelError, Refusal};
use crate::handle::{fresh_name, random_name};
use crate::label::Label;
use crate::text::{chars_of, strip_prefix};
use vstd::prelude::*;

verus! {

/// The digits of an address: at least three hexadecimal ones after the name of the digest.
pub open spec fn digits_of(id: Seq<char>) -> Option<Seq<char>> {
    if "blake3:"@.is_prefix_of(id) && id.len() - "blake3:"@.len() >= 3 && forall|i: int|
        "blake3:"@.len() <= i < id.len() ==> is_hex_digit(#[trigger] id[i]) {
        Some(id.skip("blake3:"@.len() as int))
    } else {
        None
    }
}

/// The directory and the file that an object lies in, below the objects of the store.
pub fn path_for(id: &str) -> (r: Result<(String, String), KernelError>)
    ensures
        match r {
            Ok((dir, file)) => {
                &&& digits_of(id@) is Some
                &&& dir@ == digits_of(id@)->0.take(2)
                &&& file@ == digits_of(id@)->0.skip(2)
            },
            Err(e) => digits_of(id@) is None && e@ == Refusal::Corrupt(
                "bad artifact id: "@ + id@,
            ),
        },
{
    let hexpart: &str = match strip_prefix(id, "blake3:") {
        None => {
            return Err(KernelError::Corrupt(joined_text("bad artifact id: ", id)));
        },
        Some(h) => h,
    };
    let ghost base = "blake3:"@.len() as int;
    assert("blake3:"@.is_prefix_of(id@));
    assert(id@.skip(base) =~= hexpart@);
    let v: Vec<char> = chars_of(hexpart);
    if v.len() < 3 {
        return Err(KernelError::Corrupt(joined_text("bad artifact id: ", id)));
    }
    let mut i: usize = 0;
    while i < v.len()
        invariant
            i <= v@.len(),
            v@ == hexpart@,
            id@ == "blake3:"@ + hexpart@,
            base == "blake3:"@.len(),
            forall|j: int| 0 <= j < i ==> is_hex_digit(#[trigger] v@[j]),
        decreases v.len() - i,
    {
        let c: char = v[i];
        let ok: bool = ('0' <= c && c <= '9') || ('a' <= c && c <= 'f') || ('A' <= c && c <= 'F');
        if !ok {
            assert(id@[base + i] == c);
            assert(digits_of(id@) is None);
            return Err(KernelError::Corrupt(joined_text("bad artifact id: ", id)));
        }
        i = i + 1;
    }
    assert forall|k: int| base <= k < id@.len() implies is_hex_digit(#[trigger] id@[k]) by {
        assert(is_hex_digit(v@[k - base]));
    }
    let n: usize = v.len();
    let dir: String = hexpart.substring_char(0, 2).to_owned();
    let file: String = hexpart.substring_char(2, n).to_owned();
    assert(dir@ =~= hexpart@.take(2));
    assert(file@ =~= hexpart@.skip(2));
    Ok((dir, file))
}

/// The digits of an address are those of the digest.
proof fn address_digits(bytes: Seq<u8>)
    requires
        blake3_digest(bytes).len() == 32,
    ensures
        digits_of(address(bytes)) == Some(hex_chars(blake3_digest(bytes))),
{
    let h = hex_chars(blake3_digest(bytes));
    let id = address(bytes);
    let base = "blake3:"@.len() as int;
    hex_chars_are_digits(blake3_digest(bytes));
    assert(id.skip(base) =~= h);
    assert("blake3:"@.is_prefix_of(id));
    assert forall|i: int| base <= i < id.len() implies is_hex_digit(#[trigger] id[i]) by {
        assert(is_hex_digit(h[i - base]));
    }
}

/// The address of bytes and the place of their object: every address has one.
pub fn place_for_bytes(bytes: &[u8]) -> (r: (ArtifactId, String, String))
    ensures
        r.0@ == address(bytes@),
        digits_of(r.0@) == Some(hex_chars(blake3_digest(bytes@))),
        r.1@ == hex_chars(blake3_digest(bytes@)).take(2),
        r.2@ == hex_chars(blake3_digest(bytes@)).skip(2),
{
    let id: ArtifactId = id_for_bytes(bytes);
    proof {
        address_digits(bytes@);
    }
    match path_for(id.as_str()) {
        Ok((dir, file)) => (id, dir, file),
        Err(_) => {
            assert(false);
            (id, String::new(), String::new())
        },
    }
}

/// The name of a file that is being taken in.
pub fn ingest_name() -> (s: String)
    ensures
        random_name(s@, "ingest-"@, 8),
{
    fresh_name("ingest-", 8)
}

/// What is recorded of new bytes.
pub fn meta_for(
    bytes: &[u8],
    media_type: &str,
    labels: Label,
    origin: &str,
    now: u64,
) -> (m: ArtifactMeta)
    ensures
        m.id@ == address(bytes@),
        m.media_type@ == media_type@,
        m.size == bytes@.len(),
        m.labels@ == labels@,
        m.origin@ == origin@,
        m.created_at == now,
        m.ttl_secs is None,
{
    let id: ArtifactId = id_for_bytes(bytes);
    ArtifactMeta {
        id,
        media_type: media_type.to_owned(),
        size: bytes.len() as u64,
        labels,
        origin: origin.to_owned(),
        created_at: now,
        ttl_secs: None,
    }
}

/// An object that is taken in piece by piece.
pub struct Ingest {
    hasher: blake3::Hasher,
    size: u64,
}

impl Ingest {
    /// What has been taken in.
    pub closed spec fn bytes(&self) -> Seq<u8> {
        taken_in(self.hasher)
    }

    #[verifier::type_invariant]
    spec fn counts_what_it_took(self) -> bool {
        self.size == taken_in(self.hasher).len()
    }

    /// Nothing has been taken in.
    pub fn new() -> (i: Ingest)
        ensures
            i.bytes() == Seq::<u8>::empty(),
    {
        Ingest { hasher: new_hasher(), size: 0 }
    }

    /// Takes in a piece.
    pub fn update(self, piece: &[u8]) -> (i: Ingest)
        requires
            self.bytes().len() + piece@.len() <= u64::MAX,
        ensures
            i.bytes() == self.bytes() + piece@,
    {
        proof {
            use_type_invariant(&self);
        }
        let size: u64 = self.size + piece.len() as u64;
        let mut hasher = self.hasher;
        take_in(&mut hasher, piece);
        Ingest { hasher, size }
    }

    /// What is recorded of the object, and where it lies.
    pub fn finish(self, media_type: &str, labels: Label, origin: &str, now: u64) -> (r: (
        ArtifactMeta,
        String,
        String,
    ))
        ensures
            r.0.id@ == address(self.bytes()),
            r.0.media_type@ == media_type@,
            r.0.size == self.bytes().len(),
            r.0.labels@ == labels@,
            r.0.origin@ == origin@,
            r.0.created_at == now,
            r.0.ttl_secs is None,
            r.1@ == hex_chars(blake3_digest(self.bytes())).take(2),
            r.2@ == hex_chars(blake3_digest(self.bytes())).skip(2),
    {
        proof {
            use_type_invariant(&self);
        }
        let d: [u8; 32] = finish(&self.hasher);
        let mut id: String = "blake3:".to_owned();
        id.append(hex_text(&d).as_str());
        proof {
            address_digits(self.bytes());
        }
        let (dir, file): (String, String) = match path_for(id.as_str()) {
            Ok(p) => p,
            Err(_) => {
                assert(false);
                (String::new(), String::new())
            },
        };
        let meta = ArtifactMeta {
            id,
            media_type: media_type.to_owned(),
            size: self.size,
            labels,
            origin: origin.to_owned(),
            created_at: now,
            ttl_secs: None,
        };
        (meta, dir, file)
    }
}

/// What is stored of an artifact, with its labels parsed.
#[derive(Debug)]
pub struct MetaRow {
    pub id: ArtifactId,
    pub media_type: String,
    pub size: i64,
    pub labels: Result<Label, String>,
    pub origin: String,
    pub created_at: i64,
    pub ttl_secs: Option<i64>,
}

/// Reads what is stored of an artifact.
pub fn meta(id: &str, row: Option<MetaRow>) -> (r: Result<ArtifactMeta, KernelError>)
    ensures
        match (row, r) {
            (None, Err(e)) => e@ == Refusal::NotFound(id@),
            (Some(w), Err(e)) => w.labels is Err && e@ == Refusal::Corrupt(
                "labels json: "@ + w.labels->Err_0@,
            ),
            (Some(w), Ok(m)) => {
                &&& w.labels is Ok && m.labels == w.labels->Ok_0
                &&& m.id == w.id
                &&& m.media_type == w.media_type
                &&& m.size == w.size as u64
                &&& m.origin == w.origin
                &&& m.created_at == w.created_at as u64
                &&& m.ttl_secs == match w.ttl_secs {
                    Some(t) => Some(t as u64),
                    None => None,
                }
            },
            (None, Ok(_)) => false,
        },
{
    match row {
        None => Err(KernelError::NotFound(id.to_owned())),
        Some(w) => match w.labels {
            Err(e) => Err(KernelError::Corrupt(joined_text("labels json: ", e.as_str()))),
            Ok(labels) => Ok(
                ArtifactMeta {
                    id: w.id,
                    media_type: w.media_type,
                    size: loaded_number(w.size),
                    labels,
                    origin: w.origin,
                    created_at: loaded_number(w.created_at),
                    ttl_secs: match w.ttl_secs {
                        Some(t) => Some(loaded_number(t)),
                        None => None,
                    },
                },
            ),
        },
    }
}

/// A natural number as the database holds it.
pub fn stored_number(n: u64) -> (i: i64)
    ensures
        i == n as i64,
{
    #[verifier::truncate]
    (n as i64)
}

/// A natural number as the database gave it back.
pub fn loaded_number(i: i64) -> (n: u64)
    ensures
        n == i as u64,
{
    #[verifier::truncate]
    (i as u64)
}

/// The database gives back every number that it was given.
pub proof fn numbers_survive_storage(n: u64)
    ensures
        (n as i64) as u64 == n,
{
    assert((n as i64) as u64 == n) by (bit_vector);
}

} // verus!
