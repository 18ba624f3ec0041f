//! Unforgeable references.

use crate::digest::{hex_chars, hex_text, random_bytes};
use vstd::prelude::*;

verus! {

/// A reference that the kernel hands out, bound to a subject.
#[derive(Debug, PartialEq, Eq, Hash)]
pub struct Handle(pub String);

/// Whether a text is a prefix and some bytes in hexadecimal notation.
pub open spec fn random_name(s: Seq<char>, prefix: Seq<char>, n: nat) -> bool {
    exists|b: Seq<u8>| b.len() == n && s == prefix + #[trigger] hex_chars(b)
}

/// A prefix and a number of random bytes in hexadecimal notation.
pub fn fresh_name(prefix: &str, n: usize) -> (s: String)
    ensures
        random_name(s@, prefix@, n as nat),
{
    let b: Vec<u8> = random_bytes(n);
    let mut s: String = prefix.to_owned();
    s.append(hex_text(b.as_slice()).as_str());
    assert(s@ == prefix@ + hex_chars(b@));
    s
}

impl Handle {
    /// A new reference, chosen at random.
    pub fn mint() -> (h: Self)
        ensures
            random_name(h.0@, "h:"@, 16),
    {
        Handle(fresh_name("h:", 16))
    }
}

} // verus!
