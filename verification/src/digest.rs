//! Digests, hexadecimal notation and random bytes, through `blake3`, `hex` and `rand`.

use vstd::prelude::*;

verus! {

/// The BLAKE3 digest of an input.
pub uninterp spec fn blake3_digest(input: Seq<u8>) -> Seq<u8>;

/// The keyed BLAKE3 digest of an input.
pub uninterp spec fn blake3_keyed_digest(key: Seq<u8>, input: Seq<u8>) -> Seq<u8>;

/// Calls `blake3::hash`: the digest depends on the input alone, and has the length of its type.
#[verifier::external_body]
pub(crate) fn digest(input: &[u8]) -> (r: [u8; 32])
    ensures
        r@ == blake3_digest(input@),
{
    *blake3::hash(input).as_bytes()
}

/// Calls `blake3::keyed_hash`: the digest depends on the key and the input alone.
#[verifier::external_body]
pub(crate) fn keyed_digest(key: &[u8; 32], input: &[u8]) -> (r: [u8; 32])
    ensures
        r@ == blake3_keyed_digest(key@, input@),
{
    *blake3::keyed_hash(key, input).as_bytes()
}

/// `blake3::Hasher`: a digest in the making.
#[verifier::external_type_specification]
#[verifier::external_body]
pub struct ExHasher(blake3::Hasher);

/// The bytes that a hasher has taken in.
pub uninterp spec fn taken_in(h: blake3::Hasher) -> Seq<u8>;

/// Calls `blake3::Hasher::new`: the hasher has taken in nothing.
#[verifier::external_body]
pub(crate) fn new_hasher() -> (h: blake3::Hasher)
    ensures
        taken_in(h) == Seq::<u8>::empty(),
{
    blake3::Hasher::new()
}

/// Calls `blake3::Hasher::update`: the bytes follow those that were taken in before.
#[verifier::external_body]
pub(crate) fn take_in(h: &mut blake3::Hasher, bytes: &[u8])
    ensures
        taken_in(*final(h)) == taken_in(*old(h)) + bytes@,
{
    h.update(bytes);
}

/// Calls `blake3::Hasher::finalize`: the digest of all that was taken in, in one piece or in
/// several.
#[verifier::external_body]
pub(crate) fn finish(h: &blake3::Hasher) -> (r: [u8; 32])
    ensures
        r@ == blake3_digest(taken_in(*h)),
{
    *h.finalize().as_bytes()
}

/// The hexadecimal digit of a value below sixteen, in lower case.
pub open spec fn hex_digit(n: int) -> char {
    if n < 10 {
        ('0' as int + n) as char
    } else {
        ('a' as int + (n - 10)) as char
    }
}

/// Two lower-case hexadecimal digits for each byte, the upper half first.
pub open spec fn hex_chars(bytes: Seq<u8>) -> Seq<char> {
    Seq::new(
        2 * bytes.len(),
        |i: int|
            if i % 2 == 0 {
                hex_digit(bytes[i / 2] as int / 16)
            } else {
                hex_digit(bytes[i / 2] as int % 16)
            },
    )
}

/// Calls `hex::encode`: each byte becomes two lower-case digits, the upper half first.
#[verifier::external_body]
pub(crate) fn hex_text(bytes: &[u8]) -> (s: String)
    ensures
        s@ == hex_chars(bytes@),
{
    hex::encode(bytes)
}

/// Fills a vector through `rand::RngCore::fill_bytes` of `rand::thread_rng`. The bytes are
/// chosen at random: only their number is known.
#[verifier::external_body]
pub(crate) fn random_bytes(n: usize) -> (v: Vec<u8>)
    ensures
        v@.len() == n,
{
    let mut v = vec![0u8; n];
    rand::RngCore::fill_bytes(&mut rand::thread_rng(), &mut v);
    v
}

/// Whether a character is a hexadecimal digit, in either case.
pub open spec fn is_hex_digit(c: char) -> bool {
    ('0' <= c && c <= '9') || ('a' <= c && c <= 'f') || ('A' <= c && c <= 'F')
}

/// Hexadecimal notation holds nothing but hexadecimal digits.
pub proof fn hex_chars_are_digits(bytes: Seq<u8>)
    ensures
        forall|i: int|
            0 <= i < hex_chars(bytes).len() ==> is_hex_digit(#[trigger] hex_chars(bytes)[i]),
{
    assert forall|i: int| 0 <= i < hex_chars(bytes).len() implies is_hex_digit(
        #[trigger] hex_chars(bytes)[i],
    ) by {
        let b = bytes[i / 2] as int;
        assert(0 <= b / 16 < 16);
        assert(0 <= b % 16 < 16);
    }
}

} // verus!
