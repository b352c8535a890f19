//! Content hashing: SHA-256 digests and their lowercase-hexadecimal
//! rendering. The digest itself comes from an outside implementation; the
//! hexadecimal encoding and the comparison against an expected fingerprint
//! are verified here.

use sha2::Digest;
use vstd::prelude::*;

verus! {

/// The lowercase hexadecimal digit character for a value below sixteen.
pub open spec fn hex_digit(n: u8) -> char {
    if n == 0 {
        '0'
    } else if n == 1 {
        '1'
    } else if n == 2 {
        '2'
    } else if n == 3 {
        '3'
    } else if n == 4 {
        '4'
    } else if n == 5 {
        '5'
    } else if n == 6 {
        '6'
    } else if n == 7 {
        '7'
    } else if n == 8 {
        '8'
    } else if n == 9 {
        '9'
    } else if n == 10 {
        'a'
    } else if n == 11 {
        'b'
    } else if n == 12 {
        'c'
    } else if n == 13 {
        'd'
    } else if n == 14 {
        'e'
    } else {
        'f'
    }
}

/// Lowercase hexadecimal rendering of a byte sequence: two digit characters
/// per byte, high nibble first.
pub open spec fn hex_of(bytes: Seq<u8>) -> Seq<char> {
    Seq::new(
        2 * bytes.len(),
        |i: int|
            if i % 2 == 0 {
                hex_digit(bytes[i / 2] / 16)
            } else {
                hex_digit(bytes[i / 2] % 16)
            },
    )
}

/// The SHA-256 digest of a byte sequence. Left uninterpreted: the digest is
/// computed by an outside implementation and is a function of the bytes
/// alone.
pub uninterp spec fn sha256_of(data: Seq<u8>) -> Seq<u8>;

/// Relies on sha2::Sha256::digest: the SHA-256 digest of the input bytes, a
/// pure function of those bytes alone, always 32 bytes long.
#[verifier::external_body]
pub(crate) fn sha256_digest(data: &[u8]) -> (r: Vec<u8>)
    ensures
        r@ == sha256_of(data@),
        r@.len() == 32,
{
    sha2::Sha256::digest(data).to_vec()
}

/// Declares the outside hasher state type, so values of it can stand in
/// fields and signatures; what is inside stays opaque.
#[verifier::external_type_specification]
#[verifier::external_body]
pub struct ExSha256(sha2::Sha256);

/// The bytes a hasher state has absorbed so far. Left uninterpreted: the
/// state is opaque, and the three operations below say how it evolves.
pub uninterp spec fn absorbed_bytes(h: sha2::Sha256) -> Seq<u8>;

/// Relies on sha2::Sha256::new: a hasher that has absorbed nothing.
#[verifier::external_body]
fn sha256_new() -> (h: sha2::Sha256)
    ensures
        absorbed_bytes(h) == Seq::<u8>::empty(),
{
    sha2::Sha256::new()
}

/// Relies on sha2::Sha256::update: absorbs the chunk after what came
/// before.
#[verifier::external_body]
fn sha256_update(h: &mut sha2::Sha256, chunk: &[u8])
    ensures
        absorbed_bytes(*final(h)) == absorbed_bytes(*old(h)) + chunk@,
{
    h.update(chunk);
}

/// Relies on sha2::Sha256::finalize: the digest of everything absorbed,
/// equal to the one-shot digest of the same bytes; always 32 bytes long.
#[verifier::external_body]
fn sha256_finalize(h: sha2::Sha256) -> (r: Vec<u8>)
    ensures
        r@ == sha256_of(absorbed_bytes(h)),
        r@.len() == 32,
{
    h.finalize().to_vec()
}

/// Streaming content hashing: a file can be fed in chunks of a fixed size,
/// so memory use stays independent of file size, and the result equals
/// hashing the whole content at once.
pub struct ContentHasher {
    inner: sha2::Sha256,
}

impl ContentHasher {
    /// The bytes absorbed so far.
    pub closed spec fn absorbed(&self) -> Seq<u8> {
        absorbed_bytes(self.inner)
    }

    /// A hasher that has absorbed nothing.
    pub fn new() -> (h: ContentHasher)
        ensures
            h.absorbed() == Seq::<u8>::empty(),
    {
        ContentHasher { inner: sha256_new() }
    }

    /// Absorbs one chunk.
    pub fn absorb(&mut self, chunk: &[u8])
        ensures
            final(self).absorbed() == old(self).absorbed() + chunk@,
    {
        sha256_update(&mut self.inner, chunk);
    }

    /// The fingerprint of everything absorbed: the same 64 lowercase
    /// hexadecimal characters that hashing the concatenated content at
    /// once yields.
    pub fn finish_hex(self) -> (s: String)
        ensures
            s@ == hex_of(sha256_of(self.absorbed())),
    {
        let digest = sha256_finalize(self.inner);
        to_hex_string(&digest)
    }
}

/// Relies on String::push: appends one character at the end of the string.
#[verifier::external_body]
pub(crate) fn push_char(s: &mut String, c: char)
    ensures
        final(s)@ == old(s)@.push(c),
{
    s.push(c);
}

/// The lowercase hexadecimal digit character for `n`.
pub fn hex_digit_char(n: u8) -> (c: char)
    requires
        n < 16,
    ensures
        c == hex_digit(n),
{
    if n == 0 {
        '0'
    } else if n == 1 {
        '1'
    } else if n == 2 {
        '2'
    } else if n == 3 {
        '3'
    } else if n == 4 {
        '4'
    } else if n == 5 {
        '5'
    } else if n == 6 {
        '6'
    } else if n == 7 {
        '7'
    } else if n == 8 {
        '8'
    } else if n == 9 {
        '9'
    } else if n == 10 {
        'a'
    } else if n == 11 {
        'b'
    } else if n == 12 {
        'c'
    } else if n == 13 {
        'd'
    } else if n == 14 {
        'e'
    } else {
        'f'
    }
}

/// Renders a byte sequence as lowercase hexadecimal.
pub fn to_hex_string(bytes: &Vec<u8>) -> (s: String)
    requires
        bytes@.len() <= usize::MAX / 2,
    ensures
        s@ == hex_of(bytes@),
{
    let mut s = String::new();
    let mut i: usize = 0;
    while i < bytes.len()
        invariant
            i <= bytes@.len(),
            bytes@.len() <= usize::MAX / 2,
            s@.len() == 2 * i,
            forall|j: int| 0 <= j < 2 * i ==> s@[j] == hex_of(bytes@)[j],
        decreases bytes@.len() - i,
    {
        let b = bytes[i];
        let hi = hex_digit_char(b / 16);
        let lo = hex_digit_char(b % 16);
        push_char(&mut s, hi);
        push_char(&mut s, lo);
        i = i + 1;
    }
    proof {
        assert(s@ =~= hex_of(bytes@));
    }
    s
}

/// The content fingerprint used throughout: the SHA-256 digest of the bytes,
/// rendered as 64 lowercase hexadecimal characters.
pub fn content_hash_hex(data: &Vec<u8>) -> (s: String)
    ensures
        s@ == hex_of(sha256_of(data@)),
{
    let digest = sha256_digest(data.as_slice());
    to_hex_string(&digest)
}

/// Whether the content's fingerprint — the hexadecimal rendering of its
/// SHA-256 digest — equals `expected`.
pub fn file_fingerprint_matches(content: &Vec<u8>, expected: &String) -> (r: bool)
    ensures
        r == (expected@ == hex_of(sha256_of(content@))),
{
    let digest = sha256_digest(content.as_slice());
    hash_matches(&digest, expected.as_str())
}

/// Whether `expected` is exactly the lowercase hexadecimal rendering of
/// `digest`. Any other string — wrong length, wrong case, wrong characters —
/// compares unequal.
pub fn hash_matches(digest: &Vec<u8>, expected: &str) -> (r: bool)
    requires
        digest@.len() <= usize::MAX / 2,
    ensures
        r == (expected@ == hex_of(digest@)),
{
    let n = expected.unicode_len();
    if n != 2 * digest.len() {
        proof {
            assert(expected@ != hex_of(digest@)) by {
                assert(hex_of(digest@).len() == 2 * digest@.len());
            }
        }
        return false;
    }
    let mut i: usize = 0;
    while i < digest.len()
        invariant
            i <= digest@.len(),
            digest@.len() <= usize::MAX / 2,
            expected@.len() == 2 * digest@.len(),
            forall|j: int| 0 <= j < 2 * i ==> expected@[j] == hex_of(digest@)[j],
        decreases digest@.len() - i,
    {
        let b = digest[i];
        let hi = hex_digit_char(b / 16);
        let lo = hex_digit_char(b % 16);
        if expected.get_char(2 * i) != hi {
            proof {
                assert(expected@[2 * (i as int)] != hex_of(digest@)[2 * (i as int)]);
            }
            return false;
        }
        if expected.get_char(2 * i + 1) != lo {
            proof {
                assert(expected@[2 * (i as int) + 1] != hex_of(digest@)[2 * (i as int) + 1]);
            }
            return false;
        }
        i = i + 1;
    }
    proof {
        assert(expected@ =~= hex_of(digest@));
    }
    true
}

} // verus!
