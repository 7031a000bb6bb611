//! SHA-256 digests and their hexadecimal writing.
use sha2::{Digest, Sha256};
use vstd::prelude::*;
use vstd::string::*;

use crate::flow::agrees;
use crate::text::{characters, digit, digit_text, lemma_digit_is_injective};

verus! {

/// The SHA-256 hasher of the `sha2` crate.
#[verifier::external_type_specification]
#[verifier::external_body]
pub struct ExSha256(Sha256);

/// The bytes that a hasher has taken in so far.
pub uninterp spec fn absorbed(hasher: Sha256) -> Seq<u8>;

/// The SHA-256 digest of a byte sequence.
pub uninterp spec fn sha256(bytes: Seq<u8>) -> Seq<u8>;

/// The longest message, in bytes, that SHA-256 is defined for: its length in
/// bits is written in sixty-four bits.
pub const LONGEST_MESSAGE: u64 = 0x1fff_ffff_ffff_ffff;

/// `Digest::new` of the `sha2` crate: a hasher that has taken in nothing.
#[verifier::external_body]
fn sha256_new() -> (hasher: Sha256)
    ensures
        absorbed(hasher) == Seq::<u8>::empty(),
{
    Sha256::new()
}

/// `Digest::update` of the `sha2` crate: the bytes are taken in behind those
/// that were taken in before.
#[verifier::external_body]
fn sha256_update(hasher: &mut Sha256, bytes: &[u8])
    requires
        absorbed(*old(hasher)).len() + bytes@.len() <= LONGEST_MESSAGE,
    ensures
        absorbed(*final(hasher)) == absorbed(*old(hasher)) + bytes@,
{
    hasher.update(bytes);
}

/// `Digest::finalize` of the `sha2` crate: the thirty-two bytes of the SHA-256
/// digest of all that was taken in.
#[verifier::external_body]
fn sha256_finalize(hasher: Sha256) -> (digest: Vec<u8>)
    requires
        absorbed(hasher).len() <= LONGEST_MESSAGE,
    ensures
        digest@ == sha256(absorbed(hasher)),
        digest@.len() == 32,
{
    hasher.finalize().to_vec()
}

/// The hexadecimal writing of bytes: two lower-case digits each.
pub open spec fn hex_text(bytes: Seq<u8>) -> Seq<char> {
    Seq::new(
        2 * bytes.len(),
        |i: int|
            if i % 2 == 0 {
                digit(bytes[i / 2] as int / 16)
            } else {
                digit(bytes[i / 2] as int % 16)
            },
    )
}

/// Writes bytes in hexadecimal.
pub fn hex_digest(bytes: &[u8]) -> (text: String)
    ensures
        text@ == hex_text(bytes@),
{
    let mut text = String::new();
    let mut i: usize = 0;
    while i < bytes.len()
        invariant
            i <= bytes.len(),
            text@ == hex_text(bytes@.subrange(0, i as int)),
        decreases bytes.len() - i,
    {
        let byte: u64 = bytes[i] as u64;
        text.append(digit_text(byte / 16));
        text.append(digit_text(byte % 16));
        proof {
            let before = bytes@.subrange(0, i as int);
            let after = bytes@.subrange(0, i + 1);
            assert(hex_text(after) =~= hex_text(before) + seq![digit(bytes[i as int] as int / 16)]
                + seq![digit(bytes[i as int] as int % 16)]);
        }
        i = i + 1;
    }
    assert(bytes@.subrange(0, bytes@.len() as int) =~= bytes@);
    text
}

/// A running digest of a file's contents.
pub struct FileHasher {
    hasher: Sha256,
    taken: u64,
}

impl FileHasher {
    /// The contents taken in so far.
    pub closed spec fn contents(&self) -> Seq<u8> {
        absorbed(self.hasher)
    }

    /// The count of bytes is right, and within what SHA-256 takes.
    pub closed spec fn well_formed(&self) -> bool {
        absorbed(self.hasher).len() == self.taken && self.taken <= LONGEST_MESSAGE
    }

    /// A hasher for a file of which nothing was read yet.
    pub fn new() -> (hasher: FileHasher)
        ensures
            hasher.well_formed(),
            hasher.contents() == Seq::<u8>::empty(),
    {
        FileHasher { hasher: sha256_new(), taken: 0 }
    }

    /// Whether so many more bytes can be taken in.
    pub fn has_room(&self, count: usize) -> (result: bool)
        requires
            self.well_formed(),
        ensures
            result == (self.contents().len() + count <= LONGEST_MESSAGE),
    {
        count as u64 <= LONGEST_MESSAGE - self.taken
    }

    /// Takes in the next stretch of the file.
    pub fn update(&mut self, bytes: &[u8])
        requires
            old(self).well_formed(),
            old(self).contents().len() + bytes@.len() <= LONGEST_MESSAGE,
        ensures
            final(self).well_formed(),
            final(self).contents() == old(self).contents() + bytes@,
    {
        sha256_update(&mut self.hasher, bytes);
        self.taken = self.taken + bytes.len() as u64;
    }

    /// The hexadecimal digest of all that was taken in.
    pub fn finish(self) -> (text: String)
        requires
            self.well_formed(),
        ensures
            text@ == hex_text(sha256(self.contents())),
            hash_text(text@),
    {
        let digest = sha256_finalize(self.hasher);
        let text = hex_digest(digest.as_slice());
        proof {
            law_hex_text_is_hexadecimal(digest@);
        }
        text
    }
}

/// The hexadecimal digest of a message that is given whole.
pub fn hex_sha256(bytes: &Vec<u8>) -> (text: String)
    requires
        bytes@.len() <= LONGEST_MESSAGE,
    ensures
        text@ == hex_text(sha256(bytes@)),
        hash_text(text@),
{
    let mut hasher = FileHasher::new();
    hasher.update(bytes.as_slice());
    proof {
        assert(Seq::<u8>::empty() + bytes@ =~= bytes@);
    }
    hasher.finish()
}

/// Whether a character is a hexadecimal digit, of either case.
pub open spec fn hex_digit(c: char) -> bool {
    ('0' <= c && c <= '9') || ('a' <= c && c <= 'f') || ('A' <= c && c <= 'F')
}

/// Whether a text is the writing of a SHA-256 digest: 64 hexadecimal digits.
pub open spec fn hash_text(text: Seq<char>) -> bool {
    text.len() == 64 && forall|i: int| 0 <= i < text.len() ==> hex_digit(text[i])
}

/// Accepts the writing of a SHA-256 digest and nothing else.
pub fn validate_hash(hash: &str) -> (result: Result<(), String>)
    ensures
        agrees(
            result,
            if hash_text(hash@) {
                Ok(())
            } else {
                Err("SHA-256 value must contain 64 hexadecimal characters"@)
            },
        ),
{
    let chars = characters(hash);
    let mut valid = chars.len() == 64;
    let mut i: usize = 0;
    while i < chars.len() && valid
        invariant
            chars@ == hash@,
            i <= chars.len(),
            valid ==> chars.len() == 64,
            valid ==> forall|k: int| 0 <= k < i ==> hex_digit(hash@[k]),
            !valid ==> !hash_text(hash@),
        decreases chars.len() - i,
    {
        let c = chars[i];
        if !(('0' <= c && c <= '9') || ('a' <= c && c <= 'f') || ('A' <= c && c <= 'F')) {
            valid = false;
        }
        i = i + 1;
    }
    if valid {
        Ok(())
    } else {
        Err("SHA-256 value must contain 64 hexadecimal characters".to_owned())
    }
}

/// The hexadecimal writing of bytes consists of hexadecimal digits, two for
/// each byte.
pub proof fn law_hex_text_is_hexadecimal(bytes: Seq<u8>)
    ensures
        hex_text(bytes).len() == 2 * bytes.len(),
        forall|i: int| 0 <= i < hex_text(bytes).len() ==> hex_digit(#[trigger] hex_text(bytes)[i]),
{
    let text = hex_text(bytes);
    assert forall|i: int| 0 <= i < text.len() implies hex_digit(#[trigger] text[i]) by {
        let byte = bytes[i / 2] as int;
        assert(0 <= byte / 16 < 16);
        assert(0 <= byte % 16 < 16);
    }
}

/// Different bytes are written differently.
pub proof fn law_hex_text_is_injective(a: Seq<u8>, b: Seq<u8>)
    requires
        hex_text(a) == hex_text(b),
    ensures
        a == b,
{
    assert(hex_text(a).len() == 2 * a.len());
    assert(hex_text(b).len() == 2 * b.len());
    assert forall|i: int| 0 <= i < a.len() implies a[i] == b[i] by {
        let j = 2 * i;
        let k = 2 * i + 1;
        assert(j / 2 == i && j % 2 == 0 && k / 2 == i && k % 2 == 1);
        assert(0 <= j < k < hex_text(a).len());
        assert(hex_text(a)[j] == digit(a[i] as int / 16));
        assert(hex_text(b)[j] == digit(b[i] as int / 16));
        assert(hex_text(a)[k] == digit(a[i] as int % 16));
        assert(hex_text(b)[k] == digit(b[i] as int % 16));
        lemma_digit_is_injective(a[i] as int / 16, b[i] as int / 16);
        lemma_digit_is_injective(a[i] as int % 16, b[i] as int % 16);
    }
    assert(a =~= b);
}

/// The number that a lower-case hexadecimal digit stands for.
pub open spec fn hex_value(c: char) -> int {
    if c <= '9' {
        c as int - '0' as int
    } else {
        c as int - 'a' as int + 10
    }
}

/// Bytes are written in order, each by its higher digit and then its lower one, in
/// lower case.
pub proof fn law_hex_text_reads_back(bytes: Seq<u8>, i: int)
    requires
        0 <= i < bytes.len(),
    ensures
        ({
            let high = hex_text(bytes)[2 * i];
            let low = hex_text(bytes)[2 * i + 1];
            &&& hex_text(bytes).len() == 2 * bytes.len()
            &&& bytes[i] == 16 * hex_value(high) + hex_value(low)
            &&& ('0' <= high && high <= '9') || ('a' <= high && high <= 'f')
            &&& ('0' <= low && low <= '9') || ('a' <= low && low <= 'f')
        }),
{
    let j = 2 * i;
    let k = 2 * i + 1;
    let byte = bytes[i] as int;
    assert(j / 2 == i && j % 2 == 0 && k / 2 == i && k % 2 == 1);
    assert(hex_text(bytes)[j] == digit(byte / 16));
    assert(hex_text(bytes)[k] == digit(byte % 16));
    assert(0 <= byte / 16 < 16 && 0 <= byte % 16 < 16);
    assert(byte == 16 * (byte / 16) + byte % 16);
}

} // verus!
