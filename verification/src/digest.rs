//! Content digests: SHA-256 over a file's bytes, written in hexadecimal, and
//! the comparison of a computed digest with a catalogued one.

use crate::text::{digit_char, push_char};
use sha2::Digest;
use vstd::prelude::*;
use vstd::string::StrSliceExecFns;

verus! {

/// The SHA-256 digest of a byte string, as the `sha2` crate computes it.
pub uninterp spec fn sha256(data: Seq<u8>) -> Seq<u8>;

/// Computes the SHA-256 digest of `data`.
///
/// Trusted: the body is `sha2::Sha256::digest`, the one-shot form of the
/// crate's hasher. The contract gives the result its name, [`sha256`], and
/// states the one fact the crate fixes in the hasher's type: the output is
/// 32 bytes long.
#[verifier::external_body]
pub(crate) fn sha256_of(data: &[u8]) -> (out: Vec<u8>)
    ensures
        out@ == sha256(data@),
        out@.len() == 32,
{
    sha2::Sha256::digest(data).to_vec()
}

/// The character that stands for a hexadecimal digit, letters in lower case.
pub open spec fn hex_char(n: nat) -> char {
    if n < 10 {
        digit_char(n)
    } else if n == 10 {
        'a'
    } else if n == 11 {
        'b'
    } else if n == 12 {
        'c'
    } else if n == 13 {
        'd'
    } else if n == 14 {
        'e'
    } else {
        'f'
    }
}

/// Lower-case hexadecimal of a byte string: two digits per byte, the high
/// half first, bytes in order.
pub open spec fn hex_lower(bytes: Seq<u8>) -> Seq<char>
    decreases bytes.len(),
{
    if bytes.len() == 0 {
        Seq::empty()
    } else {
        hex_lower(bytes.drop_last()).push(hex_char(bytes.last() as nat / 16)).push(
            hex_char(bytes.last() as nat % 16),
        )
    }
}

/// The digest of `content` as it is written in the catalog.
pub open spec fn digest_text(content: Seq<u8>) -> Seq<char> {
    hex_lower(sha256(content))
}

/// A character with the upper-case letters `A` to `Z` folded onto `a` to `z`,
/// as a code point.
pub open spec fn folded(c: char) -> int {
    if 'A' <= c && c <= 'Z' {
        c as int + 32
    } else {
        c as int
    }
}

/// Two digests agree when they have the same length and match character by
/// character once ASCII letter case is set aside.
pub open spec fn digests_agree(left: Seq<char>, right: Seq<char>) -> bool {
    &&& left.len() == right.len()
    &&& forall|i: int| 0 <= i < left.len() ==> folded(#[trigger] left[i]) == folded(right[i])
}

fn hex_digit(n: u8) -> (c: char)
    requires
        n < 16,
    ensures
        c == hex_char(n as nat),
{
    if n == 0 {
        '0'
    } else if n == 1 {
        '1'
    } else if n == 2 {
        '2'
    } else if n == 3 {
        '3'
    } else if n == 4 {
        '4'
    } else if n == 5 {
        '5'
    } else if n == 6 {
        '6'
    } else if n == 7 {
        '7'
    } else if n == 8 {
        '8'
    } else if n == 9 {
        '9'
    } else if n == 10 {
        'a'
    } else if n == 11 {
        'b'
    } else if n == 12 {
        'c'
    } else if n == 13 {
        'd'
    } else if n == 14 {
        'e'
    } else {
        'f'
    }
}

/// Writes `bytes` in lower-case hexadecimal.
pub fn to_hex(bytes: &[u8]) -> (text: String)
    ensures
        text@ == hex_lower(bytes@),
        text@.len() == 2 * bytes@.len(),
{
    let mut text = String::new();
    let mut i: usize = 0;
    while i < bytes.len()
        invariant
            i <= bytes@.len(),
            text@ == hex_lower(bytes@.take(i as int)),
            text@.len() == 2 * i,
        decreases bytes@.len() - i,
    {
        let b = bytes[i];
        proof {
            assert(bytes@.take(i + 1).drop_last() =~= bytes@.take(i as int));
            assert(bytes@.take(i + 1).last() == b);
        }
        push_char(&mut text, hex_digit(b / 16));
        push_char(&mut text, hex_digit(b % 16));
        i += 1;
    }
    proof {
        assert(bytes@.take(i as int) =~= bytes@);
    }
    text
}

/// The digest of `content`: SHA-256, in 64 lower-case hexadecimal digits.
pub fn file_digest(content: &[u8]) -> (text: String)
    ensures
        text@ == digest_text(content@),
        text@.len() == 64,
{
    let raw = sha256_of(content);
    to_hex(raw.as_slice())
}

fn fold_case(c: char) -> (code: u32)
    ensures
        code == folded(c),
{
    if 'A' <= c && c <= 'Z' {
        c as u32 + 32
    } else {
        c as u32
    }
}

/// Whether a computed digest and a catalogued one agree, letter case aside.
pub fn same_digest(left: &str, right: &str) -> (same: bool)
    ensures
        same == digests_agree(left@, right@),
{
    let n = left.unicode_len();
    if n != right.unicode_len() {
        return false;
    }
    let mut i: usize = 0;
    while i < n
        invariant
            n == left@.len(),
            n == right@.len(),
            i <= n,
            forall|j: int| 0 <= j < i ==> folded(#[trigger] left@[j]) == folded(right@[j]),
        decreases n - i,
    {
        if fold_case(left.get_char(i)) != fold_case(right.get_char(i)) {
            return false;
        }
        i += 1;
    }
    true
}

/// A digest agrees with itself.
pub proof fn lemma_digest_agrees_with_itself(digest: Seq<char>)
    ensures
        digests_agree(digest, digest),
{
}

} // verus!
