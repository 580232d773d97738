//! Backup identifiers: a 64-bit FNV-1a hash of the source root and the
//! destination path, and the signed form under which a store keeps it.

use std::hash::Hasher;
use vstd::prelude::*;
use vstd::string::{StrSliceExecFns, StringSliceAdditionalSpecFns};

verus! {

/// One round of FNV-1a: the state is combined with the byte by exclusive or,
/// then multiplied by the 64-bit FNV prime, keeping the low 64 bits.
pub open spec fn fnv1a_round(state: u64, byte: u8) -> u64 {
    (((state ^ (byte as u64)) as int * 0x100000001b3) % 0x1_0000_0000_0000_0000) as u64
}

/// The 64-bit FNV-1a hash of a byte string: the rounds applied to the bytes in
/// order, starting from the FNV offset basis.
pub open spec fn fnv1a(bytes: Seq<u8>) -> u64
    decreases bytes.len(),
{
    if bytes.len() == 0 {
        0xcbf29ce484222325
    } else {
        fnv1a_round(fnv1a(bytes.drop_last()), bytes.last())
    }
}

/// Hashes `bytes` with 64-bit FNV-1a.
///
/// Trusted: the body feeds `bytes` to a fresh `fnv::FnvHasher` and reads it
/// out. The crate's `default` starts the state at the offset basis
/// `0xcbf29ce484222325`, its `write` takes the bytes in order and, for each,
/// sets the state to `(state ^ byte).wrapping_mul(0x100000001b3)`, and its
/// `finish` returns the state; [`fnv1a`] says the same.
#[verifier::external_body]
pub(crate) fn fnv1a_of(bytes: &[u8]) -> (hash: u64)
    ensures
        hash == fnv1a(bytes@),
{
    let mut hasher = fnv::FnvHasher::default();
    hasher.write(bytes);
    hasher.finish()
}

/// What is hashed for a backup: the source root's text, directly followed by
/// the destination path's text, both in UTF-8, closed by one byte `0xff`.
pub open spec fn id_material(source: Seq<u8>, dest: Seq<u8>) -> Seq<u8> {
    (source + dest).push(0xffu8)
}

/// The identifier of the backup of `source` at `dest`.
pub open spec fn id_of(source: Seq<u8>, dest: Seq<u8>) -> u64 {
    fnv1a(id_material(source, dest))
}

/// Computes the identifier of a backup from the source root as the operator
/// gave it and the destination path, which is the destination root extended by
/// the source root's own name.
///
/// The identifier depends on the two texts alone, so the same pair always maps
/// to the same backup. Distinct pairs may collide; nothing here detects that.
pub fn backup_id(source: &str, dest: &str) -> (id: u64)
    ensures
        id == id_of(source.spec_bytes(), dest.spec_bytes()),
{
    let mut material: Vec<u8> = source.as_bytes_vec();
    let mut rest: Vec<u8> = dest.as_bytes_vec();
    material.append(&mut rest);
    material.push(0xffu8);
    fnv1a_of(material.as_slice())
}

/// The signed 64-bit integer with the same bit pattern as `id`.
pub open spec fn signed_key(id: u64) -> i64 {
    if id < 0x8000_0000_0000_0000 {
        id as i64
    } else {
        (id - 0x1_0000_0000_0000_0000) as i64
    }
}

/// The identifier with the same bit pattern as the signed key `key`.
pub open spec fn id_of_key(key: i64) -> u64 {
    if key >= 0 {
        key as u64
    } else {
        (key + 0x1_0000_0000_0000_0000) as u64
    }
}

/// The key under which a store with signed 64-bit integer keys holds `id`.
pub fn to_key(id: u64) -> (key: i64)
    ensures
        key == signed_key(id),
{
    if id < 0x8000_0000_0000_0000 {
        id as i64
    } else {
        let low: u64 = id - 0x8000_0000_0000_0000;
        (low as i64) + i64::MIN
    }
}

/// The identifier that a store holds under the signed key `key`.
pub fn from_key(key: i64) -> (id: u64)
    ensures
        id == id_of_key(key),
{
    if key >= 0 {
        key as u64
    } else {
        let low: i64 = key - i64::MIN;
        (low as u64) + 0x8000_0000_0000_0000
    }
}

/// Storing an identifier under its signed key and reading it back gives the
/// identifier again, and no two identifiers share a key.
pub proof fn lemma_key_round_trip(id: u64, other: u64)
    ensures
        id_of_key(signed_key(id)) == id,
        signed_key(id) == signed_key(other) ==> id == other,
{
}

} // verus!
