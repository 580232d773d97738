use hardcpy::digest::{file_digest, same_digest, to_hex};
use hardcpy::ident::{backup_id, from_key, to_key};
use sha2::{Digest, Sha256};
use std::hash::{Hash, Hasher};

#[test]
fn hex_is_lower_case_two_digits_per_byte() {
    assert_eq!(to_hex(&[]), "");
    assert_eq!(to_hex(&[0x00, 0x0f, 0xa0, 0xff, 0x5c]), "000fa0ff5c");
    assert_eq!(to_hex(&[0xde, 0xad, 0xbe, 0xef]), "deadbeef");
}

#[test]
fn digest_of_known_contents() {
    assert_eq!(
        file_digest(b""),
        "e3b0c44298fc1c149afbf4c8996fb92427ae41e4649b934ca495991b7852b855"
    );
    assert_eq!(
        file_digest(b"hello world"),
        "b94d27b9934d3e08a52e52d7da7dabfac484efe37a5380ee9088f7ace2efcde9"
    );
    assert_eq!(
        file_digest(b"abc"),
        "ba7816bf8f01cfea414140de5dae2223b00361a396177a9cb410ff61f20015ad"
    );
}

#[test]
fn digest_agrees_with_the_hasher_fed_in_pieces() {
    let mut content = Vec::new();
    let mut x: u32 = 12345;
    for _ in 0..100_000 {
        x = x.wrapping_mul(1_103_515_245).wrapping_add(12345);
        content.push((x >> 16) as u8);
    }
    let mut hasher = Sha256::new();
    hasher.update(&content[..40_000]);
    hasher.update(&content[40_000..]);
    let expected = format!("{:x}", hasher.finalize());
    assert_eq!(file_digest(&content), expected);
    assert_eq!(file_digest(&content).len(), 64);
}

#[test]
fn digest_is_not_the_content_itself() {
    let content = b"0123456789abcdef0123456789abcdef".to_vec();
    let digest = file_digest(&content);
    assert_ne!(digest.as_bytes(), &content[..]);
    assert_ne!(digest, to_hex(&content));
}

#[test]
fn digests_compare_without_regard_to_case() {
    let lower = "b94d27b9934d3e08a52e52d7da7dabfac484efe37a5380ee9088f7ace2efcde9";
    let upper = "B94D27B9934D3E08A52E52D7DA7DABFAC484EFE37A5380EE9088F7ACE2EFCDE9";
    let mixed = "b94D27b9934d3E08a52e52d7da7dabfac484efe37a5380ee9088f7ace2efcDE9";
    assert!(same_digest(lower, lower));
    assert!(same_digest(lower, upper));
    assert!(same_digest(upper, mixed));
    assert!(same_digest("", ""));
}

#[test]
fn digests_that_differ_are_told_apart() {
    let one = "b94d27b9934d3e08a52e52d7da7dabfac484efe37a5380ee9088f7ace2efcde9";
    let other = "b94d27b9934d3e08a52e52d7da7dabfac484efe37a5380ee9088f7ace2efcde8";
    assert!(!same_digest(one, other));
    assert!(!same_digest(one, &one[..63]));
    assert!(!same_digest(one, ""));
    // '@' and '`' sit next to the letters but are no letters.
    assert!(!same_digest("@", "`"));
    assert!(!same_digest("[", "{"));
    assert!(same_digest("Z", "z"));
}

fn hashed_as_one_string(source: &str, dest: &str) -> u64 {
    let text = format!("{}{}", source, dest);
    let mut hasher = fnv::FnvHasher::default();
    text.hash(&mut hasher);
    hasher.finish()
}

#[test]
fn backup_id_of_empty_texts() {
    // FNV-1a of the single byte 0xff.
    let expected = (0xcbf29ce484222325u64 ^ 0xff).wrapping_mul(0x100000001b3);
    assert_eq!(backup_id("", ""), expected);
    assert_eq!(backup_id("", ""), 0xaf64_724c_8602_eb6e);
}

#[test]
fn backup_id_is_the_hash_of_the_joined_text() {
    let pairs = [
        ("test/test_singlethread/source", "test/test_singlethread/dest/source"),
        ("/home/ann/photos", "/mnt/backup/photos"),
        ("a", "b"),
        ("données", "sauvegarde/données"),
    ];
    for (source, dest) in pairs {
        assert_eq!(backup_id(source, dest), hashed_as_one_string(source, dest));
    }
}

#[test]
fn backup_id_depends_on_both_texts() {
    let id = backup_id("src", "dst/src");
    assert_eq!(id, backup_id("src", "dst/src"));
    assert_ne!(id, backup_id("src", "other/src"));
    assert_ne!(id, backup_id("srd", "dst/src"));
    assert_eq!(id, 0xf218_7ad4_19d6_9882);
    // Only the joined text counts: this is a known limitation.
    assert_eq!(backup_id("ab", "c"), backup_id("a", "bc"));
}

#[test]
fn keys_keep_the_bit_pattern() {
    assert_eq!(to_key(0), 0);
    assert_eq!(to_key(1), 1);
    assert_eq!(to_key(i64::MAX as u64), i64::MAX);
    assert_eq!(to_key(1u64 << 63), i64::MIN);
    assert_eq!(to_key(u64::MAX), -1);
    assert_eq!(from_key(-1), u64::MAX);
    assert_eq!(from_key(i64::MIN), 1u64 << 63);
    assert_eq!(from_key(i64::MAX), i64::MAX as u64);
    for id in [0u64, 5, 0xaf64_724c_8602_eb6e, u64::MAX, 1 << 63, (1 << 63) - 1] {
        assert_eq!(to_key(id), id as i64);
        assert_eq!(from_key(to_key(id)), id);
    }
}
