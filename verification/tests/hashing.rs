use timelapse::hash::git::{hash_blob, hash_tree, object_bytes};
use timelapse::hash::{
    hash_bytes, hash_pieces, hex_char_to_nibble, stable_step, FileStat, HexError, IncrementalHasher, Sha1Hash, StableStep,
};

#[test]
fn test_hash_consistency() {
    let data = b"hello world";
    let hash1 = hash_bytes(data);
    let hash2 = hash_bytes(data);
    assert_eq!(hash1, hash2);
}

#[test]
fn test_hex_encoding_roundtrip() {
    let original = Sha1Hash::from_bytes([42; 20]);
    let hex = original.to_hex();
    let decoded = Sha1Hash::from_hex(&hex).unwrap();
    assert_eq!(original, decoded);
}

#[test]
fn test_hex_encoding_lowercase() {
    let pattern = [0xde, 0xad, 0xbe, 0xef];
    let mut bytes = [0u8; 20];
    for (i, &byte) in pattern.iter().cycle().take(20).enumerate() {
        bytes[i] = byte;
    }
    let hash = Sha1Hash::from_bytes(bytes);
    let hex = hash.to_hex();
    assert!(hex.chars().all(|c| c.is_ascii_lowercase() || c.is_ascii_digit()));
    assert_eq!(hex.len(), 40);
    assert_eq!(hex, "deadbeef".repeat(5));
}

#[test]
fn test_hex_decoding_invalid_length() {
    assert!(Sha1Hash::from_hex("abc").is_err());
    assert!(Sha1Hash::from_hex("").is_err());
    assert!(Sha1Hash::from_hex(&"a".repeat(39)).is_err());
    assert!(Sha1Hash::from_hex(&"a".repeat(64)).is_err());
    assert!(matches!(Sha1Hash::from_hex("abc"), Err(HexError::InvalidLength { got: 3 })));
}

#[test]
fn test_hex_decoding_invalid_chars() {
    let invalid = "g".repeat(40);
    assert!(Sha1Hash::from_hex(&invalid).is_err());
    assert!(matches!(Sha1Hash::from_hex(&invalid), Err(HexError::InvalidCharacter { byte: b'g' })));
}

#[test]
fn hex_digits_of_either_case() {
    assert!(matches!(hex_char_to_nibble(b'f'), Ok(15)));
    assert!(matches!(hex_char_to_nibble(b'A'), Ok(10)));
    assert!(hex_char_to_nibble(b'/').is_err());
    let upper = Sha1Hash::from_hex(&"DEADBEEF".repeat(5)).unwrap();
    assert_eq!(upper.to_hex(), "deadbeef".repeat(5));
}

#[test]
fn test_incremental_hasher() {
    let data = b"hello world";
    let hash_direct = hash_bytes(data);

    let mut incremental = IncrementalHasher::new();
    incremental.update(b"hello ");
    incremental.update(b"world");
    let hash_incremental = incremental.finalize();

    assert_eq!(hash_direct, hash_incremental);
}

#[test]
fn pieces_hash_like_the_whole() {
    let pieces = vec![b"hel".to_vec(), Vec::new(), b"lo world".to_vec()];
    assert_eq!(hash_pieces(&pieces), hash_bytes(b"hello world"));
}

#[test]
fn known_sha1_values() {
    assert_eq!(hash_bytes(b"abc").to_hex(), "a9993e364706816aba3e25717850c26c9cd0d89d");
    assert_eq!(hash_bytes(b"").to_hex(), "da39a3ee5e6b4b0d3255bfef95601890afd80709");
}

#[test]
fn test_hash_empty_data() {
    let data = b"";
    let hash = hash_bytes(data);
    let hash2 = hash_bytes(data);
    assert_eq!(hash, hash2);
}

#[test]
fn test_different_data_different_hash() {
    let hash1 = hash_bytes(b"hello");
    let hash2 = hash_bytes(b"world");
    assert_ne!(hash1, hash2);
}

#[test]
fn test_git_blob_hash() {
    let content = b"Hello, Git!";
    let hash = hash_blob(content);
    assert_eq!(hash.to_hex().len(), 40);
}

#[test]
fn test_git_tree_hash() {
    let entries = vec![
        ("README.md".to_string(), 100644, hash_bytes(b"# README")),
        ("script.sh".to_string(), 100755, hash_bytes(b"#!/bin/bash\n")),
    ];

    let hash = hash_tree(&entries);
    assert_eq!(hash.to_hex().len(), 40);
}

#[test]
fn test_git_tree_sorting() {
    let entries1 = vec![
        ("z.txt".to_string(), 100644, hash_bytes(b"z")),
        ("a.txt".to_string(), 100644, hash_bytes(b"a")),
        ("m.txt".to_string(), 100644, hash_bytes(b"m")),
    ];

    let entries2 = vec![
        ("a.txt".to_string(), 100644, hash_bytes(b"a")),
        ("m.txt".to_string(), 100644, hash_bytes(b"m")),
        ("z.txt".to_string(), 100644, hash_bytes(b"z")),
    ];

    let hash1 = hash_tree(&entries1);
    let hash2 = hash_tree(&entries2);

    assert_eq!(hash1, hash2);
}

#[test]
fn objects_begin_with_kind_and_length() {
    assert_eq!(object_bytes("blob", b"abc"), b"blob 3\0abc".to_vec());
    assert_eq!(hash_blob(b"abc"), hash_bytes(b"blob 3\0abc"));
}

#[test]
fn test_different_content_different_hash() {
    let content1 = b"content 1";
    let content2 = b"content 2";

    let hash1 = hash_blob(content1);
    let hash2 = hash_blob(content2);

    assert_ne!(hash1, hash2, "Different content should have different hashes");
}

#[test]
fn test_empty_blob() {
    let empty = b"";
    let hash = hash_blob(empty);
    assert_eq!(hash.to_hex(), "e69de29bb2d1d6434b8b29ae775ad8c2e48c5391");
}

#[test]
fn test_known_git_hashes() {
    let test_cases: Vec<(&[u8], &str)> = vec![
        (b"", "e69de29bb2d1d6434b8b29ae775ad8c2e48c5391"),
        (b"hello world", "95d09f2b10159347eece71399a7e2e907ea3df4f"),
        (b"test\n", "9daeafb9864cf43055ae93beb0afd6c7d144bfa4"),
    ];

    for (content, expected_hex) in test_cases {
        let hash = hash_blob(content);
        assert_eq!(hash.to_hex(), expected_hex, "Hash mismatch for content: {:?}", std::str::from_utf8(content));
    }
}

#[test]
fn a_changing_file_is_hashed_again() {
    let before = FileStat { len: 10, modified_secs: 5, modified_nanos: 7 };
    let grown = FileStat { len: 11, modified_secs: 5, modified_nanos: 7 };
    let touched = FileStat { len: 10, modified_secs: 5, modified_nanos: 8 };
    assert!(matches!(stable_step(0, 3, before, before), StableStep::Accept));
    assert!(!matches!(stable_step(0, 3, before, grown), StableStep::Accept));
    assert!(!matches!(stable_step(0, 3, before, touched), StableStep::Accept));
    assert_ne!(stable_step(0, 3, before, grown), stable_step(2, 3, before, grown));
}
