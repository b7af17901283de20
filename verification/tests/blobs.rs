use timelapse::blob::{frame, pack, unpack, verify_contents, Blob, BlobError, BlobHeaderV1};
use timelapse::hash::git::hash_blob;
use timelapse::hash::hash_bytes;

#[test]
fn test_blob_header_serialization() {
    let header = BlobHeaderV1::new(1000, 500, true);
    let bytes = header.to_bytes();
    assert_eq!(bytes.len(), 21);

    let parsed = BlobHeaderV1::from_bytes(&bytes).unwrap();
    assert_eq!(header.orig_len, parsed.orig_len);
    assert_eq!(header.stored_len, parsed.stored_len);
    assert_eq!(header.is_compressed(), parsed.is_compressed());
    assert_eq!(header.magic, parsed.magic);
}

#[test]
fn test_blob_header_magic_validation() {
    let mut bytes = vec![0u8; 21];
    bytes[0..4].copy_from_slice(b"BADM");
    bytes[4] = 0;
    bytes[5..13].copy_from_slice(&1000u64.to_le_bytes());
    bytes[13..21].copy_from_slice(&500u64.to_le_bytes());

    assert!(BlobHeaderV1::from_bytes(&bytes).is_err());
    assert!(matches!(BlobHeaderV1::from_bytes(&bytes), Err(BlobError::BadMagic { magic: (b'B', b'A', b'D', b'M') })));
}

#[test]
fn test_blob_header_invalid_length() {
    let bytes = vec![0u8; 10];
    assert!(BlobHeaderV1::from_bytes(&bytes).is_err());
    assert!(matches!(BlobHeaderV1::from_bytes(&bytes), Err(BlobError::HeaderTooShort { len: 10 })));
}

#[test]
fn test_blob_small_no_compression() {
    let data = b"hello world";
    let (blob, serialized) = Blob::from_bytes(data).unwrap();

    assert!(!blob.compressed);
    assert_eq!(blob.size, data.len() as u64);

    let header = BlobHeaderV1::from_bytes(&serialized).unwrap();
    assert!(!header.is_compressed());
    assert_eq!(header.orig_len, data.len() as u64);

    let recovered = Blob::read_from_bytes(&serialized).unwrap();
    assert_eq!(data, &recovered[..]);
}

#[test]
fn test_blob_large_with_compression() {
    let data = b"hello world ".repeat(1000);
    let (blob, serialized) = Blob::from_bytes(&data).unwrap();

    assert!(blob.compressed);
    assert_eq!(blob.size, data.len() as u64);

    assert!(serialized.len() < data.len());

    let recovered = Blob::read_from_bytes(&serialized).unwrap();
    assert_eq!(data, recovered);
}

#[test]
fn test_blob_random_data_no_compression_benefit() {
    let mut data = vec![0u8; 5000];
    for (i, byte) in data.iter_mut().enumerate() {
        *byte = (i % 256) as u8;
    }

    let (_blob, _serialized) = Blob::from_bytes(&data).unwrap();

    let (_blob2, serialized2) = Blob::from_bytes(&data).unwrap();
    let recovered = Blob::read_from_bytes(&serialized2).unwrap();
    assert_eq!(data, recovered);
}

#[test]
fn test_blob_hash_deterministic() {
    let data = b"test data for hashing";
    let (blob1, _) = Blob::from_bytes(data).unwrap();
    let (blob2, _) = Blob::from_bytes(data).unwrap();

    assert_eq!(blob1.hash, blob2.hash);
    assert_eq!(blob1.hash, hash_bytes(data));
}

#[test]
fn test_blob_header_compressed_flag() {
    let header_compressed = BlobHeaderV1::new(1000, 500, true);
    assert!(header_compressed.is_compressed());

    let header_uncompressed = BlobHeaderV1::new(1000, 1000, false);
    assert!(!header_uncompressed.is_compressed());
}

#[test]
fn test_blob_empty_data() {
    let data = b"";
    let (blob, serialized) = Blob::from_bytes(data).unwrap();

    assert!(!blob.compressed);
    assert_eq!(blob.size, 0);

    let recovered = Blob::read_from_bytes(&serialized).unwrap();
    assert_eq!(data, &recovered[..]);
}

#[test]
fn header_bytes_are_laid_out_as_documented() {
    let bytes = BlobHeaderV1::new(0x0102, 3, true).to_bytes();
    let mut expected = b"SNB1".to_vec();
    expected.push(1);
    expected.extend_from_slice(&0x0102u64.to_le_bytes());
    expected.extend_from_slice(&3u64.to_le_bytes());
    assert_eq!(bytes, expected);
}

#[test]
fn serialized_blob_reads_back() {
    let data = b"some text ".repeat(900);
    let (blob, serialized) = Blob::from_bytes(&data).unwrap();
    assert_eq!(blob.to_bytes(&data).unwrap(), serialized);
    assert_ne!(&serialized[21..], &data[..]);
    assert_eq!(Blob::read_from_bytes(&serialized).unwrap(), data);
}

#[test]
fn the_encoder_is_used_only_where_it_saves() {
    assert_eq!(pack(b"abcd", Some(b"xy".to_vec())), (b"xy".to_vec(), true));
    assert_eq!(pack(b"abcd", Some(b"wxyz".to_vec())), (b"abcd".to_vec(), false));
    assert_eq!(pack(b"abcd", None), (b"abcd".to_vec(), false));
}

#[test]
fn truncated_blob_is_refused() {
    let whole = frame(5, b"hello", false);
    let cut = &whole[..whole.len() - 1];
    assert!(matches!(Blob::read_from_bytes(cut), Err(BlobError::DataTooShort { stored_len: 5, available: 25 })));
    let mut longer = whole.clone();
    longer.push(9);
    assert_eq!(Blob::read_from_bytes(&longer).unwrap(), b"hello".to_vec());
}

#[test]
fn damaged_compression_is_refused() {
    let framed = frame(100, b"this is no compressed text", true);
    assert!(matches!(Blob::read_from_bytes(&framed), Err(BlobError::Decompression)));
    let header = BlobHeaderV1::new(4, 2, true);
    assert!(matches!(
        unpack(&header, b"xy".to_vec(), Some(b"abc".to_vec())),
        Err(BlobError::SizeMismatch { orig_len: 4, decompressed: 3 })
    ));
    assert_eq!(unpack(&header, b"xy".to_vec(), Some(b"abcd".to_vec())).unwrap(), b"abcd".to_vec());
}

#[test]
fn contents_belong_to_either_hash() {
    assert!(verify_contents(hash_bytes(b"data"), b"data").is_ok());
    assert!(verify_contents(hash_blob(b"data"), b"data").is_ok());
    let other = hash_bytes(b"other");
    assert!(matches!(verify_contents(other, b"data"), Err(BlobError::HashMismatch { .. })));
}
