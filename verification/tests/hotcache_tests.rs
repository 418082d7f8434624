use quickwit::hotcache::{decode_hotcache, encode_hotcache, HotCacheEntry};

fn entry(path: &[u8], start: u64, bytes: &[u8]) -> HotCacheEntry {
    HotCacheEntry { path: path.to_vec(), start, bytes: bytes.to_vec() }
}

#[test]
fn test_hotcache_round_trip() {
    let entries = vec![
        entry(b"meta.json", 0, b"{}"),
        entry(b"terms.idx", 128, &[7, 8, 9, 10]),
        entry(b"fast.field", 4096, &[]),
    ];
    let blob = encode_hotcache(&entries);
    let decoded = decode_hotcache(&blob).unwrap();
    assert_eq!(decoded.len(), 3);
    for (before, after) in entries.iter().zip(decoded.iter()) {
        assert_eq!(before.path, after.path);
        assert_eq!(before.start, after.start);
        assert_eq!(before.bytes, after.bytes);
    }
}

#[test]
fn test_hotcache_of_no_ranges() {
    let blob = encode_hotcache(&Vec::new());
    assert_eq!(blob.len(), 8);
    let decoded = decode_hotcache(&blob).unwrap();
    assert!(decoded.is_empty());
}

#[test]
fn test_hotcache_is_deterministic() {
    let entries = vec![entry(b"meta.json", 0, b"{}")];
    let again = vec![entry(b"meta.json", 0, b"{}")];
    assert_eq!(encode_hotcache(&entries), encode_hotcache(&again));
}

#[test]
fn test_malformed_blobs_are_refused() {
    // too short for a count
    assert!(decode_hotcache(&vec![1, 2, 3]).is_none());
    // a count with no entries behind it
    let mut blob = 5u64.to_le_bytes().to_vec();
    assert!(decode_hotcache(&blob).is_none());
    // trailing garbage after the announced entries
    blob = encode_hotcache(&vec![entry(b"f", 0, b"x")]);
    blob.push(0);
    assert!(decode_hotcache(&blob).is_none());
    // a length running past the end of the blob
    let mut oversized = 1u64.to_le_bytes().to_vec();
    oversized.extend_from_slice(&u64::MAX.to_le_bytes());
    assert!(decode_hotcache(&oversized).is_none());
}
