//! The metadata blob encoding and its round trip.

use filesync::codec::{decode_store, encode_store, MetaStore};
use filesync::strmap::KvMap;
use filesync::time::Timestamp;

fn ts(secs: i64, nanos: u32) -> Timestamp {
    Timestamp::new(secs, nanos)
}

#[test]
fn round_trip_preserves_entries() {
    let mut store: MetaStore = KvMap::new();
    store.insert(String::from("/r/a.txt"), ts(1700000000, 123456789));
    store.insert(String::from("/r/b.txt"), ts(-5, 999999999));
    store.insert(String::from("/r/солнце.txt"), ts(0, 0));

    let blob = encode_store(&store);
    let back = decode_store(&blob).expect("the blob the store wrote must parse");

    assert_eq!(back.len(), 3);
    assert_eq!(back.get(&String::from("/r/a.txt")), Some(&ts(1700000000, 123456789)));
    assert_eq!(back.get(&String::from("/r/b.txt")), Some(&ts(-5, 999999999)));
    assert_eq!(back.get(&String::from("/r/солнце.txt")), Some(&ts(0, 0)));
    assert_eq!(back.get(&String::from("/r/other")), None);
}

#[test]
fn round_trip_after_overwrite() {
    let mut store: MetaStore = KvMap::new();
    store.insert(String::from("/r/a"), ts(1, 0));
    store.insert(String::from("/r/a"), ts(2, 0));

    let blob = encode_store(&store);
    let back = decode_store(&blob).expect("must parse");
    assert_eq!(back.len(), 1);
    assert_eq!(back.get(&String::from("/r/a")), Some(&ts(2, 0)));
}

#[test]
fn empty_store_encodes_to_count_only() {
    let store: MetaStore = KvMap::new();
    let blob = encode_store(&store);
    assert_eq!(blob, vec![0u8; 8]);
    let back = decode_store(&blob).expect("must parse");
    assert_eq!(back.len(), 0);
}

#[test]
fn known_entry_layout() {
    let mut store: MetaStore = KvMap::new();
    store.insert(String::from("a"), ts(0, 0));
    let blob = encode_store(&store);
    let mut expected: Vec<u8> = Vec::new();
    expected.extend_from_slice(&[1, 0, 0, 0, 0, 0, 0, 0]); // one entry
    expected.extend_from_slice(&[1, 0, 0, 0, 0, 0, 0, 0]); // path length
    expected.push(b'a');
    expected.extend_from_slice(&[0, 0, 0, 0, 0, 0, 0, 0x80]); // seconds 0, shifted
    expected.extend_from_slice(&[0, 0, 0, 0]); // nanoseconds
    assert_eq!(blob, expected);
}

#[test]
fn truncated_blob_is_rejected() {
    let mut store: MetaStore = KvMap::new();
    store.insert(String::from("/r/a"), ts(7, 7));
    let mut blob = encode_store(&store);
    blob.pop();
    assert!(decode_store(&blob).is_none());
}

#[test]
fn trailing_bytes_are_rejected() {
    let mut store: MetaStore = KvMap::new();
    store.insert(String::from("/r/a"), ts(7, 7));
    let mut blob = encode_store(&store);
    blob.push(0);
    assert!(decode_store(&blob).is_none());
}

#[test]
fn short_and_garbage_blobs_are_rejected() {
    assert!(decode_store(&vec![]).is_none());
    assert!(decode_store(&vec![1, 2, 3]).is_none());
    // A count promising entries that are not there.
    assert!(decode_store(&vec![9, 0, 0, 0, 0, 0, 0, 0]).is_none());
}

#[test]
fn out_of_range_nanoseconds_are_rejected() {
    let mut store: MetaStore = KvMap::new();
    store.insert(String::from("a"), ts(0, 0));
    let mut blob = encode_store(&store);
    let n = blob.len();
    // Patch the nanosecond field to one billion.
    blob[n - 4] = 0x00;
    blob[n - 3] = 0xCA;
    blob[n - 2] = 0x9A;
    blob[n - 1] = 0x3B;
    assert!(decode_store(&blob).is_none());
}

#[test]
fn invalid_utf8_path_is_rejected() {
    let mut store: MetaStore = KvMap::new();
    store.insert(String::from("a"), ts(0, 0));
    let mut blob = encode_store(&store);
    blob[8 + 8] = 0xFF; // overwrite the path byte with a non-UTF-8 one
    assert!(decode_store(&blob).is_none());
}
