use cxdb_server::blob_store::{check_record, verify_record, BlobStore};
use cxdb_server::codec::IndexEntry;
use cxdb_server::error::StoreError;

/// The two files of a store, held in memory.
struct Files {
    index: Vec<u8>,
    pack: Vec<u8>,
}

fn digest(payload: &[u8]) -> [u8; 32] {
    *blake3::hash(payload).as_bytes()
}

fn open(files: &Files) -> Result<BlobStore, StoreError> {
    BlobStore::load(&files.index, files.pack.len() as u64)
}

/// Appends the pack record, then the index record over any torn tail, then
/// makes the entry visible.
fn put(store: &mut BlobStore, files: &mut Files, hash: [u8; 32], payload: &[u8]) -> Result<(), StoreError> {
    match store.plan_put(&hash, payload)? {
        None => Ok(()),
        Some(plan) => {
            assert_eq!(plan.entry.pack_offset, files.pack.len() as u64);
            files.pack.extend_from_slice(&plan.pack_record);
            files.index.truncate(store.index_len() as usize);
            files.index.extend_from_slice(&plan.index_record);
            store.commit_put(plan.entry);
            Ok(())
        }
    }
}

fn empty() -> Files {
    Files { index: Vec::new(), pack: Vec::new() }
}

#[test]
fn get_returns_corrupt_when_index_lengths_mismatch_pack_header() {
    let mut files = empty();
    let payload = b"blob payload used to validate index/header length checks";
    let hash = digest(payload);
    {
        let mut store = open(&files).expect("open blob store");
        put(&mut store, &mut files, hash, payload).expect("write blob to populate idx + pack");
    }
    files.index[44..48].copy_from_slice(&1u32.to_le_bytes());
    let store = open(&files).expect("reopen blob store");
    let err = store.get(&hash, &files.pack).expect_err("expected corruption error");
    assert!(matches!(err, StoreError::Corrupt(_)), "expected corruption error, got {err:?}");
}

#[test]
fn round_trip_returns_the_payload() {
    let mut files = empty();
    let mut store = open(&files).unwrap();
    let a = b"first payload".to_vec();
    let b = b"second, longer payload with more bytes".to_vec();
    put(&mut store, &mut files, digest(&a), &a).unwrap();
    put(&mut store, &mut files, digest(&b), &b).unwrap();
    assert_eq!(store.get(&digest(&a), &files.pack).unwrap(), a);
    assert_eq!(store.get(&digest(&b), &files.pack).unwrap(), b);
}

#[test]
fn round_trip_of_empty_payload() {
    let mut files = empty();
    let mut store = open(&files).unwrap();
    put(&mut store, &mut files, digest(b""), b"").unwrap();
    assert_eq!(files.pack.len(), 8);
    assert_eq!(store.get(&digest(b""), &files.pack).unwrap(), Vec::<u8>::new());
}

#[test]
fn second_put_leaves_both_files_unchanged() {
    let mut files = empty();
    let mut store = open(&files).unwrap();
    let p = b"same bytes twice";
    put(&mut store, &mut files, digest(p), p).unwrap();
    let (pack_len, index_len) = (files.pack.len(), files.index.len());
    assert!(store.plan_put(&digest(p), p).unwrap().is_none());
    put(&mut store, &mut files, digest(p), p).unwrap();
    assert_eq!(files.pack.len(), pack_len);
    assert_eq!(files.index.len(), index_len);
    assert_eq!(store.pack_len(), pack_len as u64);
    assert_eq!(store.index_len(), 48);
}

#[test]
fn get_of_unwritten_hash_is_not_found() {
    let mut files = empty();
    let mut store = open(&files).unwrap();
    assert!(matches!(store.get(&digest(b"never"), &files.pack), Err(StoreError::NotFound)));
    put(&mut store, &mut files, digest(b"some"), b"some").unwrap();
    assert!(matches!(store.get(&digest(b"never"), &files.pack), Err(StoreError::NotFound)));
    assert!(store.lookup(&digest(b"never")).is_none());
}

#[test]
fn reopen_after_put_returns_the_payload() {
    let mut files = empty();
    let p = b"durable payload";
    {
        let mut store = open(&files).unwrap();
        put(&mut store, &mut files, digest(p), p).unwrap();
    }
    let store = open(&files).unwrap();
    assert_eq!(store.get(&digest(p), &files.pack).unwrap(), p.to_vec());
    assert_eq!(store.index_len(), 48);
    assert_eq!(store.pack_len(), 8 + p.len() as u64);
}

#[test]
fn unindexed_pack_bytes_are_ignored() {
    let mut files = empty();
    let p = b"indexed payload";
    {
        let mut store = open(&files).unwrap();
        put(&mut store, &mut files, digest(p), p).unwrap();
    }
    let covered = files.pack.len() as u64;
    // a record appended to the pack whose index entry never came
    files.pack.extend_from_slice(&[5, 0, 0, 0, 5, 0, 0, 0, 1, 2]);
    let mut store = open(&files).unwrap();
    let e = store.lookup(&digest(p)).unwrap();
    assert!(e.pack_offset + 8 + e.stored_len as u64 <= covered);
    assert_eq!(store.get(&digest(p), &files.pack).unwrap(), p.to_vec());
    let q = b"after the torn write";
    let plan = store.plan_put(&digest(q), q).unwrap().unwrap();
    assert_eq!(plan.entry.pack_offset, files.pack.len() as u64);
    put(&mut store, &mut files, digest(q), q).unwrap();
    assert_eq!(store.get(&digest(q), &files.pack).unwrap(), q.to_vec());
}

#[test]
fn torn_index_record_is_dropped_and_overwritten() {
    let mut files = empty();
    let p = b"whole record";
    {
        let mut store = open(&files).unwrap();
        put(&mut store, &mut files, digest(p), p).unwrap();
    }
    files.index.extend_from_slice(&[9u8; 20]);
    let mut store = open(&files).unwrap();
    assert_eq!(store.index_len(), 48);
    let q = b"next record";
    put(&mut store, &mut files, digest(q), q).unwrap();
    assert_eq!(files.index.len(), 96);
    let store = open(&files).unwrap();
    assert_eq!(store.get(&digest(p), &files.pack).unwrap(), p.to_vec());
    assert_eq!(store.get(&digest(q), &files.pack).unwrap(), q.to_vec());
}

#[test]
fn flipped_payload_byte_is_corrupt() {
    let mut files = empty();
    let mut store = open(&files).unwrap();
    let p = b"payload whose bytes get flipped";
    put(&mut store, &mut files, digest(p), p).unwrap();
    files.pack[12] ^= 0x20;
    assert!(matches!(store.get(&digest(p), &files.pack), Err(StoreError::Corrupt(_))));
}

#[test]
fn raw_len_mismatch_is_corrupt() {
    let mut files = empty();
    let p = b"raw length check";
    {
        let mut store = open(&files).unwrap();
        put(&mut store, &mut files, digest(p), p).unwrap();
    }
    files.index[40..44].copy_from_slice(&3u32.to_le_bytes());
    let store = open(&files).unwrap();
    assert!(matches!(store.get(&digest(p), &files.pack), Err(StoreError::Corrupt(_))));
}

#[test]
fn pack_shorter_than_index_fails_open() {
    let mut files = empty();
    let p = b"will be cut short";
    {
        let mut store = open(&files).unwrap();
        put(&mut store, &mut files, digest(p), p).unwrap();
    }
    files.pack.truncate(10);
    assert!(matches!(open(&files), Err(StoreError::Corrupt(_))));
}

#[test]
fn pack_cut_short_after_open_is_corrupt_on_get() {
    let mut files = empty();
    let mut store = open(&files).unwrap();
    let p = b"read past the end";
    put(&mut store, &mut files, digest(p), p).unwrap();
    files.pack.truncate(12);
    assert!(matches!(store.get(&digest(p), &files.pack), Err(StoreError::Corrupt(_))));
}

#[test]
fn hash_named_twice_fails_open() {
    let mut files = empty();
    let p = b"one entry";
    {
        let mut store = open(&files).unwrap();
        put(&mut store, &mut files, digest(p), p).unwrap();
    }
    let copy = files.index.clone();
    files.index.extend_from_slice(&copy);
    assert!(matches!(open(&files), Err(StoreError::Corrupt(_))));
}

#[test]
fn check_record_takes_the_digest_given() {
    let payload = b"abc";
    let hash = digest(payload);
    let entry = IndexEntry { hash, pack_offset: 0, raw_len: 3, stored_len: 3 };
    let record = [3u8, 0, 0, 0, 3, 0, 0, 0, b'a', b'b', b'c'];
    assert_eq!(check_record(&entry, &hash, &record, &hash).unwrap(), b"abc".to_vec());
    let other = digest(b"xyz");
    assert!(matches!(check_record(&entry, &hash, &record, &other), Err(StoreError::Corrupt(_))));
    assert_eq!(verify_record(&entry, &hash, &record).unwrap(), b"abc".to_vec());
    let short = [3u8, 0, 0, 0, 3, 0, 0];
    assert!(matches!(check_record(&entry, &hash, &short, &hash), Err(StoreError::Corrupt(_))));
    let header_off = [3u8, 0, 0, 0, 4, 0, 0, 0, b'a', b'b', b'c'];
    assert!(matches!(check_record(&entry, &hash, &header_off, &hash), Err(StoreError::Corrupt(_))));
}
