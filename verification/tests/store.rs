use transcode_cache::error::TranscodeError;
use transcode_cache::fingerprint::Fingerprint;
use transcode_cache::store::{ArtifactMeta, ArtifactStore};
use transcode_cache::target::Codec;

fn put(store: &mut ArtifactStore, name: &[u8], codec: Codec, now: u64, chunks: &[&[u8]]) {
    let mut handle = store.begin_write(&Fingerprint::from_bytes(name), codec);
    for chunk in chunks {
        handle.write(chunk);
    }
    store.commit(handle, now);
}

#[test]
fn nothing_is_seen_before_the_commit() {
    let key = Fingerprint::from_bytes(b"k");
    let mut store = ArtifactStore::new();
    let mut handle = store.begin_write(&key, Codec::Mp3);
    handle.write(&[1, 2]);
    assert_eq!(handle.written(), &[1, 2]);
    assert_eq!(handle.key(), &key);
    assert_eq!(handle.codec(), Codec::Mp3);
    assert!(!store.contains(&key));
    assert!(matches!(store.open_read(&key), Err(TranscodeError::NotFound)));
    assert_eq!(store.metadata(&key), None);
    handle.write(&[3]);
    store.commit(handle, 42);
    assert!(store.contains(&key));
    assert_eq!(
        store.metadata(&key),
        Some(ArtifactMeta { codec: Codec::Mp3, length: 3, created_at: 42 })
    );
}

#[test]
fn a_dropped_handle_leaves_no_trace() {
    let key = Fingerprint::from_bytes(b"k");
    let store = ArtifactStore::new();
    {
        let mut handle = store.begin_write(&key, Codec::Mp3);
        handle.write(&[1, 2, 3]);
    }
    assert!(!store.contains(&key));
    assert_eq!(store.len(), 0);
}

#[test]
fn what_was_written_is_read_back_byte_for_byte() {
    let key = Fingerprint::from_bytes(b"k");
    let mut store = ArtifactStore::new();
    put(&mut store, b"k", Codec::Opus, 0, &[&[1, 2], &[], &[3, 4, 5]]);
    let mut reader = store.open_read(&key).unwrap();
    assert_eq!(reader.len(), 5);
    assert_eq!(reader.position(), 0);
    assert_eq!(reader.remaining(), 5);
    assert_eq!(reader.read(2), vec![1, 2]);
    assert_eq!(reader.read(0), Vec::<u8>::new());
    assert_eq!(reader.position(), 2);
    assert_eq!(reader.read(100), vec![3, 4, 5]);
    assert_eq!(reader.remaining(), 0);
    assert_eq!(reader.read(1), Vec::<u8>::new());
    reader.restart();
    assert_eq!(reader.read(usize::MAX), vec![1, 2, 3, 4, 5]);
    assert!(reader.seek(4));
    assert_eq!(reader.read(9), vec![5]);
    assert!(reader.seek(5));
    assert!(!reader.seek(6));
    assert_eq!(reader.position(), 5);
}

#[test]
fn a_commit_under_a_held_key_takes_its_place() {
    let key = Fingerprint::from_bytes(b"a");
    let mut store = ArtifactStore::new();
    put(&mut store, b"a", Codec::Mp3, 1, &[&[1]]);
    put(&mut store, b"b", Codec::Mp3, 2, &[&[2]]);
    put(&mut store, b"a", Codec::Aac, 3, &[&[3, 3]]);
    assert_eq!(store.len(), 2);
    assert_eq!(
        store.metadata(&key),
        Some(ArtifactMeta { codec: Codec::Aac, length: 2, created_at: 3 })
    );
    // "a" is now the most recently completed, so "b" is the oldest
    assert_eq!(store.evict_oldest(), Some(Fingerprint::from_bytes(b"b")));
    assert_eq!(store.evict_oldest(), Some(Fingerprint::from_bytes(b"a")));
    assert_eq!(store.evict_oldest(), None);
}

#[test]
fn eviction_does_not_cut_a_reader_short() {
    let key = Fingerprint::from_bytes(b"a");
    let mut store = ArtifactStore::new();
    put(&mut store, b"a", Codec::Mp3, 1, &[&[1, 2, 3]]);
    let mut reader = store.open_read(&key).unwrap();
    assert_eq!(reader.read(1), vec![1]);
    assert!(store.evict(&key));
    assert!(!store.evict(&key));
    assert!(!store.contains(&key));
    assert_eq!(reader.read(5), vec![2, 3]);
}

#[test]
fn trimming_lets_the_oldest_go() {
    let mut store = ArtifactStore::new();
    put(&mut store, b"a", Codec::Mp3, 1, &[&[1]]);
    put(&mut store, b"b", Codec::Mp3, 2, &[&[2]]);
    put(&mut store, b"c", Codec::Mp3, 3, &[&[3]]);
    assert_eq!(store.trim(3), 0);
    assert_eq!(store.trim(2), 1);
    assert!(!store.contains(&Fingerprint::from_bytes(b"a")));
    assert!(store.contains(&Fingerprint::from_bytes(b"b")));
    assert!(store.contains(&Fingerprint::from_bytes(b"c")));
    assert_eq!(store.trim(0), 2);
    assert_eq!(store.len(), 0);
    assert_eq!(store.trim(0), 0);
}

#[test]
fn records_go_out_and_come_in() {
    let key = Fingerprint::from_bytes(b"a");
    let mut store = ArtifactStore::new();
    put(&mut store, b"a", Codec::Opus, 258, &[&[5, 6]]);
    let record = store.export(&key).unwrap();
    assert_eq!(
        record,
        vec![84, 67, 65, 49, 3, 2, 1, 0, 0, 0, 0, 0, 0, 2, 0, 0, 0, 0, 0, 0, 0, 5, 6]
    );
    assert_eq!(store.export(&Fingerprint::from_bytes(b"b")), None);

    let mut other = ArtifactStore::new();
    assert_eq!(other.restore(&key, &record), Ok(true));
    assert_eq!(
        other.metadata(&key),
        Some(ArtifactMeta { codec: Codec::Opus, length: 2, created_at: 258 })
    );
    assert_eq!(other.open_read(&key).unwrap().read(9), vec![5, 6]);
    // what is held already stays
    put(&mut other, b"a", Codec::Mp3, 1, &[&[1]]);
    assert_eq!(other.restore(&key, &record), Ok(false));
    assert_eq!(other.open_read(&key).unwrap().read(9), vec![1]);
    // a record that states a wrong length is corrupt and invalidates the key
    let mut wrong = record.clone();
    wrong[13] = 3;
    assert_eq!(other.restore(&key, &wrong), Err(TranscodeError::Corrupt));
    assert!(!other.contains(&key));
}
