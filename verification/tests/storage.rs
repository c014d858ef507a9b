//! Tests of the write-ahead log and the memory-mapped store.

use leviathan::model::error::{IoErrorKind, LeviathanError};
use leviathan::storage::error::StorageError;
use leviathan::storage::mmap::{extended_len, flush_outcome, MmapStore};
use leviathan::storage::wal::{Wal, WalEntry};

fn make_entry(index: u64, term: u64, payload: &str) -> WalEntry {
    WalEntry { index, term, data: payload.as_bytes().to_vec() }
}

/// Append an entry to the bytes of a log file.
fn append(wal: &mut Wal, file: &mut Vec<u8>, entry: WalEntry) {
    file.extend(wal.append(entry));
    wal.advance();
}

#[test]
fn wal_append_and_read_all() {
    let mut file = Vec::new();
    let (mut wal, keep) = Wal::open(&file).expect("WAL open should succeed on a fresh file");
    assert_eq!(keep, 0);
    let entries = vec![
        make_entry(0, 1, "first entry"),
        make_entry(0, 1, "second entry"),
        make_entry(0, 1, "third entry"),
    ];
    for e in &entries {
        append(&mut wal, &mut file, e.clone());
    }
    let recovered = Wal::read_all(&file).expect("read_all should not fail");
    assert_eq!(recovered.len(), 3, "expected exactly 3 entries");
    assert_eq!(recovered[0].index, 0);
    assert_eq!(recovered[1].index, 1);
    assert_eq!(recovered[2].index, 2);
    assert_eq!(recovered[0].data, entries[0].data);
    assert_eq!(recovered[1].data, entries[1].data);
    assert_eq!(recovered[2].data, entries[2].data);
}

#[test]
fn wal_crash_recovery() {
    let mut file = Vec::new();
    let (mut wal, _) = Wal::open(&file).expect("WAL open should succeed");
    append(&mut wal, &mut file, make_entry(0, 1, "entry one"));
    append(&mut wal, &mut file, make_entry(0, 1, "entry two"));
    let intact = file.len();

    let fake_len: u64 = 64;
    file.extend(fake_len.to_le_bytes());
    file.extend(b"truncated!");

    let (wal, keep) = Wal::open(&file).expect("WAL reopen after crash should succeed");
    assert_eq!(keep, intact);
    assert_eq!(wal.next_index(), 2);
    file.truncate(keep);
    let entries = Wal::read_all(&file).expect("read_all after recovery");
    assert_eq!(entries.len(), 2, "only the two complete entries should survive crash recovery");
    assert_eq!(entries[0].data, b"entry one");
    assert_eq!(entries[1].data, b"entry two");
}

#[test]
fn wal_truncate_from() {
    let mut file = Vec::new();
    let (mut wal, _) = Wal::open(&file).expect("WAL open should succeed");
    for i in 0u64..5 {
        append(&mut wal, &mut file, make_entry(0, 1, &format!("entry {i}")));
    }
    let keep = Wal::truncate_from(&file, 3).expect("truncate_from should succeed");
    file.truncate(keep);
    wal.truncated(3);
    let remaining = Wal::read_all(&file).expect("read_all after truncation");
    assert_eq!(remaining.len(), 3);
    assert_eq!(remaining[0].index, 0);
    assert_eq!(remaining[1].index, 1);
    assert_eq!(remaining[2].index, 2);
    assert_eq!(wal.next_index(), 3);
}

#[test]
fn wal_truncation_needs_an_existing_index() {
    let mut file = Vec::new();
    let (mut wal, _) = Wal::open(&file).expect("open");
    append(&mut wal, &mut file, make_entry(0, 1, "only"));
    assert!(matches!(Wal::truncate_from(&file, 1), Err(StorageError::InvalidIndex(1))));
    assert_eq!(Wal::truncate_from(&file, 0).unwrap(), 0);
}

#[test]
fn wal_rejects_garbled_records() {
    let mut file = 3u64.to_le_bytes().to_vec();
    file.extend([1, 2, 3]);
    assert!(matches!(Wal::read_all(&file), Err(StorageError::Serialization(_))));
    assert!(matches!(Wal::open(&file), Err(StorageError::Serialization(_))));
}

#[test]
fn wal_frames_are_those_of_bincode() {
    let (wal, _) = Wal::open(&Vec::new()).expect("open");
    let frame = wal.append(make_entry(9, 4, "xy"));
    let payload = bincode::serialize(&(0u64, 4u64, b"xy".to_vec())).unwrap();
    assert_eq!(frame, bincode::serialize(&payload).unwrap());
}

fn mapped(len: usize) -> memmap2::MmapMut {
    memmap2::MmapMut::map_anon(len).expect("anonymous map")
}

#[test]
fn mmap_write_read_roundtrip() {
    let mut store = MmapStore::new(mapped(4096), 4096).expect("MmapStore open should succeed");
    let data = b"leviathan storage engine";
    let offset = 16;
    store.write(offset, data).expect("write should succeed");
    let read_back = store.read(offset, data.len()).expect("read should succeed");
    assert_eq!(read_back, data, "data read back must match what was written");
    assert_eq!(store.read(0, 16).unwrap(), &[0u8; 16]);
    let result = store.write(4090, b"this does not fit");
    assert!(result.is_err());
    assert!(store.flush().is_ok());
    assert_eq!(store.size(), 4096);
}

#[test]
fn mmap_bounds() {
    let mut store = MmapStore::new(mapped(100), 64).expect("store");
    assert!(store.write(64, b"").is_ok());
    assert!(matches!(
        store.write(usize::MAX, b"x"),
        Err(StorageError::OutOfBounds { offset: usize::MAX, len: 1, capacity: 64 })
    ));
    assert!(matches!(
        store.read(60, 5),
        Err(StorageError::OutOfBounds { offset: 60, len: 5, capacity: 64 })
    ));
    assert_eq!(
        store.read(60, 5).unwrap_err().to_string(),
        "mmap access out of bounds: offset=60, len=5, capacity=64"
    );
    assert!(matches!(
        MmapStore::new(mapped(10), 11),
        Err(StorageError::OutOfBounds { offset: 0, len: 11, capacity: 10 })
    ));
}

#[test]
fn failed_flushes_are_io_errors() {
    assert!(flush_outcome(Ok(())).is_ok());
    match flush_outcome(Err("disk gone".into())) {
        Err(StorageError::Io(e)) => {
            assert_eq!((e.kind, e.message.as_str()), (IoErrorKind::Other, "disk gone"));
        }
        other => panic!("unexpected {:?}", other),
    }
}

#[test]
fn mmap_files_are_extended_but_not_cut() {
    assert_eq!(extended_len(0, 512), Some(512));
    assert_eq!(extended_len(512, 512), None);
    assert_eq!(extended_len(1000, 512), None);
}

#[test]
fn storage_errors_convert() {
    let e: LeviathanError = StorageError::Serialization("bad".into()).into();
    assert!(matches!(e, LeviathanError::Serialization(ref s) if s == "bad"));
    let garbled = bincode::deserialize::<String>(&[0xFF, 0xFF]).unwrap_err();
    let text = garbled.to_string();
    assert!(matches!(StorageError::from(garbled), StorageError::Serialization(s) if s == text));
    assert_eq!(StorageError::InvalidIndex(7).to_string(), "invalid WAL truncation index: 7");
    assert_eq!(
        StorageError::CorruptEntry { index: 3, reason: "odd".into() }.to_string(),
        "corrupt WAL entry at index 3: odd"
    );
}
