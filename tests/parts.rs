use cryobiobank_api::chunker::StreamChunker;
use cryobiobank_api::pool::ResourcePool;
use cryobiobank_api::registry::{ConsistencyError, PartRegistry};

#[test]
fn chunker_numbers_and_marks_the_last_chunk() {
    let mut c = StreamChunker::new(3);
    assert_eq!(c.wanted(), 3);
    c.feed(vec![1, 2], false);
    assert!(c.next_chunk().is_none());
    assert_eq!(c.wanted(), 1);
    c.feed(vec![3, 4, 5, 6], true);
    let first = c.next_chunk().expect("a full part");
    assert_eq!((first.part_number, first.bytes.clone(), first.is_final), (1, vec![1, 2, 3], false));
    let second = c.next_chunk().expect("a full part");
    assert_eq!((second.part_number, second.bytes.clone(), second.is_final), (2, vec![4, 5, 6], true));
    assert!(c.next_chunk().is_none());
    assert!(c.is_finished());
}

#[test]
fn chunker_short_last_chunk() {
    let mut c = StreamChunker::new(4);
    c.feed(vec![1, 2, 3, 4, 5], true);
    let first = c.next_chunk().unwrap();
    assert_eq!((first.part_number, first.is_final), (1, false));
    let last = c.next_chunk().unwrap();
    assert_eq!((last.part_number, last.bytes.clone(), last.is_final), (2, vec![5], true));
    assert!(c.next_chunk().is_none());
    assert_eq!(c.next_part(), 3);
}

#[test]
fn registry_orders_parts() {
    let mut r = PartRegistry::new();
    r.record(3, "c".to_string());
    r.record(1, "a".to_string());
    r.record(2, "b".to_string());
    let parts = r.finalize(3).ok().expect("complete coverage");
    let got: Vec<(u64, String)> = parts.into_iter().map(|p| (p.part_number, p.token)).collect();
    assert_eq!(got, vec![(1, "a".to_string()), (2, "b".to_string()), (3, "c".to_string())]);
}

#[test]
fn registry_count_mismatch() {
    let mut r = PartRegistry::new();
    r.record(1, "a".to_string());
    assert_eq!(r.finalize(2).err(), Some(ConsistencyError::CountMismatch { expected: 2, found: 1 }));
}

#[test]
fn registry_duplicate_leaves_a_gap() {
    let mut r = PartRegistry::new();
    r.record(1, "a".to_string());
    r.record(1, "a2".to_string());
    r.record(3, "c".to_string());
    assert_eq!(r.finalize(3).err(), Some(ConsistencyError::Missing(2)));
}

#[test]
fn registry_stray_number() {
    let mut r = PartRegistry::new();
    r.record(1, "a".to_string());
    r.record(7, "g".to_string());
    assert_eq!(r.finalize(2).err(), Some(ConsistencyError::Missing(2)));
    assert_eq!(r.len(), 2);
}

#[test]
fn registry_empty() {
    let r = PartRegistry::new();
    assert!(r.finalize(0).unwrap().is_empty());
}

#[test]
fn pool_bounds_its_permits() {
    let mut p = ResourcePool::new(2);
    assert!(p.has_free());
    p.acquire(1);
    p.acquire(2);
    assert!(!p.has_free());
    assert_eq!(p.in_use(), 2);
    assert!(!p.release(3));
    assert!(p.release(1));
    assert!(!p.release(1));
    assert_eq!(p.in_use(), 1);
    assert!(p.has_free());
}
