use semantic_records::error::RecordError;
use semantic_records::indexes::read_index;
use semantic_records::store::Store;
use semantic_records::sync::{sync_index, sync_index_at};

const EVENT: &[u8] = b"economic_event";
const FULFILLMENT: &[u8] = b"fulfillment";
const TAG: &[u8] = b"fulfilled_by";
const RECIPROCAL: &[u8] = b"fulfills";
const ORDER: &[u8] = b"economic_event.indexed";

fn addr(b: u8) -> Vec<u8> {
    vec![b; 32]
}

#[test]
fn sync_creates_then_removes() {
    let mut store = Store::new();
    let r = sync_index_at(&mut store, FULFILLMENT, &addr(1), EVENT, &vec![addr(2), addr(3)], &vec![], TAG, RECIPROCAL, ORDER, 5);
    assert_eq!(r.indexes_created.len(), 4);
    assert!(r.indexes_created.iter().all(|x| x.is_ok()));
    assert!(r.indexes_removed.is_empty());
    assert_eq!(read_index(&store, FULFILLMENT, &addr(1), TAG, ORDER), Ok(vec![addr(2), addr(3)]));
    assert_eq!(read_index(&store, EVENT, &addr(2), RECIPROCAL, ORDER), Ok(vec![addr(1)]));
    let r = sync_index_at(&mut store, FULFILLMENT, &addr(1), EVENT, &vec![], &vec![addr(2)], TAG, RECIPROCAL, ORDER, 6);
    assert!(r.indexes_created.is_empty());
    assert_eq!(r.indexes_removed.len(), 2);
    assert_eq!(read_index(&store, FULFILLMENT, &addr(1), TAG, ORDER), Ok(vec![addr(3)]));
    assert_eq!(read_index(&store, EVENT, &addr(2), RECIPROCAL, ORDER), Ok(vec![]));
}

#[test]
fn sync_twice_is_idempotent() {
    let mut store = Store::new();
    let added = vec![addr(2), addr(3)];
    let removed = vec![addr(4)];
    let first = sync_index(&mut store, FULFILLMENT, &addr(1), EVENT, &added, &removed, TAG, RECIPROCAL, ORDER);
    let after_first = read_index(&store, FULFILLMENT, &addr(1), TAG, ORDER).unwrap();
    let second = sync_index(&mut store, FULFILLMENT, &addr(1), EVENT, &added, &removed, TAG, RECIPROCAL, ORDER);
    assert!(second.indexes_created.iter().all(|x| x.is_ok()));
    assert!(second.indexes_removed.iter().all(|x| x.is_ok()));
    assert_eq!(second.indexes_created, first.indexes_created);
    let mut a = after_first.clone();
    let mut b = read_index(&store, FULFILLMENT, &addr(1), TAG, ORDER).unwrap();
    a.sort();
    b.sort();
    assert_eq!(a, b);
    assert_eq!(b, vec![addr(2), addr(3)]);
}

#[test]
fn sync_with_malformed_address_still_links_the_rest() {
    let mut store = Store::new();
    let added = vec![addr(2), vec![1u8, 2, 3], addr(3)];
    let r = sync_index_at(&mut store, FULFILLMENT, &addr(1), EVENT, &added, &vec![], TAG, RECIPROCAL, ORDER, 1);
    assert_eq!(r.indexes_created.len(), 5);
    assert!(r.indexes_created[0].is_ok() && r.indexes_created[1].is_ok());
    assert_eq!(r.indexes_created[2], Err(RecordError::IndexNotFound));
    assert!(r.indexes_created[3].is_ok() && r.indexes_created[4].is_ok());
    assert_eq!(read_index(&store, FULFILLMENT, &addr(1), TAG, ORDER), Ok(vec![addr(2), addr(3)]));
}

#[test]
fn sync_with_malformed_removal_reports_it() {
    let mut store = Store::new();
    let r = sync_index_at(&mut store, FULFILLMENT, &addr(1), EVENT, &vec![], &vec![vec![0u8]], TAG, RECIPROCAL, ORDER, 1);
    assert_eq!(r.indexes_removed, vec![Err(RecordError::IndexNotFound)]);
}

#[test]
fn sync_records_source_in_time_index() {
    let mut store = Store::new();
    sync_index_at(&mut store, FULFILLMENT, &addr(1), EVENT, &vec![addr(2)], &vec![], TAG, RECIPROCAL, ORDER, 7);
    sync_index_at(&mut store, FULFILLMENT, &addr(5), EVENT, &vec![addr(2)], &vec![], TAG, RECIPROCAL, ORDER, 9);
    // both sources link to 2; the later-indexed one comes first
    assert_eq!(read_index(&store, EVENT, &addr(2), RECIPROCAL, ORDER), Ok(vec![addr(5), addr(1)]));
}
