use semantic_records::error::RecordError;
use semantic_records::identity::{calculate_identity_address, ensure_identity};
use semantic_records::indexes::{
    create_index, delete_index, query_index, query_index_in, read_index, IndexQuery, Partition,
};
use semantic_records::records::create_record;
use semantic_records::store::Store;
use semantic_records::time_index::{append_to_time_index, query_time_index};

const EVENT: &[u8] = b"economic_event";
const FULFILLMENT: &[u8] = b"fulfillment";
const TAG: &[u8] = b"fulfills";
const RECIPROCAL: &[u8] = b"fulfilled_by";
const ORDER: &[u8] = b"fulfillment.created";

fn addr(b: u8) -> Vec<u8> {
    vec![b; 32]
}

/// Writes both placeholders, then links the two.
fn link(
    store: &mut Store, source_ty: &[u8], source: &[u8], dest_ty: &[u8], dest: &[u8], tag: &[u8], reciprocal: &[u8],
) -> Result<Vec<Result<Vec<u8>, RecordError>>, RecordError> {
    ensure_identity(store, source_ty, source);
    ensure_identity(store, dest_ty, dest);
    create_index(store, source_ty, source, dest_ty, dest, tag, reciprocal)
}

#[test]
fn identity_address_is_deterministic() {
    let a = calculate_identity_address(EVENT, &addr(1)).unwrap();
    let b = calculate_identity_address(EVENT, &addr(1)).unwrap();
    assert_eq!(a, b);
    assert_eq!(a.len(), 32);
    assert_ne!(a, addr(1));
    assert_ne!(a, calculate_identity_address(FULFILLMENT, &addr(1)).unwrap());
    assert_ne!(a, calculate_identity_address(EVENT, &addr(2)).unwrap());
}

#[test]
fn identity_address_of_malformed_key_fails() {
    assert_eq!(calculate_identity_address(EVENT, &[1u8, 2, 3]), Err(RecordError::DecodeError));
}

#[test]
fn create_index_reads_both_ways() {
    let mut store = Store::new();
    let r = link(&mut store, EVENT, &addr(1), FULFILLMENT, &addr(2), TAG, RECIPROCAL).unwrap();
    assert_eq!(r.len(), 2);
    assert!(r[0].is_ok() && r[1].is_ok());
    assert_ne!(r[0], r[1]);
    assert_eq!(read_index(&store, EVENT, &addr(1), TAG, ORDER), Ok(vec![addr(2)]));
    assert_eq!(read_index(&store, FULFILLMENT, &addr(2), RECIPROCAL, ORDER), Ok(vec![addr(1)]));
    let d = delete_index(&mut store, EVENT, &addr(1), FULFILLMENT, &addr(2), TAG, RECIPROCAL).unwrap();
    assert_eq!(d, r);
    assert_eq!(read_index(&store, EVENT, &addr(1), TAG, ORDER), Ok(vec![]));
    assert_eq!(read_index(&store, FULFILLMENT, &addr(2), RECIPROCAL, ORDER), Ok(vec![]));
}

#[test]
fn create_index_twice_keeps_one_edge() {
    let mut store = Store::new();
    let r1 = link(&mut store, EVENT, &addr(1), FULFILLMENT, &addr(2), TAG, RECIPROCAL).unwrap();
    let r2 = link(&mut store, EVENT, &addr(1), FULFILLMENT, &addr(2), TAG, RECIPROCAL).unwrap();
    assert_eq!(r1, r2);
    assert_eq!(read_index(&store, EVENT, &addr(1), TAG, ORDER), Ok(vec![addr(2)]));
    let d = delete_index(&mut store, EVENT, &addr(1), FULFILLMENT, &addr(2), TAG, RECIPROCAL).unwrap();
    assert_eq!(d.len(), 2);
}

#[test]
fn create_index_with_malformed_address_fails() {
    let mut store = Store::new();
    let r = create_index(&mut store, EVENT, &addr(1), FULFILLMENT, &[5u8, 5], TAG, RECIPROCAL);
    assert_eq!(r, Err(RecordError::DecodeError));
    assert_eq!(read_index(&store, EVENT, &addr(1), TAG, ORDER), Ok(vec![]));
}

#[test]
fn delete_index_without_edges_reports_nothing() {
    let mut store = Store::new();
    let d = delete_index(&mut store, EVENT, &addr(1), FULFILLMENT, &addr(2), TAG, RECIPROCAL).unwrap();
    assert!(d.is_empty());
}

#[test]
fn read_index_orders_by_time_newest_first() {
    let mut store = Store::new();
    for d in [3u8, 1, 2] {
        link(&mut store, EVENT, &addr(9), FULFILLMENT, &addr(d), TAG, RECIPROCAL).unwrap();
    }
    // X = 1 at t1, Y = 2 at t2, Z = 3 at t3, appended out of order
    assert_eq!(append_to_time_index(&mut store, ORDER, FULFILLMENT, &addr(2), 200), Ok(()));
    assert_eq!(append_to_time_index(&mut store, ORDER, FULFILLMENT, &addr(3), 300), Ok(()));
    assert_eq!(append_to_time_index(&mut store, ORDER, FULFILLMENT, &addr(1), 100), Ok(()));
    assert_eq!(read_index(&store, EVENT, &addr(9), TAG, ORDER), Ok(vec![addr(3), addr(2), addr(1)]));
}

#[test]
fn read_index_puts_unindexed_targets_last() {
    let mut store = Store::new();
    for d in [1u8, 2, 3] {
        link(&mut store, EVENT, &addr(9), FULFILLMENT, &addr(d), TAG, RECIPROCAL).unwrap();
    }
    append_to_time_index(&mut store, ORDER, FULFILLMENT, &addr(3), 10).unwrap();
    assert_eq!(read_index(&store, EVENT, &addr(9), TAG, ORDER), Ok(vec![addr(3), addr(1), addr(2)]));
}

#[test]
fn read_index_fails_on_a_broken_reference() {
    let mut store = Store::new();
    link(&mut store, EVENT, &addr(9), FULFILLMENT, &addr(1), TAG, RECIPROCAL).unwrap();
    link(&mut store, EVENT, &addr(9), FULFILLMENT, &addr(2), TAG, RECIPROCAL).unwrap();
    let broken = calculate_identity_address(FULFILLMENT, &addr(2)).unwrap();
    store.remove(&broken);
    assert_eq!(read_index(&store, EVENT, &addr(9), TAG, ORDER), Err(RecordError::NotFound));
}

#[test]
fn query_index_reads_each_record_on_its_own() {
    let mut store = Store::new();
    let (good, _) = create_record(&mut store, FULFILLMENT, b"fulfillment one");
    link(&mut store, EVENT, &addr(9), FULFILLMENT, &good, TAG, RECIPROCAL).unwrap();
    link(&mut store, EVENT, &addr(9), FULFILLMENT, &addr(4), TAG, RECIPROCAL).unwrap();
    let r = query_index(&store, EVENT, &addr(9), TAG, ORDER).unwrap();
    assert_eq!(r, vec![Ok(b"fulfillment one".to_vec()), Err(RecordError::NotFound)]);
}

#[test]
fn query_index_of_malformed_base_fails() {
    let store = Store::new();
    assert_eq!(query_index(&store, EVENT, &[1u8], TAG, ORDER), Err(RecordError::DecodeError));
}

#[test]
fn time_index_windows_with_cursor_and_limit() {
    let mut store = Store::new();
    for (d, t) in [(1u8, 10i64), (2, 20), (3, 30), (4, 40)] {
        append_to_time_index(&mut store, ORDER, EVENT, &addr(d), t).unwrap();
    }
    let id = |d: u8| calculate_identity_address(EVENT, &addr(d)).unwrap();
    assert_eq!(query_time_index(&store, ORDER, None, 2), Ok(vec![id(4), id(3)]));
    assert_eq!(query_time_index(&store, ORDER, None, 10), Ok(vec![id(4), id(3), id(2), id(1)]));
    assert_eq!(query_time_index(&store, ORDER, Some(id(3).as_slice()), 1), Ok(vec![id(2)]));
    assert_eq!(query_time_index(&store, ORDER, Some(id(2).as_slice()), 5), Ok(vec![id(1)]));
    assert_eq!(query_time_index(&store, ORDER, Some(id(1).as_slice()), 5), Ok(vec![]));
    assert_eq!(query_time_index(&store, ORDER, None, 0), Ok(vec![]));
    assert_eq!(query_time_index(&store, ORDER, Some(addr(7).as_slice()), 5), Err(RecordError::BadTimeIndexError));
    assert_eq!(query_time_index(&store, b"other", None, 5), Ok(vec![]));
}

#[test]
fn time_index_append_is_idempotent() {
    let mut store = Store::new();
    append_to_time_index(&mut store, ORDER, EVENT, &addr(1), 10).unwrap();
    append_to_time_index(&mut store, ORDER, EVENT, &addr(1), 10).unwrap();
    let id = calculate_identity_address(EVENT, &addr(1)).unwrap();
    assert_eq!(query_time_index(&store, ORDER, None, 10), Ok(vec![id]));
}

#[test]
fn time_index_append_of_malformed_address_fails() {
    let mut store = Store::new();
    assert_eq!(append_to_time_index(&mut store, ORDER, EVENT, &[1u8, 2], 10), Err(RecordError::DecodeError));
}

#[test]
fn create_index_writes_no_placeholders() {
    let mut store = Store::new();
    create_index(&mut store, EVENT, &addr(1), FULFILLMENT, &addr(2), TAG, RECIPROCAL).unwrap();
    let b = calculate_identity_address(FULFILLMENT, &addr(2)).unwrap();
    assert_eq!(store.get(&b), None);
    assert_eq!(read_index(&store, EVENT, &addr(1), TAG, ORDER), Err(RecordError::NotFound));
    ensure_identity(&mut store, FULFILLMENT, &addr(2));
    assert_eq!(read_index(&store, EVENT, &addr(1), TAG, ORDER), Ok(vec![addr(2)]));
}

#[test]
fn query_index_in_local_reads_records() {
    let mut store = Store::new();
    let (good, _) = create_record(&mut store, FULFILLMENT, b"here");
    link(&mut store, EVENT, &addr(9), FULFILLMENT, &good, TAG, RECIPROCAL).unwrap();
    match query_index_in(&store, EVENT, &addr(9), TAG, ORDER, Partition::Local, "get_fulfillment".to_string()) {
        Ok(IndexQuery::Records(v)) => assert_eq!(v, vec![Ok(b"here".to_vec())]),
        _ => panic!("expected local records"),
    }
}

#[test]
fn query_index_in_remote_gives_keys_and_partition() {
    let mut store = Store::new();
    link(&mut store, EVENT, &addr(9), FULFILLMENT, &addr(1), TAG, RECIPROCAL).unwrap();
    let q = query_index_in(&store, EVENT, &addr(9), TAG, ORDER, Partition::Remote("planning".to_string()), "get_fulfillment".to_string());
    match q {
        Ok(IndexQuery::Remote { partition, method, keys }) => {
            assert_eq!(partition, "planning");
            assert_eq!(method, "get_fulfillment");
            assert_eq!(keys, vec![Ok(addr(1))]);
        }
        _ => panic!("expected a remote query"),
    }
}

#[test]
fn query_index_in_malformed_base_fails() {
    let store = Store::new();
    assert!(matches!(
        query_index_in(&store, EVENT, &[1u8], TAG, ORDER, Partition::Local, "m".to_string()),
        Err(RecordError::DecodeError)
    ));
}
