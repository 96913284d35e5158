use semantic_records::error::RecordError;
use semantic_records::records::{
    create_base_entry, create_record, delete_record, get_dereferenced_address, read_record_entry,
    update_record, update_record_expecting,
};
use semantic_records::store::Store;

const COMMITMENT: &[u8] = b"commitment";
const EVENT: &[u8] = b"economic_event";

#[test]
fn read_after_create_returns_payload() {
    let mut store = Store::new();
    let (id, entry) = create_record(&mut store, COMMITMENT, b"hello");
    assert_eq!(entry, b"hello".to_vec());
    assert_eq!(id.len(), 32);
    assert_eq!(read_record_entry(&store, COMMITMENT, &id), Ok(b"hello".to_vec()));
}

#[test]
fn read_after_create_empty_payload() {
    let mut store = Store::new();
    let (id, _) = create_record(&mut store, COMMITMENT, b"");
    assert_eq!(read_record_entry(&store, COMMITMENT, &id), Ok(Vec::new()));
}

#[test]
fn identity_differs_from_entry_address() {
    let mut store = Store::new();
    let (id, _) = create_record(&mut store, COMMITMENT, b"payload");
    let target = get_dereferenced_address(&store, &id).unwrap();
    assert_eq!(target.len(), 32);
    assert_ne!(target, id);
    assert_ne!(target, b"payload".to_vec());
}

#[test]
fn update_with_identical_content_keeps_entry() {
    let mut store = Store::new();
    let (id, _) = create_record(&mut store, COMMITMENT, b"same");
    let before = get_dereferenced_address(&store, &id).unwrap();
    let r = update_record(&mut store, COMMITMENT, &id, |prior: Vec<u8>| prior);
    assert_eq!(r, Ok(b"same".to_vec()));
    assert_eq!(get_dereferenced_address(&store, &id).unwrap(), before);
    assert_eq!(read_record_entry(&store, COMMITMENT, &id), Ok(b"same".to_vec()));
}

#[test]
fn update_with_new_content_repoints_identity() {
    let mut store = Store::new();
    let (id, _) = create_record(&mut store, COMMITMENT, b"one");
    let before = get_dereferenced_address(&store, &id).unwrap();
    let r = update_record(&mut store, COMMITMENT, &id, |mut prior: Vec<u8>| {
        prior.extend_from_slice(b"+two");
        prior
    });
    assert_eq!(r, Ok(b"one+two".to_vec()));
    let after = get_dereferenced_address(&store, &id).unwrap();
    assert_ne!(after, before);
    assert_eq!(read_record_entry(&store, COMMITMENT, &id), Ok(b"one+two".to_vec()));
    // the superseded entry is still stored
    assert_eq!(store.get(&before).is_some(), true);
}

#[test]
fn update_missing_record_fails_not_found() {
    let mut store = Store::new();
    let r = update_record(&mut store, COMMITMENT, &[7u8; 32], |p: Vec<u8>| p);
    assert_eq!(r, Err(RecordError::NotFound));
}

#[test]
fn update_wrong_type_fails_decode() {
    let mut store = Store::new();
    let (id, _) = create_record(&mut store, COMMITMENT, b"x");
    let r = update_record(&mut store, EVENT, &id, |p: Vec<u8>| p);
    assert_eq!(r, Err(RecordError::DecodeError));
}

#[test]
fn delete_then_read_fails_and_delete_again_is_false() {
    let mut store = Store::new();
    let (id, _) = create_record(&mut store, COMMITMENT, b"gone soon");
    let target = get_dereferenced_address(&store, &id).unwrap();
    assert_eq!(delete_record(&mut store, COMMITMENT, &id), Ok(true));
    assert_eq!(read_record_entry(&store, COMMITMENT, &id), Err(RecordError::NotFound));
    assert_eq!(store.get(&target), None);
    assert_eq!(delete_record(&mut store, COMMITMENT, &id), Ok(false));
}

#[test]
fn delete_wrong_type_fails_validation_and_keeps_record() {
    let mut store = Store::new();
    let (id, _) = create_record(&mut store, COMMITMENT, b"keep me");
    assert_eq!(delete_record(&mut store, EVENT, &id), Err(RecordError::ValidationError));
    assert_eq!(read_record_entry(&store, COMMITMENT, &id), Ok(b"keep me".to_vec()));
}

#[test]
fn delete_with_missing_target_fails_validation() {
    let mut store = Store::new();
    let id = create_base_entry(&mut store, &[9u8; 32]);
    assert_eq!(delete_record(&mut store, COMMITMENT, &id), Err(RecordError::ValidationError));
    assert_eq!(get_dereferenced_address(&store, &id), Ok(vec![9u8; 32]));
}

#[test]
fn read_wrong_type_fails_decode() {
    let mut store = Store::new();
    let (id, _) = create_record(&mut store, COMMITMENT, b"x");
    assert_eq!(read_record_entry(&store, EVENT, &id), Err(RecordError::DecodeError));
}

#[test]
fn read_unknown_identity_fails_not_found() {
    let store = Store::new();
    assert_eq!(read_record_entry(&store, COMMITMENT, &[1u8; 32]), Err(RecordError::NotFound));
    assert_eq!(get_dereferenced_address(&store, &[1u8; 32]), Err(RecordError::NotFound));
}

#[test]
fn create_base_entry_points_at_target() {
    let mut store = Store::new();
    let id = create_base_entry(&mut store, &[3u8; 32]);
    assert_eq!(id.len(), 32);
    assert_ne!(id, vec![3u8; 32]);
    assert_eq!(get_dereferenced_address(&store, &id), Ok(vec![3u8; 32]));
}

#[test]
fn update_expecting_stale_address_fails_conflict() {
    let mut store = Store::new();
    let (id, _) = create_record(&mut store, COMMITMENT, b"v1");
    let seen = get_dereferenced_address(&store, &id).unwrap();
    update_record(&mut store, COMMITMENT, &id, |_p: Vec<u8>| b"v2".to_vec()).unwrap();
    let r = update_record_expecting(&mut store, COMMITMENT, &id, &seen, |_p: Vec<u8>| b"v3".to_vec());
    assert_eq!(r, Err(RecordError::ConflictError));
    assert_eq!(read_record_entry(&store, COMMITMENT, &id), Ok(b"v2".to_vec()));
}

#[test]
fn update_expecting_current_address_applies() {
    let mut store = Store::new();
    let (id, _) = create_record(&mut store, COMMITMENT, b"v1");
    let seen = get_dereferenced_address(&store, &id).unwrap();
    let r = update_record_expecting(&mut store, COMMITMENT, &id, &seen, |_p: Vec<u8>| b"v2".to_vec());
    assert_eq!(r, Ok(b"v2".to_vec()));
    assert_eq!(read_record_entry(&store, COMMITMENT, &id), Ok(b"v2".to_vec()));
}

#[test]
fn long_type_name_round_trips() {
    let mut store = Store::new();
    let ty = vec![b'x'; 300];
    let (id, _) = create_record(&mut store, &ty, b"long");
    assert_eq!(read_record_entry(&store, &ty, &id), Ok(b"long".to_vec()));
    assert_eq!(read_record_entry(&store, &ty[..299], &id), Err(RecordError::DecodeError));
}
