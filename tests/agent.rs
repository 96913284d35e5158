use semantic_records::agent::{CreateRequest, EntryData, UpdateRequest};
use semantic_records::indexes::{create_index, resolve_index};
use semantic_records::error::RecordError;
use semantic_records::identity::ensure_identity;
use semantic_records::store::Store;

fn stored() -> EntryData {
    let req = CreateRequest {
        name: "Alice".to_string(),
        agent_type: "Person".to_string(),
        image: Some("https://example.org/a.png".to_string()),
        classified_as: Some(vec!["farmer".to_string()]),
        note: None,
    };
    EntryData::from_request(&req, vec![7u8; 32])
}

#[test]
fn from_request_copies_fields_and_nonce() {
    let e = stored();
    assert_eq!(e.name, "Alice");
    assert_eq!(e.agent_type, "Person");
    assert_eq!(e.image.as_deref(), Some("https://example.org/a.png"));
    assert_eq!(e.classified_as, Some(vec!["farmer".to_string()]));
    assert_eq!(e.note, None);
    assert_eq!(e._nonce, vec![7u8; 32]);
}

#[test]
fn update_with_replaces_given_fields_only() {
    let e = stored();
    let u = UpdateRequest {
        name: Some("Alicia".to_string()),
        image: None,
        classified_as: Some(vec!["baker".to_string(), "farmer".to_string()]),
        note: Some("moved".to_string()),
    };
    let n = e.update_with(&u);
    assert_eq!(n.name, "Alicia");
    assert_eq!(n.agent_type, "Person");
    assert_eq!(n.image.as_deref(), Some("https://example.org/a.png"));
    assert_eq!(n.classified_as, Some(vec!["baker".to_string(), "farmer".to_string()]));
    assert_eq!(n.note.as_deref(), Some("moved"));
    assert_eq!(n._nonce, vec![7u8; 32]);
}

#[test]
fn update_with_nothing_keeps_everything() {
    let e = stored();
    let u = UpdateRequest { name: None, image: None, classified_as: None, note: None };
    let n = e.update_with(&u);
    assert_eq!(n.name, e.name);
    assert_eq!(n.image, e.image);
    assert_eq!(n.classified_as, e.classified_as);
    assert_eq!(n.note, e.note);
}

#[test]
fn resolve_index_resolves_each_target_on_its_own() {
    let mut store = Store::new();
    let base = vec![9u8; 32];
    for d in [1u8, 2] {
        ensure_identity(&mut store, b"agent", &base);
        ensure_identity(&mut store, b"event", &vec![d; 32]);
        create_index(&mut store, b"agent", &base, b"event", &vec![d; 32], b"has", b"of").unwrap();
    }
    let broken = semantic_records::identity::calculate_identity_address(b"event", &vec![1u8; 32]).unwrap();
    store.remove(&broken);
    let r = resolve_index(&store, b"agent", &base, b"has", b"none").unwrap();
    assert_eq!(r, vec![Err(RecordError::NotFound), Ok(vec![2u8; 32])]);
}
