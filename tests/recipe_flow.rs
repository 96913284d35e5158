use semantic_records::recipe_flow::{CreateRequest, EntryData, MaybeUndefined, QuantityValue, UpdateRequest};

fn qty(v: f64, unit: &str) -> QuantityValue {
    QuantityValue { has_numerical_value_bits: v.to_bits(), has_unit: Some(unit.to_string()) }
}

fn flow() -> EntryData {
    let req = CreateRequest {
        action: "produce".to_string(),
        note: Some("bread".to_string()),
        resource_quantity: Some(qty(2.5, "kg")),
        effort_quantity: None,
        resource_conforms_to: Some(vec![1u8; 32]),
        stage: None,
        recipe_input_of: None,
        recipe_output_of: Some(vec![2u8; 32]),
    };
    EntryData::from_request(&req, vec![9u8; 32])
}

#[test]
fn recipe_flow_from_request_sets_state_from_note() {
    let e = flow();
    assert_eq!(e.action, "produce");
    assert_eq!(e.note.as_deref(), Some("bread"));
    assert_eq!(e.state.as_deref(), Some("bread"));
    assert_eq!(f64::from_bits(e.resource_quantity.as_ref().unwrap().has_numerical_value_bits), 2.5);
    assert_eq!(e.recipe_output_of, Some(vec![2u8; 32]));
    assert_eq!(e._nonce, vec![9u8; 32]);
    assert!(e.validate_recipe_flow().is_ok());
}

#[test]
fn recipe_flow_update_keeps_clears_and_sets() {
    let e = flow();
    let u = UpdateRequest {
        action: None,
        note: MaybeUndefined::Value("rye bread".to_string()),
        resource_quantity: MaybeUndefined::Undefined,
        effort_quantity: MaybeUndefined::Value(qty(1.0, "h")),
        resource_conforms_to: MaybeUndefined::Null,
        stage: MaybeUndefined::Undefined,
        recipe_input_of: MaybeUndefined::Value(vec![3u8; 32]),
        recipe_output_of: MaybeUndefined::Undefined,
    };
    let n = e.update_with(&u);
    assert_eq!(n.action, "produce");
    assert_eq!(n.note.as_deref(), Some("rye bread"));
    assert_eq!(n.state.as_deref(), Some("rye bread"));
    assert_eq!(f64::from_bits(n.resource_quantity.as_ref().unwrap().has_numerical_value_bits), 2.5);
    assert_eq!(n.effort_quantity.as_ref().unwrap().has_unit.as_deref(), Some("h"));
    assert_eq!(n.resource_conforms_to, None);
    assert_eq!(n.stage, None);
    assert_eq!(n.recipe_input_of, Some(vec![3u8; 32]));
    assert_eq!(n.recipe_output_of, Some(vec![2u8; 32]));
    assert_eq!(n._nonce, vec![9u8; 32]);
}

#[test]
fn recipe_flow_update_with_new_action() {
    let e = flow();
    let u = UpdateRequest {
        action: Some("consume".to_string()),
        note: MaybeUndefined::Null,
        resource_quantity: MaybeUndefined::Null,
        effort_quantity: MaybeUndefined::Undefined,
        resource_conforms_to: MaybeUndefined::Undefined,
        stage: MaybeUndefined::Undefined,
        recipe_input_of: MaybeUndefined::Undefined,
        recipe_output_of: MaybeUndefined::Null,
    };
    let n = e.update_with(&u);
    assert_eq!(n.action, "consume");
    assert_eq!(n.note, None);
    assert_eq!(n.state, None);
    assert!(n.resource_quantity.is_none());
    assert_eq!(n.resource_conforms_to, Some(vec![1u8; 32]));
    assert_eq!(n.recipe_output_of, None);
}
