use grid_product::address::{address, Namespace};
use grid_product::model::{
    Action, ProductCreateAction, ProductDeleteAction, ProductPayload, ProductType,
    ProductUpdateAction, PropertyData, PropertyValue,
};
use grid_product::validation::{
    validate_and_apply, validate_payload, validate_timestamp, LedgerState,
};

fn create_payload(product_id: &str, owner: &str, timestamp: u64) -> ProductPayload {
    ProductPayload {
        action: Action::ProductCreate(ProductCreateAction {
            product_id: product_id.to_string(),
            product_type: ProductType::GS1,
            owner: owner.to_string(),
            properties: vec![PropertyValue {
                name: "weight".to_string(),
                data: PropertyData::Number(500),
            }],
        }),
        timestamp,
    }
}

#[test]
fn test_validate_payload_valid() {
    // built directly, as a payload decoded from bytes would be, to reach the
    // validator without any builder in the way
    let payload = ProductPayload {
        action: Action::ProductCreate(ProductCreateAction {
            product_id: "my_product_id".to_string(),
            product_type: ProductType::GS1,
            owner: "my_owner".to_string(),
            properties: vec![],
        }),
        timestamp: 2,
    };
    assert!(validate_payload(&payload).is_ok(), "Payload should be valid");
}

#[test]
fn zero_timestamp_is_invalid_at_apply_time() {
    assert!(validate_timestamp(0).is_err());
    assert!(validate_timestamp(2).is_ok());
    // the payload builds, but validation rejects it
    let payload = create_payload("my_product_id", "my_owner", 0);
    assert!(validate_payload(&payload).is_err());
}

#[test]
fn empty_fields_are_invalid_at_apply_time() {
    assert!(validate_payload(&create_payload("", "my_owner", 2)).is_err());
    assert!(validate_payload(&create_payload("my_product_id", "", 2)).is_err());
}

#[test]
fn apply_create_writes_exactly_the_product_address() {
    let payload = create_payload("723382885088", "acme", 2);
    let addr = address(Namespace::Product, "723382885088");
    let mut state = LedgerState::new();
    let inputs = vec![addr.clone()];
    let outputs = vec![addr.clone()];
    validate_and_apply(payload, &mut state, &inputs, &outputs).expect("apply should succeed");
    let stored = state.get(&addr).expect("the product should be stored");
    assert_eq!(stored.product_id, "723382885088");
    assert_eq!(stored.owner, "acme");
    assert_eq!(state.entries.len(), 1);
    assert_eq!(state.entries[0].0, addr);
}

#[test]
fn apply_create_rejects_existing_product() {
    let addr = address(Namespace::Product, "723382885088");
    let inputs = vec![addr.clone()];
    let outputs = vec![addr.clone()];
    let mut state = LedgerState::new();
    validate_and_apply(create_payload("723382885088", "acme", 2), &mut state, &inputs, &outputs)
        .expect("first create should succeed");
    let r = validate_and_apply(
        create_payload("723382885088", "acme", 3),
        &mut state,
        &inputs,
        &outputs,
    );
    assert!(r.is_err());
}

#[test]
fn apply_rejects_undeclared_address() {
    // the product address is not among the declared outputs: the component
    // never attempts the write
    let payload = create_payload("723382885088", "acme", 2);
    let addr = address(Namespace::Product, "723382885088");
    let other = address(Namespace::Product, "another");
    let mut state = LedgerState::new();
    let r = validate_and_apply(payload, &mut state, &vec![addr.clone()], &vec![other]);
    assert!(r.is_err());
    assert!(state.get(&addr).is_none());
    assert_eq!(state.entries.len(), 0);
}

#[test]
fn apply_update_replaces_properties_and_keeps_owner() {
    let addr = address(Namespace::Product, "723382885088");
    let inputs = vec![addr.clone()];
    let outputs = vec![addr.clone()];
    let mut state = LedgerState::new();
    validate_and_apply(create_payload("723382885088", "acme", 2), &mut state, &inputs, &outputs)
        .expect("create should succeed");
    let update = ProductPayload {
        action: Action::ProductUpdate(ProductUpdateAction {
            product_id: "723382885088".to_string(),
            product_type: ProductType::GS1,
            properties: vec![PropertyValue {
                name: "weight".to_string(),
                data: PropertyData::Number(501),
            }],
        }),
        timestamp: 3,
    };
    validate_and_apply(update, &mut state, &inputs, &outputs).expect("update should succeed");
    let stored = state.get(&addr).expect("the product should remain stored");
    assert_eq!(stored.owner, "acme");
    assert_eq!(stored.properties.len(), 1);
    assert_eq!(stored.properties[0].data, PropertyData::Number(501));
}

#[test]
fn apply_update_requires_existing_product() {
    let addr = address(Namespace::Product, "nope");
    let update = ProductPayload {
        action: Action::ProductUpdate(ProductUpdateAction {
            product_id: "nope".to_string(),
            product_type: ProductType::GS1,
            properties: vec![],
        }),
        timestamp: 3,
    };
    let mut state = LedgerState::new();
    let r = validate_and_apply(update, &mut state, &vec![addr.clone()], &vec![addr]);
    assert!(r.is_err());
}

#[test]
fn apply_delete_removes_the_product() {
    let addr = address(Namespace::Product, "723382885088");
    let inputs = vec![addr.clone()];
    let outputs = vec![addr.clone()];
    let mut state = LedgerState::new();
    validate_and_apply(create_payload("723382885088", "acme", 2), &mut state, &inputs, &outputs)
        .expect("create should succeed");
    let delete = ProductPayload {
        action: Action::ProductDelete(ProductDeleteAction {
            product_id: "723382885088".to_string(),
            product_type: ProductType::GS1,
        }),
        timestamp: 4,
    };
    validate_and_apply(delete, &mut state, &inputs, &outputs).expect("delete should succeed");
    assert!(state.get(&addr).is_none());
    assert_eq!(state.entries.len(), 0);
}

#[test]
fn apply_delete_requires_existing_product() {
    let addr = address(Namespace::Product, "nope");
    let delete = ProductPayload {
        action: Action::ProductDelete(ProductDeleteAction {
            product_id: "nope".to_string(),
            product_type: ProductType::GS1,
        }),
        timestamp: 4,
    };
    let mut state = LedgerState::new();
    let r = validate_and_apply(delete, &mut state, &vec![addr.clone()], &vec![addr]);
    assert!(r.is_err());
}
