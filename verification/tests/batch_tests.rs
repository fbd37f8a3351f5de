use grid_product::address::{address, Namespace};
use grid_product::batch::{build_batches_from_payloads, product_batch_builder};
use grid_product::codec::{decode, encode};
use grid_product::model::{
    Action, ProductCreateAction, ProductPayload, ProductType, PropertyData, PropertyValue,
};
use grid_product::transaction::build_transaction;
use grid_product::validation::{validate_and_apply, validate_payload, LedgerState};

fn signer_key_one() -> Vec<u8> {
    // the secret key with value one; its public key is the curve's generator
    let mut k = vec![0u8; 31];
    k.push(1);
    k
}

fn payload(product_id: &str, timestamp: u64) -> ProductPayload {
    ProductPayload {
        action: Action::ProductCreate(ProductCreateAction {
            product_id: product_id.to_string(),
            product_type: ProductType::GS1,
            owner: "acme".to_string(),
            properties: vec![PropertyValue {
                name: "weight".to_string(),
                data: PropertyData::Number(500),
            }],
        }),
        timestamp,
    }
}

#[test]
fn batch_preserves_transaction_order() {
    let p1 = payload("100000000001", 2);
    let p2 = payload("100000000002", 2);
    let p3 = payload("100000000003", 2);
    let expected = vec![
        encode(&p1).unwrap(),
        encode(&p2).unwrap(),
        encode(&p3).unwrap(),
    ];
    let bl = build_batches_from_payloads(vec![p1, p2, p3], signer_key_one())
        .expect("the batch should build");
    assert_eq!(bl.batches.len(), 1);
    let batch = &bl.batches[0];
    assert_eq!(batch.transactions.len(), 3);
    for i in 0..3 {
        assert_eq!(batch.transactions[i].payload_bytes, expected[i]);
    }
}

#[test]
fn builder_accumulates_in_call_order() {
    let mut builder = product_batch_builder(signer_key_one());
    let inputs = vec![Namespace::Pike, Namespace::Schema];
    let outputs = vec![Namespace::Product];
    builder
        .add_transaction(&payload("100000000001", 2), &inputs, &outputs)
        .expect("first add should succeed");
    builder
        .add_transaction(&payload("100000000002", 2), &inputs, &outputs)
        .expect("second add should succeed");
    let bl = builder.create_batch_list().expect("the batch should build");
    let batch = &bl.batches[0];
    assert_eq!(batch.transactions.len(), 2);
    assert_eq!(
        decode(&batch.transactions[0].payload_bytes).unwrap(),
        payload("100000000001", 2)
    );
    assert_eq!(
        decode(&batch.transactions[1].payload_bytes).unwrap(),
        payload("100000000002", 2)
    );
}

#[test]
fn empty_batch_is_rejected() {
    let builder = product_batch_builder(signer_key_one());
    assert!(builder.create_batch_list().is_err());
}

#[test]
fn invalid_key_is_rejected() {
    // a key of the wrong length can never sign
    let r = build_batches_from_payloads(vec![payload("1", 2)], vec![1, 2, 3]);
    assert!(r.is_err());
    // the all-zero key is not a valid secret key
    let r = build_batches_from_payloads(vec![payload("1", 2)], vec![0u8; 32]);
    assert!(r.is_err());
}

#[test]
fn signer_public_key_is_derived_from_the_secret_key() {
    let txn = build_transaction(
        &payload("100000000001", 2),
        &signer_key_one(),
        &vec![Namespace::Pike, Namespace::Schema],
        &vec![Namespace::Product],
    )
    .expect("the transaction should build");
    let hex: String = txn
        .signer_public_key
        .iter()
        .map(|b| format!("{:02x}", b))
        .collect();
    assert_eq!(
        hex,
        "0279be667ef9dcbbac55a06295ce870b07029bfcdb2dce28d959f2815b16f81798"
    );
}

#[test]
fn signing_is_deterministic() {
    let a = build_transaction(
        &payload("100000000001", 2),
        &signer_key_one(),
        &vec![Namespace::Pike, Namespace::Schema],
        &vec![Namespace::Product],
    )
    .unwrap();
    let b = build_transaction(
        &payload("100000000001", 2),
        &signer_key_one(),
        &vec![Namespace::Pike, Namespace::Schema],
        &vec![Namespace::Product],
    )
    .unwrap();
    assert_eq!(a.signature, b.signature);
    assert_eq!(a.signature.len(), 64);
    assert_eq!(a.payload_hash, b.payload_hash);
    assert_eq!(a.payload_hash.len(), 128);
}

#[test]
fn transaction_declares_namespace_scoped_addresses() {
    let txn = build_transaction(
        &payload("723382885088", 2),
        &signer_key_one(),
        &vec![Namespace::Pike, Namespace::Schema],
        &vec![Namespace::Product],
    )
    .expect("the transaction should build");
    assert_eq!(txn.input_addresses.len(), 2);
    assert_eq!(txn.output_addresses.len(), 1);
    assert_eq!(txn.input_addresses[0], address(Namespace::Pike, "723382885088"));
    assert_eq!(txn.input_addresses[1], address(Namespace::Schema, "723382885088"));
    assert_eq!(txn.output_addresses[0], address(Namespace::Product, "723382885088"));
    // a transaction whose outputs name only the schema namespace never
    // receives a product-prefixed output address
    let scoped = build_transaction(
        &payload("723382885088", 2),
        &signer_key_one(),
        &vec![Namespace::Pike],
        &vec![Namespace::Schema],
    )
    .unwrap();
    for a in &scoped.output_addresses {
        assert!(!a.starts_with("621dee02"));
    }
}

#[test]
fn end_to_end_create_scenario() {
    // client side: one create payload becomes one transaction with one
    // product-namespace output address derived from the identifier
    let bl = build_batches_from_payloads(vec![payload("723382885088", 2)], signer_key_one())
        .expect("the batch should build");
    let txn = &bl.batches[0].transactions[0];
    let product_addr = address(Namespace::Product, "723382885088");
    assert_eq!(txn.output_addresses, vec![product_addr.clone()]);

    // ledger side: the payload decodes, validates, and proposes a state
    // write to exactly that address
    let decoded = decode(&txn.payload_bytes).expect("the payload should decode");
    assert!(validate_payload(&decoded).is_ok());
    let mut state = LedgerState::new();
    validate_and_apply(
        decoded,
        &mut state,
        &txn.input_addresses.iter().cloned().chain([product_addr.clone()]).collect(),
        &txn.output_addresses,
    )
    .expect("apply should succeed");
    assert_eq!(state.entries.len(), 1);
    assert_eq!(state.entries[0].0, product_addr);
}

#[test]
fn negative_scenario_empty_owner_builds_no_transaction() {
    // same input but an empty owner: the build error surfaces to the caller
    // before anything is signed; no transaction is produced
    let r = grid_product::model::build_product_create_action(
        "723382885088".to_string(),
        ProductType::GS1,
        "".to_string(),
        vec![],
    );
    assert!(r.is_err());
}
