use grid_product::codec::{decode, encode};
use grid_product::model::{
    Action, LatLong, ProductCreateAction, ProductDeleteAction, ProductPayload, ProductType,
    ProductUpdateAction, PropertyData, PropertyValue,
};

#[test]
fn round_trip_create() {
    let p = ProductPayload {
        action: Action::ProductCreate(ProductCreateAction {
            product_id: "723382885088".to_string(),
            product_type: ProductType::GS1,
            owner: "acme".to_string(),
            properties: vec![
                PropertyValue {
                    name: "weight".to_string(),
                    data: PropertyData::Number(500),
                },
                PropertyValue {
                    name: "flag".to_string(),
                    data: PropertyData::Boolean(true),
                },
                PropertyValue {
                    name: "label".to_string(),
                    data: PropertyData::Str("crate of pears".to_string()),
                },
                PropertyValue {
                    name: "grade".to_string(),
                    data: PropertyData::Enum(3),
                },
                PropertyValue {
                    name: "blob".to_string(),
                    data: PropertyData::Bytes(vec![53, 48, 48]),
                },
                PropertyValue {
                    name: "origin".to_string(),
                    data: PropertyData::LatLong(LatLong {
                        latitude: 44_982_000,
                        longitude: -93_272_000,
                    }),
                },
                PropertyValue {
                    name: "nested".to_string(),
                    data: PropertyData::Struct(vec![PropertyValue {
                        name: "inner".to_string(),
                        data: PropertyData::Number(-7),
                    }]),
                },
            ],
        }),
        timestamp: 1_600_000_000,
    };
    let bytes = encode(&p).expect("payload should encode");
    let back = decode(&bytes).expect("encoding should decode");
    assert_eq!(back, p);
}

#[test]
fn round_trip_update_and_delete() {
    let upd = ProductPayload {
        action: Action::ProductUpdate(ProductUpdateAction {
            product_id: "9".to_string(),
            product_type: ProductType::GS1,
            properties: vec![PropertyValue {
                name: "weight".to_string(),
                data: PropertyData::Number(501),
            }],
        }),
        timestamp: 7,
    };
    assert_eq!(decode(&encode(&upd).unwrap()).unwrap(), upd);

    let del = ProductPayload {
        action: Action::ProductDelete(ProductDeleteAction {
            product_id: "9".to_string(),
            product_type: ProductType::GS1,
        }),
        timestamp: 7,
    };
    assert_eq!(decode(&encode(&del).unwrap()).unwrap(), del);
}

#[test]
fn round_trip_unicode_strings() {
    let p = ProductPayload {
        action: Action::ProductCreate(ProductCreateAction {
            product_id: "π-🛒-Ω".to_string(),
            product_type: ProductType::GS1,
            owner: "ünïcødé".to_string(),
            properties: vec![],
        }),
        timestamp: 1,
    };
    assert_eq!(decode(&encode(&p).unwrap()).unwrap(), p);
}

#[test]
fn exact_bytes_of_delete_payload() {
    // timestamp 1 little-endian, action tag 2 (delete), "A" as a one-char
    // string (count 1, then scalar 65), product standard tag 0
    let p = ProductPayload {
        action: Action::ProductDelete(ProductDeleteAction {
            product_id: "A".to_string(),
            product_type: ProductType::GS1,
        }),
        timestamp: 1,
    };
    let bytes = encode(&p).unwrap();
    assert_eq!(
        bytes,
        vec![1, 0, 0, 0, 0, 0, 0, 0, 2, 1, 0, 0, 0, 65, 0, 0, 0, 0]
    );
}

#[test]
fn decode_rejects_truncated_input() {
    let p = ProductPayload {
        action: Action::ProductDelete(ProductDeleteAction {
            product_id: "A".to_string(),
            product_type: ProductType::GS1,
        }),
        timestamp: 1,
    };
    let mut bytes = encode(&p).unwrap();
    bytes.pop();
    assert!(decode(&bytes).is_err());
}

#[test]
fn decode_rejects_trailing_bytes() {
    let p = ProductPayload {
        action: Action::ProductDelete(ProductDeleteAction {
            product_id: "A".to_string(),
            product_type: ProductType::GS1,
        }),
        timestamp: 1,
    };
    let mut bytes = encode(&p).unwrap();
    bytes.push(0);
    assert!(decode(&bytes).is_err());
}

#[test]
fn decode_rejects_unknown_action_tag() {
    // a valid delete encoding with the action tag overwritten
    let p = ProductPayload {
        action: Action::ProductDelete(ProductDeleteAction {
            product_id: "A".to_string(),
            product_type: ProductType::GS1,
        }),
        timestamp: 1,
    };
    let mut bytes = encode(&p).unwrap();
    bytes[8] = 9;
    assert!(decode(&bytes).is_err());
}

#[test]
fn decode_rejects_empty_input() {
    assert!(decode(&vec![]).is_err());
}
