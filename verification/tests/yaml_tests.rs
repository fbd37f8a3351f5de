use grid_product::model::{Action, DataType, LatLong, ProductType, PropertyData};
use grid_product::yaml::{
    i64_decimal_bytes, parse_i64, parse_product_definitions, parse_value_as_boolean,
    parse_value_as_bytes, parse_value_as_data_type, parse_value_as_i64, parse_value_as_lat_long,
    parse_value_as_product_type, parse_value_as_properties, parse_value_as_property_values,
    parse_value_as_sequence, parse_value_as_string, parse_value_as_u32, ActionKind, DataValue,
    ValueMap,
};

fn map(entries: Vec<(&str, DataValue)>) -> ValueMap {
    ValueMap {
        entries: entries
            .into_iter()
            .map(|(k, v)| (k.to_string(), v))
            .collect(),
    }
}

fn number_property(name: &str, value: i64) -> DataValue {
    DataValue::Dict(map(vec![
        ("name", DataValue::Text(name.to_string())),
        ("data_type", DataValue::Text("NUMBER".to_string())),
        ("number_value", DataValue::Int(value)),
    ]))
}

#[test]
fn string_lookup() {
    let m = map(vec![("owner", DataValue::Text("acme".to_string()))]);
    assert_eq!(parse_value_as_string(&m, "owner").unwrap(), Some("acme".to_string()));
    assert_eq!(parse_value_as_string(&m, "absent").unwrap(), None);
    let bad = map(vec![("owner", DataValue::Int(3))]);
    assert!(parse_value_as_string(&bad, "owner").is_err());
}

#[test]
fn boolean_lookup() {
    let m = map(vec![("flag", DataValue::Bool(true))]);
    assert_eq!(parse_value_as_boolean(&m, "flag").unwrap(), Some(true));
    assert_eq!(parse_value_as_boolean(&m, "absent").unwrap(), None);
    assert!(parse_value_as_boolean(&map(vec![("flag", DataValue::Int(1))]), "flag").is_err());
}

#[test]
fn i64_lookup() {
    let m = map(vec![("n", DataValue::Int(-42))]);
    assert_eq!(parse_value_as_i64(&m, "n").unwrap(), Some(-42));
    assert_eq!(parse_value_as_i64(&m, "absent").unwrap(), None);
    assert!(parse_value_as_i64(&map(vec![("n", DataValue::Real)]), "n").is_err());
    assert!(
        parse_value_as_i64(&map(vec![("n", DataValue::BigUint(u64::MAX))]), "n").is_err()
    );
}

#[test]
fn u32_lookup_enforces_range() {
    let m = map(vec![("n", DataValue::Int(7))]);
    assert_eq!(parse_value_as_u32(&m, "n").unwrap(), Some(7));
    assert!(parse_value_as_u32(&map(vec![("n", DataValue::Int(-1))]), "n").is_err());
    assert!(
        parse_value_as_u32(&map(vec![("n", DataValue::Int(0x1_0000_0000))]), "n").is_err()
    );
}

#[test]
fn bytes_value_is_the_decimal_text_of_the_number() {
    // a numeric byte value of 500 becomes the three ASCII bytes of "500",
    // not a one-byte numeric encoding; the wire format depends on this
    let m = map(vec![("b", DataValue::Int(500))]);
    assert_eq!(parse_value_as_bytes(&m, "b").unwrap(), Some(vec![b'5', b'0', b'0']));
    let neg = map(vec![("b", DataValue::Int(-7))]);
    assert_eq!(parse_value_as_bytes(&neg, "b").unwrap(), Some(vec![b'-', b'7']));
}

#[test]
fn decimal_bytes_are_exact() {
    assert_eq!(i64_decimal_bytes(0), b"0".to_vec());
    assert_eq!(i64_decimal_bytes(500), b"500".to_vec());
    assert_eq!(i64_decimal_bytes(-1), b"-1".to_vec());
    assert_eq!(
        i64_decimal_bytes(i64::MAX),
        b"9223372036854775807".to_vec()
    );
    assert_eq!(
        i64_decimal_bytes(i64::MIN),
        b"-9223372036854775808".to_vec()
    );
}

#[test]
fn parse_i64_accepts_signed_decimals() {
    assert_eq!(parse_i64("0"), Some(0));
    assert_eq!(parse_i64("-93272000"), Some(-93_272_000));
    assert_eq!(parse_i64("+44982000"), Some(44_982_000));
    assert_eq!(parse_i64("9223372036854775807"), Some(i64::MAX));
    assert_eq!(parse_i64("-9223372036854775808"), Some(i64::MIN));
    assert_eq!(parse_i64("9223372036854775808"), None);
    assert_eq!(parse_i64("-9223372036854775809"), None);
    assert_eq!(parse_i64(""), None);
    assert_eq!(parse_i64("-"), None);
    assert_eq!(parse_i64("12a"), None);
    assert_eq!(parse_i64(" 1"), None);
}

#[test]
fn lat_long_parses_two_comma_separated_integers() {
    let m = map(vec![("pos", DataValue::Text("44982000,-93272000".to_string()))]);
    assert_eq!(
        parse_value_as_lat_long(&m, "pos").unwrap(),
        Some(LatLong { latitude: 44_982_000, longitude: -93_272_000 })
    );
    // extra fields beyond the second are ignored
    let extra = map(vec![("pos", DataValue::Text("1,2,3".to_string()))]);
    assert_eq!(
        parse_value_as_lat_long(&extra, "pos").unwrap(),
        Some(LatLong { latitude: 1, longitude: 2 })
    );
    // no comma, a non-integer field, and out-of-range degrees are rejected
    assert!(parse_value_as_lat_long(
        &map(vec![("pos", DataValue::Text("12".to_string()))]),
        "pos"
    )
    .is_err());
    assert!(parse_value_as_lat_long(
        &map(vec![("pos", DataValue::Text("a,2".to_string()))]),
        "pos"
    )
    .is_err());
    assert!(parse_value_as_lat_long(
        &map(vec![("pos", DataValue::Text("90000001,0".to_string()))]),
        "pos"
    )
    .is_err());
}

#[test]
fn data_type_names_are_case_insensitive() {
    assert_eq!(parse_value_as_data_type("number").unwrap(), DataType::Number);
    assert_eq!(parse_value_as_data_type("NUMBER").unwrap(), DataType::Number);
    assert_eq!(parse_value_as_data_type("String").unwrap(), DataType::Str);
    assert_eq!(parse_value_as_data_type("lat_long").unwrap(), DataType::LatLong);
    assert_eq!(parse_value_as_data_type("struct").unwrap(), DataType::Struct);
    assert!(parse_value_as_data_type("float").is_err());
}

#[test]
fn product_type_names_are_case_insensitive() {
    assert_eq!(parse_value_as_product_type("GS1").unwrap(), ProductType::GS1);
    assert_eq!(parse_value_as_product_type("gs1").unwrap(), ProductType::GS1);
    assert!(parse_value_as_product_type("isbn").is_err());
}

#[test]
fn property_value_parses_by_declared_type() {
    let m = map(vec![
        ("name", DataValue::Text("weight".to_string())),
        ("data_type", DataValue::Text("NUMBER".to_string())),
        ("number_value", DataValue::Int(500)),
    ]);
    let pv = parse_value_as_property_values(&m).expect("should parse");
    assert_eq!(pv.name, "weight");
    assert_eq!(pv.data, PropertyData::Number(500));
}

#[test]
fn property_value_missing_matching_field_fails() {
    let m = map(vec![
        ("name", DataValue::Text("weight".to_string())),
        ("data_type", DataValue::Text("NUMBER".to_string())),
        ("string_value", DataValue::Text("500".to_string())),
    ]);
    assert!(parse_value_as_property_values(&m).is_err());
}

#[test]
fn nested_struct_properties_parse_recursively() {
    let inner = number_property("inner", 7);
    let m = map(vec![
        ("name", DataValue::Text("outer".to_string())),
        ("data_type", DataValue::Text("STRUCT".to_string())),
        ("struct_values", DataValue::List(vec![inner])),
    ]);
    let pv = parse_value_as_property_values(&m).expect("should parse");
    match pv.data {
        PropertyData::Struct(children) => {
            assert_eq!(children.len(), 1);
            assert_eq!(children[0].name, "inner");
            assert_eq!(children[0].data, PropertyData::Number(7));
        },
        other => panic!("expected a struct value, got {:?}", other),
    }
}

#[test]
fn properties_list_rejects_non_mapping_elements() {
    let r = parse_value_as_properties(&vec![DataValue::Int(1)]);
    assert!(r.is_err());
}

#[test]
fn product_documents_parse_to_payloads() {
    let doc = map(vec![
        ("product_id", DataValue::Text("723382885088".to_string())),
        ("product_type", DataValue::Text("GS1".to_string())),
        ("owner", DataValue::Text("acme".to_string())),
        ("properties", DataValue::List(vec![number_property("weight", 500)])),
    ]);
    let payloads = parse_product_definitions(&vec![doc], ActionKind::Create, 2)
        .expect("the document should parse");
    assert_eq!(payloads.len(), 1);
    assert_eq!(payloads[0].timestamp, 2);
    match &payloads[0].action {
        Action::ProductCreate(a) => {
            assert_eq!(a.product_id, "723382885088");
            assert_eq!(a.owner, "acme");
            assert_eq!(a.properties.len(), 1);
        },
        other => panic!("expected a create action, got {:?}", other),
    }
}

#[test]
fn product_document_with_empty_owner_fails() {
    let doc = map(vec![
        ("product_id", DataValue::Text("723382885088".to_string())),
        ("product_type", DataValue::Text("GS1".to_string())),
        ("owner", DataValue::Text("".to_string())),
        ("properties", DataValue::List(vec![])),
    ]);
    assert!(parse_product_definitions(&vec![doc], ActionKind::Create, 2).is_err());
}

#[test]
fn product_document_missing_fields_fails() {
    let doc = map(vec![("product_id", DataValue::Text("1".to_string()))]);
    assert!(parse_product_definitions(&vec![doc], ActionKind::Create, 2).is_err());
}

#[test]
fn delete_documents_need_only_id_and_type() {
    let doc = map(vec![
        ("product_id", DataValue::Text("723382885088".to_string())),
        ("product_type", DataValue::Text("GS1".to_string())),
    ]);
    let payloads = parse_product_definitions(&vec![doc], ActionKind::Delete, 9)
        .expect("the document should parse");
    assert!(matches!(payloads[0].action, Action::ProductDelete(_)));
}

#[test]
fn sequence_lookup_borrows_the_list() {
    let m = map(vec![("properties", DataValue::List(vec![DataValue::Int(1)]))]);
    let v = parse_value_as_sequence(&m, "properties").unwrap().unwrap();
    assert_eq!(v.len(), 1);
    assert_eq!(parse_value_as_sequence(&m, "absent").unwrap(), None);
    assert!(parse_value_as_sequence(&map(vec![("properties", DataValue::Int(1))]), "properties")
        .is_err());
}

#[test]
fn zero_timestamp_builds_but_fails_validation() {
    // a payload with an unset timestamp builds without complaint; only the
    // ledger-side validator rejects it
    let doc = map(vec![
        ("product_id", DataValue::Text("723382885088".to_string())),
        ("product_type", DataValue::Text("GS1".to_string())),
        ("owner", DataValue::Text("acme".to_string())),
        ("properties", DataValue::List(vec![])),
    ]);
    let payloads = parse_product_definitions(&vec![doc], ActionKind::Create, 0)
        .expect("the document should still parse");
    assert!(grid_product::validation::validate_payload(&payloads[0]).is_err());
}
