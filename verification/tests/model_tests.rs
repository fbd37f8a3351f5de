use grid_product::errors::BuildError;
use grid_product::model::{
    build_lat_long, build_product_create_action, build_product_delete_action,
    build_product_update_action, build_property_value, DataType, GridProduct, GridPropertyValue,
    PropertyData, PropertyValueConfig,
};
use grid_product::model::ProductType;

#[test]
fn property_value_requires_matching_value() {
    // a Number property with no numeric value supplied fails to build
    let config = PropertyValueConfig::new("weight".to_string(), DataType::Number);
    assert!(build_property_value(config).is_err());
}

#[test]
fn property_value_rejects_mismatched_value() {
    // a Number property with a boolean value supplied fails to build
    let mut config = PropertyValueConfig::new("weight".to_string(), DataType::Number);
    config.boolean_value = Some(true);
    assert!(build_property_value(config).is_err());
}

#[test]
fn property_value_rejects_extra_value() {
    let mut config = PropertyValueConfig::new("weight".to_string(), DataType::Number);
    config.number_value = Some(500);
    config.string_value = Some("500".to_string());
    assert!(build_property_value(config).is_err());
}

#[test]
fn property_value_builds_when_exactly_matching() {
    let mut config = PropertyValueConfig::new("weight".to_string(), DataType::Number);
    config.number_value = Some(500);
    let pv = build_property_value(config).expect("should build");
    assert_eq!(pv.name, "weight");
    assert_eq!(pv.data, PropertyData::Number(500));
    assert_eq!(pv.data.data_type(), DataType::Number);
}

#[test]
fn lat_long_ranges_are_enforced() {
    assert!(build_lat_long(90_000_000, 180_000_000).is_ok());
    assert!(build_lat_long(-90_000_000, -180_000_000).is_ok());
    assert!(build_lat_long(90_000_001, 0).is_err());
    assert!(build_lat_long(0, -180_000_001).is_err());
}

#[test]
fn create_action_rejects_empty_product_id() {
    let r = build_product_create_action(
        "".to_string(),
        ProductType::GS1,
        "acme".to_string(),
        vec![],
    );
    assert!(matches!(r, Err(BuildError::MissingField(_))));
}

#[test]
fn create_action_rejects_empty_owner() {
    let r = build_product_create_action(
        "723382885088".to_string(),
        ProductType::GS1,
        "".to_string(),
        vec![],
    );
    assert!(matches!(r, Err(BuildError::MissingField(_))));
}

#[test]
fn create_action_builds_with_required_fields() {
    let a = build_product_create_action(
        "723382885088".to_string(),
        ProductType::GS1,
        "acme".to_string(),
        vec![],
    )
    .expect("should build");
    assert_eq!(a.product_id, "723382885088");
    assert_eq!(a.owner, "acme");
}

#[test]
fn update_and_delete_actions_require_product_id() {
    assert!(build_product_update_action("".to_string(), ProductType::GS1, vec![]).is_err());
    assert!(build_product_update_action("x".to_string(), ProductType::GS1, vec![]).is_ok());
    assert!(build_product_delete_action("".to_string(), ProductType::GS1).is_err());
    assert!(build_product_delete_action("x".to_string(), ProductType::GS1).is_ok());
}

#[test]
fn grid_product_read_model_holds_plain_fields() {
    let p = GridProduct {
        product_id: "723382885088".to_string(),
        product_type: "GS1".to_string(),
        owner: "acme".to_string(),
        properties: vec![GridPropertyValue {
            name: "weight".to_string(),
            data_type: "NUMBER".to_string(),
            bytes_value: None,
            boolean_value: None,
            number_value: Some(500),
            string_value: None,
            enum_value: None,
            struct_values: None,
            lat_long_value: None,
        }],
    };
    assert_eq!(p.properties.len(), 1);
    assert_eq!(p.properties[0].number_value, Some(500));
}
