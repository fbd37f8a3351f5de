//! Domain data model: tagged product actions, recursively typed property
//! values, and the payload that wraps one action with a timestamp.
//!
//! Values are built through one-shot configuration structs validated in a
//! single pass: an invalid combination is rejected at construction and no
//! partially valid value ever exists.

use vstd::prelude::*;

use crate::errors::BuildError;

verus! {

/// The registry of product identifier standards.
#[derive(Debug, Clone, Copy, PartialEq, Eq, Structural)]
pub enum ProductType {
    GS1,
}

/// The type tag of a property value; `Struct` values nest recursively.
#[derive(Debug, Clone, Copy, PartialEq, Eq, Structural)]
pub enum DataType {
    Bytes,
    Boolean,
    Number,
    Str,
    Enum,
    Struct,
    LatLong,
}

/// A geographic coordinate in millionths of a degree.
#[derive(Debug, Clone, Copy, PartialEq, Eq, Structural)]
pub struct LatLong {
    pub latitude: i64,
    pub longitude: i64,
}

/// Whether a coordinate lies within the valid latitude/longitude ranges.
pub open spec fn lat_long_in_range(latitude: i64, longitude: i64) -> bool {
    &&& -90_000_000 <= latitude <= 90_000_000
    &&& -180_000_000 <= longitude <= 180_000_000
}

/// Builds a coordinate, rejecting out-of-range degrees.
pub fn build_lat_long(latitude: i64, longitude: i64) -> (r: Result<LatLong, BuildError>)
    ensures
        r is Ok <==> lat_long_in_range(latitude, longitude),
        r matches Ok(ll) ==> ll == (LatLong { latitude, longitude }),
{
    if latitude < -90_000_000 || latitude > 90_000_000 {
        Err(BuildError::InvalidField(String::from_str("latitude")))
    } else if longitude < -180_000_000 || longitude > 180_000_000 {
        Err(BuildError::InvalidField(String::from_str("longitude")))
    } else {
        Ok(LatLong { latitude, longitude })
    }
}

/// The payload of one property value. Exactly one shape is populated, so the
/// "one value field, matching the declared type" invariant holds structurally.
#[derive(Debug, PartialEq, Eq)]
pub enum PropertyData {
    Bytes(Vec<u8>),
    Boolean(bool),
    Number(i64),
    Str(String),
    Enum(u32),
    Struct(Vec<PropertyValue>),
    LatLong(LatLong),
}

/// A named, typed, optionally recursive attribute of a tracked entity.
#[derive(Debug, PartialEq, Eq)]
pub struct PropertyValue {
    pub name: String,
    pub data: PropertyData,
}

impl PropertyData {
    /// The type tag that describes this value's shape.
    pub open spec fn spec_data_type(&self) -> DataType {
        match self {
            PropertyData::Bytes(_) => DataType::Bytes,
            PropertyData::Boolean(_) => DataType::Boolean,
            PropertyData::Number(_) => DataType::Number,
            PropertyData::Str(_) => DataType::Str,
            PropertyData::Enum(_) => DataType::Enum,
            PropertyData::Struct(_) => DataType::Struct,
            PropertyData::LatLong(_) => DataType::LatLong,
        }
    }

    /// The type tag that describes this value's shape.
    #[verifier::when_used_as_spec(spec_data_type)]
    pub fn data_type(&self) -> (r: DataType)
        ensures
            r == self.spec_data_type(),
    {
        match self {
            PropertyData::Bytes(_) => DataType::Bytes,
            PropertyData::Boolean(_) => DataType::Boolean,
            PropertyData::Number(_) => DataType::Number,
            PropertyData::Str(_) => DataType::Str,
            PropertyData::Enum(_) => DataType::Enum,
            PropertyData::Struct(_) => DataType::Struct,
            PropertyData::LatLong(_) => DataType::LatLong,
        }
    }
}

/// One-shot configuration for building a property value: a name, a declared
/// type, and at most one populated value field.
#[derive(Debug, PartialEq, Eq)]
pub struct PropertyValueConfig {
    pub name: String,
    pub data_type: DataType,
    pub bytes_value: Option<Vec<u8>>,
    pub boolean_value: Option<bool>,
    pub number_value: Option<i64>,
    pub string_value: Option<String>,
    pub enum_value: Option<u32>,
    pub struct_values: Option<Vec<PropertyValue>>,
    pub lat_long_value: Option<LatLong>,
}

impl PropertyValueConfig {
    /// A configuration with the given name and type and no value populated.
    pub fn new(name: String, data_type: DataType) -> (r: PropertyValueConfig)
        ensures
            r.name == name,
            r.data_type == data_type,
            r.bytes_value is None,
            r.boolean_value is None,
            r.number_value is None,
            r.string_value is None,
            r.enum_value is None,
            r.struct_values is None,
            r.lat_long_value is None,
    {
        PropertyValueConfig {
            name,
            data_type,
            bytes_value: None,
            boolean_value: None,
            number_value: None,
            string_value: None,
            enum_value: None,
            struct_values: None,
            lat_long_value: None,
        }
    }

    /// Exactly the value field named by `data_type` is populated and every
    /// other value field is absent.
    pub open spec fn well_formed(&self) -> bool {
        &&& self.bytes_value is Some <==> self.data_type == DataType::Bytes
        &&& self.boolean_value is Some <==> self.data_type == DataType::Boolean
        &&& self.number_value is Some <==> self.data_type == DataType::Number
        &&& self.string_value is Some <==> self.data_type == DataType::Str
        &&& self.enum_value is Some <==> self.data_type == DataType::Enum
        &&& self.struct_values is Some <==> self.data_type == DataType::Struct
        &&& self.lat_long_value is Some <==> self.data_type == DataType::LatLong
    }

    /// The property value a well-formed configuration describes.
    pub open spec fn built(&self) -> PropertyValue {
        PropertyValue {
            name: self.name,
            data: match self.data_type {
                DataType::Bytes => PropertyData::Bytes(self.bytes_value->0),
                DataType::Boolean => PropertyData::Boolean(self.boolean_value->0),
                DataType::Number => PropertyData::Number(self.number_value->0),
                DataType::Str => PropertyData::Str(self.string_value->0),
                DataType::Enum => PropertyData::Enum(self.enum_value->0),
                DataType::Struct => PropertyData::Struct(self.struct_values->0),
                DataType::LatLong => PropertyData::LatLong(self.lat_long_value->0),
            },
        }
    }
}

/// Builds a property value from a one-shot configuration. Construction fails
/// unless exactly the value field matching the declared type is supplied:
/// a missing value and a value of the wrong type are both rejected.
pub fn build_property_value(config: PropertyValueConfig) -> (r: Result<
    PropertyValue,
    BuildError,
>)
    ensures
        r is Ok <==> config.well_formed(),
        r matches Ok(pv) ==> pv == config.built(),
{
    let PropertyValueConfig {
        name,
        data_type,
        bytes_value,
        boolean_value,
        number_value,
        string_value,
        enum_value,
        struct_values,
        lat_long_value,
    } = config;
    let populated: u32 = count_opt(bytes_value.is_some()) + count_opt(boolean_value.is_some())
        + count_opt(number_value.is_some()) + count_opt(string_value.is_some()) + count_opt(
        enum_value.is_some(),
    ) + count_opt(struct_values.is_some()) + count_opt(lat_long_value.is_some());
    if populated > 1 {
        return Err(BuildError::InvalidField(String::from_str("value")));
    }
    let data = match data_type {
        DataType::Bytes => match bytes_value {
            Some(v) => PropertyData::Bytes(v),
            None => {
                return Err(BuildError::MissingField(String::from_str("bytes_value")));
            },
        },
        DataType::Boolean => match boolean_value {
            Some(v) => PropertyData::Boolean(v),
            None => {
                return Err(BuildError::MissingField(String::from_str("boolean_value")));
            },
        },
        DataType::Number => match number_value {
            Some(v) => PropertyData::Number(v),
            None => {
                return Err(BuildError::MissingField(String::from_str("number_value")));
            },
        },
        DataType::Str => match string_value {
            Some(v) => PropertyData::Str(v),
            None => {
                return Err(BuildError::MissingField(String::from_str("string_value")));
            },
        },
        DataType::Enum => match enum_value {
            Some(v) => PropertyData::Enum(v),
            None => {
                return Err(BuildError::MissingField(String::from_str("enum_value")));
            },
        },
        DataType::Struct => match struct_values {
            Some(v) => PropertyData::Struct(v),
            None => {
                return Err(BuildError::MissingField(String::from_str("struct_values")));
            },
        },
        DataType::LatLong => match lat_long_value {
            Some(v) => PropertyData::LatLong(v),
            None => {
                return Err(BuildError::MissingField(String::from_str("lat_long_value")));
            },
        },
    };
    Ok(PropertyValue { name, data })
}

/// One as a count when a value field is populated, zero when it is absent.
fn count_opt(populated: bool) -> (r: u32)
    ensures
        r == if populated {
            1u32
        } else {
            0u32
        },
{
    if populated {
        1
    } else {
        0
    }
}

/// Registers a new product under an owning organization.
#[derive(Debug, PartialEq, Eq)]
pub struct ProductCreateAction {
    pub product_id: String,
    pub product_type: ProductType,
    pub owner: String,
    pub properties: Vec<PropertyValue>,
}

/// Replaces the properties of an existing product.
#[derive(Debug, PartialEq, Eq)]
pub struct ProductUpdateAction {
    pub product_id: String,
    pub product_type: ProductType,
    pub properties: Vec<PropertyValue>,
}

/// Removes an existing product.
#[derive(Debug, PartialEq, Eq)]
pub struct ProductDeleteAction {
    pub product_id: String,
    pub product_type: ProductType,
}

/// A tagged domain action.
#[derive(Debug, PartialEq, Eq)]
pub enum Action {
    ProductCreate(ProductCreateAction),
    ProductUpdate(ProductUpdateAction),
    ProductDelete(ProductDeleteAction),
}

/// One domain action plus the client's timestamp; the unit that is encoded,
/// signed and carried by a transaction.
#[derive(Debug, PartialEq, Eq)]
pub struct ProductPayload {
    pub action: Action,
    pub timestamp: u64,
}

/// Builds a create action. Construction fails with `BuildError` when the
/// product identifier or the owner is the empty string.
pub fn build_product_create_action(
    product_id: String,
    product_type: ProductType,
    owner: String,
    properties: Vec<PropertyValue>,
) -> (r: Result<ProductCreateAction, BuildError>)
    ensures
        r is Ok <==> product_id@.len() > 0 && owner@.len() > 0,
        r matches Ok(a) ==> a == (ProductCreateAction { product_id, product_type, owner, properties }),
{
    if product_id.as_str().is_empty() {
        Err(BuildError::MissingField(String::from_str("product_id")))
    } else if owner.as_str().is_empty() {
        Err(BuildError::MissingField(String::from_str("owner")))
    } else {
        Ok(ProductCreateAction { product_id, product_type, owner, properties })
    }
}

/// Builds an update action. Construction fails with `BuildError` when the
/// product identifier is the empty string.
pub fn build_product_update_action(
    product_id: String,
    product_type: ProductType,
    properties: Vec<PropertyValue>,
) -> (r: Result<ProductUpdateAction, BuildError>)
    ensures
        r is Ok <==> product_id@.len() > 0,
        r matches Ok(a) ==> a == (ProductUpdateAction { product_id, product_type, properties }),
{
    if product_id.as_str().is_empty() {
        Err(BuildError::MissingField(String::from_str("product_id")))
    } else {
        Ok(ProductUpdateAction { product_id, product_type, properties })
    }
}

/// Builds a delete action. Construction fails with `BuildError` when the
/// product identifier is the empty string.
pub fn build_product_delete_action(product_id: String, product_type: ProductType) -> (r: Result<
    ProductDeleteAction,
    BuildError,
>)
    ensures
        r is Ok <==> product_id@.len() > 0,
        r matches Ok(a) ==> a == (ProductDeleteAction { product_id, product_type }),
{
    if product_id.as_str().is_empty() {
        Err(BuildError::MissingField(String::from_str("product_id")))
    } else {
        Ok(ProductDeleteAction { product_id, product_type })
    }
}

impl Action {
    /// The product identifier every action kind carries.
    pub open spec fn spec_product_id(&self) -> Seq<char> {
        match self {
            Action::ProductCreate(a) => a.product_id@,
            Action::ProductUpdate(a) => a.product_id@,
            Action::ProductDelete(a) => a.product_id@,
        }
    }

    /// The product identifier every action kind carries.
    pub fn product_id(&self) -> (r: &String)
        ensures
            r@ == self.spec_product_id(),
    {
        match self {
            Action::ProductCreate(a) => &a.product_id,
            Action::ProductUpdate(a) => &a.product_id,
            Action::ProductDelete(a) => &a.product_id,
        }
    }
}

/// The mathematical model of a property value's payload, over sequences
/// instead of heap types. Contracts are stated against this model.
pub enum PropertyDataModel {
    Bytes(Seq<u8>),
    Boolean(bool),
    Number(i64),
    Str(Seq<char>),
    Enum(u32),
    Struct(Seq<PropertyValueModel>),
    LatLong(LatLong),
}

/// The mathematical model of a property value.
pub struct PropertyValueModel {
    pub name: Seq<char>,
    pub data: PropertyDataModel,
}

/// The mathematical model of a create action.
pub struct ProductCreateActionModel {
    pub product_id: Seq<char>,
    pub product_type: ProductType,
    pub owner: Seq<char>,
    pub properties: Seq<PropertyValueModel>,
}

/// The mathematical model of an update action.
pub struct ProductUpdateActionModel {
    pub product_id: Seq<char>,
    pub product_type: ProductType,
    pub properties: Seq<PropertyValueModel>,
}

/// The mathematical model of a delete action.
pub struct ProductDeleteActionModel {
    pub product_id: Seq<char>,
    pub product_type: ProductType,
}

/// The mathematical model of an action.
pub enum ActionModel {
    ProductCreate(ProductCreateActionModel),
    ProductUpdate(ProductUpdateActionModel),
    ProductDelete(ProductDeleteActionModel),
}

/// The mathematical model of a payload.
pub struct ProductPayloadModel {
    pub action: ActionModel,
    pub timestamp: u64,
}

/// The model of one property value's typed payload.
pub open spec fn view_data(d: PropertyData) -> PropertyDataModel
    decreases d,
{
    match d {
        PropertyData::Bytes(v) => PropertyDataModel::Bytes(v@),
        PropertyData::Boolean(x) => PropertyDataModel::Boolean(x),
        PropertyData::Number(x) => PropertyDataModel::Number(x),
        PropertyData::Str(s) => PropertyDataModel::Str(s@),
        PropertyData::Enum(x) => PropertyDataModel::Enum(x),
        PropertyData::Struct(vs) => PropertyDataModel::Struct(view_props(vs@)),
        PropertyData::LatLong(ll) => PropertyDataModel::LatLong(ll),
    }
}

/// The model of one property value.
pub open spec fn view_prop(pv: PropertyValue) -> PropertyValueModel
    decreases pv,
{
    PropertyValueModel { name: pv.name@, data: view_data(pv.data) }
}

/// The model of a sequence of property values, element by element.
pub open spec fn view_props(vs: Seq<PropertyValue>) -> Seq<PropertyValueModel>
    decreases vs,
{
    if vs.len() == 0 {
        Seq::empty()
    } else {
        view_props(vs.drop_last()).push(view_prop(vs.last()))
    }
}

/// `view_props` maps `view_prop` over the sequence, element by element.
pub proof fn lemma_view_props(vs: Seq<PropertyValue>)
    ensures
        view_props(vs).len() == vs.len(),
        forall|i: int| 0 <= i < vs.len() ==> view_props(vs)[i] == view_prop(vs[i]),
    decreases vs.len(),
{
    if vs.len() > 0 {
        lemma_view_props(vs.drop_last());
        assert(forall|i: int|
            0 <= i < vs.len() - 1 ==> view_props(vs)[i] == view_prop(vs.drop_last()[i]));
        assert(forall|i: int| 0 <= i < vs.len() - 1 ==> vs.drop_last()[i] == vs[i]);
    }
}

impl View for PropertyValue {
    type V = PropertyValueModel;

    open spec fn view(&self) -> PropertyValueModel {
        view_prop(*self)
    }
}

impl View for ProductCreateAction {
    type V = ProductCreateActionModel;

    open spec fn view(&self) -> ProductCreateActionModel {
        ProductCreateActionModel {
            product_id: self.product_id@,
            product_type: self.product_type,
            owner: self.owner@,
            properties: view_props(self.properties@),
        }
    }
}

impl View for ProductUpdateAction {
    type V = ProductUpdateActionModel;

    open spec fn view(&self) -> ProductUpdateActionModel {
        ProductUpdateActionModel {
            product_id: self.product_id@,
            product_type: self.product_type,
            properties: view_props(self.properties@),
        }
    }
}

impl View for ProductDeleteAction {
    type V = ProductDeleteActionModel;

    open spec fn view(&self) -> ProductDeleteActionModel {
        ProductDeleteActionModel { product_id: self.product_id@, product_type: self.product_type }
    }
}

impl View for Action {
    type V = ActionModel;

    open spec fn view(&self) -> ActionModel {
        match self {
            Action::ProductCreate(a) => ActionModel::ProductCreate(a@),
            Action::ProductUpdate(a) => ActionModel::ProductUpdate(a@),
            Action::ProductDelete(a) => ActionModel::ProductDelete(a@),
        }
    }
}

impl View for ProductPayload {
    type V = ProductPayloadModel;

    open spec fn view(&self) -> ProductPayloadModel {
        ProductPayloadModel { action: self.action@, timestamp: self.timestamp }
    }
}

/// The product read model served by the off-ledger replica: the fields of one
/// product as a gateway reports them.
#[derive(Debug, Clone, PartialEq, Eq)]
pub struct GridProduct {
    pub product_id: String,
    pub product_type: String,
    pub owner: String,
    pub properties: Vec<GridPropertyValue>,
}

/// The property read model served by the off-ledger replica. Unlike
/// `PropertyValue` it is a flat record: nested struct values are reported by
/// name only and a coordinate is a pair of decimal strings.
#[derive(Debug, Clone, PartialEq, Eq)]
pub struct GridPropertyValue {
    pub name: String,
    pub data_type: String,
    pub bytes_value: Option<Vec<u8>>,
    pub boolean_value: Option<bool>,
    pub number_value: Option<i64>,
    pub string_value: Option<String>,
    pub enum_value: Option<u32>,
    pub struct_values: Option<Vec<String>>,
    pub lat_long_value: Option<(String, String)>,
}

} // verus!
