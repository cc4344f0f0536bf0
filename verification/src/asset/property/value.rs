use vstd::prelude::*;
use crate::asset::name_map::NameVariant;
use crate::asset::property::meta::Meta;
use crate::asset::property::prop_type::PropType;
use crate::asset::reference::Reference;

verus! {

/// What stands between the meta of a property and its value. For most
/// types it is implied by the type and takes no bytes.
#[derive(Debug, Clone, Copy, PartialEq, Eq)]
pub enum Tag {
    Simple(PropType),
    /// A boolean carries its value in the tag.
    Bool(bool),
    /// The enum type that the value is an enumerator of.
    Enum(NameVariant),
    Array { inner_type: PropType },
    Mapping { key_type: PropType, value_type: PropType },
    Struct { struct_type: NameVariant, guid: [u8; 16] },
}

/// A [`Tag`] as plain values.
pub enum TagModel {
    Simple(PropType),
    Bool(bool),
    Enum(NameVariant),
    Array { inner_type: PropType },
    Mapping { key_type: PropType, value_type: PropType },
    Struct { struct_type: NameVariant, guid: Seq<u8> },
}

impl View for Tag {
    type V = TagModel;

    open spec fn view(&self) -> TagModel {
        match *self {
            Tag::Simple(t) => TagModel::Simple(t),
            Tag::Bool(b) => TagModel::Bool(b),
            Tag::Enum(n) => TagModel::Enum(n),
            Tag::Array { inner_type } => TagModel::Array { inner_type },
            Tag::Mapping { key_type, value_type } => TagModel::Mapping { key_type, value_type },
            Tag::Struct { struct_type, guid } => TagModel::Struct { struct_type, guid: guid@ },
        }
    }
}

/// The value of a property. A float is held as the 32 bits it is stored as.
#[derive(Debug, PartialEq, Eq)]
pub enum Value {
    Int(i32),
    UInt8(u8),
    Float(u32),
    Object(Reference),
    SoftObject { object_name: NameVariant, parent: Reference },
    Name(NameVariant),
    Str(String),
    Text { bytes: Vec<u8> },
    Bool,
    Enum(NameVariant),
    /// The elements of an array. Where they are structs, the header that
    /// the file holds for them is kept beside them.
    Array { meta_tag: Option<(Meta, Tag)>, values: Vec<Value> },
    Mapping { num_keys_to_remove: u32, entries: Vec<(Value, Value)> },
    Struct { value: StructValue },
    /// The bytes of a value whose layout is not known.
    RawData { data: Vec<u8> },
}

/// The payload of a struct, laid out as its pattern says. A floating
/// point number is held as the bits it is stored as.
#[derive(Debug, PartialEq, Eq)]
#[allow(inconsistent_fields)]
pub enum StructValue {
    PropertyList { properties: Vec<Property>, has_none: bool },
    Binary { bytes: Vec<u8> },
    BinaryProperties { entries: Vec<(String, StructValue)> },
    Int { size: u8, value: i64 },
    UInt { size: u8, value: u64 },
    Floating { size: u8, value: u64 },
    Enum { variants: Vec<String>, index: u8 },
}

/// A named, typed value of a property bag.
#[derive(Debug, PartialEq, Eq)]
pub struct Property {
    pub meta: Meta,
    pub tag: Tag,
    pub value: Value,
}

/// A [`Value`] as plain values.
pub enum ValueModel {
    Int(i32),
    UInt8(u8),
    Float(u32),
    Object(Reference),
    SoftObject { object_name: NameVariant, parent: Reference },
    Name(NameVariant),
    Str(Seq<char>),
    Text { bytes: Seq<u8> },
    Bool,
    Enum(NameVariant),
    Array { meta_tag: Option<(Meta, TagModel)>, values: Seq<ValueModel> },
    Mapping { num_keys_to_remove: u32, entries: Seq<(ValueModel, ValueModel)> },
    Struct { value: StructValueModel },
    RawData { data: Seq<u8> },
}

/// A [`StructValue`] as plain values.
#[allow(inconsistent_fields)]
pub enum StructValueModel {
    PropertyList { properties: Seq<PropertyModel>, has_none: bool },
    Binary { bytes: Seq<u8> },
    BinaryProperties { entries: Seq<(Seq<char>, StructValueModel)> },
    Int { size: u8, value: i64 },
    UInt { size: u8, value: u64 },
    Floating { size: u8, value: u64 },
    Enum { variants: Seq<Seq<char>>, index: u8 },
}

/// A [`Property`] as plain values.
pub struct PropertyModel {
    pub meta: Meta,
    pub tag: TagModel,
    pub value: ValueModel,
}

/// The tag of an array's element header as plain values.
pub open spec fn meta_tag_model(meta_tag: Option<(Meta, Tag)>) -> Option<(Meta, TagModel)> {
    match meta_tag {
        Some((meta, tag)) => Some((meta, tag@)),
        None => None,
    }
}

impl Value {
    pub open spec fn model(self) -> ValueModel
        decreases self,
    {
        match self {
            Value::Int(x) => ValueModel::Int(x),
            Value::UInt8(x) => ValueModel::UInt8(x),
            Value::Float(x) => ValueModel::Float(x),
            Value::Object(r) => ValueModel::Object(r),
            Value::SoftObject { object_name, parent } => ValueModel::SoftObject {
                object_name,
                parent,
            },
            Value::Name(n) => ValueModel::Name(n),
            Value::Str(s) => ValueModel::Str(s@),
            Value::Text { bytes } => ValueModel::Text { bytes: bytes@ },
            Value::Bool => ValueModel::Bool,
            Value::Enum(n) => ValueModel::Enum(n),
            Value::Array { meta_tag, values } => ValueModel::Array {
                meta_tag: meta_tag_model(meta_tag),
                values: Seq::new(
                    values@.len(),
                    |i: int|
                        if 0 <= i < values@.len() {
                            values@[i].model()
                        } else {
                            ValueModel::Bool
                        },
                ),
            },
            Value::Mapping { num_keys_to_remove, entries } => ValueModel::Mapping {
                num_keys_to_remove,
                entries: Seq::new(
                    entries@.len(),
                    |i: int|
                        if 0 <= i < entries@.len() {
                            (entries@[i].0.model(), entries@[i].1.model())
                        } else {
                            (ValueModel::Bool, ValueModel::Bool)
                        },
                ),
            },
            Value::Struct { value } => ValueModel::Struct { value: value.model() },
            Value::RawData { data } => ValueModel::RawData { data: data@ },
        }
    }
}

impl StructValue {
    pub open spec fn model(self) -> StructValueModel
        decreases self,
    {
        match self {
            StructValue::PropertyList { properties, has_none } => StructValueModel::PropertyList {
                properties: Seq::new(
                    properties@.len(),
                    |i: int|
                        if 0 <= i < properties@.len() {
                            properties@[i].model()
                        } else {
                            arbitrary()
                        },
                ),
                has_none,
            },
            StructValue::Binary { bytes } => StructValueModel::Binary { bytes: bytes@ },
            StructValue::BinaryProperties { entries } => StructValueModel::BinaryProperties {
                entries: Seq::new(
                    entries@.len(),
                    |i: int|
                        if 0 <= i < entries@.len() {
                            (entries@[i].0@, entries@[i].1.model())
                        } else {
                            (Seq::empty(), StructValueModel::Binary { bytes: Seq::empty() })
                        },
                ),
            },
            StructValue::Int { size, value } => StructValueModel::Int { size, value },
            StructValue::UInt { size, value } => StructValueModel::UInt { size, value },
            StructValue::Floating { size, value } => StructValueModel::Floating { size, value },
            StructValue::Enum { variants, index } => StructValueModel::Enum {
                variants: variants@.map_values(|s: String| s@),
                index,
            },
        }
    }
}

impl Property {
    pub open spec fn model(self) -> PropertyModel
        decreases self,
    {
        PropertyModel { meta: self.meta, tag: self.tag@, value: self.value.model() }
    }
}

impl View for Value {
    type V = ValueModel;

    open spec fn view(&self) -> ValueModel {
        self.model()
    }
}

impl View for StructValue {
    type V = StructValueModel;

    open spec fn view(&self) -> StructValueModel {
        self.model()
    }
}

impl View for Property {
    type V = PropertyModel;

    open spec fn view(&self) -> PropertyModel {
        self.model()
    }
}

/// The views of the properties of a list.
pub open spec fn property_models(properties: Seq<Property>) -> Seq<PropertyModel> {
    Seq::new(properties.len(), |i: int| properties[i]@)
}

/// The views of the values of a list.
pub open spec fn value_models(values: Seq<Value>) -> Seq<ValueModel> {
    Seq::new(values.len(), |i: int| values[i]@)
}

} // verus!
