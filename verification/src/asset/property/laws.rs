use vstd::prelude::*;
use crate::asset::name_map::enc_name_variant;
use crate::asset::name_map::NameModel;
use crate::asset::name_map::NameVariant;
use crate::asset::property::bag::bag_size;
use crate::asset::property::bag::enc_bag;
use crate::asset::property::bag::BagModel;
use crate::asset::property::context::Env;
use crate::asset::property::encode::element_tag;
use crate::asset::property::encode::enc_entries;
use crate::asset::property::encode::enc_map_entries;
use crate::asset::property::encode::enc_none;
use crate::asset::property::encode::enc_properties;
use crate::asset::property::encode::enc_property;
use crate::asset::property::encode::enc_struct;
use crate::asset::property::encode::enc_value;
use crate::asset::property::encode::enc_values;
use crate::asset::property::encode::entries_size;
use crate::asset::property::encode::map_entries_size;
use crate::asset::property::encode::properties_size;
use crate::asset::property::encode::property_size;
use crate::asset::property::encode::struct_size;
use crate::asset::property::encode::value_size;
use crate::asset::property::encode::values_size;
use crate::asset::property::loaders::enc_simple_value;
use crate::asset::property::loaders::enc_tag;
use crate::asset::property::loaders::simple_value_size;
use crate::asset::property::loaders::tag_size;
use crate::asset::property::meta::enc_meta;
use crate::asset::property::meta::Meta;
use crate::asset::property::prop_type::enc_prop_type;
use crate::asset::property::prop_type::PropType;
use crate::asset::property::value::Property;
use crate::asset::property::value::PropertyModel;
use crate::asset::property::value::StructValue;
use crate::asset::property::value::Value;
use crate::asset::property::value::StructValueModel;
use crate::asset::property::value::TagModel;
use crate::asset::property::value::ValueModel;
use crate::util::lemma_le_round_trip;
use crate::util::u64_at;

verus! {

/* Sizes are exact: what is written has the size that is computed */

/// A name reference takes 8 bytes.
pub proof fn lemma_name_variant_len(n: NameVariant)
    ensures
        enc_name_variant(n).len() == 8,
{
    lemma_le_round_trip();
}

/// A type takes 8 bytes.
pub proof fn lemma_prop_type_len(t: PropType, names: Seq<NameModel>)
    requires
        enc_prop_type(t, names) is Ok,
    ensures
        enc_prop_type(t, names)->Ok_0.len() == 8,
{
    lemma_le_round_trip();
}

/// A meta takes 24 bytes, and the last 8 of them hold its size.
pub proof fn lemma_meta_len(m: Meta, names: Seq<NameModel>)
    requires
        enc_meta(m, names) is Ok,
    ensures
        enc_meta(m, names)->Ok_0.len() == 24,
        u64_at(enc_meta(m, names)->Ok_0, 16) == m.size,
{
    lemma_le_round_trip();
    lemma_prop_type_len(m.typ, names);
    let b = enc_meta(m, names)->Ok_0;
    let size = crate::util::enc_u64(m.size);
    assert(b.subrange(16, 24) =~= size);
    assert(size.subrange(0, 8) =~= size);
}

/// A tag takes the bytes that its kind takes.
pub proof fn lemma_tag_len(tag: TagModel, names: Seq<NameModel>)
    requires
        enc_tag(tag, names) is Ok,
        tag is Struct ==> tag->Struct_guid.len() == 16,
    ensures
        enc_tag(tag, names)->Ok_0.len() == tag_size(tag),
{
    lemma_le_round_trip();
    match tag {
        TagModel::Array { inner_type } => {
            lemma_prop_type_len(inner_type, names);
        },
        TagModel::Mapping { key_type, value_type } => {
            lemma_prop_type_len(key_type, names);
            lemma_prop_type_len(value_type, names);
        },
        _ => {},
    }
}

/// The `None` name that ends a list takes 8 bytes.
pub proof fn lemma_none_len(names: Seq<NameModel>)
    requires
        enc_none(names) is Ok,
    ensures
        enc_none(names)->Ok_0.len() == 8,
{
    lemma_le_round_trip();
}

/// A value of a simple type takes the bytes that are computed for it.
pub proof fn lemma_simple_value_len(v: ValueModel, typ: PropType, env: Env)
    requires
        enc_simple_value(v, typ, env) is Ok,
    ensures
        enc_simple_value(v, typ, env)->Ok_0.len() == simple_value_size(v, typ),
{
    lemma_le_round_trip();
}

/// The pairs of a map take the bytes that are computed for them.
pub proof fn lemma_map_entries_len(
    entries: Seq<(ValueModel, ValueModel)>,
    key_type: PropType,
    value_type: PropType,
    env: Env,
    n: int,
)
    requires
        enc_map_entries(entries, key_type, value_type, env, n) is Ok,
    ensures
        enc_map_entries(entries, key_type, value_type, env, n)->Ok_0.len() == map_entries_size(
            entries,
            key_type,
            value_type,
            n,
        ),
    decreases n,
{
    if n > 0 {
        lemma_map_entries_len(entries, key_type, value_type, env, n - 1);
        lemma_simple_value_len(entries[n - 1].0, key_type, env);
        lemma_simple_value_len(entries[n - 1].1, value_type, env);
    }
}

/// Whether every struct tag that a value holds has a guid of 16 bytes,
/// as every tag of the library has.
pub open spec fn guids_sized(v: ValueModel) -> bool
    decreases v, 0int,
{
    match v {
        ValueModel::Array { meta_tag, values } => {
            &&& (meta_tag matches Some((_, tag)) ==> (tag is Struct ==> tag->Struct_guid.len()
                == 16))
            &&& forall|i: int| 0 <= i < values.len() ==> guids_sized(#[trigger] values[i])
        },
        ValueModel::Struct { value } => struct_guids_sized(value),
        _ => true,
    }
}

/// As [`guids_sized`], for the payload of a struct.
pub open spec fn struct_guids_sized(v: StructValueModel) -> bool
    decreases v, 0int,
{
    match v {
        StructValueModel::PropertyList { properties, .. } => forall|i: int|
            0 <= i < properties.len() ==> property_guids_sized(#[trigger] properties[i]),
        StructValueModel::BinaryProperties { entries } => forall|i: int|
            0 <= i < entries.len() ==> struct_guids_sized((#[trigger] entries[i]).1),
        _ => true,
    }
}

/// As [`guids_sized`], for a property.
pub open spec fn property_guids_sized(p: PropertyModel) -> bool
    decreases p, 0int,
{
    (p.tag is Struct ==> p.tag->Struct_guid.len() == 16) && guids_sized(p.value)
}

/// A value takes the bytes that are computed for it.
pub proof fn lemma_value_len(v: ValueModel, tag: TagModel, env: Env)
    requires
        enc_value(v, tag, env) is Ok,
        guids_sized(v),
    ensures
        enc_value(v, tag, env)->Ok_0.len() == value_size(v, tag),
    decreases v, 0int,
{
    lemma_le_round_trip();
    match (v, tag) {
        (ValueModel::Array { meta_tag, values }, TagModel::Array { inner_type }) => {
            lemma_values_len(values, element_tag(meta_tag, inner_type), env, values.len() as int);
            match meta_tag {
                Some((meta, t)) => {
                    lemma_meta_len(meta, env.names);
                    lemma_tag_len(t, env.names);
                },
                None => {},
            }
        },
        (
            ValueModel::Mapping { num_keys_to_remove, entries },
            TagModel::Mapping { key_type, value_type },
        ) => {
            lemma_map_entries_len(entries, key_type, value_type, env, entries.len() as int);
        },
        (ValueModel::Struct { value }, TagModel::Struct { .. }) => {
            lemma_struct_len(value, env);
        },
        (ValueModel::RawData { data }, TagModel::Array { .. }) => {},
        (ValueModel::RawData { data }, TagModel::Mapping { .. }) => {},
        (_, TagModel::Simple(typ)) => {
            lemma_simple_value_len(v, typ, env);
        },
        _ => {},
    }
}

/// The values of a list take the bytes that are computed for them.
pub proof fn lemma_values_len(values: Seq<ValueModel>, tag: TagModel, env: Env, n: int)
    requires
        0 <= n <= values.len(),
        enc_values(values, tag, env, n) is Ok,
        forall|i: int| 0 <= i < values.len() ==> guids_sized(#[trigger] values[i]),
    ensures
        enc_values(values, tag, env, n)->Ok_0.len() == values_size(values, tag, n),
    decreases values, n,
{
    if n > 0 {
        lemma_values_len(values, tag, env, n - 1);
        lemma_value_len(values[n - 1], tag, env);
    }
}

/// The payload of a struct takes the bytes that are computed for it.
pub proof fn lemma_struct_len(v: StructValueModel, env: Env)
    requires
        enc_struct(v, env) is Ok,
        struct_guids_sized(v),
    ensures
        enc_struct(v, env)->Ok_0.len() == struct_size(v),
    decreases v, 0int,
{
    lemma_le_round_trip();
    match v {
        StructValueModel::PropertyList { properties, has_none } => {
            lemma_properties_len(properties, env, properties.len() as int);
            if has_none {
                lemma_none_len(env.names);
            }
        },
        StructValueModel::BinaryProperties { entries } => {
            lemma_entries_len(entries, env, entries.len() as int);
        },
        _ => {},
    }
}

/// The named parts of a struct take the bytes that are computed for them.
pub proof fn lemma_entries_len(entries: Seq<(Seq<char>, StructValueModel)>, env: Env, n: int)
    requires
        0 <= n <= entries.len(),
        enc_entries(entries, env, n) is Ok,
        forall|i: int| 0 <= i < entries.len() ==> struct_guids_sized((#[trigger] entries[i]).1),
    ensures
        enc_entries(entries, env, n)->Ok_0.len() == entries_size(entries, n),
    decreases entries, n,
{
    if n > 0 {
        lemma_entries_len(entries, env, n - 1);
        lemma_struct_len(entries[n - 1].1, env);
    }
}

/// A property takes the bytes that are computed for it, and the size
/// that its meta declares as it is written is the number of bytes of
/// its value: everything behind meta, tag and the zero byte.
pub proof fn lemma_property_len(p: PropertyModel, env: Env)
    requires
        enc_property(p, env) is Ok,
        property_guids_sized(p),
        value_size(p.value, p.tag) <= u64::MAX,
    ensures
        enc_property(p, env)->Ok_0.len() == property_size(p),
        u64_at(enc_property(p, env)->Ok_0, 16) == value_size(p.value, p.tag),
        u64_at(enc_property(p, env)->Ok_0, 16) == enc_property(p, env)->Ok_0.len() - 24 - tag_size(
            p.tag,
        ) - 1,
    decreases p, 0int,
{
    lemma_value_len(p.value, p.tag, env);
    let value = enc_value(p.value, p.tag, env)->Ok_0;
    let written = Meta { name: p.meta.name, typ: p.meta.typ, size: value.len() as u64 };
    lemma_meta_len(written, env.names);
    lemma_tag_len(p.tag, env.names);
    let meta = enc_meta(written, env.names)->Ok_0;
    let tag = enc_tag(p.tag, env.names)->Ok_0;
    let b = enc_property(p, env)->Ok_0;
    assert(b =~= meta + tag + seq![0u8] + value);
    assert(b.subrange(16, 24) =~= meta.subrange(16, 24));
}

/// The properties of a list take the bytes that are computed for them.
pub proof fn lemma_properties_len(properties: Seq<PropertyModel>, env: Env, n: int)
    requires
        0 <= n <= properties.len(),
        enc_properties(properties, env, n) is Ok,
        forall|i: int| 0 <= i < properties.len() ==> property_guids_sized(#[trigger] properties[i]),
    ensures
        enc_properties(properties, env, n)->Ok_0.len() == properties_size(properties, n),
    decreases properties, n,
{
    if n > 0 {
        lemma_properties_len(properties, env, n - 1);
        lemma_property_len_only(properties[n - 1], env);
    }
}

/// A property takes the bytes that are computed for it.
pub proof fn lemma_property_len_only(p: PropertyModel, env: Env)
    requires
        enc_property(p, env) is Ok,
        property_guids_sized(p),
    ensures
        enc_property(p, env)->Ok_0.len() == property_size(p),
    decreases p, 0int,
{
    lemma_value_len(p.value, p.tag, env);
    let value = enc_value(p.value, p.tag, env)->Ok_0;
    let written = Meta { name: p.meta.name, typ: p.meta.typ, size: value.len() as u64 };
    lemma_meta_len(written, env.names);
    lemma_tag_len(p.tag, env.names);
}

/// A property bag takes the bytes that are computed for it. The `None`
/// name that ends it takes exactly 8 of them; a bag that no `None` name
/// ends has nothing between its properties and its rest.
pub proof fn lemma_bag_len(b: BagModel, env: Env)
    requires
        enc_bag(b, env) is Ok,
        forall|i: int|
            0 <= i < b.properties.len() ==> property_guids_sized(#[trigger] b.properties[i]),
    ensures
        enc_bag(b, env)->Ok_0.len() == bag_size(b),
        enc_bag(b, env)->Ok_0.len() == enc_properties(
            b.properties,
            env,
            b.properties.len() as int,
        )->Ok_0.len() + (if b.ends_with_none {
            8int
        } else {
            0int
        }) + b.extra.len(),
        b.ends_with_none ==> enc_bag(b, env)->Ok_0 == enc_properties(
            b.properties,
            env,
            b.properties.len() as int,
        )->Ok_0 + enc_none(env.names)->Ok_0 + b.extra,
        !b.ends_with_none ==> enc_bag(b, env)->Ok_0 == enc_properties(
            b.properties,
            env,
            b.properties.len() as int,
        )->Ok_0 + b.extra,
{
    lemma_properties_len(b.properties, env, b.properties.len() as int);
    if b.ends_with_none {
        lemma_none_len(env.names);
    }
}

/* The values of the library have guids of 16 bytes */

/// Every struct tag that a value of the library holds has a guid of 16 bytes.
pub proof fn lemma_value_shaped(v: Value)
    ensures
        guids_sized(v@),
    decreases v,
{
    match v {
        Value::Array { meta_tag, values } => {
            assert forall|i: int| 0 <= i < v@->Array_values.len() implies guids_sized(
                #[trigger] v@->Array_values[i],
            ) by {
                lemma_value_shaped(values@[i]);
            }
        },
        Value::Struct { value } => {
            lemma_struct_shaped(value);
        },
        _ => {},
    }
}

/// As [`lemma_value_shaped`], for the payload of a struct.
pub proof fn lemma_struct_shaped(v: StructValue)
    ensures
        struct_guids_sized(v@),
    decreases v,
{
    match v {
        StructValue::PropertyList { properties, .. } => {
            assert forall|i: int|
                0 <= i < v@->PropertyList_properties.len() implies property_guids_sized(
                #[trigger] v@->PropertyList_properties[i],
            ) by {
                lemma_property_shaped(properties@[i]);
            }
        },
        StructValue::BinaryProperties { entries } => {
            assert forall|i: int|
                0 <= i < v@->BinaryProperties_entries.len() implies struct_guids_sized(
                (#[trigger] v@->BinaryProperties_entries[i]).1,
            ) by {
                lemma_struct_shaped(entries@[i].1);
            }
        },
        _ => {},
    }
}

/// As [`lemma_value_shaped`], for a property.
pub proof fn lemma_property_shaped(p: Property)
    ensures
        property_guids_sized(p@),
    decreases p,
{
    lemma_value_shaped(p.value);
}

/// As [`lemma_value_shaped`], for the properties of a list.
pub proof fn lemma_properties_shaped(properties: Seq<Property>)
    ensures
        forall|i: int|
            0 <= i < properties.len() ==> property_guids_sized(
                #[trigger] crate::asset::property::value::property_models(properties)[i],
            ),
{
    assert forall|i: int| 0 <= i < properties.len() implies property_guids_sized(
        #[trigger] crate::asset::property::value::property_models(properties)[i],
    ) by {
        lemma_property_shaped(properties[i]);
    }
}

} // verus!
