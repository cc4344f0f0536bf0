use vstd::prelude::*;
use crate::asset::name_map::enc_name_variant;
use crate::asset::name_map::first_index;
use crate::asset::name_map::has_name;
use crate::asset::name_map::name_variant_fits;
use crate::asset::name_map::NameModel;
use crate::asset::name_map::NameVariant;
use crate::asset::property::context::Env;
use crate::asset::property::loaders::enc_simple_value;
use crate::asset::property::loaders::enc_tag;
use crate::asset::property::loaders::simple_value_size;
use crate::asset::property::loaders::tag_size;
use crate::asset::property::loaders::tag_matches;
use crate::asset::property::meta::enc_meta;
use crate::asset::property::meta::Meta;
use crate::asset::property::prop_type::is_simple;
use crate::asset::property::prop_type::PropType;
use crate::asset::property::struct_pattern::is_float_width;
use crate::asset::property::struct_pattern::is_int_width;
use crate::asset::property::value::PropertyModel;
use crate::asset::property::value::StructValueModel;
use crate::asset::property::value::TagModel;
use crate::asset::property::value::ValueModel;
use crate::error::Error;
use crate::error::Place;
use crate::util::enc_i32;
use crate::util::enc_i64;
use crate::util::enc_u16;
use crate::util::enc_u32;
use crate::util::enc_u64;

verus! {

/* What a property bag is written as */

/// The `None` name that ends a property list: the reference to the first
/// name of that spelling, which the table has to hold.
pub open spec fn enc_none(names: Seq<NameModel>) -> Result<Seq<u8>, Error> {
    if has_name(names, "None"@) && first_index(names, "None"@) <= u32::MAX {
        Ok(
            enc_name_variant(
                NameVariant { name_idx: first_index(names, "None"@) as usize, variant: 0 },
            ),
        )
    } else {
        Err(Error::MissingName)
    }
}

/// Whether a signed number fits `size` bytes.
pub open spec fn fits_signed(value: i64, size: u8) -> bool {
    if size == 1 {
        -0x80 <= value <= 0x7f
    } else if size == 2 {
        -0x8000 <= value <= 0x7fff
    } else if size == 4 {
        -0x8000_0000 <= value <= 0x7fff_ffff
    } else {
        true
    }
}

/// Whether an unsigned number fits `size` bytes.
pub open spec fn fits_unsigned(value: u64, size: u8) -> bool {
    if size == 1 {
        value <= 0xff
    } else if size == 2 {
        value <= 0xffff
    } else if size == 4 {
        value <= 0xffff_ffff
    } else {
        true
    }
}

/// The `size` bytes of a signed number that fits them.
pub open spec fn enc_signed(value: i64, size: u8) -> Seq<u8> {
    if size == 1 {
        seq![(value as i8) as u8]
    } else if size == 2 {
        enc_u16((value as i16) as u16)
    } else if size == 4 {
        enc_i32(value as i32)
    } else {
        enc_i64(value)
    }
}

/// The `size` bytes of an unsigned number that fits them.
pub open spec fn enc_unsigned(value: u64, size: u8) -> Seq<u8> {
    if size == 1 {
        seq![value as u8]
    } else if size == 2 {
        enc_u16(value as u16)
    } else if size == 4 {
        enc_u32(value as u32)
    } else {
        enc_u64(value)
    }
}

/// The first `n` pairs of a map of simple types, one after the other.
pub open spec fn enc_map_entries(
    entries: Seq<(ValueModel, ValueModel)>,
    key_type: PropType,
    value_type: PropType,
    env: Env,
    n: int,
) -> Result<Seq<u8>, Error>
    decreases n,
{
    if n <= 0 {
        Ok(Seq::empty())
    } else {
        match enc_map_entries(entries, key_type, value_type, env, n - 1) {
            Err(err) => Err(err),
            Ok(before) => match enc_simple_value(entries[n - 1].0, key_type, env) {
                Err(err) => Err(err),
                Ok(key) => match enc_simple_value(entries[n - 1].1, value_type, env) {
                    Err(err) => Err(err),
                    Ok(value) => Ok(before + key + value),
                },
            },
        }
    }
}

/// The header that announces the elements of an array of structs: a
/// meta, a tag, a zero byte. Nothing where the array has none.
pub open spec fn enc_element_header(meta_tag: Option<(Meta, TagModel)>, env: Env) -> Result<
    Seq<u8>,
    Error,
> {
    match meta_tag {
        None => Ok(Seq::empty()),
        Some((meta, tag)) => match enc_meta(meta, env.names) {
            Err(err) => Err(err),
            Ok(m) => match enc_tag(tag, env.names) {
                Err(err) => Err(err),
                Ok(t) => Ok(m + t + seq![0u8]),
            },
        },
    }
}

/// The tag that the elements of an array are written with: that of the
/// header, or the simple tag of the element type.
pub open spec fn element_tag(meta_tag: Option<(Meta, TagModel)>, inner_type: PropType) -> TagModel {
    match meta_tag {
        None => TagModel::Simple(inner_type),
        Some((_, tag)) => tag,
    }
}

/// The bytes of a value that is written with the given tag.
pub open spec fn enc_value(v: ValueModel, tag: TagModel, env: Env) -> Result<Seq<u8>, Error>
    decreases v, 0int,
{
    match (v, tag) {
        (ValueModel::Bool, TagModel::Bool(_)) => Ok(Seq::empty()),
        (ValueModel::Enum(n), TagModel::Enum(_)) => if name_variant_fits(
            n,
            env.names.len() as int,
        ) {
            Ok(enc_name_variant(n))
        } else {
            Err(Error::MissingName)
        },
        (ValueModel::Array { meta_tag, values }, TagModel::Array { inner_type }) => {
            if values.len() > u32::MAX {
                Err(Error::TooLong)
            } else {
                match enc_element_header(meta_tag, env) {
                    Err(err) => Err(err),
                    Ok(header) => match enc_values(
                        values,
                        element_tag(meta_tag, inner_type),
                        env,
                        values.len() as int,
                    ) {
                        Err(err) => Err(err),
                        Ok(elements) => Ok(enc_u32(values.len() as u32) + header + elements),
                    },
                }
            }
        },
        (
            ValueModel::Mapping { num_keys_to_remove, entries },
            TagModel::Mapping { key_type, value_type },
        ) => {
            if !is_simple(key_type) || !is_simple(value_type) {
                Err(Error::KindMismatch)
            } else if entries.len() > u32::MAX {
                Err(Error::TooLong)
            } else {
                match enc_map_entries(entries, key_type, value_type, env, entries.len() as int) {
                    Err(err) => Err(err),
                    Ok(pairs) => Ok(
                        enc_u32(num_keys_to_remove) + enc_u32(entries.len() as u32) + pairs,
                    ),
                }
            }
        },
        (ValueModel::Struct { value }, TagModel::Struct { .. }) => enc_struct(value, env),
        (ValueModel::RawData { data }, TagModel::Array { .. }) => Ok(data),
        (ValueModel::RawData { data }, TagModel::Mapping { .. }) => Ok(data),
        (_, TagModel::Simple(typ)) => enc_simple_value(v, typ, env),
        _ => Err(Error::KindMismatch),
    }
}

/// The first `n` values of a list, each written with the given tag.
pub open spec fn enc_values(values: Seq<ValueModel>, tag: TagModel, env: Env, n: int) -> Result<
    Seq<u8>,
    Error,
>
    decreases values, n,
{
    if n <= 0 || n > values.len() {
        Ok(Seq::empty())
    } else {
        match enc_values(values, tag, env, n - 1) {
            Err(err) => Err(err),
            Ok(before) => match enc_value(values[n - 1], tag, env) {
                Err(err) => Err(err),
                Ok(value) => Ok(before + value),
            },
        }
    }
}

/// The bytes of the payload of a struct.
pub open spec fn enc_struct(v: StructValueModel, env: Env) -> Result<Seq<u8>, Error>
    decreases v, 0int,
{
    match v {
        StructValueModel::PropertyList { properties, has_none } => match enc_properties(
            properties,
            env,
            properties.len() as int,
        ) {
            Err(err) => Err(err),
            Ok(list) => if has_none {
                match enc_none(env.names) {
                    Err(err) => Err(err),
                    Ok(none) => Ok(list + none),
                }
            } else {
                Ok(list)
            },
        },
        StructValueModel::Binary { bytes } => Ok(bytes),
        StructValueModel::BinaryProperties { entries } => enc_entries(
            entries,
            env,
            entries.len() as int,
        ),
        StructValueModel::Int { size, value } => if !is_int_width(size as int) {
            Err(Error::InvalidWidth)
        } else if !fits_signed(value, size) {
            Err(Error::ValueOutOfRange)
        } else {
            Ok(enc_signed(value, size))
        },
        StructValueModel::UInt { size, value } => if !is_int_width(size as int) {
            Err(Error::InvalidWidth)
        } else if !fits_unsigned(value, size) {
            Err(Error::ValueOutOfRange)
        } else {
            Ok(enc_unsigned(value, size))
        },
        StructValueModel::Floating { size, value } => if !is_float_width(size as int) {
            Err(Error::InvalidWidth)
        } else if !fits_unsigned(value, size) {
            Err(Error::ValueOutOfRange)
        } else {
            Ok(enc_unsigned(value, size))
        },
        StructValueModel::Enum { variants, index } => Ok(seq![index]),
    }
}

/// The first `n` named parts of a struct, one after the other.
pub open spec fn enc_entries(entries: Seq<(Seq<char>, StructValueModel)>, env: Env, n: int) -> Result<
    Seq<u8>,
    Error,
>
    decreases entries, n,
{
    if n <= 0 || n > entries.len() {
        Ok(Seq::empty())
    } else {
        match enc_entries(entries, env, n - 1) {
            Err(err) => Err(err),
            Ok(before) => match enc_struct(entries[n - 1].1, env) {
                Err(err) => Err(err),
                Ok(value) => Ok(before + value),
            },
        }
    }
}

/// The bytes of a property: its meta with the size of the value as it is
/// written, its tag, a zero byte, its value.
pub open spec fn enc_property(p: PropertyModel, env: Env) -> Result<Seq<u8>, Error>
    decreases p, 0int,
{
    if !tag_matches(p.tag, p.meta.typ) {
        Err(Error::KindMismatch)
    } else {
        match enc_value(p.value, p.tag, env) {
            Err(err) => Err(err),
            Ok(value) => match enc_meta(
                Meta { name: p.meta.name, typ: p.meta.typ, size: value.len() as u64 },
                env.names,
            ) {
                Err(err) => Err(err),
                Ok(meta) => match enc_tag(p.tag, env.names) {
                    Err(err) => Err(err),
                    Ok(tag) => Ok(meta + tag + seq![0u8] + value),
                },
            },
        }
    }
}

/// The first `n` properties of a list, one after the other.
pub open spec fn enc_properties(properties: Seq<PropertyModel>, env: Env, n: int) -> Result<
    Seq<u8>,
    Error,
>
    decreases properties, n,
{
    if n <= 0 || n > properties.len() {
        Ok(Seq::empty())
    } else {
        match enc_properties(properties, env, n - 1) {
            Err(err) => Err(err),
            Ok(before) => match enc_property(properties[n - 1], env) {
                Err(err) => Err(err),
                Ok(property) => Ok(before + property),
            },
        }
    }
}

/* Where writing fails: the parts that were entered, the outermost first */

/// The part of the header that announces the elements of an array that
/// cannot be written, where there is one: its meta or its tag.
pub open spec fn element_header_trail(meta_tag: Option<(Meta, TagModel)>, env: Env) -> Seq<Place> {
    match meta_tag {
        None => Seq::empty(),
        Some((meta, tag)) => if enc_meta(meta, env.names) is Err {
            seq![Place::Meta]
        } else {
            seq![Place::Tag]
        },
    }
}

/// The key or the value of the first of the first `n` pairs of a map
/// that cannot be written, where there is one.
pub open spec fn enc_map_entries_trail(
    entries: Seq<(ValueModel, ValueModel)>,
    key_type: PropType,
    value_type: PropType,
    env: Env,
    n: int,
) -> Seq<Place>
    decreases n,
{
    if n <= 0 {
        Seq::empty()
    } else if enc_map_entries(entries, key_type, value_type, env, n - 1) is Err {
        enc_map_entries_trail(entries, key_type, value_type, env, n - 1)
    } else if enc_simple_value(entries[n - 1].0, key_type, env) is Err {
        seq![Place::Key((n - 1) as usize)]
    } else {
        seq![Place::Value((n - 1) as usize)]
    }
}

/// The part of a value that cannot be written, where there is one: an
/// element of an array or a part of its header, a key or a value of a
/// map, a part of a struct.
pub open spec fn enc_value_trail(v: ValueModel, tag: TagModel, env: Env) -> Seq<Place>
    decreases v, 0int,
{
    match (v, tag) {
        (ValueModel::Array { meta_tag, values }, TagModel::Array { inner_type }) => {
            if values.len() > u32::MAX {
                Seq::empty()
            } else if enc_element_header(meta_tag, env) is Err {
                element_header_trail(meta_tag, env)
            } else {
                enc_values_trail(
                    values,
                    element_tag(meta_tag, inner_type),
                    env,
                    values.len() as int,
                )
            }
        },
        (
            ValueModel::Mapping { num_keys_to_remove, entries },
            TagModel::Mapping { key_type, value_type },
        ) => {
            if !is_simple(key_type) || !is_simple(value_type) || entries.len() > u32::MAX {
                Seq::empty()
            } else {
                enc_map_entries_trail(entries, key_type, value_type, env, entries.len() as int)
            }
        },
        (ValueModel::Struct { value }, TagModel::Struct { .. }) => enc_struct_trail(value, env),
        _ => Seq::empty(),
    }
}

/// The first of the first `n` values of a list that cannot be written,
/// and the part of it that cannot, where there is one.
pub open spec fn enc_values_trail(values: Seq<ValueModel>, tag: TagModel, env: Env, n: int) -> Seq<
    Place,
>
    decreases values, n,
{
    if n <= 0 || n > values.len() {
        Seq::empty()
    } else if enc_values(values, tag, env, n - 1) is Err {
        enc_values_trail(values, tag, env, n - 1)
    } else {
        seq![Place::Element((n - 1) as usize)] + enc_value_trail(values[n - 1], tag, env)
    }
}

/// The part of the payload of a struct that cannot be written, where
/// there is one: a property of its list, or a named part.
pub open spec fn enc_struct_trail(v: StructValueModel, env: Env) -> Seq<Place>
    decreases v, 0int,
{
    match v {
        StructValueModel::PropertyList { properties, has_none } => if enc_properties(
            properties,
            env,
            properties.len() as int,
        ) is Err {
            enc_properties_trail(properties, env, properties.len() as int)
        } else {
            Seq::empty()
        },
        StructValueModel::BinaryProperties { entries } => enc_entries_trail(
            entries,
            env,
            entries.len() as int,
        ),
        _ => Seq::empty(),
    }
}

/// The first of the first `n` named parts of a struct that cannot be
/// written, and the part of it that cannot, where there is one.
pub open spec fn enc_entries_trail(
    entries: Seq<(Seq<char>, StructValueModel)>,
    env: Env,
    n: int,
) -> Seq<Place>
    decreases entries, n,
{
    if n <= 0 || n > entries.len() {
        Seq::empty()
    } else if enc_entries(entries, env, n - 1) is Err {
        enc_entries_trail(entries, env, n - 1)
    } else {
        seq![Place::Field((n - 1) as usize)] + enc_struct_trail(entries[n - 1].1, env)
    }
}

/// The part of a property that cannot be written, where there is one:
/// a part of its value, its meta or its tag.
pub open spec fn enc_property_trail(p: PropertyModel, env: Env) -> Seq<Place>
    decreases p, 0int,
{
    if !tag_matches(p.tag, p.meta.typ) {
        Seq::empty()
    } else {
        match enc_value(p.value, p.tag, env) {
            Err(_) => enc_value_trail(p.value, p.tag, env),
            Ok(value) => if enc_meta(
                Meta { name: p.meta.name, typ: p.meta.typ, size: value.len() as u64 },
                env.names,
            ) is Err {
                seq![Place::Meta]
            } else if enc_tag(p.tag, env.names) is Err {
                seq![Place::Tag]
            } else {
                Seq::empty()
            },
        }
    }
}

/// The first of the first `n` properties of a list that cannot be
/// written, and the part of it that cannot, where there is one.
pub open spec fn enc_properties_trail(properties: Seq<PropertyModel>, env: Env, n: int) -> Seq<
    Place,
>
    decreases properties, n,
{
    if n <= 0 || n > properties.len() {
        Seq::empty()
    } else if enc_properties(properties, env, n - 1) is Err {
        enc_properties_trail(properties, env, n - 1)
    } else {
        seq![Place::Member((n - 1) as usize)] + enc_property_trail(properties[n - 1], env)
    }
}

/// Where a value of a list cannot be written, it is the same for every
/// longer part of the list.
pub proof fn lemma_enc_values_trail_fails(
    values: Seq<ValueModel>,
    tag: TagModel,
    env: Env,
    i: int,
    n: int,
)
    requires
        0 < i <= n <= values.len(),
        enc_values(values, tag, env, i) is Err,
    ensures
        enc_values_trail(values, tag, env, n) == enc_values_trail(values, tag, env, i),
    decreases n - i,
{
    if i < n {
        lemma_enc_values_fails(values, tag, env, i, n - 1);
        lemma_enc_values_trail_fails(values, tag, env, i, n - 1);
    }
}

/// Where a pair of a map cannot be written, it is the same for every
/// longer part of the map.
pub proof fn lemma_enc_map_entries_trail_fails(
    entries: Seq<(ValueModel, ValueModel)>,
    key_type: PropType,
    value_type: PropType,
    env: Env,
    i: int,
    n: int,
)
    requires
        0 < i <= n,
        enc_map_entries(entries, key_type, value_type, env, i) is Err,
    ensures
        enc_map_entries_trail(entries, key_type, value_type, env, n) == enc_map_entries_trail(
            entries,
            key_type,
            value_type,
            env,
            i,
        ),
    decreases n - i,
{
    if i < n {
        lemma_enc_map_entries_fails(entries, key_type, value_type, env, i, n - 1);
        lemma_enc_map_entries_trail_fails(entries, key_type, value_type, env, i, n - 1);
    }
}

/// Where a part of a struct cannot be written, it is the same for
/// every longer run of parts.
pub proof fn lemma_enc_entries_trail_fails(
    entries: Seq<(Seq<char>, StructValueModel)>,
    env: Env,
    i: int,
    n: int,
)
    requires
        0 < i <= n <= entries.len(),
        enc_entries(entries, env, i) is Err,
    ensures
        enc_entries_trail(entries, env, n) == enc_entries_trail(entries, env, i),
    decreases n - i,
{
    if i < n {
        lemma_enc_entries_fails(entries, env, i, n - 1);
        lemma_enc_entries_trail_fails(entries, env, i, n - 1);
    }
}

/// Where a property of a list cannot be written, it is the same for
/// every longer part of the list.
pub proof fn lemma_enc_properties_trail_fails(
    properties: Seq<PropertyModel>,
    env: Env,
    i: int,
    n: int,
)
    requires
        0 < i <= n <= properties.len(),
        enc_properties(properties, env, i) is Err,
    ensures
        enc_properties_trail(properties, env, n) == enc_properties_trail(properties, env, i),
    decreases n - i,
{
    if i < n {
        lemma_enc_properties_fails(properties, env, i, n - 1);
        lemma_enc_properties_trail_fails(properties, env, i, n - 1);
    }
}

/* How many bytes a property bag takes */

/// The bytes that the header of an array of structs takes.
pub open spec fn element_header_size(meta_tag: Option<(Meta, TagModel)>) -> nat {
    match meta_tag {
        None => 0,
        Some((_, tag)) => 24 + tag_size(tag) + 1,
    }
}

/// The bytes that the first `n` pairs of a map of simple types take.
pub open spec fn map_entries_size(
    entries: Seq<(ValueModel, ValueModel)>,
    key_type: PropType,
    value_type: PropType,
    n: int,
) -> nat
    decreases n,
{
    if n <= 0 {
        0
    } else {
        map_entries_size(entries, key_type, value_type, n - 1) + simple_value_size(
            entries[n - 1].0,
            key_type,
        ) + simple_value_size(entries[n - 1].1, value_type)
    }
}

/// The bytes that a value takes when it is written with the given tag;
/// 0 where the value is not of the kind of the tag.
pub open spec fn value_size(v: ValueModel, tag: TagModel) -> nat
    decreases v, 0int,
{
    match (v, tag) {
        (ValueModel::Bool, TagModel::Bool(_)) => 0,
        (ValueModel::Enum(_), TagModel::Enum(_)) => 8,
        (ValueModel::Array { meta_tag, values }, TagModel::Array { inner_type }) => 4
            + element_header_size(meta_tag) + values_size(
            values,
            element_tag(meta_tag, inner_type),
            values.len() as int,
        ),
        (
            ValueModel::Mapping { num_keys_to_remove, entries },
            TagModel::Mapping { key_type, value_type },
        ) => if is_simple(key_type) && is_simple(value_type) {
            8 + map_entries_size(entries, key_type, value_type, entries.len() as int)
        } else {
            0
        },
        (ValueModel::Struct { value }, TagModel::Struct { .. }) => struct_size(value),
        (ValueModel::RawData { data }, TagModel::Array { .. }) => data.len(),
        (ValueModel::RawData { data }, TagModel::Mapping { .. }) => data.len(),
        (_, TagModel::Simple(typ)) => simple_value_size(v, typ),
        _ => 0,
    }
}

/// The bytes that the first `n` values of a list take.
pub open spec fn values_size(values: Seq<ValueModel>, tag: TagModel, n: int) -> nat
    decreases values, n,
{
    if n <= 0 || n > values.len() {
        0
    } else {
        values_size(values, tag, n - 1) + value_size(values[n - 1], tag)
    }
}

/// The bytes that the payload of a struct takes.
pub open spec fn struct_size(v: StructValueModel) -> nat
    decreases v, 0int,
{
    match v {
        StructValueModel::PropertyList { properties, has_none } => properties_size(
            properties,
            properties.len() as int,
        ) + if has_none {
            8nat
        } else {
            0nat
        },
        StructValueModel::Binary { bytes } => bytes.len(),
        StructValueModel::BinaryProperties { entries } => entries_size(
            entries,
            entries.len() as int,
        ),
        StructValueModel::Int { size, .. } => size as nat,
        StructValueModel::UInt { size, .. } => size as nat,
        StructValueModel::Floating { size, .. } => size as nat,
        StructValueModel::Enum { .. } => 1,
    }
}

/// The bytes that the first `n` named parts of a struct take.
pub open spec fn entries_size(entries: Seq<(Seq<char>, StructValueModel)>, n: int) -> nat
    decreases entries, n,
{
    if n <= 0 || n > entries.len() {
        0
    } else {
        entries_size(entries, n - 1) + struct_size(entries[n - 1].1)
    }
}

/// The bytes that a property takes: 24 for its meta, its tag, the zero
/// byte, its value.
pub open spec fn property_size(p: PropertyModel) -> nat
    decreases p, 0int,
{
    24 + tag_size(p.tag) + 1 + value_size(p.value, p.tag)
}

/// The bytes that the first `n` properties of a list take.
pub open spec fn properties_size(properties: Seq<PropertyModel>, n: int) -> nat
    decreases properties, n,
{
    if n <= 0 || n > properties.len() {
        0
    } else {
        properties_size(properties, n - 1) + property_size(properties[n - 1])
    }
}

/// A longer part of a list takes no fewer bytes.
pub proof fn lemma_values_size_grows(values: Seq<ValueModel>, tag: TagModel, i: int, n: int)
    requires
        0 <= i <= n <= values.len(),
    ensures
        values_size(values, tag, i) <= values_size(values, tag, n),
    decreases n - i,
{
    if i < n {
        lemma_values_size_grows(values, tag, i, n - 1);
    }
}

/// A longer part of a map takes no fewer bytes.
pub proof fn lemma_map_entries_size_grows(
    entries: Seq<(ValueModel, ValueModel)>,
    key_type: PropType,
    value_type: PropType,
    i: int,
    n: int,
)
    requires
        0 <= i <= n,
    ensures
        map_entries_size(entries, key_type, value_type, i) <= map_entries_size(
            entries,
            key_type,
            value_type,
            n,
        ),
    decreases n - i,
{
    if i < n {
        lemma_map_entries_size_grows(entries, key_type, value_type, i, n - 1);
    }
}

/// A longer run of parts takes no fewer bytes.
pub proof fn lemma_entries_size_grows(entries: Seq<(Seq<char>, StructValueModel)>, i: int, n: int)
    requires
        0 <= i <= n <= entries.len(),
    ensures
        entries_size(entries, i) <= entries_size(entries, n),
    decreases n - i,
{
    if i < n {
        lemma_entries_size_grows(entries, i, n - 1);
    }
}

/// A longer part of a list takes no fewer bytes.
pub proof fn lemma_properties_size_grows(properties: Seq<PropertyModel>, i: int, n: int)
    requires
        0 <= i <= n <= properties.len(),
    ensures
        properties_size(properties, i) <= properties_size(properties, n),
    decreases n - i,
{
    if i < n {
        lemma_properties_size_grows(properties, i, n - 1);
    }
}

/// Once a value of a list cannot be written, no longer part of the list can.
pub proof fn lemma_enc_values_fails(
    values: Seq<ValueModel>,
    tag: TagModel,
    env: Env,
    i: int,
    n: int,
)
    requires
        0 < i <= n <= values.len(),
        enc_values(values, tag, env, i) is Err,
    ensures
        enc_values(values, tag, env, n) == enc_values(values, tag, env, i),
    decreases n - i,
{
    if i < n {
        lemma_enc_values_fails(values, tag, env, i, n - 1);
    }
}

/// Once a pair of a map cannot be written, no longer part of the map can.
pub proof fn lemma_enc_map_entries_fails(
    entries: Seq<(ValueModel, ValueModel)>,
    key_type: PropType,
    value_type: PropType,
    env: Env,
    i: int,
    n: int,
)
    requires
        0 < i <= n,
        enc_map_entries(entries, key_type, value_type, env, i) is Err,
    ensures
        enc_map_entries(entries, key_type, value_type, env, n) == enc_map_entries(
            entries,
            key_type,
            value_type,
            env,
            i,
        ),
    decreases n - i,
{
    if i < n {
        lemma_enc_map_entries_fails(entries, key_type, value_type, env, i, n - 1);
    }
}

/// Once a part of a struct cannot be written, no longer run of parts can.
pub proof fn lemma_enc_entries_fails(
    entries: Seq<(Seq<char>, StructValueModel)>,
    env: Env,
    i: int,
    n: int,
)
    requires
        0 < i <= n <= entries.len(),
        enc_entries(entries, env, i) is Err,
    ensures
        enc_entries(entries, env, n) == enc_entries(entries, env, i),
    decreases n - i,
{
    if i < n {
        lemma_enc_entries_fails(entries, env, i, n - 1);
    }
}

/// Once a property of a list cannot be written, no longer part of the list can.
pub proof fn lemma_enc_properties_fails(properties: Seq<PropertyModel>, env: Env, i: int, n: int)
    requires
        0 < i <= n <= properties.len(),
        enc_properties(properties, env, i) is Err,
    ensures
        enc_properties(properties, env, n) == enc_properties(properties, env, i),
    decreases n - i,
{
    if i < n {
        lemma_enc_properties_fails(properties, env, i, n - 1);
    }
}

} // verus!
