pub mod bag;
pub mod context;
pub mod encode;
pub mod laws;
pub mod loaders;
pub mod meta;
pub mod prop_type;
pub mod round_trip;
pub mod struct_pattern;
pub mod struct_types;
pub mod value;
pub mod write_back;

use vstd::prelude::*;
use crate::asset::name_map::parse_name_variant;
use crate::asset::name_map::surface;
use crate::asset::name_map::NameVariant;
use crate::asset::property::context::Env;
use crate::asset::property::context::PropertyContext;
use crate::asset::name_map::lemma_first_unique;
use crate::asset::property::encode::element_tag;
use crate::asset::property::encode::entries_size;
use crate::asset::property::encode::lemma_entries_size_grows;
use crate::asset::property::encode::lemma_map_entries_size_grows;
use crate::asset::property::encode::lemma_properties_size_grows;
use crate::asset::property::encode::lemma_values_size_grows;
use crate::asset::property::encode::map_entries_size;
use crate::asset::property::encode::properties_size;
use crate::asset::property::encode::property_size;
use crate::asset::property::encode::struct_size;
use crate::asset::property::encode::value_size;
use crate::asset::property::encode::values_size;
use crate::asset::property::loaders::simple_value_size;
use crate::asset::property::loaders::size_of_tag;
use crate::asset::property::loaders::tag_size;
use crate::asset::property::value::meta_tag_model;
use crate::asset::property::encode::enc_element_header;
use crate::asset::property::encode::enc_entries;
use crate::asset::property::encode::enc_map_entries;
use crate::asset::property::encode::enc_none;
use crate::asset::property::encode::enc_properties;
use crate::asset::property::encode::enc_property;
use crate::asset::property::encode::enc_struct;
use crate::asset::property::encode::enc_unsigned;
use crate::asset::property::encode::enc_value;
use crate::asset::property::encode::enc_values;
use crate::asset::property::encode::fits_unsigned;
use crate::asset::property::encode::lemma_enc_entries_fails;
use crate::asset::property::encode::lemma_enc_map_entries_fails;
use crate::asset::property::encode::lemma_enc_properties_fails;
use crate::asset::property::encode::lemma_enc_values_fails;
use crate::asset::property::loaders::enc_simple_value;
use crate::asset::property::loaders::enc_tag;
use crate::asset::property::loaders::serialize_simple;
use crate::asset::property::loaders::serialize_tag;
use crate::asset::property::loaders::tag_matches;
use crate::asset::property::loaders::wrote;
use crate::asset::property::loaders::wrote_in;
use crate::asset::property::encode::element_header_trail;
use crate::asset::property::encode::enc_map_entries_trail;
use crate::asset::property::encode::enc_properties_trail;
use crate::asset::property::encode::enc_property_trail;
use crate::asset::property::encode::enc_struct_trail;
use crate::asset::property::encode::enc_value_trail;
use crate::asset::property::encode::enc_values_trail;
use crate::asset::property::encode::lemma_enc_entries_trail_fails;
use crate::asset::property::encode::lemma_enc_map_entries_trail_fails;
use crate::asset::property::encode::lemma_enc_properties_trail_fails;
use crate::asset::property::encode::lemma_enc_values_trail_fails;
use crate::asset::property::meta::enc_meta;
use crate::util::enc_u32;
use crate::util::write_bytes;
use crate::util::write_i32;
use crate::util::write_i64;
use crate::util::write_u16;
use crate::util::write_u32;
use crate::util::write_u64;
use crate::util::write_u8;
use crate::asset::property::loaders::deserialize_simple;
use crate::asset::property::loaders::deserialize_tag;
use crate::asset::property::loaders::parse_simple_value;
use crate::asset::property::loaders::parse_struct_tag;
use crate::asset::property::loaders::parse_tag;
use crate::asset::property::loaders::deserialize_struct_tag;
use crate::asset::property::meta::parse_meta;
use crate::asset::property::meta::Meta;
use crate::asset::property::prop_type::is_simple;
use crate::asset::property::prop_type::PropType;
use crate::asset::property::struct_pattern::pattern_for;
use crate::asset::property::struct_pattern::is_float_width;
use crate::asset::property::struct_pattern::is_int_width;
use crate::asset::property::struct_pattern::FieldModel;
use crate::asset::property::struct_pattern::PatternModel;
use crate::asset::property::struct_pattern::StructPattern;
use crate::asset::property::struct_pattern::StructPatterns;
use crate::asset::property::value::property_models;
use crate::asset::property::value::value_models;
use crate::asset::property::value::Property;
use crate::asset::property::value::PropertyModel;
use crate::asset::property::value::StructValue;
use crate::asset::property::value::StructValueModel;
use crate::asset::property::value::Tag;
use crate::asset::property::value::TagModel;
use crate::asset::property::value::Value;
use crate::asset::property::value::ValueModel;
use crate::error::fails_with;
use crate::error::unplaced;
use crate::error::Error;
use crate::error::Failure;
use crate::error::Place;
use crate::reader::ByteReader;
use crate::util::avail;
use crate::util::i32_at;
use crate::util::i64_at;
use crate::util::parse_bytes;
use crate::util::parse_u32;
use crate::util::parse_u8;
use crate::util::read_bytes;
use crate::util::read_i32;
use crate::util::read_i64;
use crate::util::read_u16;
use crate::util::read_u32;
use crate::util::read_u64;
use crate::util::read_u8;
use crate::util::u16_at;
use crate::util::u32_at;
use crate::util::u64_at;

verus! {

/* What the bytes of a property bag hold */

/// `count` values of a simple type in a row.
pub open spec fn parse_simple_values(
    d: Seq<u8>,
    p: int,
    e: int,
    env: Env,
    typ: PropType,
    max_size: u64,
    count: nat,
    acc: Seq<ValueModel>,
) -> Result<(Seq<ValueModel>, int), Error>
    decreases count,
{
    if count == 0 {
        Ok((acc, p))
    } else {
        match parse_simple_value(d, p, e, env, typ, max_size) {
            Err(err) => Err(err),
            Ok((v, q)) => parse_simple_values(
                d,
                q,
                e,
                env,
                typ,
                max_size,
                (count - 1) as nat,
                acc.push(v),
            ),
        }
    }
}

/// `count` pairs of a key and a value of simple types in a row.
pub open spec fn parse_map_entries(
    d: Seq<u8>,
    p: int,
    e: int,
    env: Env,
    key_type: PropType,
    value_type: PropType,
    max_size: u64,
    count: nat,
    acc: Seq<(ValueModel, ValueModel)>,
) -> Result<(Seq<(ValueModel, ValueModel)>, int), Error>
    decreases count,
{
    if count == 0 {
        Ok((acc, p))
    } else {
        match parse_simple_value(d, p, e, env, key_type, max_size) {
            Err(err) => Err(err),
            Ok((k, q)) => match parse_simple_value(d, q, e, env, value_type, max_size) {
                Err(err) => Err(err),
                Ok((v, q2)) => parse_map_entries(
                    d,
                    q2,
                    e,
                    env,
                    key_type,
                    value_type,
                    max_size,
                    (count - 1) as nat,
                    acc.push((k, v)),
                ),
            },
        }
    }
}

/// The signed number that `size` bytes hold.
pub open spec fn signed_at(d: Seq<u8>, p: int, size: u8) -> i64 {
    if size == 1 {
        (d[p] as i8) as i64
    } else if size == 2 {
        (u16_at(d, p) as i16) as i64
    } else if size == 4 {
        i32_at(d, p) as i64
    } else {
        i64_at(d, p)
    }
}

/// The unsigned number that `size` bytes hold.
pub open spec fn unsigned_at(d: Seq<u8>, p: int, size: u8) -> u64 {
    if size == 1 {
        d[p] as u64
    } else if size == 2 {
        u16_at(d, p) as u64
    } else if size == 4 {
        u32_at(d, p) as u64
    } else {
        u64_at(d, p)
    }
}

/// The struct type that a struct tag names, as the text that patterns are
/// looked up by.
pub open spec fn struct_type_text(struct_type: NameVariant, env: Env) -> Seq<char> {
    surface(env.names[struct_type.name_idx as int].name, struct_type.variant)
}

/// Where the value of a property ends at the latest: `size` bytes behind
/// its start, but not behind the end of the data.
pub open spec fn value_bound(d: Seq<u8>, p: int, size: u64) -> int {
    if p + size < d.len() {
        p + size
    } else {
        d.len() as int
    }
}

/// A property: its meta, its tag, a zero byte, and its value, which is
/// read with `size` bytes as its bound. `None` where a `None` name stands
/// in place of a meta.
pub open spec fn parse_property(d: Seq<u8>, p: int, e: int, env: Env) -> Result<
    (Option<PropertyModel>, int),
    Error,
>
    decreases d.len() - p, 0int,
{
    match parse_meta(d, p, e, env.names) {
        Err(err) => Err(err),
        Ok((None, q)) => Ok((None, q)),
        Ok((Some(meta), q1)) => match parse_tag(d, q1, e, env.names, meta.typ) {
            Err(err) => Err(err),
            Ok((tag, q2)) => if 1 > avail(q2, e) {
                Err(Error::PrematureEof)
            } else if q2 + 1 + meta.size > usize::MAX {
                Err(Error::TooLong)
            } else if !(p < q2 + 1 <= d.len()) {
                Err(Error::PrematureEof)
            } else {
                match parse_value(
                    d,
                    q2 + 1,
                    value_bound(d, q2 + 1, meta.size),
                    env,
                    tag,
                    meta.size,
                ) {
                    Err(err) => Err(err),
                    Ok((value, q3)) => Ok((Some(PropertyModel { meta, tag, value }), q3)),
                }
            },
        },
    }
}

/// Properties in a row, up to a `None` name or up to `stop`. The flag
/// says whether a `None` name ended them.
pub open spec fn parse_properties(
    d: Seq<u8>,
    p: int,
    e: int,
    stop: int,
    env: Env,
    acc: Seq<PropertyModel>,
) -> Result<((Seq<PropertyModel>, bool), int), Error>
    decreases d.len() - p, 1int,
{
    if p >= stop {
        Ok(((acc, false), p))
    } else {
        match parse_property(d, p, e, env) {
            Err(err) => Err(err),
            Ok((None, q)) => Ok(((acc, true), q)),
            Ok((Some(property), q)) => if !(p < q <= d.len()) {
                Err(Error::PrematureEof)
            } else {
                parse_properties(d, q, e, stop, env, acc.push(property))
            },
        }
    }
}

/* Where reading fails: the parts that were entered, the outermost first */

/// The part of a property that cannot be read, where there is one: its
/// meta, its tag, or a part of its value.
pub open spec fn property_trail(d: Seq<u8>, p: int, e: int, env: Env) -> Seq<Place>
    decreases d.len() - p, 0int,
{
    match parse_meta(d, p, e, env.names) {
        Err(_) => seq![Place::Meta],
        Ok((None, _)) => Seq::empty(),
        Ok((Some(meta), q1)) => match parse_tag(d, q1, e, env.names, meta.typ) {
            Err(_) => seq![Place::Tag],
            Ok((tag, q2)) => if 1 > avail(q2, e) || q2 + 1 + meta.size > usize::MAX || !(p < q2 + 1
                <= d.len()) {
                Seq::empty()
            } else {
                value_trail(d, q2 + 1, value_bound(d, q2 + 1, meta.size), env, tag, meta.size)
            },
        },
    }
}

/// The property of a list at which the list can be read no further,
/// and the part of it that cannot be read.
pub open spec fn properties_trail(d: Seq<u8>, p: int, e: int, stop: int, env: Env) -> Seq<Place>
    decreases d.len() - p, 1int,
{
    if p >= stop {
        Seq::empty()
    } else {
        match parse_property(d, p, e, env) {
            Err(_) => seq![Place::Property(p as u64)] + property_trail(d, p, e, env),
            Ok((None, _)) => Seq::empty(),
            Ok((Some(_), q)) => if !(p < q <= d.len()) {
                Seq::empty()
            } else {
                properties_trail(d, q, e, stop, env)
            },
        }
    }
}

/// The part of the payload of a struct that cannot be read, where
/// there is one: a property of its list, or a named part.
pub open spec fn struct_trail(d: Seq<u8>, p: int, e: int, env: Env, pattern: PatternModel) -> Seq<
    Place,
>
    decreases d.len() - p, 3int, pattern,
{
    match pattern {
        PatternModel::PropertyList => properties_trail(d, p, e, e, env),
        PatternModel::BinaryProperties { properties } => fields_trail(d, p, e, env, properties, 0),
        _ => Seq::empty(),
    }
}

/// The named part of a struct, from the `i`-th on, that cannot be
/// read, and the part of it that cannot.
pub open spec fn fields_trail(
    d: Seq<u8>,
    p: int,
    e: int,
    env: Env,
    fields: Seq<FieldModel>,
    i: int,
) -> Seq<Place>
    decreases d.len() - p, 3int, fields, fields.len() - i,
{
    if i < 0 || i >= fields.len() {
        Seq::empty()
    } else {
        match parse_struct(d, p, e, env, fields[i].pattern) {
            Err(_) => seq![Place::Field(i as usize)] + struct_trail(
                d,
                p,
                e,
                env,
                fields[i].pattern,
            ),
            Ok((_, q)) => if !(p <= q <= d.len()) {
                Seq::empty()
            } else {
                fields_trail(d, q, e, env, fields, i + 1)
            },
        }
    }
}

/// The struct, of `count` in a row of which `i` were read, that cannot
/// be read, and the part of it that cannot.
pub open spec fn structs_trail(
    d: Seq<u8>,
    p: int,
    e: int,
    env: Env,
    pattern: PatternModel,
    count: nat,
    i: nat,
) -> Seq<Place>
    decreases d.len() - p, 4int, pattern, count,
{
    if count == 0 {
        Seq::empty()
    } else {
        match parse_struct(d, p, e, env, pattern) {
            Err(_) => seq![Place::Element(i as usize)] + struct_trail(d, p, e, env, pattern),
            Ok((_, q)) => if !(p <= q <= d.len()) {
                Seq::empty()
            } else {
                structs_trail(d, q, e, env, pattern, (count - 1) as nat, i + 1)
            },
        }
    }
}

/// The value, of `count` of a simple type in a row of which `i` were
/// read, that cannot be read.
pub open spec fn simple_values_trail(
    d: Seq<u8>,
    p: int,
    e: int,
    env: Env,
    typ: PropType,
    max_size: u64,
    count: nat,
    i: nat,
) -> Seq<Place>
    decreases count,
{
    if count == 0 {
        Seq::empty()
    } else {
        match parse_simple_value(d, p, e, env, typ, max_size) {
            Err(_) => seq![Place::Element(i as usize)],
            Ok((_, q)) => simple_values_trail(
                d,
                q,
                e,
                env,
                typ,
                max_size,
                (count - 1) as nat,
                i + 1,
            ),
        }
    }
}

/// The key or the value, of `count` pairs in a row of which `i` were
/// read, that cannot be read.
pub open spec fn map_entries_trail(
    d: Seq<u8>,
    p: int,
    e: int,
    env: Env,
    key_type: PropType,
    value_type: PropType,
    max_size: u64,
    count: nat,
    i: nat,
) -> Seq<Place>
    decreases count,
{
    if count == 0 {
        Seq::empty()
    } else {
        match parse_simple_value(d, p, e, env, key_type, max_size) {
            Err(_) => seq![Place::Key(i as usize)],
            Ok((_, q)) => match parse_simple_value(d, q, e, env, value_type, max_size) {
                Err(_) => seq![Place::Value(i as usize)],
                Ok((_, q2)) => map_entries_trail(
                    d,
                    q2,
                    e,
                    env,
                    key_type,
                    value_type,
                    max_size,
                    (count - 1) as nat,
                    i + 1,
                ),
            },
        }
    }
}

/// The part of an array of structs that cannot be read, where there is
/// one: the meta or the tag that announce the elements, or an element.
pub open spec fn struct_array_trail(d: Seq<u8>, p: int, e: int, env: Env) -> Seq<Place>
    decreases d.len() - p, 5int,
{
    match parse_u32(d, p, e) {
        Err(_) => Seq::empty(),
        Ok((count, q)) => match parse_meta(d, q, e, env.names) {
            Err(_) => seq![Place::Meta],
            Ok((None, _)) => Seq::empty(),
            Ok((Some(_), q1)) => match parse_struct_tag(d, q1, e, env.names) {
                Err(_) => seq![Place::Tag],
                Ok((tag, q2)) => if 1 > avail(q2, e) || !(p < q2 + 1 <= d.len()) {
                    Seq::empty()
                } else {
                    structs_trail(
                        d,
                        q2 + 1,
                        e,
                        env,
                        pattern_for(
                            env.patterns,
                            struct_type_text(tag->Struct_struct_type, env),
                        ),
                        count as nat,
                        0,
                    )
                },
            },
        },
    }
}

/// The part of a value that cannot be read, where there is one: an
/// element of an array, a key or a value of a map, a part of a struct.
pub open spec fn value_trail(
    d: Seq<u8>,
    p: int,
    e: int,
    env: Env,
    tag: TagModel,
    max_size: u64,
) -> Seq<Place>
    decreases d.len() - p, 6int,
{
    match tag {
        TagModel::Array { inner_type } => if is_simple(inner_type) {
            match parse_u32(d, p, e) {
                Err(_) => Seq::empty(),
                Ok((count, q)) => simple_values_trail(
                    d,
                    q,
                    e,
                    env,
                    inner_type,
                    max_size,
                    count as nat,
                    0,
                ),
            }
        } else if inner_type == PropType::StructProperty {
            struct_array_trail(d, p, e, env)
        } else {
            Seq::empty()
        },
        TagModel::Mapping { key_type, value_type } => if is_simple(key_type) && is_simple(
            value_type,
        ) && 8 <= avail(p, e) {
            map_entries_trail(
                d,
                p + 8,
                e,
                env,
                key_type,
                value_type,
                max_size,
                u32_at(d, p + 4) as nat,
                0,
            )
        } else {
            Seq::empty()
        },
        TagModel::Struct { struct_type, guid } => if struct_type.name_idx >= env.names.len() {
            Seq::empty()
        } else {
            struct_trail(
                d,
                p,
                e,
                env,
                pattern_for(env.patterns, struct_type_text(struct_type, env)),
            )
        },
        _ => Seq::empty(),
    }
}

/// The payload of a struct, laid out as the pattern says.
pub open spec fn parse_struct(d: Seq<u8>, p: int, e: int, env: Env, pattern: PatternModel) -> Result<
    (StructValueModel, int),
    Error,
>
    decreases d.len() - p, 3int, pattern,
{
    match pattern {
        PatternModel::PropertyList => match parse_properties(d, p, e, e, env, Seq::empty()) {
            Err(err) => Err(err),
            Ok(((properties, has_none), q)) => Ok(
                (StructValueModel::PropertyList { properties, has_none }, q),
            ),
        },
        PatternModel::Binary { size } => match parse_bytes(d, p, e, size as int) {
            Err(err) => Err(err),
            Ok((bytes, q)) => Ok((StructValueModel::Binary { bytes }, q)),
        },
        PatternModel::BinaryProperties { properties } => match parse_fields(
            d,
            p,
            e,
            env,
            properties,
            0,
            Seq::empty(),
        ) {
            Err(err) => Err(err),
            Ok((entries, q)) => Ok((StructValueModel::BinaryProperties { entries }, q)),
        },
        PatternModel::Int { size } => if !is_int_width(size as int) {
            Err(Error::InvalidWidth)
        } else if size > avail(p, e) {
            Err(Error::PrematureEof)
        } else {
            Ok((StructValueModel::Int { size, value: signed_at(d, p, size) }, p + size))
        },
        PatternModel::UInt { size } => if !is_int_width(size as int) {
            Err(Error::InvalidWidth)
        } else if size > avail(p, e) {
            Err(Error::PrematureEof)
        } else {
            Ok((StructValueModel::UInt { size, value: unsigned_at(d, p, size) }, p + size))
        },
        PatternModel::Floating { size } => if !is_float_width(size as int) {
            Err(Error::InvalidWidth)
        } else if size > avail(p, e) {
            Err(Error::PrematureEof)
        } else {
            Ok((StructValueModel::Floating { size, value: unsigned_at(d, p, size) }, p + size))
        },
        PatternModel::Enum { variants } => match parse_u8(d, p, e) {
            Err(err) => Err(err),
            Ok((index, q)) => if index >= variants.len() {
                Err(Error::IndexOutOfRange)
            } else {
                Ok((StructValueModel::Enum { variants, index }, q))
            },
        },
    }
}

/// The named parts of a struct from the `i`-th on, one after the other.
pub open spec fn parse_fields(
    d: Seq<u8>,
    p: int,
    e: int,
    env: Env,
    fields: Seq<FieldModel>,
    i: int,
    acc: Seq<(Seq<char>, StructValueModel)>,
) -> Result<(Seq<(Seq<char>, StructValueModel)>, int), Error>
    decreases d.len() - p, 3int, fields, fields.len() - i,
{
    if i < 0 || i >= fields.len() {
        Ok((acc, p))
    } else {
        match parse_struct(d, p, e, env, fields[i].pattern) {
            Err(err) => Err(err),
            Ok((value, q)) => if !(p <= q <= d.len()) {
                Err(Error::PrematureEof)
            } else {
                parse_fields(d, q, e, env, fields, i + 1, acc.push((fields[i].name, value)))
            },
        }
    }
}

/// `count` structs of one pattern in a row.
pub open spec fn parse_structs(
    d: Seq<u8>,
    p: int,
    e: int,
    env: Env,
    pattern: PatternModel,
    count: nat,
    acc: Seq<ValueModel>,
) -> Result<(Seq<ValueModel>, int), Error>
    decreases d.len() - p, 4int, pattern, count,
{
    if count == 0 {
        Ok((acc, p))
    } else {
        match parse_struct(d, p, e, env, pattern) {
            Err(err) => Err(err),
            Ok((value, q)) => if !(p <= q <= d.len()) {
                Err(Error::PrematureEof)
            } else {
                parse_structs(
                    d,
                    q,
                    e,
                    env,
                    pattern,
                    (count - 1) as nat,
                    acc.push(ValueModel::Struct { value }),
                )
            },
        }
    }
}

/// The elements of an array of structs: a count, the header that
/// announces the elements (a meta, a struct tag, a zero byte), then the
/// elements.
pub open spec fn parse_struct_array(d: Seq<u8>, p: int, e: int, env: Env) -> Result<
    (ValueModel, int),
    Error,
>
    decreases d.len() - p, 5int,
{
    match parse_u32(d, p, e) {
        Err(err) => Err(err),
        Ok((count, q)) => match parse_meta(d, q, e, env.names) {
            Err(err) => Err(err),
            Ok((None, _)) => Err(Error::MissingElementHeader),
            Ok((Some(meta), q1)) => match parse_struct_tag(d, q1, e, env.names) {
                Err(err) => Err(err),
                Ok((tag, q2)) => if 1 > avail(q2, e) {
                    Err(Error::PrematureEof)
                } else if !(p < q2 + 1 <= d.len()) {
                    Err(Error::PrematureEof)
                } else {
                    match parse_structs(
                        d,
                        q2 + 1,
                        e,
                        env,
                        pattern_for(
                            env.patterns,
                            struct_type_text(tag->Struct_struct_type, env),
                        ),
                        count as nat,
                        Seq::empty(),
                    ) {
                        Err(err) => Err(err),
                        Ok((values, q3)) => Ok(
                            (ValueModel::Array { meta_tag: Some((meta, tag)), values }, q3),
                        ),
                    }
                },
            },
        },
    }
}

/// The value of a property with the given tag. `max_size` is the size
/// that the property declares; a value whose layout is not known is that
/// many bytes.
pub open spec fn parse_value(
    d: Seq<u8>,
    p: int,
    e: int,
    env: Env,
    tag: TagModel,
    max_size: u64,
) -> Result<(ValueModel, int), Error>
    decreases d.len() - p, 6int,
{
    match tag {
        TagModel::Simple(typ) => parse_simple_value(d, p, e, env, typ, max_size),
        TagModel::Bool(_) => Ok((ValueModel::Bool, p)),
        TagModel::Enum(_) => match parse_name_variant(d, p, e, env.names.len() as int) {
            Err(err) => Err(err),
            Ok((n, q)) => Ok((ValueModel::Enum(n), q)),
        },
        TagModel::Array { inner_type } => if is_simple(inner_type) {
            match parse_u32(d, p, e) {
                Err(err) => Err(err),
                Ok((count, q)) => match parse_simple_values(
                    d,
                    q,
                    e,
                    env,
                    inner_type,
                    max_size,
                    count as nat,
                    Seq::empty(),
                ) {
                    Err(err) => Err(err),
                    Ok((values, q2)) => Ok((ValueModel::Array { meta_tag: None, values }, q2)),
                },
            }
        } else if inner_type == PropType::StructProperty {
            parse_struct_array(d, p, e, env)
        } else {
            match parse_bytes(d, p, e, max_size as int) {
                Err(err) => Err(err),
                Ok((data, q)) => Ok((ValueModel::RawData { data }, q)),
            }
        },
        TagModel::Mapping { key_type, value_type } => if is_simple(key_type) && is_simple(
            value_type,
        ) {
            if 8 > avail(p, e) {
                Err(Error::PrematureEof)
            } else {
                match parse_map_entries(
                    d,
                    p + 8,
                    e,
                    env,
                    key_type,
                    value_type,
                    max_size,
                    u32_at(d, p + 4) as nat,
                    Seq::empty(),
                ) {
                    Err(err) => Err(err),
                    Ok((entries, q)) => Ok(
                        (ValueModel::Mapping { num_keys_to_remove: u32_at(d, p), entries }, q),
                    ),
                }
            }
        } else {
            match parse_bytes(d, p, e, max_size as int) {
                Err(err) => Err(err),
                Ok((data, q)) => Ok((ValueModel::RawData { data }, q)),
            }
        },
        TagModel::Struct { struct_type, guid } => if struct_type.name_idx >= env.names.len() {
            Err(Error::MissingName)
        } else {
            match parse_struct(
                d,
                p,
                e,
                env,
                pattern_for(env.patterns, struct_type_text(struct_type, env)),
            ) {
                Err(err) => Err(err),
                Ok((value, q)) => Ok((ValueModel::Struct { value }, q)),
            }
        },
    }
}

/* Reading */

/// A property that may be absent, as plain values.
pub open spec fn option_model(p: Option<Property>) -> Option<PropertyModel> {
    match p {
        Some(p) => Some(p@),
        None => None,
    }
}

/// The named parts of a struct value as plain values.
pub open spec fn entry_models(entries: Seq<(String, StructValue)>) -> Seq<
    (Seq<char>, StructValueModel),
> {
    Seq::new(entries.len(), |i: int| (entries[i].0@, entries[i].1@))
}

/// The pairs of a map as plain values.
pub open spec fn pair_models(entries: Seq<(Value, Value)>) -> Seq<(ValueModel, ValueModel)> {
    Seq::new(entries.len(), |i: int| (entries[i].0@, entries[i].1@))
}

/// Reads `count` values of a simple type.
fn read_simple_values(
    rdr: &mut ByteReader,
    typ: PropType,
    max_size: u64,
    count: u32,
    ctx: PropertyContext,
) -> (r: Result<Vec<Value>, Failure>)
    ensures
        final(rdr)@.data == old(rdr)@.data,
        final(rdr)@.limits == old(rdr)@.limits,
        match parse_simple_values(
            old(rdr)@.data,
            old(rdr)@.pos as int,
            old(rdr)@.bound(),
            ctx@,
            typ,
            max_size,
            count as nat,
            Seq::empty(),
        ) {
            Ok((m, q)) => r is Ok && value_models(r->Ok_0@) == m && final(rdr)@.pos == q,
            Err(e) => fails_with(
                r,
                e,
                simple_values_trail(
                    old(rdr)@.data,
                    old(rdr)@.pos as int,
                    old(rdr)@.bound(),
                    ctx@,
                    typ,
                    max_size,
                    count as nat,
                    0,
                ),
            ),
        },
        r is Ok ==> final(rdr)@.pos >= old(rdr)@.pos,
{
    let ghost d = rdr@.data;
    let ghost e = rdr@.bound();
    let ghost p0 = rdr@.pos as int;
    let mut values: Vec<Value> = Vec::new();
    let mut i: u32 = 0;
    assert(value_models(values@) =~= Seq::empty());
    while i < count
        invariant
            0 <= i <= count,
            rdr@.data == d,
            rdr@.limits == old(rdr)@.limits,
            rdr@.bound() == e,
            rdr@.pos >= p0,
            d == old(rdr)@.data,
            e == old(rdr)@.bound(),
            p0 == old(rdr)@.pos,
            parse_simple_values(d, p0, e, ctx@, typ, max_size, count as nat, Seq::empty())
                == parse_simple_values(
                d,
                rdr@.pos as int,
                e,
                ctx@,
                typ,
                max_size,
                (count - i) as nat,
                value_models(values@),
            ),
            simple_values_trail(d, p0, e, ctx@, typ, max_size, count as nat, 0)
                == simple_values_trail(
                d,
                rdr@.pos as int,
                e,
                ctx@,
                typ,
                max_size,
                (count - i) as nat,
                i as nat,
            ),
        decreases count - i,
    {
        let ghost p = rdr@.pos as int;
        let ghost before = value_models(values@);
        let value = match deserialize_simple(rdr, typ, max_size, ctx) {
            Ok(value) => value,
            Err(err) => {
                assert(parse_simple_values(
                    d,
                    p,
                    e,
                    ctx@,
                    typ,
                    max_size,
                    (count - i) as nat,
                    before,
                ) == Err::<(Seq<ValueModel>, int), Error>(err));
                return Err(Failure::at(err, Place::Element(i as usize)));
            },
        };
        proof {
            lemma_simple_value_advances(d, p, e, ctx@, typ, max_size);
        }
        values.push(value);
        assert(value_models(values@) =~= before.push(value@));
        i = i + 1;
    }
    Ok(values)
}

/// Reading a value of a simple type does not move backwards.
pub proof fn lemma_simple_value_advances(
    d: Seq<u8>,
    p: int,
    e: int,
    env: Env,
    typ: PropType,
    max_size: u64,
)
    ensures
        parse_simple_value(d, p, e, env, typ, max_size) is Ok ==> parse_simple_value(
            d,
            p,
            e,
            env,
            typ,
            max_size,
        )->Ok_0.1 >= p,
{
}

/// Reads `count` pairs of a key and a value of simple types.
fn read_map_entries(
    rdr: &mut ByteReader,
    key_type: PropType,
    value_type: PropType,
    max_size: u64,
    count: u32,
    ctx: PropertyContext,
) -> (r: Result<Vec<(Value, Value)>, Failure>)
    ensures
        final(rdr)@.data == old(rdr)@.data,
        final(rdr)@.limits == old(rdr)@.limits,
        match parse_map_entries(
            old(rdr)@.data,
            old(rdr)@.pos as int,
            old(rdr)@.bound(),
            ctx@,
            key_type,
            value_type,
            max_size,
            count as nat,
            Seq::empty(),
        ) {
            Ok((m, q)) => r is Ok && pair_models(r->Ok_0@) == m && final(rdr)@.pos == q,
            Err(e) => fails_with(
                r,
                e,
                map_entries_trail(
                    old(rdr)@.data,
                    old(rdr)@.pos as int,
                    old(rdr)@.bound(),
                    ctx@,
                    key_type,
                    value_type,
                    max_size,
                    count as nat,
                    0,
                ),
            ),
        },
        r is Ok ==> final(rdr)@.pos >= old(rdr)@.pos,
{
    let ghost d = rdr@.data;
    let ghost e = rdr@.bound();
    let ghost p0 = rdr@.pos as int;
    let mut entries: Vec<(Value, Value)> = Vec::new();
    let mut i: u32 = 0;
    assert(pair_models(entries@) =~= Seq::empty());
    while i < count
        invariant
            0 <= i <= count,
            rdr@.data == d,
            rdr@.limits == old(rdr)@.limits,
            rdr@.bound() == e,
            rdr@.pos >= p0,
            d == old(rdr)@.data,
            e == old(rdr)@.bound(),
            p0 == old(rdr)@.pos,
            parse_map_entries(
                d,
                p0,
                e,
                ctx@,
                key_type,
                value_type,
                max_size,
                count as nat,
                Seq::empty(),
            ) == parse_map_entries(
                d,
                rdr@.pos as int,
                e,
                ctx@,
                key_type,
                value_type,
                max_size,
                (count - i) as nat,
                pair_models(entries@),
            ),
            map_entries_trail(
                d,
                p0,
                e,
                ctx@,
                key_type,
                value_type,
                max_size,
                count as nat,
                0,
            ) == map_entries_trail(
                d,
                rdr@.pos as int,
                e,
                ctx@,
                key_type,
                value_type,
                max_size,
                (count - i) as nat,
                i as nat,
            ),
        decreases count - i,
    {
        let ghost p = rdr@.pos as int;
        let ghost before = pair_models(entries@);
        let key = match deserialize_simple(rdr, key_type, max_size, ctx) {
            Ok(key) => key,
            Err(err) => {
                assert(parse_map_entries(
                    d,
                    p,
                    e,
                    ctx@,
                    key_type,
                    value_type,
                    max_size,
                    (count - i) as nat,
                    before,
                ) == Err::<(Seq<(ValueModel, ValueModel)>, int), Error>(err));
                return Err(Failure::at(err, Place::Key(i as usize)));
            },
        };
        let ghost pk = rdr@.pos as int;
        let value = match deserialize_simple(rdr, value_type, max_size, ctx) {
            Ok(value) => value,
            Err(err) => {
                assert(parse_map_entries(
                    d,
                    p,
                    e,
                    ctx@,
                    key_type,
                    value_type,
                    max_size,
                    (count - i) as nat,
                    before,
                ) == Err::<(Seq<(ValueModel, ValueModel)>, int), Error>(err));
                return Err(Failure::at(err, Place::Value(i as usize)));
            },
        };
        proof {
            lemma_simple_value_advances(d, p, e, ctx@, key_type, max_size);
            lemma_simple_value_advances(d, pk, e, ctx@, value_type, max_size);
        }
        let ghost pair = (key@, value@);
        entries.push((key, value));
        assert(pair_models(entries@) =~= before.push(pair));
        i = i + 1;
    }
    Ok(entries)
}

/// Whether properties go on at the position: before `stop`, or, without
/// one, before the bound of the reader.
fn goes_on(rdr: &ByteReader, stop: Option<u64>) -> (r: bool)
    ensures
        r == (rdr@.pos < stop_of(stop, rdr@.bound())),
{
    match stop {
        Some(stop) => rdr.position() < stop,
        None => rdr.available() > 0,
    }
}

/// The position at which a list of properties stops at the latest.
pub open spec fn stop_of(stop: Option<u64>, bound: int) -> int {
    match stop {
        Some(stop) => stop as int,
        None => bound,
    }
}

/// Reads properties up to a `None` name, or up to `stop`, or, without a
/// `stop`, up to the bound of the reader. The flag says whether a `None`
/// name ended them. A failure names the property that could not be
/// read, by where it starts, and the part of it that could not.
pub fn read_properties(rdr: &mut ByteReader, stop: Option<u64>, ctx: PropertyContext) -> (r: Result<
    (Vec<Property>, bool),
    Failure,
>)
    ensures
        final(rdr)@.data == old(rdr)@.data,
        final(rdr)@.limits == old(rdr)@.limits,
        match parse_properties(
            old(rdr)@.data,
            old(rdr)@.pos as int,
            old(rdr)@.bound(),
            stop_of(stop, old(rdr)@.bound()),
            ctx@,
            Seq::empty(),
        ) {
            Ok(((m, flag), q)) => r is Ok && property_models(r->Ok_0.0@) == m && r->Ok_0.1 == flag
                && final(rdr)@.pos == q,
            Err(e) => fails_with(
                r,
                e,
                properties_trail(
                    old(rdr)@.data,
                    old(rdr)@.pos as int,
                    old(rdr)@.bound(),
                    stop_of(stop, old(rdr)@.bound()),
                    ctx@,
                ),
            ),
        },
        r is Ok ==> final(rdr)@.pos >= old(rdr)@.pos,
    decreases old(rdr)@.data.len() - old(rdr)@.pos, 1int,
{
    let ghost d = rdr@.data;
    let ghost e = rdr@.bound();
    let ghost p0 = rdr@.pos as int;
    let ghost end = stop_of(stop, e);
    let mut properties: Vec<Property> = Vec::new();
    let mut go = goes_on(rdr, stop);
    let _ = rdr.position();
    assert(property_models(properties@) =~= Seq::empty());
    while go
        invariant
            rdr@.data == d,
            rdr@.limits == old(rdr)@.limits,
            rdr@.bound() == e,
            p0 <= rdr@.pos <= d.len(),
            d == old(rdr)@.data,
            e == old(rdr)@.bound(),
            p0 == old(rdr)@.pos,
            end == stop_of(stop, e),
            go ==> rdr@.pos < end && parse_properties(d, p0, e, end, ctx@, Seq::empty())
                == parse_properties(
                d,
                rdr@.pos as int,
                e,
                end,
                ctx@,
                property_models(properties@),
            ),
            !go ==> parse_properties(d, p0, e, end, ctx@, Seq::empty()) == Ok::<
                ((Seq<PropertyModel>, bool), int),
                Error,
            >(((property_models(properties@), false), rdr@.pos as int)),
            go ==> properties_trail(d, p0, e, end, ctx@) == properties_trail(
                d,
                rdr@.pos as int,
                e,
                end,
                ctx@,
            ),
        decreases d.len() - rdr@.pos, (if go { 1int } else { 0int }),
    {
        let ghost p = rdr@.pos as int;
        let ghost before = property_models(properties@);
        let start = rdr.position();
        let property = match Property::deserialize(rdr, ctx) {
            Ok(property) => property,
            Err(failure) => {
                assert(parse_properties(d, p, e, end, ctx@, before) == Err::<
                    ((Seq<PropertyModel>, bool), int),
                    Error,
                >(failure.error));
                return Err(failure.within(Place::Property(start)));
            },
        };
        let _ = rdr.position();
        match property {
            Some(property) => {
                properties.push(property);
                assert(property_models(properties@) =~= before.push(property@));
                go = goes_on(rdr, stop);
            },
            None => {
                assert(parse_properties(d, p, e, end, ctx@, before) == Ok::<
                    ((Seq<PropertyModel>, bool), int),
                    Error,
                >(((before, true), rdr@.pos as int)));
                return Ok((properties, true));
            },
        }
    }
    Ok((properties, false))
}

impl Property {
    /// Reads a property; `None` where a `None` name stands in its place.
    /// A failure names the part of the property that could not be read.
    pub fn deserialize(rdr: &mut ByteReader, ctx: PropertyContext) -> (r: Result<
        Option<Self>,
        Failure,
    >)
        ensures
            final(rdr)@.data == old(rdr)@.data,
            final(rdr)@.limits == old(rdr)@.limits,
            match parse_property(
                old(rdr)@.data,
                old(rdr)@.pos as int,
                old(rdr)@.bound(),
                ctx@,
            ) {
                Ok((m, q)) => r is Ok && option_model(r->Ok_0) == m && final(rdr)@.pos == q,
                Err(e) => fails_with(
                    r,
                    e,
                    property_trail(
                        old(rdr)@.data,
                        old(rdr)@.pos as int,
                        old(rdr)@.bound(),
                        ctx@,
                    ),
                ),
            },
            r is Ok ==> final(rdr)@.pos > old(rdr)@.pos,
        decreases old(rdr)@.data.len() - old(rdr)@.pos, 0int,
    {
        let meta = match Meta::deserialize(rdr, ctx) {
            Ok(Some(meta)) => meta,
            Ok(None) => {
                return Ok(None);
            },
            Err(err) => {
                return Err(Failure::at(err, Place::Meta));
            },
        };
        let tag = match deserialize_tag(rdr, ctx, meta.typ) {
            Ok(tag) => tag,
            Err(err) => {
                return Err(Failure::at(err, Place::Tag));
            },
        };
        let _ = unplaced(read_u8(rdr))?;
        let start = rdr.position();
        if meta.size > usize::MAX as u64 - start {
            return Err(Failure::plain(Error::TooLong));
        }
        rdr.limit(meta.size as usize);
        let value = deserialize_value(rdr, &tag, meta.size, ctx);
        rdr.unlimit();
        proof {
            assert(rdr@.limits =~= old(rdr)@.limits);
        }
        let value = value?;
        Ok(Some(Self { meta, tag, value }))
    }
}

/// Reads the value of a property with the given tag. A failure names
/// the part of the value that could not be read.
pub fn deserialize_value(rdr: &mut ByteReader, tag: &Tag, max_size: u64, ctx: PropertyContext) -> (r:
    Result<Value, Failure>)
    ensures
        final(rdr)@.data == old(rdr)@.data,
        final(rdr)@.limits == old(rdr)@.limits,
        match parse_value(
            old(rdr)@.data,
            old(rdr)@.pos as int,
            old(rdr)@.bound(),
            ctx@,
            tag@,
            max_size,
        ) {
            Ok((m, q)) => r is Ok && r->Ok_0@ == m && final(rdr)@.pos == q,
            Err(e) => fails_with(
                r,
                e,
                value_trail(
                    old(rdr)@.data,
                    old(rdr)@.pos as int,
                    old(rdr)@.bound(),
                    ctx@,
                    tag@,
                    max_size,
                ),
            ),
        },
        r is Ok ==> final(rdr)@.pos >= old(rdr)@.pos,
    decreases old(rdr)@.data.len() - old(rdr)@.pos, 7int,
{
    match tag {
        Tag::Simple(typ) => {
            proof {
                lemma_simple_value_advances(
                    rdr@.data,
                    rdr@.pos as int,
                    rdr@.bound(),
                    ctx@,
                    *typ,
                    max_size,
                );
            }
            unplaced(deserialize_simple(rdr, *typ, max_size, ctx))
        },
        Tag::Bool(_) => Ok(Value::Bool),
        Tag::Enum(_) => Ok(Value::Enum(unplaced(NameVariant::read(rdr, ctx.names))?)),
        Tag::Array { .. } => deserialize_array(rdr, tag, max_size, ctx),
        Tag::Mapping { .. } => deserialize_map(rdr, tag, max_size, ctx),
        Tag::Struct { .. } => deserialize_struct(rdr, tag, max_size, ctx),
    }
}

/// Reads `max_size` bytes as a value whose layout is not known.
fn deserialize_raw(rdr: &mut ByteReader, max_size: u64) -> (r: Result<Value, Error>)
    ensures
        final(rdr)@.data == old(rdr)@.data,
        final(rdr)@.limits == old(rdr)@.limits,
        match parse_bytes(
            old(rdr)@.data,
            old(rdr)@.pos as int,
            old(rdr)@.bound(),
            max_size as int,
        ) {
            Ok((data, q)) => r is Ok && r->Ok_0@ == (ValueModel::RawData { data }) && final(rdr)@.pos
                == q,
            Err(e) => r == Err::<Value, Error>(e),
        },
        r is Ok ==> final(rdr)@.pos >= old(rdr)@.pos,
{
    if max_size > rdr.available() as u64 {
        return Err(Error::PrematureEof);
    }
    let data = read_bytes(rdr, max_size as usize)?;
    Ok(Value::RawData { data })
}

/// Reads the elements of an array. Elements of a simple type follow
/// their count; structs follow their count and the header that announces
/// them; elements of any other type are kept as the bytes they are.
/// A tag that is not that of an array is refused.
pub fn deserialize_array(rdr: &mut ByteReader, tag: &Tag, max_size: u64, ctx: PropertyContext) -> (r:
    Result<Value, Failure>)
    ensures
        final(rdr)@.data == old(rdr)@.data,
        final(rdr)@.limits == old(rdr)@.limits,
        tag@ is Array ==> match parse_value(
            old(rdr)@.data,
            old(rdr)@.pos as int,
            old(rdr)@.bound(),
            ctx@,
            tag@,
            max_size,
        ) {
            Ok((m, q)) => r is Ok && r->Ok_0@ == m && final(rdr)@.pos == q,
            Err(e) => fails_with(
                r,
                e,
                value_trail(
                    old(rdr)@.data,
                    old(rdr)@.pos as int,
                    old(rdr)@.bound(),
                    ctx@,
                    tag@,
                    max_size,
                ),
            ),
        },
        !(tag@ is Array) ==> fails_with(r, Error::KindMismatch, Seq::empty()),
        r is Ok ==> final(rdr)@.pos >= old(rdr)@.pos,
    decreases old(rdr)@.data.len() - old(rdr)@.pos, 6int,
{
    let inner_type = match tag {
        Tag::Array { inner_type } => *inner_type,
        _ => {
            return Err(Failure::plain(Error::KindMismatch));
        },
    };
    if inner_type.is_simple() {
        let count = unplaced(read_u32(rdr))?;
        let values = read_simple_values(rdr, inner_type, max_size, count, ctx)?;
        let value = Value::Array { meta_tag: None, values };
        assert(value@->Array_values =~= value_models(values@));
        Ok(value)
    } else if inner_type == PropType::StructProperty {
        let ghost d = rdr@.data;
        let ghost e = rdr@.bound();
        let ghost p0 = rdr@.pos as int;
        let count = unplaced(read_u32(rdr))?;
        let meta = match Meta::deserialize(rdr, ctx) {
            Ok(Some(meta)) => meta,
            Ok(None) => {
                return Err(Failure::plain(Error::MissingElementHeader));
            },
            Err(err) => {
                return Err(Failure::at(err, Place::Meta));
            },
        };
        let inner_tag = match deserialize_struct_tag(rdr, ctx) {
            Ok(inner_tag) => inner_tag,
            Err(err) => {
                return Err(Failure::at(err, Place::Tag));
            },
        };
        let _ = unplaced(read_u8(rdr))?;
        let _ = rdr.position();
        let struct_type = match inner_tag {
            Tag::Struct { struct_type, .. } => struct_type,
            _ => {
                return Err(Failure::plain(Error::KindMismatch));
            },
        };
        let struct_name = struct_type.to_string(ctx.names);
        let pattern = ctx.patterns.pattern(struct_name.as_str());
        let ghost p1 = rdr@.pos as int;
        let ghost wanted = parse_value(d, p0, e, ctx@, tag@, max_size);
        let mut values: Vec<Value> = Vec::new();
        let mut i: u32 = 0;
        assert(value_models(values@) =~= Seq::empty());
        while i < count
            invariant
                0 <= i <= count,
                rdr@.data == d,
                rdr@.limits == old(rdr)@.limits,
                rdr@.bound() == e,
                p0 < p1 <= rdr@.pos <= d.len(),
                d == old(rdr)@.data,
                e == old(rdr)@.bound(),
                p0 == old(rdr)@.pos,
                tag@ is Array,
                wanted == parse_value(d, p0, e, ctx@, tag@, max_size),
                wanted == match parse_structs(
                    d,
                    p1,
                    e,
                    ctx@,
                    pattern@,
                    count as nat,
                    Seq::empty(),
                ) {
                    Err(err) => Err::<(ValueModel, int), Error>(err),
                    Ok((found, q)) => Ok::<(ValueModel, int), Error>(
                        (ValueModel::Array { meta_tag: Some((meta, inner_tag@)), values: found }, q),
                    ),
                },
                parse_structs(d, p1, e, ctx@, pattern@, count as nat, Seq::empty())
                    == parse_structs(
                    d,
                    rdr@.pos as int,
                    e,
                    ctx@,
                    pattern@,
                    (count - i) as nat,
                    value_models(values@),
                ),
                value_trail(d, p0, e, ctx@, tag@, max_size) == structs_trail(
                    d,
                    p1,
                    e,
                    ctx@,
                    pattern@,
                    count as nat,
                    0,
                ),
                structs_trail(d, p1, e, ctx@, pattern@, count as nat, 0) == structs_trail(
                    d,
                    rdr@.pos as int,
                    e,
                    ctx@,
                    pattern@,
                    (count - i) as nat,
                    i as nat,
                ),
            decreases count - i,
        {
            let ghost p = rdr@.pos as int;
            let ghost before = value_models(values@);
            let value = match pattern.deserialize(rdr, ctx) {
                Ok(value) => value,
                Err(failure) => {
                    assert(parse_structs(d, p, e, ctx@, pattern@, (count - i) as nat, before)
                        == Err::<(Seq<ValueModel>, int), Error>(failure.error));
                    return Err(failure.within(Place::Element(i as usize)));
                },
            };
            let _ = rdr.position();
            let ghost element = ValueModel::Struct { value: value@ };
            values.push(Value::Struct { value });
            assert(value_models(values@) =~= before.push(element));
            i = i + 1;
        }
        let value = Value::Array { meta_tag: Some((meta, inner_tag)), values };
        assert(value@->Array_values =~= value_models(values@));
        Ok(value)
    } else {
        unplaced(deserialize_raw(rdr, max_size))
    }
}

/// Reads the entries of a map. Where keys and values are of simple
/// types, the entries follow the number of keys to remove and their
/// count; else the map is kept as the bytes it is. A tag that is not that
/// of a map is refused.
pub fn deserialize_map(rdr: &mut ByteReader, tag: &Tag, max_size: u64, ctx: PropertyContext) -> (r:
    Result<Value, Failure>)
    ensures
        final(rdr)@.data == old(rdr)@.data,
        final(rdr)@.limits == old(rdr)@.limits,
        tag@ is Mapping ==> match parse_value(
            old(rdr)@.data,
            old(rdr)@.pos as int,
            old(rdr)@.bound(),
            ctx@,
            tag@,
            max_size,
        ) {
            Ok((m, q)) => r is Ok && r->Ok_0@ == m && final(rdr)@.pos == q,
            Err(e) => fails_with(
                r,
                e,
                value_trail(
                    old(rdr)@.data,
                    old(rdr)@.pos as int,
                    old(rdr)@.bound(),
                    ctx@,
                    tag@,
                    max_size,
                ),
            ),
        },
        !(tag@ is Mapping) ==> fails_with(r, Error::KindMismatch, Seq::empty()),
        r is Ok ==> final(rdr)@.pos >= old(rdr)@.pos,
{
    let (key_type, value_type) = match tag {
        Tag::Mapping { key_type, value_type } => (*key_type, *value_type),
        _ => {
            return Err(Failure::plain(Error::KindMismatch));
        },
    };
    if key_type.is_simple() && value_type.is_simple() {
        if rdr.available() < 8 {
            return Err(Failure::plain(Error::PrematureEof));
        }
        let num_keys_to_remove = unplaced(read_u32(rdr))?;
        let num_entries = unplaced(read_u32(rdr))?;
        let entries = read_map_entries(rdr, key_type, value_type, max_size, num_entries, ctx)?;
        let value = Value::Mapping { num_keys_to_remove, entries };
        assert(value@->Mapping_entries =~= pair_models(entries@));
        Ok(value)
    } else {
        unplaced(deserialize_raw(rdr, max_size))
    }
}

/// Reads a struct, laid out as the pattern of its type says. A tag that
/// is not that of a struct is refused.
pub fn deserialize_struct(rdr: &mut ByteReader, tag: &Tag, _max_size: u64, ctx: PropertyContext) -> (r:
    Result<Value, Failure>)
    ensures
        final(rdr)@.data == old(rdr)@.data,
        final(rdr)@.limits == old(rdr)@.limits,
        tag@ is Struct ==> match parse_value(
            old(rdr)@.data,
            old(rdr)@.pos as int,
            old(rdr)@.bound(),
            ctx@,
            tag@,
            _max_size,
        ) {
            Ok((m, q)) => r is Ok && r->Ok_0@ == m && final(rdr)@.pos == q,
            Err(e) => fails_with(
                r,
                e,
                value_trail(
                    old(rdr)@.data,
                    old(rdr)@.pos as int,
                    old(rdr)@.bound(),
                    ctx@,
                    tag@,
                    _max_size,
                ),
            ),
        },
        !(tag@ is Struct) ==> fails_with(r, Error::KindMismatch, Seq::empty()),
        r is Ok ==> final(rdr)@.pos >= old(rdr)@.pos,
    decreases old(rdr)@.data.len() - old(rdr)@.pos, 6int,
{
    match tag {
        Tag::Struct { struct_type, .. } => {
            if struct_type.name_idx >= ctx.names.names.len() {
                return Err(Failure::plain(Error::MissingName));
            }
            let struct_name = struct_type.to_string(ctx.names);
            let value = ctx.patterns.deserialize(rdr, struct_name.as_str(), ctx)?;
            Ok(Value::Struct { value })
        },
        _ => Err(Failure::plain(Error::KindMismatch)),
    }
}

impl StructPatterns {
    /// Reads a struct of the given type, laid out as the pattern of the
    /// type says.
    pub fn deserialize(&self, rdr: &mut ByteReader, struct_type: &str, ctx: PropertyContext) -> (r:
        Result<StructValue, Failure>)
        ensures
            final(rdr)@.data == old(rdr)@.data,
            final(rdr)@.limits == old(rdr)@.limits,
            match parse_struct(
                old(rdr)@.data,
                old(rdr)@.pos as int,
                old(rdr)@.bound(),
                ctx@,
                pattern_for(self@, struct_type@),
            ) {
                Ok((m, q)) => r is Ok && r->Ok_0@ == m && final(rdr)@.pos == q,
                Err(e) => fails_with(
                    r,
                    e,
                    struct_trail(
                        old(rdr)@.data,
                        old(rdr)@.pos as int,
                        old(rdr)@.bound(),
                        ctx@,
                        pattern_for(self@, struct_type@),
                    ),
                ),
            },
            r is Ok ==> final(rdr)@.pos >= old(rdr)@.pos,
        decreases old(rdr)@.data.len() - old(rdr)@.pos, 4int,
    {
        self.pattern(struct_type).deserialize(rdr, ctx)
    }
}

impl StructPattern {
    /// Reads a struct laid out as the pattern says. A failure names the
    /// part of the struct that could not be read.
    pub fn deserialize(&self, rdr: &mut ByteReader, ctx: PropertyContext) -> (r: Result<
        StructValue,
        Failure,
    >)
        ensures
            final(rdr)@.data == old(rdr)@.data,
            final(rdr)@.limits == old(rdr)@.limits,
            match parse_struct(
                old(rdr)@.data,
                old(rdr)@.pos as int,
                old(rdr)@.bound(),
                ctx@,
                self@,
            ) {
                Ok((m, q)) => r is Ok && r->Ok_0@ == m && final(rdr)@.pos == q,
                Err(e) => fails_with(
                    r,
                    e,
                    struct_trail(
                        old(rdr)@.data,
                        old(rdr)@.pos as int,
                        old(rdr)@.bound(),
                        ctx@,
                        self@,
                    ),
                ),
            },
            r is Ok ==> final(rdr)@.pos >= old(rdr)@.pos,
        decreases old(rdr)@.data.len() - old(rdr)@.pos, 3int, self,
    {
        match self {
            Self::PropertyList => {
                let (properties, has_none) = read_properties(rdr, None, ctx)?;
                let value = StructValue::PropertyList { properties, has_none };
                assert(value@->PropertyList_properties =~= property_models(properties@));
                Ok(value)
            },
            Self::BinaryProperties { properties } => {
                let ghost d = rdr@.data;
                let ghost e = rdr@.bound();
                let ghost p0 = rdr@.pos as int;
                let ghost fields = self@->BinaryProperties_properties;
                let mut entries: Vec<(String, StructValue)> = Vec::new();
                let mut i: usize = 0;
                let _ = rdr.position();
                assert(entry_models(entries@) =~= Seq::empty());
                while i < properties.len()
                    invariant
                        0 <= i <= properties@.len(),
                        rdr@.pos <= d.len(),
                        self is BinaryProperties,
                        self->BinaryProperties_properties == *properties,
                        fields == self@->BinaryProperties_properties,
                        fields.len() == properties@.len(),
                        rdr@.data == d,
                        rdr@.limits == old(rdr)@.limits,
                        rdr@.bound() == e,
                        rdr@.pos >= p0,
                        d == old(rdr)@.data,
                        e == old(rdr)@.bound(),
                        p0 == old(rdr)@.pos,
                        parse_fields(d, p0, e, ctx@, fields, 0, Seq::empty()) == parse_fields(
                            d,
                            rdr@.pos as int,
                            e,
                            ctx@,
                            fields,
                            i as int,
                            entry_models(entries@),
                        ),
                        fields_trail(d, p0, e, ctx@, fields, 0) == fields_trail(
                            d,
                            rdr@.pos as int,
                            e,
                            ctx@,
                            fields,
                            i as int,
                        ),
                    decreases properties@.len() - i,
                {
                    let ghost p = rdr@.pos as int;
                    let ghost before = entry_models(entries@);
                    let entry = &properties[i];
                    assert(fields[i as int] == entry@);
                    let value = match entry.pattern.deserialize(rdr, ctx) {
                        Ok(value) => value,
                        Err(failure) => {
                            assert(parse_fields(d, p, e, ctx@, fields, i as int, before) == Err::<
                                (Seq<(Seq<char>, StructValueModel)>, int),
                                Error,
                            >(failure.error));
                            return Err(failure.within(Place::Field(i)));
                        },
                    };
                    let _ = rdr.position();
                    let ghost pair = (entry.name@, value@);
                    entries.push((entry.name.clone(), value));
                    assert(entry_models(entries@) =~= before.push(pair));
                    i = i + 1;
                }
                let value = StructValue::BinaryProperties { entries };
                assert(value@->BinaryProperties_entries =~= entry_models(entries@));
                Ok(value)
            },
            _ => unplaced(self.read_flat(rdr)),
        }
    }

    /// Reads a struct that is laid out as bytes or as one number.
    fn read_flat(&self, rdr: &mut ByteReader) -> (r: Result<StructValue, Error>)
        requires
            !(self is PropertyList),
            !(self is BinaryProperties),
        ensures
            final(rdr)@.data == old(rdr)@.data,
            final(rdr)@.limits == old(rdr)@.limits,
            forall|env: Env|
                match #[trigger] parse_struct(
                    old(rdr)@.data,
                    old(rdr)@.pos as int,
                    old(rdr)@.bound(),
                    env,
                    self@,
                ) {
                    Ok((m, q)) => r is Ok && r->Ok_0@ == m && final(rdr)@.pos == q,
                    Err(e) => r == Err::<StructValue, Error>(e),
                },
            r is Ok ==> final(rdr)@.pos >= old(rdr)@.pos,
    {
        match self {
            Self::Binary { size } => {
                if *size > rdr.available() {
                    return Err(Error::PrematureEof);
                }
                let bytes = read_bytes(rdr, *size)?;
                Ok(StructValue::Binary { bytes })
            },
            Self::Int { size } => {
                let size = *size;
                if !(size == 1 || size == 2 || size == 4 || size == 8) {
                    return Err(Error::InvalidWidth);
                }
                if size as usize > rdr.available() {
                    return Err(Error::PrematureEof);
                }
                let value: i64 = if size == 1 {
                    let b = read_u8(rdr)?;
                    (#[verifier::truncate]
                    (b as i8)) as i64
                } else if size == 2 {
                    let w = read_u16(rdr)?;
                    (#[verifier::truncate]
                    (w as i16)) as i64
                } else if size == 4 {
                    read_i32(rdr)? as i64
                } else {
                    read_i64(rdr)?
                };
                Ok(StructValue::Int { size, value })
            },
            Self::UInt { size } => {
                let size = *size;
                if !(size == 1 || size == 2 || size == 4 || size == 8) {
                    return Err(Error::InvalidWidth);
                }
                let value = read_unsigned(rdr, size)?;
                Ok(StructValue::UInt { size, value })
            },
            Self::Floating { size } => {
                let size = *size;
                if !(size == 4 || size == 8) {
                    return Err(Error::InvalidWidth);
                }
                let value = read_unsigned(rdr, size)?;
                Ok(StructValue::Floating { size, value })
            },
            Self::Enum { variants } => {
                let index = read_u8(rdr)?;
                if index as usize >= variants.len() {
                    return Err(Error::IndexOutOfRange);
                }
                Ok(StructValue::Enum { variants: variants.clone(), index })
            },
            _ => vstd::pervasive::unreached(),
        }
    }
}


/// Reads an unsigned number of 1, 2, 4 or 8 bytes.
fn read_unsigned(rdr: &mut ByteReader, size: u8) -> (r: Result<u64, Error>)
    requires
        is_int_width(size as int),
    ensures
        final(rdr)@.data == old(rdr)@.data,
        final(rdr)@.limits == old(rdr)@.limits,
        match r {
            Ok(v) => size <= old(rdr)@.available() && v == unsigned_at(
                old(rdr)@.data,
                old(rdr)@.pos as int,
                size,
            ) && final(rdr)@.pos == old(rdr)@.pos + size,
            Err(e) => size > old(rdr)@.available() && e == Error::PrematureEof,
        },
{
    if size == 1 {
        Ok(read_u8(rdr)? as u64)
    } else if size == 2 {
        Ok(read_u16(rdr)? as u64)
    } else if size == 4 {
        Ok(read_u32(rdr)? as u64)
    } else {
        read_u64(rdr)
    }
}

/* Writing */

/// Whether a tag is of the kind that a type has.
pub fn tag_matches_type(tag: &Tag, typ: PropType) -> (r: bool)
    ensures
        r == tag_matches(tag@, typ),
{
    match tag {
        Tag::Simple(t) => *t == typ && typ.is_simple(),
        Tag::Bool(_) => typ == PropType::BoolProperty,
        Tag::Enum(_) => typ == PropType::EnumProperty || typ == PropType::ByteProperty,
        Tag::Array { .. } => typ == PropType::ArrayProperty,
        Tag::Mapping { .. } => typ == PropType::MapProperty,
        Tag::Struct { .. } => typ == PropType::StructProperty,
    }
}

/// Writes the `None` name that ends a property list.
pub fn write_none(out: &mut Vec<u8>, ctx: PropertyContext) -> (r: Result<(), Error>)
    ensures
        match enc_none(ctx@.names) {
            Ok(bytes) => r is Ok && final(out)@ == old(out)@ + bytes,
            Err(e) => r == Err::<(), Error>(e) && final(out)@ == old(out)@,
        },
{
    match ctx.names.find("None") {
        Some(pos) => {
            proof {
                lemma_first_unique(ctx@.names, "None"@, pos as int, pos as int);
            }
            let none = NameVariant { name_idx: pos, variant: 0 };
            none.write(out, ctx.names)
        },
        None => Err(Error::MissingName),
    }
}

impl Property {
    /// Writes the property. The size that its meta declares is that of
    /// the value as it is written. A failure names the part of the
    /// property that could not be written.
    pub fn serialize(&self, out: &mut Vec<u8>, ctx: PropertyContext) -> (r: Result<(), Failure>)
        ensures
            wrote_in(
                old(out)@,
                final(out)@,
                r,
                enc_property(self@, ctx@),
                enc_property_trail(self@, ctx@),
            ),
            r is Ok ==> final(out)@.len() == old(out)@.len() + property_size(self@),
        decreases self,
    {
        proof {
            crate::asset::property::laws::lemma_property_shaped(*self);
            if enc_property(self@, ctx@) is Ok {
                crate::asset::property::laws::lemma_property_len_only(self@, ctx@);
            }
        }
        if !tag_matches_type(&self.tag, self.meta.typ) {
            return Err(Failure::plain(Error::KindMismatch));
        }
        let mut value: Vec<u8> = Vec::new();
        serialize_value(&self.value, &self.tag, &mut value, ctx)?;
        assert(value@ =~= enc_value(self@.value, self@.tag, ctx@)->Ok_0);
        let meta = Meta::new(self.meta.name, self.meta.typ, value.len() as u64);
        match meta.serialize(out, ctx) {
            Ok(()) => {},
            Err(err) => {
                return Err(Failure::at(err, Place::Meta));
            },
        }
        match serialize_tag(&self.tag, out, ctx) {
            Ok(()) => {},
            Err(err) => {
                return Err(Failure::at(err, Place::Tag));
            },
        }
        write_u8(out, 0);
        write_bytes(out, value.as_slice());
        proof {
            let m = enc_meta(meta, ctx@.names)->Ok_0;
            let t = enc_tag(self@.tag, ctx@.names)->Ok_0;
            assert(out@ =~= old(out)@ + (m + t + seq![0u8] + value@));
        }
        Ok(())
    }
}

/// Writes a value with the given tag. A failure names the part of the
/// value that could not be written.
pub fn serialize_value(val: &Value, tag: &Tag, out: &mut Vec<u8>, ctx: PropertyContext) -> (r:
    Result<(), Failure>)
    ensures
        wrote_in(
            old(out)@,
            final(out)@,
            r,
            enc_value(val@, tag@, ctx@),
            enc_value_trail(val@, tag@, ctx@),
        ),
        r is Ok ==> final(out)@.len() == old(out)@.len() + value_size(val@, tag@),
    decreases val, 1int,
{
    proof {
        crate::asset::property::laws::lemma_value_shaped(*val);
        if enc_value(val@, tag@, ctx@) is Ok {
            crate::asset::property::laws::lemma_value_len(val@, tag@, ctx@);
        }
    }
    match tag {
        Tag::Simple(typ) => unplaced(serialize_simple(val, *typ, out, ctx)),
        Tag::Bool(_) => match val {
            Value::Bool => {
                assert(out@ =~= old(out)@ + Seq::<u8>::empty());
                Ok(())
            },
            _ => Err(Failure::plain(Error::KindMismatch)),
        },
        Tag::Enum(_) => match val {
            Value::Enum(n) => unplaced(n.write(out, ctx.names)),
            _ => Err(Failure::plain(Error::KindMismatch)),
        },
        Tag::Array { .. } => serialize_array(val, tag, out, ctx),
        Tag::Mapping { .. } => serialize_map(val, tag, out, ctx),
        Tag::Struct { .. } => serialize_struct(val, tag, out, ctx),
    }
}

/// Writes the header that announces the elements of an array of structs.
fn write_element_header(meta_tag: &Option<(Meta, Tag)>, out: &mut Vec<u8>, ctx: PropertyContext) -> (r:
    Result<(), Failure>)
    ensures
        wrote_in(
            old(out)@,
            final(out)@,
            r,
            enc_element_header(crate::asset::property::value::meta_tag_model(*meta_tag), ctx@),
            element_header_trail(crate::asset::property::value::meta_tag_model(*meta_tag), ctx@),
        ),
{
    match meta_tag {
        None => {
            assert(out@ =~= old(out)@ + Seq::<u8>::empty());
            Ok(())
        },
        Some((meta, tag)) => {
            match meta.serialize(out, ctx) {
                Ok(()) => {},
                Err(err) => {
                    return Err(Failure::at(err, Place::Meta));
                },
            }
            match serialize_tag(tag, out, ctx) {
                Ok(()) => {},
                Err(err) => {
                    return Err(Failure::at(err, Place::Tag));
                },
            }
            write_u8(out, 0);
            proof {
                let m = enc_meta(*meta, ctx@.names)->Ok_0;
                let t = enc_tag(tag@, ctx@.names)->Ok_0;
                assert(out@ =~= old(out)@ + (m + t + seq![0u8]));
            }
            Ok(())
        },
    }
}

/// Writes an array: the count of its elements, the header that announces
/// them where it has one, the elements. An array that was kept as bytes
/// is written as those bytes. Anything but an array with the tag of one
/// is refused.
pub fn serialize_array(val: &Value, tag: &Tag, out: &mut Vec<u8>, ctx: PropertyContext) -> (r:
    Result<(), Failure>)
    ensures
        tag@ is Array ==> wrote_in(
            old(out)@,
            final(out)@,
            r,
            enc_value(val@, tag@, ctx@),
            enc_value_trail(val@, tag@, ctx@),
        ),
        !(tag@ is Array) ==> fails_with(r, Error::KindMismatch, Seq::empty()),
    decreases val, 0int,
{
    match (val, tag) {
        (Value::Array { meta_tag, values }, Tag::Array { inner_type }) => {
            if values.len() as u64 > u32::MAX as u64 {
                return Err(Failure::plain(Error::TooLong));
            }
            let ghost models = val@->Array_values;
            let ghost header_model = crate::asset::property::value::meta_tag_model(*meta_tag);
            let ghost etag = element_tag(header_model, *inner_type);
            write_u32(out, values.len() as u32);
            write_element_header(meta_tag, out, ctx)?;
            let inner_tag = match meta_tag {
                None => Tag::Simple(*inner_type),
                Some((_, tag)) => *tag,
            };
            let ghost start = out@;
            let ghost header = enc_element_header(header_model, ctx@)->Ok_0;
            let ghost wanted = enc_value(val@, tag@, ctx@);
            let mut i: usize = 0;
            assert(out@ =~= start + Seq::<u8>::empty());
            while i < values.len()
                invariant
                    0 <= i <= values@.len(),
                    tag@ is Array,
                    wanted == enc_value(val@, tag@, ctx@),
                    wanted == match enc_values(models, etag, ctx@, values@.len() as int) {
                        Err(err) => Err::<Seq<u8>, Error>(err),
                        Ok(elements) => Ok::<Seq<u8>, Error>(
                            enc_u32(values@.len() as u32) + header + elements,
                        ),
                    },
                    val is Array,
                    val->Array_values == *values,
                    models == val@->Array_values,
                    models.len() == values@.len(),
                    inner_tag@ == etag,
                    enc_values(models, etag, ctx@, i as int) is Ok,
                    out@ == start + enc_values(models, etag, ctx@, i as int)->Ok_0,
                    enc_value_trail(val@, tag@, ctx@) == enc_values_trail(
                        models,
                        etag,
                        ctx@,
                        values@.len() as int,
                    ),
                decreases values@.len() - i,
            {
                assert(models[i as int] == values@[i as int]@);
                match serialize_value(&values[i], &inner_tag, out, ctx) {
                    Ok(()) => {},
                    Err(failure) => {
                        proof {
                            lemma_enc_values_fails(
                                models,
                                etag,
                                ctx@,
                                i + 1,
                                values@.len() as int,
                            );
                            lemma_enc_values_trail_fails(
                                models,
                                etag,
                                ctx@,
                                i + 1,
                                values@.len() as int,
                            );
                        }
                        return Err(failure.within(Place::Element(i)));
                    },
                }
                proof {
                    let before = enc_values(models, etag, ctx@, i as int)->Ok_0;
                    let value = enc_value(models[i as int], etag, ctx@)->Ok_0;
                    assert(out@ =~= start + (before + value));
                }
                i = i + 1;
            }
            proof {
                let elements = enc_values(models, etag, ctx@, values@.len() as int)->Ok_0;
                assert(out@ =~= old(out)@ + (enc_u32(values@.len() as u32) + header + elements));
            }
            Ok(())
        },
        (Value::RawData { data }, Tag::Array { .. }) => {
            write_bytes(out, data.as_slice());
            Ok(())
        },
        _ => Err(Failure::plain(Error::KindMismatch)),
    }
}

/// Writes a map of simple types: the number of keys to remove, the count
/// of its entries, the entries. A map that was kept as bytes is written
/// as those bytes. Anything but a map with the tag of one is refused.
pub fn serialize_map(val: &Value, tag: &Tag, out: &mut Vec<u8>, ctx: PropertyContext) -> (r: Result<
    (),
    Failure,
>)
    ensures
        tag@ is Mapping ==> wrote_in(
            old(out)@,
            final(out)@,
            r,
            enc_value(val@, tag@, ctx@),
            enc_value_trail(val@, tag@, ctx@),
        ),
        !(tag@ is Mapping) ==> fails_with(r, Error::KindMismatch, Seq::empty()),
{
    match (val, tag) {
        (
            Value::Mapping { num_keys_to_remove, entries },
            Tag::Mapping { key_type, value_type },
        ) => {
            if !key_type.is_simple() || !value_type.is_simple() {
                return Err(Failure::plain(Error::KindMismatch));
            }
            if entries.len() as u64 > u32::MAX as u64 {
                return Err(Failure::plain(Error::TooLong));
            }
            let ghost models = val@->Mapping_entries;
            write_u32(out, *num_keys_to_remove);
            write_u32(out, entries.len() as u32);
            let ghost start = out@;
            let ghost wanted = enc_value(val@, tag@, ctx@);
            let mut i: usize = 0;
            assert(out@ =~= start + Seq::<u8>::empty());
            while i < entries.len()
                invariant
                    0 <= i <= entries@.len(),
                    tag@ is Mapping,
                    wanted == enc_value(val@, tag@, ctx@),
                    wanted == match enc_map_entries(
                        models,
                        *key_type,
                        *value_type,
                        ctx@,
                        entries@.len() as int,
                    ) {
                        Err(err) => Err::<Seq<u8>, Error>(err),
                        Ok(pairs) => Ok::<Seq<u8>, Error>(
                            enc_u32(*num_keys_to_remove) + enc_u32(entries@.len() as u32) + pairs,
                        ),
                    },
                    models == val@->Mapping_entries,
                    val is Mapping,
                    val->Mapping_entries == *entries,
                    models.len() == entries@.len(),
                    enc_map_entries(models, *key_type, *value_type, ctx@, i as int) is Ok,
                    out@ == start + enc_map_entries(
                        models,
                        *key_type,
                        *value_type,
                        ctx@,
                        i as int,
                    )->Ok_0,
                    enc_value_trail(val@, tag@, ctx@) == enc_map_entries_trail(
                        models,
                        *key_type,
                        *value_type,
                        ctx@,
                        entries@.len() as int,
                    ),
                decreases entries@.len() - i,
            {
                assert(models[i as int] == (entries@[i as int].0@, entries@[i as int].1@));
                let ghost before = enc_map_entries(
                    models,
                    *key_type,
                    *value_type,
                    ctx@,
                    i as int,
                )->Ok_0;
                match serialize_simple(&entries[i].0, *key_type, out, ctx) {
                    Ok(()) => {},
                    Err(err) => {
                        proof {
                            lemma_enc_map_entries_fails(
                                models,
                                *key_type,
                                *value_type,
                                ctx@,
                                i + 1,
                                entries@.len() as int,
                            );
                            lemma_enc_map_entries_trail_fails(
                                models,
                                *key_type,
                                *value_type,
                                ctx@,
                                i + 1,
                                entries@.len() as int,
                            );
                        }
                        return Err(Failure::at(err, Place::Key(i)));
                    },
                }
                match serialize_simple(&entries[i].1, *value_type, out, ctx) {
                    Ok(()) => {},
                    Err(err) => {
                        proof {
                            lemma_enc_map_entries_fails(
                                models,
                                *key_type,
                                *value_type,
                                ctx@,
                                i + 1,
                                entries@.len() as int,
                            );
                            lemma_enc_map_entries_trail_fails(
                                models,
                                *key_type,
                                *value_type,
                                ctx@,
                                i + 1,
                                entries@.len() as int,
                            );
                        }
                        return Err(Failure::at(err, Place::Value(i)));
                    },
                }
                proof {
                    let key = enc_simple_value(models[i as int].0, *key_type, ctx@)->Ok_0;
                    let value = enc_simple_value(models[i as int].1, *value_type, ctx@)->Ok_0;
                    assert(out@ =~= start + (before + key + value));
                }
                i = i + 1;
            }
            proof {
                let pairs = enc_map_entries(
                    models,
                    *key_type,
                    *value_type,
                    ctx@,
                    entries@.len() as int,
                )->Ok_0;
                assert(out@ =~= old(out)@ + (enc_u32(*num_keys_to_remove) + enc_u32(
                    entries@.len() as u32,
                ) + pairs));
            }
            Ok(())
        },
        (Value::RawData { data }, Tag::Mapping { .. }) => {
            write_bytes(out, data.as_slice());
            Ok(())
        },
        _ => Err(Failure::plain(Error::KindMismatch)),
    }
}

/// Writes a struct. Anything but a struct with the tag of one is refused.
pub fn serialize_struct(val: &Value, tag: &Tag, out: &mut Vec<u8>, ctx: PropertyContext) -> (r:
    Result<(), Failure>)
    ensures
        tag@ is Struct ==> wrote_in(
            old(out)@,
            final(out)@,
            r,
            enc_value(val@, tag@, ctx@),
            enc_value_trail(val@, tag@, ctx@),
        ),
        !(tag@ is Struct) ==> fails_with(r, Error::KindMismatch, Seq::empty()),
    decreases val, 0int,
{
    match (val, tag) {
        (Value::Struct { value }, Tag::Struct { .. }) => value.serialize(out, ctx),
        _ => Err(Failure::plain(Error::KindMismatch)),
    }
}

impl StructPatterns {
    /// Writes the payload of a struct. How it is laid out is held by the value.
    pub fn serialize(&self, value: &StructValue, out: &mut Vec<u8>, ctx: PropertyContext) -> (r:
        Result<(), Failure>)
        ensures
            wrote_in(
                old(out)@,
                final(out)@,
                r,
                enc_struct(value@, ctx@),
                enc_struct_trail(value@, ctx@),
            ),
    {
        value.serialize(out, ctx)
    }
}

/// Writes the properties of a list in order. Fails at the first property
/// that cannot be written, and names it.
pub fn write_properties(properties: &Vec<Property>, out: &mut Vec<u8>, ctx: PropertyContext) -> (r:
    Result<(), Failure>)
    ensures
        wrote_in(
            old(out)@,
            final(out)@,
            r,
            enc_properties(property_models(properties@), ctx@, properties@.len() as int),
            enc_properties_trail(property_models(properties@), ctx@, properties@.len() as int),
        ),
    decreases properties, 0int,
{
    let ghost models = property_models(properties@);
    let mut i: usize = 0;
    assert(out@ =~= old(out)@ + Seq::<u8>::empty());
    while i < properties.len()
        invariant
            0 <= i <= properties@.len(),
            models == property_models(properties@),
            enc_properties(models, ctx@, i as int) is Ok,
            out@ == old(out)@ + enc_properties(models, ctx@, i as int)->Ok_0,
        decreases properties@.len() - i,
    {
        match properties[i].serialize(out, ctx) {
            Ok(()) => {},
            Err(failure) => {
                proof {
                    lemma_enc_properties_fails(models, ctx@, i + 1, properties@.len() as int);
                    lemma_enc_properties_trail_fails(
                        models,
                        ctx@,
                        i + 1,
                        properties@.len() as int,
                    );
                }
                return Err(failure.within(Place::Member(i)));
            },
        }
        proof {
            let before = enc_properties(models, ctx@, i as int)->Ok_0;
            let property = enc_property(models[i as int], ctx@)->Ok_0;
            assert(out@ =~= old(out)@ + (before + property));
        }
        i = i + 1;
    }
    Ok(())
}

/// The bytes that the properties of a list take, unless that number is
/// no `usize`.
pub fn checked_properties_size(properties: &Vec<Property>) -> (r: Option<usize>)
    ensures
        sized(r, properties_size(property_models(properties@), properties@.len() as int)),
    decreases properties, 0int,
{
    let ghost models = property_models(properties@);
    let mut total: usize = 0;
    let mut i: usize = 0;
    while i < properties.len()
        invariant
            0 <= i <= properties@.len(),
            models == property_models(properties@),
            total == properties_size(models, i as int),
        decreases properties@.len() - i,
    {
        proof {
            lemma_properties_size_grows(models, i + 1, properties@.len() as int);
        }
        let size = match properties[i].checked_byte_size() {
            Some(size) => size,
            None => {
                return None;
            },
        };
        total = match add_sizes(total, size) {
            Some(total) => total,
            None => {
                return None;
            },
        };
        i = i + 1;
    }
    Some(total)
}

impl StructValue {
    /// Writes the payload of a struct. A failure names the part of the
    /// struct that could not be written.
    pub fn serialize(&self, out: &mut Vec<u8>, ctx: PropertyContext) -> (r: Result<(), Failure>)
        ensures
            wrote_in(
                old(out)@,
                final(out)@,
                r,
                enc_struct(self@, ctx@),
                enc_struct_trail(self@, ctx@),
            ),
            r is Ok ==> final(out)@.len() == old(out)@.len() + struct_size(self@),
        decreases self,
    {
        proof {
            crate::asset::property::laws::lemma_struct_shaped(*self);
            if enc_struct(self@, ctx@) is Ok {
                crate::asset::property::laws::lemma_struct_len(self@, ctx@);
            }
        }
        match self {
            Self::PropertyList { properties, has_none } => {
                assert(self@->PropertyList_properties =~= property_models(properties@));
                write_properties(properties, out, ctx)?;
                if *has_none {
                    unplaced(write_none(out, ctx))?;
                    proof {
                        let list = enc_properties(
                            property_models(properties@),
                            ctx@,
                            properties@.len() as int,
                        )->Ok_0;
                        let none = enc_none(ctx@.names)->Ok_0;
                        assert(out@ =~= old(out)@ + (list + none));
                    }
                }
                Ok(())
            },
            Self::Binary { bytes } => {
                write_bytes(out, bytes.as_slice());
                Ok(())
            },
            Self::BinaryProperties { entries } => {
                let ghost models = self@->BinaryProperties_entries;
                let mut i: usize = 0;
                assert(out@ =~= old(out)@ + Seq::<u8>::empty());
                while i < entries.len()
                    invariant
                        0 <= i <= entries@.len(),
                        self is BinaryProperties,
                        self->BinaryProperties_entries == *entries,
                        models == self@->BinaryProperties_entries,
                        models.len() == entries@.len(),
                        enc_entries(models, ctx@, i as int) is Ok,
                        out@ == old(out)@ + enc_entries(models, ctx@, i as int)->Ok_0,
                    decreases entries@.len() - i,
                {
                    assert(models[i as int] == (entries@[i as int].0@, entries@[i as int].1@));
                    match entries[i].1.serialize(out, ctx) {
                        Ok(()) => {},
                        Err(failure) => {
                            proof {
                                lemma_enc_entries_fails(models, ctx@, i + 1, entries@.len() as int);
                                lemma_enc_entries_trail_fails(
                                    models,
                                    ctx@,
                                    i + 1,
                                    entries@.len() as int,
                                );
                            }
                            return Err(failure.within(Place::Field(i)));
                        },
                    }
                    proof {
                        let before = enc_entries(models, ctx@, i as int)->Ok_0;
                        let value = enc_struct(models[i as int].1, ctx@)->Ok_0;
                        assert(out@ =~= old(out)@ + (before + value));
                    }
                    i = i + 1;
                }
                Ok(())
            },
            Self::Int { size, value } => {
                let size = *size;
                let value = *value;
                if !(size == 1 || size == 2 || size == 4 || size == 8) {
                    return Err(Failure::plain(Error::InvalidWidth));
                }
                if size == 1 {
                    if value < -0x80 || value > 0x7f {
                        return Err(Failure::plain(Error::ValueOutOfRange));
                    }
                    write_u8(
                        out,
                        #[verifier::truncate]
                        ((value as i8) as u8),
                    );
                } else if size == 2 {
                    if value < -0x8000 || value > 0x7fff {
                        return Err(Failure::plain(Error::ValueOutOfRange));
                    }
                    write_u16(
                        out,
                        #[verifier::truncate]
                        ((value as i16) as u16),
                    );
                } else if size == 4 {
                    if value < -0x8000_0000 || value > 0x7fff_ffff {
                        return Err(Failure::plain(Error::ValueOutOfRange));
                    }
                    write_i32(out, value as i32);
                } else {
                    write_i64(out, value);
                }
                Ok(())
            },
            Self::UInt { size, value } => {
                if !(*size == 1 || *size == 2 || *size == 4 || *size == 8) {
                    return Err(Failure::plain(Error::InvalidWidth));
                }
                unplaced(write_unsigned(out, *value, *size))
            },
            Self::Floating { size, value } => {
                if !(*size == 4 || *size == 8) {
                    return Err(Failure::plain(Error::InvalidWidth));
                }
                unplaced(write_unsigned(out, *value, *size))
            },
            Self::Enum { index, .. } => {
                write_u8(out, *index);
                Ok(())
            },
        }
    }
}

/// Writes an unsigned number with 1, 2, 4 or 8 bytes, if it fits them.
fn write_unsigned(out: &mut Vec<u8>, value: u64, size: u8) -> (r: Result<(), Error>)
    requires
        is_int_width(size as int),
    ensures
        fits_unsigned(value, size) ==> r is Ok && final(out)@ == old(out)@ + enc_unsigned(
            value,
            size,
        ),
        !fits_unsigned(value, size) ==> r == Err::<(), Error>(Error::ValueOutOfRange) && final(
            out)@ == old(out)@,
{
    if size == 1 {
        if value > 0xff {
            return Err(Error::ValueOutOfRange);
        }
        write_u8(out, value as u8);
    } else if size == 2 {
        if value > 0xffff {
            return Err(Error::ValueOutOfRange);
        }
        write_u16(out, value as u16);
    } else if size == 4 {
        if value > 0xffff_ffff {
            return Err(Error::ValueOutOfRange);
        }
        write_u32(out, value as u32);
    } else {
        write_u64(out, value);
    }
    Ok(())
}

/* Sizes */

/// What a size that was computed with care for overflow comes to: the
/// size, or nothing where the size is no `usize`.
pub open spec fn sized(r: Option<usize>, size: nat) -> bool {
    match r {
        Some(n) => n == size,
        None => size > usize::MAX,
    }
}

/// The sum of two sizes, unless it is no `usize`.
fn add_sizes(a: usize, b: usize) -> (r: Option<usize>)
    ensures
        sized(r, (a + b) as nat),
{
    if b <= usize::MAX - a {
        Some(a + b)
    } else {
        None
    }
}

/// The bytes that a value of a simple type takes, unless that number is
/// no `usize`.
fn checked_simple_size(val: &Value, typ: PropType) -> (r: Option<usize>)
    ensures
        sized(r, simple_value_size(val@, typ)),
{
    match (val, typ) {
        (Value::Str(s), PropType::StrProperty) => add_sizes(5, s.as_str().as_bytes().len()),
        (Value::Text { bytes }, PropType::TextProperty) => Some(bytes.len()),
        (Value::Int(_), PropType::IntProperty) => Some(4),
        (Value::UInt8(_), PropType::UInt8Property) => Some(1),
        (Value::Float(_), PropType::FloatProperty) => Some(4),
        (Value::Object(_), PropType::ObjectProperty) => Some(4),
        (Value::SoftObject { .. }, PropType::SoftObjectProperty) => Some(12),
        (Value::Name(_), PropType::NameProperty) => Some(8),
        _ => Some(0),
    }
}

/// The bytes that a value takes when it is written with the given tag,
/// unless that number is no `usize`.
pub fn checked_value_size(val: &Value, tag: &Tag) -> (r: Option<usize>)
    ensures
        sized(r, value_size(val@, tag@)),
    decreases val, 1int,
{
    match tag {
        Tag::Simple(typ) => checked_simple_size(val, *typ),
        Tag::Bool(_) => Some(0),
        Tag::Enum(_) => match val {
            Value::Enum(_) => Some(8),
            _ => Some(0),
        },
        Tag::Array { inner_type } => match val {
            Value::Array { meta_tag, values } => {
                let ghost models = val@->Array_values;
                let ghost etag = element_tag(meta_tag_model(*meta_tag), *inner_type);
                let (inner_tag, header) = match meta_tag {
                    None => (Tag::Simple(*inner_type), 4),
                    Some((_, tag)) => (*tag, 4 + 24 + size_of_tag(tag) + 1),
                };
                let mut total: usize = 0;
                let mut i: usize = 0;
                while i < values.len()
                    invariant
                        0 <= i <= values@.len(),
                        val is Array,
                        val->Array_values == *values,
                        models == val@->Array_values,
                        models.len() == values@.len(),
                        inner_tag@ == etag,
                        value_size(val@, tag@) == header + values_size(
                            models,
                            etag,
                            values@.len() as int,
                        ),
                        total == values_size(models, etag, i as int),
                    decreases values@.len() - i,
                {
                    assert(models[i as int] == values@[i as int]@);
                    proof {
                        lemma_values_size_grows(models, etag, i + 1, values@.len() as int);
                    }
                    let size = match checked_value_size(&values[i], &inner_tag) {
                        Some(size) => size,
                        None => {
                            return None;
                        },
                    };
                    total = match add_sizes(total, size) {
                        Some(total) => total,
                        None => {
                            return None;
                        },
                    };
                    i = i + 1;
                }
                add_sizes(header, total)
            },
            Value::RawData { data } => Some(data.len()),
            _ => Some(0),
        },
        Tag::Mapping { key_type, value_type } => match val {
            Value::Mapping { entries, .. } => {
                if !key_type.is_simple() || !value_type.is_simple() {
                    return Some(0);
                }
                let ghost models = val@->Mapping_entries;
                let mut total: usize = 0;
                let mut i: usize = 0;
                while i < entries.len()
                    invariant
                        0 <= i <= entries@.len(),
                        models == val@->Mapping_entries,
                        models.len() == entries@.len(),
                        val is Mapping,
                        val->Mapping_entries == *entries,
                        value_size(val@, tag@) == 8 + map_entries_size(
                            models,
                            *key_type,
                            *value_type,
                            entries@.len() as int,
                        ),
                        total == map_entries_size(models, *key_type, *value_type, i as int),
                    decreases entries@.len() - i,
                {
                    assert(models[i as int] == (entries@[i as int].0@, entries@[i as int].1@));
                    proof {
                        lemma_map_entries_size_grows(
                            models,
                            *key_type,
                            *value_type,
                            i + 1,
                            entries@.len() as int,
                        );
                    }
                    let key = match checked_simple_size(&entries[i].0, *key_type) {
                        Some(size) => size,
                        None => {
                            return None;
                        },
                    };
                    let value = match checked_simple_size(&entries[i].1, *value_type) {
                        Some(size) => size,
                        None => {
                            return None;
                        },
                    };
                    let pair = match add_sizes(key, value) {
                        Some(size) => size,
                        None => {
                            return None;
                        },
                    };
                    total = match add_sizes(total, pair) {
                        Some(total) => total,
                        None => {
                            return None;
                        },
                    };
                    i = i + 1;
                }
                add_sizes(8, total)
            },
            Value::RawData { data } => Some(data.len()),
            _ => Some(0),
        },
        Tag::Struct { .. } => match val {
            Value::Struct { value } => value.checked_byte_size(),
            _ => Some(0),
        },
    }
}

impl StructValue {
    /// The bytes that the payload takes, unless that number is no `usize`.
    pub fn checked_byte_size(&self) -> (r: Option<usize>)
        ensures
            sized(r, struct_size(self@)),
        decreases self, 0int,
    {
        match self {
            Self::PropertyList { properties, has_none } => {
                assert(self@->PropertyList_properties =~= property_models(properties@));
                let total = match checked_properties_size(properties) {
                    Some(total) => total,
                    None => {
                        return None;
                    },
                };
                add_sizes(
                    total,
                    if *has_none {
                        8
                    } else {
                        0
                    },
                )
            },
            Self::Binary { bytes } => Some(bytes.len()),
            Self::BinaryProperties { entries } => {
                let ghost models = self@->BinaryProperties_entries;
                let mut total: usize = 0;
                let mut i: usize = 0;
                while i < entries.len()
                    invariant
                        0 <= i <= entries@.len(),
                        self is BinaryProperties,
                        self->BinaryProperties_entries == *entries,
                        models == self@->BinaryProperties_entries,
                        models.len() == entries@.len(),
                        total == entries_size(models, i as int),
                    decreases entries@.len() - i,
                {
                    assert(models[i as int] == (entries@[i as int].0@, entries@[i as int].1@));
                    proof {
                        lemma_entries_size_grows(models, i + 1, entries@.len() as int);
                    }
                    let size = match entries[i].1.checked_byte_size() {
                        Some(size) => size,
                        None => {
                            return None;
                        },
                    };
                    total = match add_sizes(total, size) {
                        Some(total) => total,
                        None => {
                            return None;
                        },
                    };
                    i = i + 1;
                }
                Some(total)
            },
            Self::Int { size, .. } => Some(*size as usize),
            Self::UInt { size, .. } => Some(*size as usize),
            Self::Floating { size, .. } => Some(*size as usize),
            Self::Enum { .. } => Some(1),
        }
    }

    /// The bytes that the payload takes.
    pub fn byte_size(&self) -> (r: usize)
        requires
            struct_size(self@) <= usize::MAX,
        ensures
            r == struct_size(self@),
    {
        match self.checked_byte_size() {
            Some(size) => size,
            None => vstd::pervasive::unreached(),
        }
    }
}

impl Property {
    /// The bytes that the property takes, unless that number is no `usize`.
    pub fn checked_byte_size(&self) -> (r: Option<usize>)
        ensures
            sized(r, property_size(self@)),
        decreases self, 0int,
    {
        let value = match checked_value_size(&self.value, &self.tag) {
            Some(size) => size,
            None => {
                return None;
            },
        };
        add_sizes(24 + size_of_tag(&self.tag) + 1, value)
    }

    /// The bytes that the property takes: its meta, its tag, the zero
    /// byte between tag and value, its value.
    pub fn byte_size(&self) -> (r: usize)
        requires
            property_size(self@) <= usize::MAX,
        ensures
            r == property_size(self@),
    {
        match self.checked_byte_size() {
            Some(size) => size,
            None => vstd::pervasive::unreached(),
        }
    }
}

/// The bytes that an array takes; 0 where value or tag is not that of an array.
pub fn value_size_array(value: &Value, tag: &Tag) -> (r: usize)
    requires
        value_size(value@, tag@) <= usize::MAX,
    ensures
        tag@ is Array ==> r == value_size(value@, tag@),
        !(tag@ is Array) ==> r == 0,
{
    match tag {
        Tag::Array { .. } => match checked_value_size(value, tag) {
            Some(size) => size,
            None => vstd::pervasive::unreached(),
        },
        _ => 0,
    }
}

/// The bytes that a map takes; 0 where value or tag is not that of a map.
pub fn value_size_map(value: &Value, tag: &Tag) -> (r: usize)
    requires
        value_size(value@, tag@) <= usize::MAX,
    ensures
        tag@ is Mapping ==> r == value_size(value@, tag@),
        !(tag@ is Mapping) ==> r == 0,
{
    match tag {
        Tag::Mapping { .. } => match checked_value_size(value, tag) {
            Some(size) => size,
            None => vstd::pervasive::unreached(),
        },
        _ => 0,
    }
}

/// The bytes that a struct takes; 0 where value or tag is not that of a struct.
pub fn value_size_struct(value: &Value, tag: &Tag) -> (r: usize)
    requires
        value_size(value@, tag@) <= usize::MAX,
    ensures
        tag@ is Struct ==> r == value_size(value@, tag@),
        !(tag@ is Struct) ==> r == 0,
{
    match tag {
        Tag::Struct { .. } => match checked_value_size(value, tag) {
            Some(size) => size,
            None => vstd::pervasive::unreached(),
        },
        _ => 0,
    }
}

/* Loaders */

/// The six operations of the codec for one property type.
#[derive(Debug, Clone, Copy)]
pub struct PropertyLoader {
    /// Whether the tag is implied by the type.
    pub simple: bool,
    pub typ: PropType,
}

impl PropertyLoader {
    /// Whether this loader is the one for the type. Enums and bytes share one.
    pub fn is_for_type(&self, typ: PropType) -> (r: bool)
        ensures
            r == (typ == self.typ || ((typ == PropType::EnumProperty || typ
                == PropType::ByteProperty) && (self.typ == PropType::EnumProperty || self.typ
                == PropType::ByteProperty))),
    {
        let enum_like = typ == PropType::EnumProperty || typ == PropType::ByteProperty;
        let own_enum_like = self.typ == PropType::EnumProperty || self.typ
            == PropType::ByteProperty;
        typ == self.typ || (enum_like && own_enum_like)
    }

    /// Reads a value of the loader's type. A tag of another kind is refused.
    pub fn deserialize_value(
        &self,
        rdr: &mut ByteReader,
        tag: &Tag,
        max_size: u64,
        ctx: PropertyContext,
    ) -> (r: Result<Value, Failure>)
        ensures
            final(rdr)@.data == old(rdr)@.data,
            final(rdr)@.limits == old(rdr)@.limits,
            tag_matches(tag@, self.typ) ==> match parse_value(
                old(rdr)@.data,
                old(rdr)@.pos as int,
                old(rdr)@.bound(),
                ctx@,
                tag@,
                max_size,
            ) {
                Ok((m, q)) => r is Ok && r->Ok_0@ == m && final(rdr)@.pos == q,
                Err(e) => fails_with(
                    r,
                    e,
                    value_trail(
                        old(rdr)@.data,
                        old(rdr)@.pos as int,
                        old(rdr)@.bound(),
                        ctx@,
                        tag@,
                        max_size,
                    ),
                ),
            },
            !tag_matches(tag@, self.typ) ==> fails_with(r, Error::KindMismatch, Seq::empty()),
    {
        if !tag_matches_type(tag, self.typ) {
            return Err(Failure::plain(Error::KindMismatch));
        }
        deserialize_value(rdr, tag, max_size, ctx)
    }

    /// Reads the tag of a property of the loader's type.
    pub fn deserialize_tag(&self, rdr: &mut ByteReader, ctx: PropertyContext) -> (r: Result<
        Tag,
        Error,
    >)
        ensures
            crate::util::reads_as(
                old(rdr)@,
                final(rdr)@,
                r,
                parse_tag(
                    old(rdr)@.data,
                    old(rdr)@.pos as int,
                    old(rdr)@.bound(),
                    ctx@.names,
                    self.typ,
                ),
            ),
    {
        deserialize_tag(rdr, ctx, self.typ)
    }

    /// Writes a value of the loader's type. A tag of another kind is refused.
    pub fn serialize_value(
        &self,
        out: &mut Vec<u8>,
        value: &Value,
        tag: &Tag,
        ctx: PropertyContext,
    ) -> (r: Result<(), Failure>)
        ensures
            tag_matches(tag@, self.typ) ==> wrote_in(
                old(out)@,
                final(out)@,
                r,
                enc_value(value@, tag@, ctx@),
                enc_value_trail(value@, tag@, ctx@),
            ),
            !tag_matches(tag@, self.typ) ==> fails_with(r, Error::KindMismatch, Seq::empty()),
    {
        if !tag_matches_type(tag, self.typ) {
            return Err(Failure::plain(Error::KindMismatch));
        }
        serialize_value(value, tag, out, ctx)
    }

    /// Writes a tag of the loader's type. A tag of another kind is refused.
    pub fn serialize_tag(&self, out: &mut Vec<u8>, tag: &Tag, ctx: PropertyContext) -> (r: Result<
        (),
        Error,
    >)
        ensures
            tag_matches(tag@, self.typ) ==> wrote(
                old(out)@,
                final(out)@,
                r,
                enc_tag(tag@, ctx@.names),
            ),
            !tag_matches(tag@, self.typ) ==> r == Err::<(), Error>(Error::KindMismatch),
    {
        if !tag_matches_type(tag, self.typ) {
            return Err(Error::KindMismatch);
        }
        serialize_tag(tag, out, ctx)
    }

    /// The bytes that a value takes when it is written with the tag.
    pub fn value_size(&self, value: &Value, tag: &Tag) -> (r: usize)
        requires
            value_size(value@, tag@) <= usize::MAX,
        ensures
            r == value_size(value@, tag@),
    {
        match checked_value_size(value, tag) {
            Some(size) => size,
            None => vstd::pervasive::unreached(),
        }
    }

    /// The bytes that a tag takes.
    pub fn tag_size(&self, tag: &Tag) -> (r: usize)
        ensures
            r == tag_size(tag@),
    {
        size_of_tag(tag)
    }
}

impl Property {
    /// The loader for a property type.
    pub fn get_loader_for(typ: PropType) -> (r: PropertyLoader)
        ensures
            r.typ == typ,
            r.simple == is_simple(typ),
    {
        PropertyLoader { simple: typ.is_simple(), typ }
    }
}

} // verus!
