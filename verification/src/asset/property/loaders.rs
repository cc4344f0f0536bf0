use vstd::prelude::*;
use crate::asset::name_map::enc_name_variant;
use crate::asset::name_map::name_variant_fits;
use crate::asset::name_map::parse_name_variant;
use crate::asset::name_map::NameModel;
use crate::asset::name_map::NameVariant;
use crate::asset::property::context::Env;
use crate::asset::property::context::PropertyContext;
use crate::asset::property::prop_type::enc_prop_type;
use crate::asset::property::prop_type::is_simple;
use crate::asset::property::prop_type::parse_prop_type;
use crate::asset::property::prop_type::PropType;
use crate::asset::property::value::Tag;
use crate::asset::property::value::TagModel;
use crate::asset::property::value::Value;
use crate::asset::property::value::ValueModel;
use crate::asset::reference::enc_reference;
use crate::asset::reference::encodable;
use crate::asset::reference::parse_reference;
use crate::asset::reference::Reference;
use crate::error::fails_with;
use crate::error::Error;
use crate::error::Failure;
use crate::error::Place;
use crate::reader::ByteReader;
use crate::util::avail;
use crate::util::enc_i32;
use crate::util::enc_string;
use crate::util::enc_u32;
use crate::util::parse_bytes;
use crate::util::parse_i32;
use crate::util::parse_string;
use crate::util::parse_u32;
use crate::util::parse_u8;
use crate::util::read_array;
use crate::util::read_bytes;
use crate::util::read_i32;
use crate::util::read_string;
use crate::util::read_u32;
use crate::util::read_u8;
use crate::util::reads_as;
use crate::util::span;
use crate::util::write_bytes;
use crate::util::write_i32;
use crate::util::write_string;
use crate::util::write_u32;
use crate::util::write_u8;
use vstd::utf8::encode_utf8;

verus! {

/* Tags */

/// Whether a tag is of the kind that a type has.
pub open spec fn tag_matches(tag: TagModel, typ: PropType) -> bool {
    match tag {
        TagModel::Simple(t) => t == typ && is_simple(typ),
        TagModel::Bool(_) => typ == PropType::BoolProperty,
        TagModel::Enum(_) => typ == PropType::EnumProperty || typ == PropType::ByteProperty,
        TagModel::Array { .. } => typ == PropType::ArrayProperty,
        TagModel::Mapping { .. } => typ == PropType::MapProperty,
        TagModel::Struct { .. } => typ == PropType::StructProperty,
    }
}

/// The tag of a boolean is one byte; anything but zero is true.
pub open spec fn parse_bool_tag(d: Seq<u8>, p: int, e: int) -> Result<(TagModel, int), Error> {
    match parse_u8(d, p, e) {
        Err(err) => Err(err),
        Ok((b, q)) => Ok((TagModel::Bool(b != 0), q)),
    }
}

/// The tag of an enum or a byte is the name of the enum type.
pub open spec fn parse_enum_tag(d: Seq<u8>, p: int, e: int, names: Seq<NameModel>) -> Result<
    (TagModel, int),
    Error,
> {
    match parse_name_variant(d, p, e, names.len() as int) {
        Err(err) => Err(err),
        Ok((n, q)) => Ok((TagModel::Enum(n), q)),
    }
}

/// The tag of an array is the type of its elements.
pub open spec fn parse_array_tag(d: Seq<u8>, p: int, e: int, names: Seq<NameModel>) -> Result<
    (TagModel, int),
    Error,
> {
    match parse_prop_type(d, p, e, names) {
        Err(err) => Err(err),
        Ok((inner_type, q)) => Ok((TagModel::Array { inner_type }, q)),
    }
}

/// The tag of a map is the type of its keys, then the type of its values.
pub open spec fn parse_map_tag(d: Seq<u8>, p: int, e: int, names: Seq<NameModel>) -> Result<
    (TagModel, int),
    Error,
> {
    match parse_prop_type(d, p, e, names) {
        Err(err) => Err(err),
        Ok((key_type, q)) => match parse_prop_type(d, q, e, names) {
            Err(err) => Err(err),
            Ok((value_type, q2)) => Ok((TagModel::Mapping { key_type, value_type }, q2)),
        },
    }
}

/// The tag of a struct is the name of the struct type, then 16 bytes.
pub open spec fn parse_struct_tag(d: Seq<u8>, p: int, e: int, names: Seq<NameModel>) -> Result<
    (TagModel, int),
    Error,
> {
    match parse_name_variant(d, p, e, names.len() as int) {
        Err(err) => Err(err),
        Ok((struct_type, q)) => if 16 > avail(q, e) {
            Err(Error::PrematureEof)
        } else {
            Ok((TagModel::Struct { struct_type, guid: span(d, q, 16) }, q + 16))
        },
    }
}

/// The tag of a property of the given type.
pub open spec fn parse_tag(d: Seq<u8>, p: int, e: int, names: Seq<NameModel>, typ: PropType) -> Result<
    (TagModel, int),
    Error,
> {
    match typ {
        PropType::BoolProperty => parse_bool_tag(d, p, e),
        PropType::EnumProperty => parse_enum_tag(d, p, e, names),
        PropType::ByteProperty => parse_enum_tag(d, p, e, names),
        PropType::ArrayProperty => parse_array_tag(d, p, e, names),
        PropType::MapProperty => parse_map_tag(d, p, e, names),
        PropType::StructProperty => parse_struct_tag(d, p, e, names),
        _ => Ok((TagModel::Simple(typ), p)),
    }
}

/// The bytes of a tag.
pub open spec fn enc_tag(tag: TagModel, names: Seq<NameModel>) -> Result<Seq<u8>, Error> {
    match tag {
        TagModel::Simple(_) => Ok(Seq::empty()),
        TagModel::Bool(b) => Ok(
            seq![if b {
                1u8
            } else {
                0u8
            }],
        ),
        TagModel::Enum(n) => if name_variant_fits(n, names.len() as int) {
            Ok(enc_name_variant(n))
        } else {
            Err(Error::MissingName)
        },
        TagModel::Array { inner_type } => enc_prop_type(inner_type, names),
        TagModel::Mapping { key_type, value_type } => match enc_prop_type(key_type, names) {
            Err(err) => Err(err),
            Ok(key) => match enc_prop_type(value_type, names) {
                Err(err) => Err(err),
                Ok(value) => Ok(key + value),
            },
        },
        TagModel::Struct { struct_type, guid } => if name_variant_fits(
            struct_type,
            names.len() as int,
        ) {
            Ok(enc_name_variant(struct_type) + guid)
        } else {
            Err(Error::MissingName)
        },
    }
}

/// The bytes that a tag takes.
pub open spec fn tag_size(tag: TagModel) -> nat {
    match tag {
        TagModel::Simple(_) => 0,
        TagModel::Bool(_) => 1,
        TagModel::Enum(_) => 8,
        TagModel::Array { .. } => 8,
        TagModel::Mapping { .. } => 16,
        TagModel::Struct { .. } => 24,
    }
}

pub fn deserialize_bool_tag(rdr: &mut ByteReader, _ctx: PropertyContext) -> (r: Result<Tag, Error>)
    ensures
        reads_as(
            old(rdr)@,
            final(rdr)@,
            r,
            parse_bool_tag(old(rdr)@.data, old(rdr)@.pos as int, old(rdr)@.bound()),
        ),
{
    let value = read_u8(rdr)? != 0;
    Ok(Tag::Bool(value))
}

pub fn deserialize_enum_tag(rdr: &mut ByteReader, ctx: PropertyContext) -> (r: Result<Tag, Error>)
    ensures
        reads_as(
            old(rdr)@,
            final(rdr)@,
            r,
            parse_enum_tag(old(rdr)@.data, old(rdr)@.pos as int, old(rdr)@.bound(), ctx@.names),
        ),
{
    Ok(Tag::Enum(NameVariant::read(rdr, ctx.names)?))
}

pub fn deserialize_array_tag(rdr: &mut ByteReader, ctx: PropertyContext) -> (r: Result<Tag, Error>)
    ensures
        reads_as(
            old(rdr)@,
            final(rdr)@,
            r,
            parse_array_tag(old(rdr)@.data, old(rdr)@.pos as int, old(rdr)@.bound(), ctx@.names),
        ),
{
    let inner_type = PropType::deserialize(rdr, ctx)?;
    Ok(Tag::Array { inner_type })
}

pub fn deserialize_map_tag(rdr: &mut ByteReader, ctx: PropertyContext) -> (r: Result<Tag, Error>)
    ensures
        reads_as(
            old(rdr)@,
            final(rdr)@,
            r,
            parse_map_tag(old(rdr)@.data, old(rdr)@.pos as int, old(rdr)@.bound(), ctx@.names),
        ),
{
    let key_type = PropType::deserialize(rdr, ctx)?;
    let value_type = PropType::deserialize(rdr, ctx)?;
    Ok(Tag::Mapping { key_type, value_type })
}

pub fn deserialize_struct_tag(rdr: &mut ByteReader, ctx: PropertyContext) -> (r: Result<
    Tag,
    Error,
>)
    ensures
        reads_as(
            old(rdr)@,
            final(rdr)@,
            r,
            parse_struct_tag(old(rdr)@.data, old(rdr)@.pos as int, old(rdr)@.bound(), ctx@.names),
        ),
{
    let struct_type = NameVariant::read(rdr, ctx.names)?;
    let guid = read_array::<16>(rdr)?;
    Ok(Tag::Struct { struct_type, guid })
}

/// Reads the tag of a property of the given type.
pub fn deserialize_tag(rdr: &mut ByteReader, ctx: PropertyContext, typ: PropType) -> (r: Result<
    Tag,
    Error,
>)
    ensures
        reads_as(
            old(rdr)@,
            final(rdr)@,
            r,
            parse_tag(old(rdr)@.data, old(rdr)@.pos as int, old(rdr)@.bound(), ctx@.names, typ),
        ),
{
    match typ {
        PropType::BoolProperty => deserialize_bool_tag(rdr, ctx),
        PropType::EnumProperty => deserialize_enum_tag(rdr, ctx),
        PropType::ByteProperty => deserialize_enum_tag(rdr, ctx),
        PropType::ArrayProperty => deserialize_array_tag(rdr, ctx),
        PropType::MapProperty => deserialize_map_tag(rdr, ctx),
        PropType::StructProperty => deserialize_struct_tag(rdr, ctx),
        _ => Ok(Tag::Simple(typ)),
    }
}

/// What writing a tag comes to: the bytes of the tag behind what was
/// there, or its error.
pub open spec fn wrote(
    before: Seq<u8>,
    after: Seq<u8>,
    r: Result<(), Error>,
    want: Result<Seq<u8>, Error>,
) -> bool {
    match want {
        Ok(bytes) => r is Ok && after == before + bytes,
        Err(e) => r == Err::<(), Error>(e),
    }
}

/// What writing comes to where a failure names its place: the bytes
/// behind what was there, or the error and the parts in which it came up.
pub open spec fn wrote_in(
    before: Seq<u8>,
    after: Seq<u8>,
    r: Result<(), Failure>,
    want: Result<Seq<u8>, Error>,
    trail: Seq<Place>,
) -> bool {
    match want {
        Ok(bytes) => r is Ok && after == before + bytes,
        Err(e) => fails_with(r, e, trail),
    }
}

/// Writes the tag of a boolean; any other tag is refused.
pub fn serialize_bool_tag(tag: &Tag, out: &mut Vec<u8>, _ctx: PropertyContext) -> (r: Result<
    (),
    Error,
>)
    ensures
        tag@ is Bool ==> wrote(old(out)@, final(out)@, r, enc_tag(tag@, _ctx@.names)),
        !(tag@ is Bool) ==> r == Err::<(), Error>(Error::KindMismatch),
{
    if let Tag::Bool(value) = tag {
        let value = if *value {
            1
        } else {
            0
        };
        write_u8(out, value);
        Ok(())
    } else {
        Err(Error::KindMismatch)
    }
}

/// Writes the tag of an enum or a byte; any other tag is refused.
pub fn serialize_enum_tag(tag: &Tag, out: &mut Vec<u8>, ctx: PropertyContext) -> (r: Result<
    (),
    Error,
>)
    ensures
        tag@ is Enum ==> wrote(old(out)@, final(out)@, r, enc_tag(tag@, ctx@.names)),
        !(tag@ is Enum) ==> r == Err::<(), Error>(Error::KindMismatch),
{
    if let Tag::Enum(typ) = tag {
        typ.write(out, ctx.names)
    } else {
        Err(Error::KindMismatch)
    }
}

/// Writes the tag of an array; any other tag is refused.
pub fn serialize_array_tag(tag: &Tag, out: &mut Vec<u8>, ctx: PropertyContext) -> (r: Result<
    (),
    Error,
>)
    ensures
        tag@ is Array ==> wrote(old(out)@, final(out)@, r, enc_tag(tag@, ctx@.names)),
        !(tag@ is Array) ==> r == Err::<(), Error>(Error::KindMismatch),
{
    if let Tag::Array { inner_type } = tag {
        inner_type.serialize(out, ctx)
    } else {
        Err(Error::KindMismatch)
    }
}

/// Writes the tag of a map; any other tag is refused.
pub fn serialize_map_tag(tag: &Tag, out: &mut Vec<u8>, ctx: PropertyContext) -> (r: Result<
    (),
    Error,
>)
    ensures
        tag@ is Mapping ==> wrote(old(out)@, final(out)@, r, enc_tag(tag@, ctx@.names)),
        !(tag@ is Mapping) ==> r == Err::<(), Error>(Error::KindMismatch),
{
    if let Tag::Mapping { key_type, value_type } = tag {
        key_type.serialize(out, ctx)?;
        value_type.serialize(out, ctx)?;
        proof {
            let key = enc_prop_type(*key_type, ctx@.names)->Ok_0;
            let value = enc_prop_type(*value_type, ctx@.names)->Ok_0;
            assert(out@ =~= old(out)@ + (key + value));
        }
        Ok(())
    } else {
        Err(Error::KindMismatch)
    }
}

/// Writes the tag of a struct; any other tag is refused.
pub fn serialize_struct_tag(tag: &Tag, out: &mut Vec<u8>, ctx: PropertyContext) -> (r: Result<
    (),
    Error,
>)
    ensures
        tag@ is Struct ==> wrote(old(out)@, final(out)@, r, enc_tag(tag@, ctx@.names)),
        !(tag@ is Struct) ==> r == Err::<(), Error>(Error::KindMismatch),
{
    if let Tag::Struct { struct_type, guid } = tag {
        struct_type.write(out, ctx.names)?;
        write_bytes(out, guid.as_slice());
        assert(out@ =~= old(out)@ + (enc_name_variant(*struct_type) + guid@));
        Ok(())
    } else {
        Err(Error::KindMismatch)
    }
}

/// Writes a tag.
pub fn serialize_tag(tag: &Tag, out: &mut Vec<u8>, ctx: PropertyContext) -> (r: Result<(), Error>)
    ensures
        wrote(old(out)@, final(out)@, r, enc_tag(tag@, ctx@.names)),
{
    match tag {
        Tag::Simple(_) => {
            assert(out@ =~= old(out)@ + Seq::<u8>::empty());
            Ok(())
        },
        Tag::Bool(_) => serialize_bool_tag(tag, out, ctx),
        Tag::Enum(_) => serialize_enum_tag(tag, out, ctx),
        Tag::Array { .. } => serialize_array_tag(tag, out, ctx),
        Tag::Mapping { .. } => serialize_map_tag(tag, out, ctx),
        Tag::Struct { .. } => serialize_struct_tag(tag, out, ctx),
    }
}

/// The bytes that a tag takes.
pub fn size_of_tag(tag: &Tag) -> (r: usize)
    ensures
        r == tag_size(tag@),
{
    match tag {
        Tag::Simple(_) => 0,
        Tag::Bool(_) => 1,
        Tag::Enum(_) => 8,
        Tag::Array { .. } => 8,
        Tag::Mapping { .. } => 16,
        Tag::Struct { .. } => 24,
    }
}

/* Values of the simple types */

/// The value of a simple type: a scalar of fixed width, a reference, a
/// name, a string, or, for a text, the `max_size` bytes that follow.
pub open spec fn parse_simple_value(
    d: Seq<u8>,
    p: int,
    e: int,
    env: Env,
    typ: PropType,
    max_size: u64,
) -> Result<(ValueModel, int), Error> {
    match typ {
        PropType::IntProperty => match parse_i32(d, p, e) {
            Err(err) => Err(err),
            Ok((x, q)) => Ok((ValueModel::Int(x), q)),
        },
        PropType::UInt8Property => match parse_u8(d, p, e) {
            Err(err) => Err(err),
            Ok((x, q)) => Ok((ValueModel::UInt8(x), q)),
        },
        PropType::FloatProperty => match parse_u32(d, p, e) {
            Err(err) => Err(err),
            Ok((x, q)) => Ok((ValueModel::Float(x), q)),
        },
        PropType::ObjectProperty => match parse_reference(d, p, e, env.imports, env.exports) {
            Err(err) => Err(err),
            Ok((r, q)) => Ok((ValueModel::Object(r), q)),
        },
        PropType::SoftObjectProperty => match parse_name_variant(d, p, e, env.names.len() as int) {
            Err(err) => Err(err),
            Ok((object_name, q)) => match parse_reference(d, q, e, env.imports, env.exports) {
                Err(err) => Err(err),
                Ok((parent, q2)) => Ok((ValueModel::SoftObject { object_name, parent }, q2)),
            },
        },
        PropType::NameProperty => match parse_name_variant(d, p, e, env.names.len() as int) {
            Err(err) => Err(err),
            Ok((n, q)) => Ok((ValueModel::Name(n), q)),
        },
        PropType::StrProperty => match parse_string(d, p, e) {
            Err(err) => Err(err),
            Ok((s, q)) => Ok((ValueModel::Str(s), q)),
        },
        PropType::TextProperty => match parse_bytes(d, p, e, max_size as int) {
            Err(err) => Err(err),
            Ok((bytes, q)) => Ok((ValueModel::Text { bytes }, q)),
        },
        _ => Err(Error::KindMismatch),
    }
}

/// The bytes of a value of a simple type.
pub open spec fn enc_simple_value(v: ValueModel, typ: PropType, env: Env) -> Result<
    Seq<u8>,
    Error,
> {
    match (v, typ) {
        (ValueModel::Int(x), PropType::IntProperty) => Ok(enc_i32(x)),
        (ValueModel::UInt8(x), PropType::UInt8Property) => Ok(seq![x]),
        (ValueModel::Float(x), PropType::FloatProperty) => Ok(enc_u32(x)),
        (ValueModel::Object(r), PropType::ObjectProperty) => if encodable(
            r,
            env.imports,
            env.exports,
        ) {
            Ok(enc_reference(r, env.imports, env.exports))
        } else {
            Err(Error::MissingName)
        },
        (
            ValueModel::SoftObject { object_name, parent },
            PropType::SoftObjectProperty,
        ) => if name_variant_fits(object_name, env.names.len() as int) && encodable(
            parent,
            env.imports,
            env.exports,
        ) {
            Ok(enc_name_variant(object_name) + enc_reference(parent, env.imports, env.exports))
        } else {
            Err(Error::MissingName)
        },
        (ValueModel::Name(n), PropType::NameProperty) => if name_variant_fits(
            n,
            env.names.len() as int,
        ) {
            Ok(enc_name_variant(n))
        } else {
            Err(Error::MissingName)
        },
        (ValueModel::Str(s), PropType::StrProperty) => if encode_utf8(s).len() < u32::MAX {
            Ok(enc_string(s))
        } else {
            Err(Error::TooLong)
        },
        (ValueModel::Text { bytes }, PropType::TextProperty) => Ok(bytes),
        _ => Err(Error::KindMismatch),
    }
}

/// The bytes that a value of a simple type takes; 0 where the value is
/// not of the type.
pub open spec fn simple_value_size(v: ValueModel, typ: PropType) -> nat {
    match (v, typ) {
        (ValueModel::Int(_), PropType::IntProperty) => 4,
        (ValueModel::UInt8(_), PropType::UInt8Property) => 1,
        (ValueModel::Float(_), PropType::FloatProperty) => 4,
        (ValueModel::Object(_), PropType::ObjectProperty) => 4,
        (ValueModel::SoftObject { .. }, PropType::SoftObjectProperty) => 12,
        (ValueModel::Name(_), PropType::NameProperty) => 8,
        (ValueModel::Str(s), PropType::StrProperty) => 4 + encode_utf8(s).len() + 1,
        (ValueModel::Text { bytes }, PropType::TextProperty) => bytes.len(),
        _ => 0,
    }
}

/// Reads a value of a simple type. A type that is not simple is refused.
pub fn deserialize_simple(
    rdr: &mut ByteReader,
    typ: PropType,
    max_size: u64,
    ctx: PropertyContext,
) -> (r: Result<Value, Error>)
    ensures
        reads_as(
            old(rdr)@,
            final(rdr)@,
            r,
            parse_simple_value(
                old(rdr)@.data,
                old(rdr)@.pos as int,
                old(rdr)@.bound(),
                ctx@,
                typ,
                max_size,
            ),
        ),
{
    match typ {
        PropType::IntProperty => Ok(Value::Int(read_i32(rdr)?)),
        PropType::UInt8Property => Ok(Value::UInt8(read_u8(rdr)?)),
        PropType::FloatProperty => Ok(Value::Float(read_u32(rdr)?)),
        PropType::ObjectProperty => Ok(
            Value::Object(Reference::read(rdr, ctx.imports, ctx.exports)?),
        ),
        PropType::SoftObjectProperty => {
            let object_name = NameVariant::read(rdr, ctx.names)?;
            let parent = Reference::read(rdr, ctx.imports, ctx.exports)?;
            Ok(Value::SoftObject { object_name, parent })
        },
        PropType::NameProperty => Ok(Value::Name(NameVariant::read(rdr, ctx.names)?)),
        PropType::StrProperty => Ok(Value::Str(read_string(rdr)?)),
        PropType::TextProperty => {
            if max_size > rdr.available() as u64 {
                return Err(Error::PrematureEof);
            }
            let bytes = read_bytes(rdr, max_size as usize)?;
            Ok(Value::Text { bytes })
        },
        _ => Err(Error::KindMismatch),
    }
}

/// Writes a value of a simple type. Nothing is written where the value
/// is not of the type or cannot be written.
pub fn serialize_simple(val: &Value, typ: PropType, out: &mut Vec<u8>, ctx: PropertyContext) -> (r:
    Result<(), Error>)
    ensures
        match enc_simple_value(val@, typ, ctx@) {
            Ok(bytes) => r is Ok && final(out)@ == old(out)@ + bytes,
            Err(e) => r == Err::<(), Error>(e) && final(out)@ == old(out)@,
        },
{
    match (val, typ) {
        (Value::Int(x), PropType::IntProperty) => {
            write_i32(out, *x);
            Ok(())
        },
        (Value::UInt8(x), PropType::UInt8Property) => {
            write_u8(out, *x);
            Ok(())
        },
        (Value::Float(x), PropType::FloatProperty) => {
            write_u32(out, *x);
            Ok(())
        },
        (Value::Object(dep), PropType::ObjectProperty) => dep.write(
            out,
            ctx.names,
            ctx.imports,
            ctx.exports,
        ),
        (Value::SoftObject { object_name, parent }, PropType::SoftObjectProperty) => {
            if parent.try_serialize(ctx.imports, ctx.exports).is_none() {
                return Err(Error::MissingName);
            }
            object_name.write(out, ctx.names)?;
            let _ = parent.write(out, ctx.names, ctx.imports, ctx.exports);
            assert(out@ =~= old(out)@ + (enc_name_variant(*object_name) + enc_reference(
                *parent,
                ctx@.imports,
                ctx@.exports,
            )));
            Ok(())
        },
        (Value::Name(n), PropType::NameProperty) => n.write(out, ctx.names),
        (Value::Str(s), PropType::StrProperty) => write_string(out, s.as_str()),
        (Value::Text { bytes }, PropType::TextProperty) => {
            write_bytes(out, bytes.as_slice());
            Ok(())
        },
        _ => Err(Error::KindMismatch),
    }
}

/// The bytes that a value of a simple type takes.
pub fn size_of_simple(val: &Value, typ: PropType) -> (r: usize)
    requires
        simple_value_size(val@, typ) <= usize::MAX,
    ensures
        r == simple_value_size(val@, typ),
{
    match (val, typ) {
        (Value::Int(_), PropType::IntProperty) => 4,
        (Value::UInt8(_), PropType::UInt8Property) => 1,
        (Value::Float(_), PropType::FloatProperty) => 4,
        (Value::Object(_), PropType::ObjectProperty) => 4,
        (Value::SoftObject { .. }, PropType::SoftObjectProperty) => 12,
        (Value::Name(_), PropType::NameProperty) => 8,
        (Value::Str(s), PropType::StrProperty) => 4 + s.as_str().as_bytes().len() + 1,
        (Value::Text { bytes }, PropType::TextProperty) => bytes.len(),
        _ => 0,
    }
}

} // verus!
