use vstd::prelude::*;
use crate::asset::name_map::enc_name_variant;
use crate::asset::name_map::first_index;
use crate::asset::name_map::is_first;
use crate::asset::name_map::lemma_first_unique;
use crate::asset::name_map::name_variant_fits;
use crate::asset::name_map::parse_name_variant;
use crate::asset::name_map::NameModel;
use crate::asset::name_map::NameVariant;
use crate::asset::property::context::Env;
use crate::asset::property::encode::enc_element_header;
use crate::asset::property::encode::enc_entries;
use crate::asset::property::encode::enc_signed;
use crate::asset::property::encode::enc_struct;
use crate::asset::property::encode::enc_unsigned;
use crate::asset::property::encode::enc_value;
use crate::asset::property::encode::enc_values;
use crate::asset::property::encode::fits_signed;
use crate::asset::property::encode::fits_unsigned;
use crate::asset::property::loaders::enc_tag;
use crate::asset::property::loaders::parse_struct_tag;
use crate::asset::property::meta::enc_meta;
use crate::asset::property::meta::parse_meta;
use crate::asset::property::meta::Meta;
use crate::asset::property::parse_fields;
use crate::asset::property::parse_struct;
use crate::asset::property::parse_struct_array;
use crate::asset::property::parse_value;
use crate::asset::property::parse_structs;
use crate::asset::property::prop_type::enc_prop_type;
use crate::asset::property::prop_type::name_of_type;
use crate::asset::property::prop_type::parse_prop_type;
use crate::asset::property::prop_type::type_of_name;
use crate::asset::property::prop_type::PropType;
use crate::asset::property::signed_at;
use crate::asset::property::struct_pattern::is_int_width;
use crate::asset::property::struct_pattern::pattern_for;
use crate::asset::property::struct_pattern::FieldModel;
use crate::asset::property::struct_pattern::PatternModel;
use crate::asset::property::struct_type_text;
use crate::asset::property::unsigned_at;
use crate::asset::property::value::StructValueModel;
use crate::asset::property::value::TagModel;
use crate::asset::property::value::ValueModel;
use crate::error::Error;
use crate::util::enc_u16;
use crate::util::enc_u32;
use crate::util::enc_u64;
use crate::util::lemma_le_round_trip;
use crate::util::parse_u32;
use crate::util::span;
use crate::util::u16_at;
use crate::util::u32_at;
use crate::util::u64_at;

verus! {

/* What was read is written back: an array of structs */

/// Whether no name stands twice in a name table. A name is then
/// written as the reference that it was read from.
pub open spec fn names_distinct(names: Seq<NameModel>) -> bool {
    forall|i: int, j: int|
        0 <= i < j < names.len() ==> (#[trigger] names[i]).name != (#[trigger] names[j]).name
}

/// Whether a pattern lays a struct out as bytes and numbers only, with
/// no list of properties in it.
pub open spec fn is_flat(pattern: PatternModel) -> bool
    decreases pattern,
{
    match pattern {
        PatternModel::PropertyList => false,
        PatternModel::BinaryProperties { properties } => forall|i: int|
            0 <= i < properties.len() ==> is_flat((#[trigger] properties[i]).pattern),
        _ => true,
    }
}

/// The number that 4 bytes hold is written as those bytes.
pub proof fn lemma_u32_writes_back(d: Seq<u8>, p: int)
    requires
        0 <= p,
        p + 4 <= d.len(),
    ensures
        enc_u32(u32_at(d, p)) == span(d, p, 4),
{
    lemma_le_round_trip();
    let s = span(d, p, 4);
    assert(s.subrange(0, 4) =~= d.subrange(p, p + 4));
    assert(u32_at(s, 0) == u32_at(d, p));
}

/// The number that 8 bytes hold is written as those bytes.
pub proof fn lemma_u64_writes_back(d: Seq<u8>, p: int)
    requires
        0 <= p,
        p + 8 <= d.len(),
    ensures
        enc_u64(u64_at(d, p)) == span(d, p, 8),
{
    lemma_le_round_trip();
    let s = span(d, p, 8);
    assert(s.subrange(0, 8) =~= d.subrange(p, p + 8));
    assert(u64_at(s, 0) == u64_at(d, p));
}

/// The number that 2 bytes hold is written as those bytes.
pub proof fn lemma_u16_writes_back(d: Seq<u8>, p: int)
    requires
        0 <= p,
        p + 2 <= d.len(),
    ensures
        enc_u16(u16_at(d, p)) == span(d, p, 2),
{
    lemma_le_round_trip();
    let s = span(d, p, 2);
    assert(s.subrange(0, 2) =~= d.subrange(p, p + 2));
    assert(u16_at(s, 0) == u16_at(d, p));
}

/// A name reference that was read is written as the 8 bytes that it
/// was read from.
pub proof fn lemma_name_variant_writes_back(d: Seq<u8>, p: int, e: int, names: int)
    requires
        0 <= p,
        e <= d.len(),
        parse_name_variant(d, p, e, names) is Ok,
    ensures
        parse_name_variant(d, p, e, names)->Ok_0.1 == p + 8,
        p + 8 <= e,
        name_variant_fits(parse_name_variant(d, p, e, names)->Ok_0.0, names),
        enc_name_variant(parse_name_variant(d, p, e, names)->Ok_0.0) == span(d, p, 8),
{
    let n = parse_name_variant(d, p, e, names)->Ok_0.0;
    lemma_u32_writes_back(d, p);
    lemma_u32_writes_back(d, p + 4);
    assert(n.name_idx as u32 == u32_at(d, p));
    assert(span(d, p, 4) + span(d, p + 4, 4) =~= span(d, p, 8));
}

/// A type that was read from a table of distinct names is written as
/// the 8 bytes that it was read from.
pub proof fn lemma_prop_type_writes_back(d: Seq<u8>, p: int, e: int, names: Seq<NameModel>)
    requires
        0 <= p,
        e <= d.len(),
        names_distinct(names),
        parse_prop_type(d, p, e, names) is Ok,
    ensures
        parse_prop_type(d, p, e, names)->Ok_0.1 == p + 8,
        p + 8 <= e,
        enc_prop_type(parse_prop_type(d, p, e, names)->Ok_0.0, names) == Ok::<Seq<u8>, Error>(
            span(d, p, 8),
        ),
{
    lemma_name_variant_writes_back(d, p, e, names.len() as int);
    let n = parse_name_variant(d, p, e, names.len() as int)->Ok_0.0;
    let t = parse_prop_type(d, p, e, names)->Ok_0.0;
    let text = names[n.name_idx as int].name;
    assert(type_of_name(text) == Some(t));
    assert(name_of_type(t) == text);
    assert(is_first(names, text, n.name_idx as int));
    lemma_first_unique(names, text, n.name_idx as int, n.name_idx as int);
    assert(NameVariant { name_idx: first_index(names, text) as usize, variant: 0 } == n);
}

/// A meta that was read from a table of distinct names is written as
/// the 24 bytes that it was read from.
pub proof fn lemma_meta_writes_back(d: Seq<u8>, p: int, e: int, names: Seq<NameModel>)
    requires
        0 <= p,
        e <= d.len(),
        names_distinct(names),
        parse_meta(d, p, e, names) is Ok,
        parse_meta(d, p, e, names)->Ok_0.0 is Some,
    ensures
        parse_meta(d, p, e, names)->Ok_0.1 == p + 24,
        p + 24 <= e,
        enc_meta(parse_meta(d, p, e, names)->Ok_0.0->Some_0, names) == Ok::<Seq<u8>, Error>(
            span(d, p, 24),
        ),
{
    lemma_name_variant_writes_back(d, p, e, names.len() as int);
    lemma_prop_type_writes_back(d, p + 8, e, names);
    lemma_u64_writes_back(d, p + 16);
    assert(span(d, p, 8) + span(d, p + 8, 8) + span(d, p + 16, 8) =~= span(d, p, 24));
}

/// The tag of a struct that was read is written as the 24 bytes that it
/// was read from.
pub proof fn lemma_struct_tag_writes_back(d: Seq<u8>, p: int, e: int, names: Seq<NameModel>)
    requires
        0 <= p,
        e <= d.len(),
        parse_struct_tag(d, p, e, names) is Ok,
    ensures
        parse_struct_tag(d, p, e, names)->Ok_0.1 == p + 24,
        p + 24 <= e,
        parse_struct_tag(d, p, e, names)->Ok_0.0 is Struct,
        enc_tag(parse_struct_tag(d, p, e, names)->Ok_0.0, names) == Ok::<Seq<u8>, Error>(
            span(d, p, 24),
        ),
{
    lemma_name_variant_writes_back(d, p, e, names.len() as int);
    assert(span(d, p, 8) + span(d, p + 8, 16) =~= span(d, p, 24));
}

/// A signed number that was read from 1, 2, 4 or 8 bytes is written as
/// those bytes.
pub proof fn lemma_signed_writes_back(d: Seq<u8>, p: int, size: u8)
    requires
        0 <= p,
        p + size <= d.len(),
        is_int_width(size as int),
    ensures
        fits_signed(signed_at(d, p, size), size),
        enc_signed(signed_at(d, p, size), size) == span(d, p, size as int),
{
    lemma_le_round_trip();
    if size == 1 {
        let b = d[p];
        assert((((b as i8) as i64) as i8) as u8 == b) by (bit_vector);
        assert(-0x80 <= (b as i8) as i64 <= 0x7f) by (bit_vector);
        assert(span(d, p, 1) =~= seq![b]);
    } else if size == 2 {
        let x = u16_at(d, p);
        assert((((x as i16) as i64) as i16) as u16 == x) by (bit_vector);
        assert(-0x8000 <= (x as i16) as i64 <= 0x7fff) by (bit_vector);
        lemma_u16_writes_back(d, p);
    } else if size == 4 {
        let x = u32_at(d, p);
        assert((((x as i32) as i64) as i32) as u32 == x) by (bit_vector);
        assert(-0x8000_0000 <= (x as i32) as i64 <= 0x7fff_ffff) by (bit_vector);
        lemma_u32_writes_back(d, p);
    } else {
        let x = u64_at(d, p);
        assert((x as i64) as u64 == x) by (bit_vector);
        lemma_u64_writes_back(d, p);
    }
}

/// An unsigned number that was read from 1, 2, 4 or 8 bytes is written
/// as those bytes.
pub proof fn lemma_unsigned_writes_back(d: Seq<u8>, p: int, size: u8)
    requires
        0 <= p,
        p + size <= d.len(),
        is_int_width(size as int),
    ensures
        fits_unsigned(unsigned_at(d, p, size), size),
        enc_unsigned(unsigned_at(d, p, size), size) == span(d, p, size as int),
{
    if size == 1 {
        let b = d[p];
        assert((b as u64) as u8 == b) by (bit_vector);
        assert(span(d, p, 1) =~= seq![b]);
    } else if size == 2 {
        let x = u16_at(d, p);
        assert((x as u64) as u16 == x) by (bit_vector);
        lemma_u16_writes_back(d, p);
    } else if size == 4 {
        let x = u32_at(d, p);
        assert((x as u64) as u32 == x) by (bit_vector);
        lemma_u32_writes_back(d, p);
    } else {
        lemma_u64_writes_back(d, p);
    }
}

/// The bytes of the first `n` named parts do not depend on what follows them.
pub proof fn lemma_enc_entries_of_prefix(
    a: Seq<(Seq<char>, StructValueModel)>,
    b: Seq<(Seq<char>, StructValueModel)>,
    env: Env,
    n: int,
)
    requires
        n <= a.len(),
        n <= b.len(),
        forall|k: int| 0 <= k < n ==> a[k] == b[k],
    ensures
        enc_entries(a, env, n) == enc_entries(b, env, n),
    decreases n,
{
    if n > 0 {
        lemma_enc_entries_of_prefix(a, b, env, n - 1);
    }
}

/// The bytes of the first `n` values do not depend on what follows them.
pub proof fn lemma_enc_values_of_prefix(
    a: Seq<ValueModel>,
    b: Seq<ValueModel>,
    tag: TagModel,
    env: Env,
    n: int,
)
    requires
        n <= a.len(),
        n <= b.len(),
        forall|k: int| 0 <= k < n ==> a[k] == b[k],
    ensures
        enc_values(a, tag, env, n) == enc_values(b, tag, env, n),
    decreases n,
{
    if n > 0 {
        lemma_enc_values_of_prefix(a, b, tag, env, n - 1);
    }
}

/// The payload of a struct that was read by a flat pattern is written
/// as the bytes that it was read from.
pub proof fn lemma_struct_writes_back(d: Seq<u8>, p: int, e: int, env: Env, pattern: PatternModel)
    requires
        0 <= p <= e <= d.len(),
        is_flat(pattern),
        parse_struct(d, p, e, env, pattern) is Ok,
    ensures
        p <= parse_struct(d, p, e, env, pattern)->Ok_0.1 <= e,
        enc_struct(parse_struct(d, p, e, env, pattern)->Ok_0.0, env) == Ok::<Seq<u8>, Error>(
            span(d, p, parse_struct(d, p, e, env, pattern)->Ok_0.1 - p),
        ),
    decreases pattern, 0int,
{
    match pattern {
        PatternModel::PropertyList => {},
        PatternModel::Binary { size } => {},
        PatternModel::BinaryProperties { properties } => {
            assert(span(d, p, 0) =~= Seq::<u8>::empty());
            lemma_fields_write_back(d, p, p, e, env, properties, 0, Seq::empty());
        },
        PatternModel::Int { size } => {
            lemma_signed_writes_back(d, p, size);
        },
        PatternModel::UInt { size } => {
            lemma_unsigned_writes_back(d, p, size);
        },
        PatternModel::Floating { size } => {
            lemma_unsigned_writes_back(d, p, size);
        },
        PatternModel::Enum { variants } => {
            assert(span(d, p, 1) =~= seq![d[p]]);
        },
    }
}

/// The named parts of a struct that were read by flat patterns are
/// written as the bytes that they were read from.
pub proof fn lemma_fields_write_back(
    d: Seq<u8>,
    p0: int,
    p: int,
    e: int,
    env: Env,
    fields: Seq<FieldModel>,
    i: int,
    acc: Seq<(Seq<char>, StructValueModel)>,
)
    requires
        0 <= p0 <= p <= e <= d.len(),
        0 <= i <= fields.len(),
        forall|k: int| 0 <= k < fields.len() ==> is_flat((#[trigger] fields[k]).pattern),
        enc_entries(acc, env, acc.len() as int) == Ok::<Seq<u8>, Error>(span(d, p0, p - p0)),
        parse_fields(d, p, e, env, fields, i, acc) is Ok,
    ensures
        p <= parse_fields(d, p, e, env, fields, i, acc)->Ok_0.1 <= e,
        enc_entries(
            parse_fields(d, p, e, env, fields, i, acc)->Ok_0.0,
            env,
            parse_fields(d, p, e, env, fields, i, acc)->Ok_0.0.len() as int,
        ) == Ok::<Seq<u8>, Error>(
            span(d, p0, parse_fields(d, p, e, env, fields, i, acc)->Ok_0.1 - p0),
        ),
    decreases fields, fields.len() - i,
{
    if i < fields.len() {
        let field = fields[i];
        lemma_struct_writes_back(d, p, e, env, field.pattern);
        let (value, q) = parse_struct(d, p, e, env, field.pattern)->Ok_0;
        let next = acc.push((field.name, value));
        lemma_enc_entries_of_prefix(next, acc, env, acc.len() as int);
        assert(span(d, p0, p - p0) + span(d, p, q - p) =~= span(d, p0, q - p0));
        lemma_fields_write_back(d, p0, q, e, env, fields, i + 1, next);
    }
}

/// Structs in a row that were read by a flat pattern are written as
/// the bytes that they were read from, and are as many as were asked for.
pub proof fn lemma_structs_write_back(
    d: Seq<u8>,
    p0: int,
    p: int,
    e: int,
    env: Env,
    pattern: PatternModel,
    tag: TagModel,
    count: nat,
    acc: Seq<ValueModel>,
)
    requires
        0 <= p0 <= p <= e <= d.len(),
        is_flat(pattern),
        tag is Struct,
        enc_values(acc, tag, env, acc.len() as int) == Ok::<Seq<u8>, Error>(span(d, p0, p - p0)),
        parse_structs(d, p, e, env, pattern, count, acc) is Ok,
    ensures
        p <= parse_structs(d, p, e, env, pattern, count, acc)->Ok_0.1 <= e,
        parse_structs(d, p, e, env, pattern, count, acc)->Ok_0.0.len() == acc.len() + count,
        enc_values(
            parse_structs(d, p, e, env, pattern, count, acc)->Ok_0.0,
            tag,
            env,
            parse_structs(d, p, e, env, pattern, count, acc)->Ok_0.0.len() as int,
        ) == Ok::<Seq<u8>, Error>(
            span(d, p0, parse_structs(d, p, e, env, pattern, count, acc)->Ok_0.1 - p0),
        ),
    decreases count,
{
    if count > 0 {
        lemma_struct_writes_back(d, p, e, env, pattern);
        let (value, q) = parse_struct(d, p, e, env, pattern)->Ok_0;
        let next = acc.push(ValueModel::Struct { value });
        lemma_enc_values_of_prefix(next, acc, tag, env, acc.len() as int);
        assert(span(d, p0, p - p0) + span(d, p, q - p) =~= span(d, p0, q - p0));
        assert(enc_value(next[acc.len() as int], tag, env) == enc_struct(value, env));
        assert(enc_values(next, tag, env, next.len() as int) == Ok::<Seq<u8>, Error>(
            span(d, p0, q - p0),
        ));
        lemma_structs_write_back(d, p0, q, e, env, pattern, tag, (count - 1) as nat, next);
    }
}

/// The tag of an array of structs.
pub open spec fn struct_array_tag() -> TagModel {
    TagModel::Array { inner_type: PropType::StructProperty }
}

/// The header that announces the elements of an array of structs is
/// written as the 49 bytes that it was read from, where no name stands
/// twice in the name table and the last of those bytes is zero.
pub proof fn lemma_element_header_writes_back(d: Seq<u8>, p: int, e: int, env: Env)
    requires
        0 <= p,
        e <= d.len(),
        names_distinct(env.names),
        parse_meta(d, p, e, env.names) is Ok,
        parse_meta(d, p, e, env.names)->Ok_0.0 is Some,
        parse_struct_tag(d, p + 24, e, env.names) is Ok,
        p + 49 <= e,
        d[p + 48] == 0,
    ensures
        enc_element_header(
            Some(
                (
                    parse_meta(d, p, e, env.names)->Ok_0.0->Some_0,
                    parse_struct_tag(d, p + 24, e, env.names)->Ok_0.0,
                ),
            ),
            env,
        ) == Ok::<Seq<u8>, Error>(span(d, p, 49)),
{
    lemma_meta_writes_back(d, p, e, env.names);
    lemma_struct_tag_writes_back(d, p + 24, e, env.names);
    assert(span(d, p, 24) + span(d, p + 24, 24) + seq![0u8] =~= span(d, p, 49));
}

/// The parts that an array of structs is read from: the count at `p`,
/// the meta 4 bytes on, the tag 28 bytes on, the elements 53 bytes on.
pub proof fn lemma_struct_array_parts(d: Seq<u8>, p: int, e: int, env: Env)
    requires
        0 <= p <= e <= d.len(),
        parse_struct_array(d, p, e, env) is Ok,
    ensures
        p + 53 <= e,
        parse_meta(d, p + 4, e, env.names) is Ok,
        parse_meta(d, p + 4, e, env.names)->Ok_0.0 is Some,
        parse_struct_tag(d, p + 28, e, env.names) is Ok,
        parse_struct_tag(d, p + 28, e, env.names)->Ok_0.0 is Struct,
        parse_structs(
            d,
            p + 53,
            e,
            env,
            pattern_for(
                env.patterns,
                struct_type_text(
                    parse_struct_tag(d, p + 28, e, env.names)->Ok_0.0->Struct_struct_type,
                    env,
                ),
            ),
            u32_at(d, p) as nat,
            Seq::empty(),
        ) is Ok,
        parse_struct_array(d, p, e, env)->Ok_0 == (
            ValueModel::Array {
                meta_tag: Some(
                    (
                        parse_meta(d, p + 4, e, env.names)->Ok_0.0->Some_0,
                        parse_struct_tag(d, p + 28, e, env.names)->Ok_0.0,
                    ),
                ),
                values: parse_structs(
                    d,
                    p + 53,
                    e,
                    env,
                    pattern_for(
                        env.patterns,
                        struct_type_text(
                            parse_struct_tag(d, p + 28, e, env.names)->Ok_0.0->Struct_struct_type,
                            env,
                        ),
                    ),
                    u32_at(d, p) as nat,
                    Seq::empty(),
                )->Ok_0.0,
            },
            parse_structs(
                d,
                p + 53,
                e,
                env,
                pattern_for(
                    env.patterns,
                    struct_type_text(
                        parse_struct_tag(d, p + 28, e, env.names)->Ok_0.0->Struct_struct_type,
                        env,
                    ),
                ),
                u32_at(d, p) as nat,
                Seq::empty(),
            )->Ok_0.1,
        ),
{
    assert(parse_u32(d, p, e) is Ok);
    assert(parse_u32(d, p, e)->Ok_0.1 == p + 4);
    assert(parse_meta(d, p + 4, e, env.names) is Ok);
    assert(parse_meta(d, p + 4, e, env.names)->Ok_0.0 is Some);
    assert(parse_name_variant(d, p + 4, e, env.names.len() as int) is Ok);
    assert(parse_prop_type(d, p + 12, e, env.names) is Ok);
    assert(parse_name_variant(d, p + 12, e, env.names.len() as int) is Ok);
    assert(parse_meta(d, p + 4, e, env.names)->Ok_0.1 == p + 28);
    assert(parse_struct_tag(d, p + 28, e, env.names) is Ok);
    assert(parse_struct_tag(d, p + 28, e, env.names)->Ok_0.1 == p + 52);
}

/// The bytes of an array whose elements a header announces: the count,
/// the header, the elements.
pub proof fn lemma_announced_array_bytes(
    meta: Meta,
    tag: TagModel,
    values: Seq<ValueModel>,
    env: Env,
    inner_type: PropType,
    header: Seq<u8>,
    elements: Seq<u8>,
)
    requires
        values.len() <= u32::MAX,
        enc_element_header(Some((meta, tag)), env) == Ok::<Seq<u8>, Error>(header),
        enc_values(values, tag, env, values.len() as int) == Ok::<Seq<u8>, Error>(elements),
    ensures
        enc_value(
            (ValueModel::Array { meta_tag: Some((meta, tag)), values }),
            (TagModel::Array { inner_type }),
            env,
        ) == Ok::<Seq<u8>, Error>(enc_u32(values.len() as u32) + header + elements),
{
}

/// What is read as an array of structs is written, with a tag of an
/// array, as the bytes that it was read from, under the conditions of
/// [`lemma_struct_array_writes_back`].
pub proof fn lemma_announced_array_writes_back(
    d: Seq<u8>,
    p: int,
    e: int,
    env: Env,
    inner_type: PropType,
)
    requires
        0 <= p <= e <= d.len(),
        names_distinct(env.names),
        parse_struct_array(d, p, e, env) is Ok,
        d[p + 52] == 0,
        is_flat(
            pattern_for(
                env.patterns,
                struct_type_text(
                    parse_struct_tag(d, p + 28, e, env.names)->Ok_0.0->Struct_struct_type,
                    env,
                ),
            ),
        ),
    ensures
        p <= parse_struct_array(d, p, e, env)->Ok_0.1 <= e,
        enc_value(
            parse_struct_array(d, p, e, env)->Ok_0.0,
            (TagModel::Array { inner_type }),
            env,
        ) == Ok::<Seq<u8>, Error>(span(d, p, parse_struct_array(d, p, e, env)->Ok_0.1 - p)),
{
    lemma_struct_array_parts(d, p, e, env);
    let count = u32_at(d, p);
    let meta = parse_meta(d, p + 4, e, env.names)->Ok_0.0->Some_0;
    let tag = parse_struct_tag(d, p + 28, e, env.names)->Ok_0.0;
    let pattern = pattern_for(env.patterns, struct_type_text(tag->Struct_struct_type, env));
    let (values, q) = parse_structs(d, p + 53, e, env, pattern, count as nat, Seq::empty())->Ok_0;
    lemma_u32_writes_back(d, p);
    lemma_element_header_writes_back(d, p + 4, e, env);
    assert(span(d, p + 53, 0) =~= Seq::<u8>::empty());
    assert(enc_values(Seq::<ValueModel>::empty(), tag, env, 0) == Ok::<Seq<u8>, Error>(
        Seq::empty(),
    ));
    lemma_structs_write_back(d, p + 53, p + 53, e, env, pattern, tag, count as nat, Seq::empty());
    assert(values.len() == count);
    lemma_announced_array_bytes(
        meta,
        tag,
        values,
        env,
        inner_type,
        span(d, p + 4, 49),
        span(d, p + 53, q - (p + 53)),
    );
    assert(span(d, p, 4) + span(d, p + 4, 49) + span(d, p + 53, q - (p + 53)) =~= span(
        d,
        p,
        q - p,
    ));
}

/// An array of structs that was read is written as the bytes that it
/// was read from: the count, the meta and the tag that announce the
/// elements, the zero byte, the elements. This holds where no name
/// stands twice in the name table, the byte between tag and elements is
/// zero, and the pattern of the struct type is flat.
pub proof fn lemma_struct_array_writes_back(
    d: Seq<u8>,
    p: int,
    e: int,
    env: Env,
    max_size: u64,
)
    requires
        0 <= p <= e <= d.len(),
        names_distinct(env.names),
        parse_value(d, p, e, env, struct_array_tag(), max_size) is Ok,
        d[p + 52] == 0,
        is_flat(
            pattern_for(
                env.patterns,
                struct_type_text(
                    parse_struct_tag(d, p + 28, e, env.names)->Ok_0.0->Struct_struct_type,
                    env,
                ),
            ),
        ),
    ensures
        p <= parse_value(d, p, e, env, struct_array_tag(), max_size)->Ok_0.1 <= e,
        enc_value(
            parse_value(d, p, e, env, struct_array_tag(), max_size)->Ok_0.0,
            struct_array_tag(),
            env,
        ) == Ok::<Seq<u8>, Error>(
            span(d, p, parse_value(d, p, e, env, struct_array_tag(), max_size)->Ok_0.1 - p),
        ),
{
    assert(parse_value(d, p, e, env, struct_array_tag(), max_size) == parse_struct_array(
        d,
        p,
        e,
        env,
    ));
    lemma_announced_array_writes_back(d, p, e, env, PropType::StructProperty);
}

} // verus!
