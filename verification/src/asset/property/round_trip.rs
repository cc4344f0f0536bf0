use vstd::prelude::*;
use vstd::utf8::encode_utf8;
use crate::asset::name_map::enc_name_variant;
use crate::asset::name_map::first_index;
use crate::asset::name_map::lemma_first_index;
use crate::asset::name_map::lemma_name_variant_reads_back;
use crate::asset::name_map::NameModel;
use crate::asset::name_map::NameVariant;
use crate::asset::property::bag::enc_bag;
use crate::asset::property::bag::parse_bag;
use crate::asset::property::bag::BagModel;
use crate::asset::property::context::Env;
use crate::asset::property::encode::enc_entries;
use crate::asset::property::encode::enc_map_entries;
use crate::asset::property::encode::enc_properties;
use crate::asset::property::encode::enc_property;
use crate::asset::property::encode::enc_signed;
use crate::asset::property::encode::enc_struct;
use crate::asset::property::encode::enc_unsigned;
use crate::asset::property::encode::fits_signed;
use crate::asset::property::encode::fits_unsigned;
use crate::asset::property::laws::guids_sized;
use crate::asset::property::laws::lemma_meta_len;
use crate::asset::property::laws::lemma_tag_len;
use crate::asset::property::laws::lemma_value_len;
use crate::asset::property::laws::struct_guids_sized;
use crate::asset::property::laws::property_guids_sized;
use crate::asset::property::parse_fields;
use crate::asset::property::parse_properties;
use crate::asset::property::parse_property;
use crate::asset::property::loaders::parse_struct_tag;
use crate::asset::property::parse_struct;
use crate::asset::property::parse_struct_array;
use crate::asset::property::parse_structs;
use crate::asset::property::parse_value;
use crate::asset::property::signed_at;
use crate::asset::property::struct_pattern::is_int_width;
use crate::asset::property::struct_pattern::FieldModel;
use crate::asset::property::unsigned_at;
use crate::asset::property::value_bound;
use crate::util::enc_u32;
use crate::util::lemma_i64_reads_back;
use crate::util::lemma_u16_reads_back;
use crate::asset::property::encode::value_size;
use crate::asset::property::prop_type::is_simple;
use crate::asset::property::struct_pattern::pattern_for;
use crate::asset::property::struct_pattern::PatternModel;
use crate::asset::property::struct_type_text;
use crate::asset::property::value::PropertyModel;
use crate::asset::property::value::StructValueModel;
use crate::asset::property::encode::enc_none;
use crate::asset::property::encode::enc_value;
use crate::asset::property::encode::enc_values;
use crate::asset::property::parse_map_entries;
use crate::asset::property::parse_simple_values;
use crate::util::concat_all;
use crate::util::lemma_part_lies_at;
use crate::asset::property::loaders::enc_simple_value;
use crate::asset::property::loaders::enc_tag;
use crate::asset::property::loaders::parse_simple_value;
use crate::asset::property::loaders::parse_tag;
use crate::asset::property::loaders::tag_matches;
use crate::asset::property::loaders::tag_size;
use crate::asset::property::meta::enc_meta;
use crate::asset::property::meta::is_none;
use crate::asset::property::meta::parse_meta;
use crate::asset::property::meta::Meta;
use crate::asset::property::prop_type::enc_prop_type;
use crate::asset::property::prop_type::name_of_type;
use crate::asset::property::prop_type::parse_prop_type;
use crate::asset::property::prop_type::type_of_name;
use crate::asset::property::prop_type::PropType;
use crate::asset::property::value::TagModel;
use crate::asset::property::value::ValueModel;
use crate::asset::reference::enc_reference;
use crate::asset::reference::lemma_reference_reads_back;
use crate::error::Error;
use crate::util::enc_u64;
use crate::util::lemma_bytes_read_back;
use crate::util::lemma_i32_reads_back;
use crate::util::lemma_le_round_trip;
use crate::util::lemma_lies_at_split;
use crate::util::lemma_string_reads_back;
use crate::util::lemma_u32_reads_back;
use crate::util::lemma_u64_reads_back;
use crate::util::lemma_u8_reads_back;
use crate::util::lies_at;

verus! {

/* What was written reads back: the parts of a property */

/// The name of a type stands for that type and for no other.
pub proof fn lemma_type_names(t: PropType)
    ensures
        type_of_name(name_of_type(t)) == Some(t),
        name_of_type(t) != "None"@,
{
    reveal_strlit("IntProperty");
    reveal_strlit("UInt8Property");
    reveal_strlit("FloatProperty");
    reveal_strlit("ObjectProperty");
    reveal_strlit("SoftObjectProperty");
    reveal_strlit("NameProperty");
    reveal_strlit("StrProperty");
    reveal_strlit("TextProperty");
    reveal_strlit("BoolProperty");
    reveal_strlit("ByteProperty");
    reveal_strlit("EnumProperty");
    reveal_strlit("ArrayProperty");
    reveal_strlit("StructProperty");
    reveal_strlit("MapProperty");
    reveal_strlit("None");
    let s = name_of_type(t);
    assert(s.len() > 4);
    assert(s[0] == 'I' || s[0] == 'U' || s[0] == 'F' || s[0] == 'O' || s[0] == 'S' || s[0] == 'N'
        || s[0] == 'T' || s[0] == 'B' || s[0] == 'E' || s[0] == 'A' || s[0] == 'M');
    match t {
        PropType::IntProperty => {},
        PropType::UInt8Property => {},
        PropType::FloatProperty => {},
        PropType::ObjectProperty => {},
        PropType::SoftObjectProperty => {
            assert(s[1] == 'o');
        },
        PropType::NameProperty => {},
        PropType::StrProperty => {
            assert(s[1] == 't' && s[3] == 'P');
        },
        PropType::TextProperty => {},
        PropType::BoolProperty => {
            assert(s[1] == 'o');
        },
        PropType::ByteProperty => {
            assert(s[1] == 'y');
        },
        PropType::EnumProperty => {},
        PropType::ArrayProperty => {},
        PropType::StructProperty => {
            assert(s[1] == 't' && s[3] == 'u');
        },
        PropType::MapProperty => {},
    }
}

/// A type that was written reads back.
pub proof fn lemma_prop_type_reads_back(
    d: Seq<u8>,
    p: int,
    e: int,
    t: PropType,
    names: Seq<NameModel>,
)
    requires
        enc_prop_type(t, names) is Ok,
        lies_at(d, p, enc_prop_type(t, names)->Ok_0),
        p + 8 <= e,
    ensures
        parse_prop_type(d, p, e, names) == Ok::<(PropType, int), Error>((t, p + 8)),
        enc_prop_type(t, names)->Ok_0.len() == 8,
{
    lemma_first_index(names, name_of_type(t));
    lemma_type_names(t);
    let n = NameVariant { name_idx: first_index(names, name_of_type(t)) as usize, variant: 0 };
    lemma_name_variant_reads_back(d, p, e, n, names.len() as int);
}

/// A meta that was written reads back, unless its name is `None`.
pub proof fn lemma_meta_reads_back(d: Seq<u8>, p: int, e: int, m: Meta, names: Seq<NameModel>)
    requires
        enc_meta(m, names) is Ok,
        !is_none(m.name, names),
        lies_at(d, p, enc_meta(m, names)->Ok_0),
        p + 24 <= e,
    ensures
        parse_meta(d, p, e, names) == Ok::<(Option<Meta>, int), Error>((Some(m), p + 24)),
        enc_meta(m, names)->Ok_0.len() == 24,
{
    lemma_le_round_trip();
    let name = enc_name_variant(m.name);
    let typ = enc_prop_type(m.typ, names)->Ok_0;
    let size = enc_u64(m.size);
    lemma_lies_at_split(d, p, name + typ, size);
    lemma_lies_at_split(d, p, name, typ);
    lemma_name_variant_reads_back(d, p, e, m.name, names.len() as int);
    lemma_prop_type_reads_back(d, p + 8, e, m.typ, names);
    lemma_u64_reads_back(d, p + 16, e, m.size);
}

/// The `None` name that was written reads back as the end of a list.
pub proof fn lemma_none_reads_back(d: Seq<u8>, p: int, e: int, names: Seq<NameModel>)
    requires
        enc_none(names) is Ok,
        lies_at(d, p, enc_none(names)->Ok_0),
        p + 8 <= e,
    ensures
        parse_meta(d, p, e, names) == Ok::<(Option<Meta>, int), Error>((None, p + 8)),
        enc_none(names)->Ok_0.len() == 8,
{
    lemma_first_index(names, "None"@);
    let n = NameVariant { name_idx: first_index(names, "None"@) as usize, variant: 0 };
    lemma_name_variant_reads_back(d, p, e, n, names.len() as int);
}

/// A tag that was written reads back as the tag of its type.
pub proof fn lemma_tag_reads_back(
    d: Seq<u8>,
    p: int,
    e: int,
    tag: TagModel,
    typ: PropType,
    names: Seq<NameModel>,
)
    requires
        tag_matches(tag, typ),
        enc_tag(tag, names) is Ok,
        tag is Struct ==> tag->Struct_guid.len() == 16,
        lies_at(d, p, enc_tag(tag, names)->Ok_0),
        p + tag_size(tag) <= e,
    ensures
        parse_tag(d, p, e, names, typ) == Ok::<(TagModel, int), Error>((tag, p + tag_size(tag))),
        enc_tag(tag, names)->Ok_0.len() == tag_size(tag),
{
    lemma_le_round_trip();
    match tag {
        TagModel::Simple(_) => {},
        TagModel::Bool(b) => {
            lemma_u8_reads_back(
                d,
                p,
                e,
                if b {
                    1u8
                } else {
                    0u8
                },
            );
        },
        TagModel::Enum(n) => {
            lemma_name_variant_reads_back(d, p, e, n, names.len() as int);
        },
        TagModel::Array { inner_type } => {
            lemma_prop_type_reads_back(d, p, e, inner_type, names);
        },
        TagModel::Mapping { key_type, value_type } => {
            let key = enc_prop_type(key_type, names)->Ok_0;
            let value = enc_prop_type(value_type, names)->Ok_0;
            lemma_lies_at_split(d, p, key, value);
            lemma_prop_type_reads_back(d, p, e, key_type, names);
            lemma_prop_type_reads_back(d, p + 8, e, value_type, names);
        },
        TagModel::Struct { struct_type, guid } => {
            lemma_lies_at_split(d, p, enc_name_variant(struct_type), guid);
            lemma_name_variant_reads_back(d, p, e, struct_type, names.len() as int);
            lemma_bytes_read_back(d, p + 8, e, guid);
        },
    }
}

/// Whether a value of a simple type is read back from what it is written
/// as: a text has to fill the size that is declared for it.
pub open spec fn simple_value_reads_back(v: ValueModel, max_size: u64) -> bool {
    v matches ValueModel::Text { bytes } ==> bytes.len() == max_size
}

/// A value of a simple type that was written reads back.
pub proof fn lemma_simple_value_reads_back(
    d: Seq<u8>,
    p: int,
    e: int,
    v: ValueModel,
    typ: PropType,
    env: Env,
    max_size: u64,
)
    requires
        enc_simple_value(v, typ, env) is Ok,
        simple_value_reads_back(v, max_size),
        lies_at(d, p, enc_simple_value(v, typ, env)->Ok_0),
        p + enc_simple_value(v, typ, env)->Ok_0.len() <= e,
    ensures
        parse_simple_value(d, p, e, env, typ, max_size) == Ok::<(ValueModel, int), Error>(
            (v, p + enc_simple_value(v, typ, env)->Ok_0.len()),
        ),
{
    lemma_le_round_trip();
    match (v, typ) {
        (ValueModel::Int(x), PropType::IntProperty) => {
            lemma_i32_reads_back(d, p, e, x);
        },
        (ValueModel::UInt8(x), PropType::UInt8Property) => {
            lemma_u8_reads_back(d, p, e, x);
        },
        (ValueModel::Float(x), PropType::FloatProperty) => {
            lemma_u32_reads_back(d, p, e, x);
        },
        (ValueModel::Object(r), PropType::ObjectProperty) => {
            lemma_reference_reads_back(d, p, e, r, env.imports, env.exports);
        },
        (ValueModel::SoftObject { object_name, parent }, PropType::SoftObjectProperty) => {
            lemma_lies_at_split(
                d,
                p,
                enc_name_variant(object_name),
                enc_reference(parent, env.imports, env.exports),
            );
            lemma_name_variant_reads_back(d, p, e, object_name, env.names.len() as int);
            lemma_reference_reads_back(d, p + 8, e, parent, env.imports, env.exports);
        },
        (ValueModel::Name(n), PropType::NameProperty) => {
            lemma_name_variant_reads_back(d, p, e, n, env.names.len() as int);
        },
        (ValueModel::Str(s), PropType::StrProperty) => {
            lemma_string_reads_back(d, p, e, s);
        },
        (ValueModel::Text { bytes }, PropType::TextProperty) => {
            lemma_bytes_read_back(d, p, e, bytes);
        },
        _ => {},
    }
}

/* What was written reads back: values */

/// The bytes of each value of a list.
pub open spec fn simple_parts(values: Seq<ValueModel>, typ: PropType, env: Env) -> Seq<Seq<u8>> {
    Seq::new(values.len(), |i: int| enc_simple_value(values[i], typ, env)->Ok_0)
}

/// The bytes of each pair of a map.
pub open spec fn pair_parts(
    entries: Seq<(ValueModel, ValueModel)>,
    key_type: PropType,
    value_type: PropType,
    env: Env,
) -> Seq<Seq<u8>> {
    Seq::new(
        entries.len(),
        |i: int|
            enc_simple_value(entries[i].0, key_type, env)->Ok_0 + enc_simple_value(
                entries[i].1,
                value_type,
                env,
            )->Ok_0,
    )
}

/// The values of a list of a simple type are written one after the other.
pub proof fn lemma_simple_values_parts(values: Seq<ValueModel>, typ: PropType, env: Env, n: int)
    requires
        0 <= n <= values.len(),
        enc_values(values, TagModel::Simple(typ), env, n) is Ok,
    ensures
        forall|i: int| 0 <= i < n ==> (#[trigger] enc_simple_value(values[i], typ, env)) is Ok,
        enc_values(values, TagModel::Simple(typ), env, n)->Ok_0 == concat_all(
            simple_parts(values, typ, env),
            n,
        ),
    decreases n,
{
    if n > 0 {
        let tag = TagModel::Simple(typ);
        assert(enc_value(values[n - 1], tag, env) == enc_simple_value(values[n - 1], typ, env));
        assert(enc_values(values, tag, env, n - 1) is Ok);
        lemma_simple_values_parts(values, typ, env, n - 1);
        assert(simple_parts(values, typ, env)[n - 1] == enc_simple_value(
            values[n - 1],
            typ,
            env,
        )->Ok_0);
    }
}

/// The pairs of a map are written one after the other.
pub proof fn lemma_map_entries_parts(
    entries: Seq<(ValueModel, ValueModel)>,
    key_type: PropType,
    value_type: PropType,
    env: Env,
    n: int,
)
    requires
        0 <= n <= entries.len(),
        enc_map_entries(entries, key_type, value_type, env, n) is Ok,
    ensures
        forall|i: int|
            0 <= i < n ==> (#[trigger] enc_simple_value(entries[i].0, key_type, env)) is Ok,
        forall|i: int|
            0 <= i < n ==> (#[trigger] enc_simple_value(entries[i].1, value_type, env)) is Ok,
        enc_map_entries(entries, key_type, value_type, env, n)->Ok_0 == concat_all(
            pair_parts(entries, key_type, value_type, env),
            n,
        ),
    decreases n,
{
    if n > 0 {
        lemma_map_entries_parts(entries, key_type, value_type, env, n - 1);
        let before = enc_map_entries(entries, key_type, value_type, env, n - 1)->Ok_0;
        let key = enc_simple_value(entries[n - 1].0, key_type, env)->Ok_0;
        let value = enc_simple_value(entries[n - 1].1, value_type, env)->Ok_0;
        assert(before + key + value =~= before + (key + value));
    }
}

/// The values of a list of a simple type that were written read back:
/// those from the `k`-th on, behind the first `k`.
pub proof fn lemma_simple_values_read_back(
    d: Seq<u8>,
    p: int,
    e: int,
    values: Seq<ValueModel>,
    typ: PropType,
    env: Env,
    max_size: u64,
    k: int,
)
    requires
        0 <= k <= values.len(),
        enc_values(values, TagModel::Simple(typ), env, values.len() as int) is Ok,
        forall|i: int| 0 <= i < values.len() ==> simple_value_reads_back(#[trigger] values[i], max_size),
        lies_at(d, p, concat_all(simple_parts(values, typ, env), values.len() as int)),
        p + concat_all(simple_parts(values, typ, env), values.len() as int).len() <= e,
    ensures
        parse_simple_values(
            d,
            p + concat_all(simple_parts(values, typ, env), k).len(),
            e,
            env,
            typ,
            max_size,
            (values.len() - k) as nat,
            values.take(k),
        ) == Ok::<(Seq<ValueModel>, int), Error>(
            (values, p + concat_all(simple_parts(values, typ, env), values.len() as int).len()),
        ),
    decreases values.len() - k,
{
    let parts = simple_parts(values, typ, env);
    let n = values.len() as int;
    if k < n {
        lemma_simple_values_parts(values, typ, env, n);
        lemma_part_lies_at(d, p, parts, n, k);
        let at = p + concat_all(parts, k).len();
        assert(enc_simple_value(values[k], typ, env) is Ok);
        assert(parts[k] == enc_simple_value(values[k], typ, env)->Ok_0);
        lemma_simple_value_reads_back(d, at, e, values[k], typ, env, max_size);
        lemma_simple_values_read_back(d, p, e, values, typ, env, max_size, k + 1);
        assert(values.take(k).push(values[k]) =~= values.take(k + 1));
    } else {
        assert(values.take(k) =~= values);
    }
}

/// The pairs of a map that were written read back: those from the `k`-th
/// on, behind the first `k`.
pub proof fn lemma_map_entries_read_back(
    d: Seq<u8>,
    p: int,
    e: int,
    entries: Seq<(ValueModel, ValueModel)>,
    key_type: PropType,
    value_type: PropType,
    env: Env,
    max_size: u64,
    k: int,
)
    requires
        0 <= k <= entries.len(),
        enc_map_entries(entries, key_type, value_type, env, entries.len() as int) is Ok,
        forall|i: int|
            0 <= i < entries.len() ==> simple_value_reads_back((#[trigger] entries[i]).0, max_size)
                && simple_value_reads_back(entries[i].1, max_size),
        lies_at(
            d,
            p,
            concat_all(pair_parts(entries, key_type, value_type, env), entries.len() as int),
        ),
        p + concat_all(
            pair_parts(entries, key_type, value_type, env),
            entries.len() as int,
        ).len() <= e,
    ensures
        parse_map_entries(
            d,
            p + concat_all(pair_parts(entries, key_type, value_type, env), k).len(),
            e,
            env,
            key_type,
            value_type,
            max_size,
            (entries.len() - k) as nat,
            entries.take(k),
        ) == Ok::<(Seq<(ValueModel, ValueModel)>, int), Error>(
            (
                entries,
                p + concat_all(
                    pair_parts(entries, key_type, value_type, env),
                    entries.len() as int,
                ).len(),
            ),
        ),
    decreases entries.len() - k,
{
    let parts = pair_parts(entries, key_type, value_type, env);
    let n = entries.len() as int;
    if k < n {
        lemma_map_entries_parts(entries, key_type, value_type, env, n);
        lemma_part_lies_at(d, p, parts, n, k);
        let at = p + concat_all(parts, k).len();
        let key = enc_simple_value(entries[k].0, key_type, env)->Ok_0;
        let value = enc_simple_value(entries[k].1, value_type, env)->Ok_0;
        assert(enc_simple_value(entries[k].0, key_type, env) is Ok);
        assert(enc_simple_value(entries[k].1, value_type, env) is Ok);
        assert(parts[k] == key + value);
        lemma_lies_at_split(d, at, key, value);
        lemma_simple_value_reads_back(d, at, e, entries[k].0, key_type, env, max_size);
        lemma_simple_value_reads_back(d, at + key.len(), e, entries[k].1, value_type, env, max_size);
        lemma_map_entries_read_back(d, p, e, entries, key_type, value_type, env, max_size, k + 1);
        assert(entries.take(k).push(entries[k]) =~= entries.take(k + 1));
    } else {
        assert(entries.take(k) =~= entries);
    }
}

/* What reads back as it was written */

/// Whether the payload of a struct does not itself say where it ends, so
/// that it has to end where its bound lies: a property list that no
/// `None` name ends, or named parts of which the last is such.
pub open spec fn struct_open_ended(v: StructValueModel) -> bool
    decreases v,
{
    match v {
        StructValueModel::PropertyList { has_none, .. } => !has_none,
        StructValueModel::BinaryProperties { entries } => entries.len() > 0 && struct_open_ended(
            entries.last().1,
        ),
        _ => false,
    }
}

/// As [`struct_open_ended`], for a value: a struct, or an array of
/// structs of which the last is such.
pub open spec fn value_open_ended(v: ValueModel) -> bool {
    match v {
        ValueModel::Struct { value } => struct_open_ended(value),
        ValueModel::Array { meta_tag, values } => meta_tag is Some && values.len() > 0
            && values.last() is Struct && struct_open_ended(values.last()->Struct_value),
        _ => false,
    }
}

/// Whether the payload of a struct is laid out as a pattern says, in a
/// way that reading finds again: its kind is that of the pattern, bytes
/// and named parts are as many as the pattern asks for, and only the
/// last part may be open-ended.
pub open spec fn struct_reads_back(v: StructValueModel, pattern: PatternModel, env: Env) -> bool
    decreases v, 0int,
{
    match (v, pattern) {
        (
            StructValueModel::PropertyList { properties, .. },
            PatternModel::PropertyList,
        ) => forall|i: int|
            0 <= i < properties.len() ==> property_reads_back(#[trigger] properties[i], env),
        (StructValueModel::Binary { bytes }, PatternModel::Binary { size }) => bytes.len() == size,
        (
            StructValueModel::BinaryProperties { entries },
            PatternModel::BinaryProperties { properties },
        ) => {
            &&& entries.len() == properties.len()
            &&& forall|i: int|
                0 <= i < entries.len() ==> {
                    &&& (#[trigger] entries[i]).0 == properties[i].name
                    &&& struct_reads_back(entries[i].1, properties[i].pattern, env)
                    &&& i < entries.len() - 1 ==> !struct_open_ended(entries[i].1)
                }
        },
        (StructValueModel::Int { size, .. }, PatternModel::Int { size: width }) => size == width,
        (StructValueModel::UInt { size, .. }, PatternModel::UInt { size: width }) => size == width,
        (StructValueModel::Floating { size, .. }, PatternModel::Floating { size: width }) => size
            == width,
        (StructValueModel::Enum { variants, index }, PatternModel::Enum { variants: listed }) => {
            variants == listed && index < variants.len()
        },
        _ => false,
    }
}

/// Whether a value is one that reading finds again when it was written
/// with the given tag, in a property that declares `max_size` bytes:
/// it is of the kind of the tag; an array of a simple type has no
/// element header and an array of structs has one; structs are laid out
/// as the pattern of their type says; a text, and a container that is
/// kept as bytes because its layout is not known, fill the declared size.
pub open spec fn value_reads_back(v: ValueModel, tag: TagModel, env: Env, max_size: u64) -> bool
    decreases v, 0int,
{
    match (v, tag) {
        (ValueModel::Bool, TagModel::Bool(_)) => true,
        (ValueModel::Enum(_), TagModel::Enum(_)) => true,
        (ValueModel::Array { meta_tag, values }, TagModel::Array { inner_type }) => {
            if is_simple(inner_type) {
                meta_tag is None && forall|i: int|
                    0 <= i < values.len() ==> simple_value_reads_back(
                        #[trigger] values[i],
                        max_size,
                    )
            } else if inner_type == PropType::StructProperty {
                &&& meta_tag is Some
                &&& meta_tag->Some_0.1 is Struct
                &&& meta_tag->Some_0.1->Struct_guid.len() == 16
                &&& !is_none(meta_tag->Some_0.0.name, env.names)
                &&& forall|i: int|
                    0 <= i < values.len() ==> {
                        &&& (#[trigger] values[i]) is Struct
                        &&& struct_reads_back(
                            values[i]->Struct_value,
                            pattern_for(
                                env.patterns,
                                struct_type_text(meta_tag->Some_0.1->Struct_struct_type, env),
                            ),
                            env,
                        )
                        &&& i < values.len() - 1 ==> !struct_open_ended(values[i]->Struct_value)
                    }
            } else {
                false
            }
        },
        (ValueModel::Mapping { entries, .. }, TagModel::Mapping { .. }) => forall|i: int|
            0 <= i < entries.len() ==> simple_value_reads_back((#[trigger] entries[i]).0, max_size)
                && simple_value_reads_back(entries[i].1, max_size),
        (ValueModel::Struct { value }, TagModel::Struct { struct_type, .. }) => {
            struct_type.name_idx < env.names.len() && struct_reads_back(
                value,
                pattern_for(env.patterns, struct_type_text(struct_type, env)),
                env,
            )
        },
        (ValueModel::RawData { data }, TagModel::Array { inner_type }) => !is_simple(inner_type)
            && inner_type != PropType::StructProperty && data.len() == max_size,
        (ValueModel::RawData { data }, TagModel::Mapping { key_type, value_type }) => !(is_simple(
            key_type,
        ) && is_simple(value_type)) && data.len() == max_size,
        (_, TagModel::Simple(_)) => simple_value_reads_back(v, max_size),
        _ => false,
    }
}

/// Whether a property is one that reading finds again: its name is not
/// `None`, the size that it declares is the size of its value, and its
/// value reads back.
pub open spec fn property_reads_back(p: PropertyModel, env: Env) -> bool
    decreases p, 0int,
{
    &&& !is_none(p.meta.name, env.names)
    &&& p.tag is Struct ==> p.tag->Struct_guid.len() == 16
    &&& p.meta.size == value_size(p.value, p.tag)
    &&& value_reads_back(p.value, p.tag, env, p.meta.size)
}

/* What was written reads back: the recursion */

/// The bytes of each struct of a list.
pub open spec fn struct_parts(values: Seq<ValueModel>, env: Env) -> Seq<Seq<u8>> {
    Seq::new(values.len(), |i: int| enc_struct(values[i]->Struct_value, env)->Ok_0)
}

/// The bytes of each named part of a struct.
pub open spec fn entry_parts(entries: Seq<(Seq<char>, StructValueModel)>, env: Env) -> Seq<Seq<u8>> {
    Seq::new(entries.len(), |i: int| enc_struct(entries[i].1, env)->Ok_0)
}

/// The bytes of each property of a list.
pub open spec fn property_parts(properties: Seq<PropertyModel>, env: Env) -> Seq<Seq<u8>> {
    Seq::new(properties.len(), |i: int| enc_property(properties[i], env)->Ok_0)
}

/// The structs of a list are written one after the other.
pub proof fn lemma_struct_values_parts(values: Seq<ValueModel>, tag: TagModel, env: Env, n: int)
    requires
        0 <= n <= values.len(),
        tag is Struct,
        forall|i: int| 0 <= i < values.len() ==> (#[trigger] values[i]) is Struct,
        enc_values(values, tag, env, n) is Ok,
    ensures
        forall|i: int| 0 <= i < n ==> (#[trigger] enc_struct(values[i]->Struct_value, env)) is Ok,
        enc_values(values, tag, env, n)->Ok_0 == concat_all(struct_parts(values, env), n),
    decreases n,
{
    if n > 0 {
        assert(values[n - 1] is Struct);
        assert(enc_value(values[n - 1], tag, env) == enc_struct(values[n - 1]->Struct_value, env));
        assert(enc_values(values, tag, env, n - 1) is Ok);
        lemma_struct_values_parts(values, tag, env, n - 1);
        assert(struct_parts(values, env)[n - 1] == enc_struct(values[n - 1]->Struct_value, env)->Ok_0);
    }
}

/// The named parts of a struct are written one after the other.
pub proof fn lemma_entries_parts(entries: Seq<(Seq<char>, StructValueModel)>, env: Env, n: int)
    requires
        0 <= n <= entries.len(),
        enc_entries(entries, env, n) is Ok,
    ensures
        forall|i: int| 0 <= i < n ==> (#[trigger] enc_struct(entries[i].1, env)) is Ok,
        enc_entries(entries, env, n)->Ok_0 == concat_all(entry_parts(entries, env), n),
    decreases n,
{
    if n > 0 {
        assert(enc_entries(entries, env, n - 1) is Ok);
        lemma_entries_parts(entries, env, n - 1);
        assert(entry_parts(entries, env)[n - 1] == enc_struct(entries[n - 1].1, env)->Ok_0);
    }
}

/// The properties of a list are written one after the other.
pub proof fn lemma_properties_parts(properties: Seq<PropertyModel>, env: Env, n: int)
    requires
        0 <= n <= properties.len(),
        enc_properties(properties, env, n) is Ok,
    ensures
        forall|i: int| 0 <= i < n ==> (#[trigger] enc_property(properties[i], env)) is Ok,
        enc_properties(properties, env, n)->Ok_0 == concat_all(property_parts(properties, env), n),
    decreases n,
{
    if n > 0 {
        assert(enc_properties(properties, env, n - 1) is Ok);
        lemma_properties_parts(properties, env, n - 1);
        assert(property_parts(properties, env)[n - 1] == enc_property(properties[n - 1], env)->Ok_0);
    }
}

/// In a value that can be written and reads back every struct tag has a
/// guid of 16 bytes.
pub proof fn lemma_value_guids(v: ValueModel, tag: TagModel, env: Env, max_size: u64)
    requires
        enc_value(v, tag, env) is Ok,
        value_reads_back(v, tag, env, max_size),
    ensures
        guids_sized(v),
    decreases v, 0int,
{
    match (v, tag) {
        (ValueModel::Array { meta_tag, values }, TagModel::Array { inner_type }) => {
            let n = values.len() as int;
            if is_simple(inner_type) {
                lemma_simple_values_parts(values, inner_type, env, n);
                assert forall|i: int| 0 <= i < values.len() implies guids_sized(
                    #[trigger] values[i],
                ) by {
                    assert(enc_simple_value(values[i], inner_type, env) is Ok);
                }
            } else {
                let t = meta_tag->Some_0.1;
                let pattern = pattern_for(
                    env.patterns,
                    struct_type_text(t->Struct_struct_type, env),
                );
                lemma_struct_values_parts(values, t, env, n);
                assert forall|i: int| 0 <= i < values.len() implies guids_sized(
                    #[trigger] values[i],
                ) by {
                    assert(values[i] is Struct);
                    assert(enc_struct(values[i]->Struct_value, env) is Ok);
                    lemma_struct_guids(values[i]->Struct_value, pattern, env);
                }
            }
        },
        (ValueModel::Struct { value }, TagModel::Struct { struct_type, .. }) => {
            lemma_struct_guids(
                value,
                pattern_for(env.patterns, struct_type_text(struct_type, env)),
                env,
            );
        },
        _ => {},
    }
}

/// As [`lemma_value_guids`], for the payload of a struct.
pub proof fn lemma_struct_guids(v: StructValueModel, pattern: PatternModel, env: Env)
    requires
        enc_struct(v, env) is Ok,
        struct_reads_back(v, pattern, env),
    ensures
        struct_guids_sized(v),
    decreases v, 0int,
{
    match (v, pattern) {
        (StructValueModel::PropertyList { properties, .. }, PatternModel::PropertyList) => {
            lemma_properties_parts(properties, env, properties.len() as int);
            assert forall|i: int| 0 <= i < properties.len() implies property_guids_sized(
                #[trigger] properties[i],
            ) by {
                assert(enc_property(properties[i], env) is Ok);
                lemma_property_guids(properties[i], env);
            }
        },
        (
            StructValueModel::BinaryProperties { entries },
            PatternModel::BinaryProperties { properties },
        ) => {
            lemma_entries_parts(entries, env, entries.len() as int);
            assert forall|i: int| 0 <= i < entries.len() implies struct_guids_sized(
                (#[trigger] entries[i]).1,
            ) by {
                assert(enc_struct(entries[i].1, env) is Ok);
                lemma_struct_guids(entries[i].1, properties[i].pattern, env);
            }
        },
        _ => {},
    }
}

/// As [`lemma_value_guids`], for a property.
pub proof fn lemma_property_guids(p: PropertyModel, env: Env)
    requires
        enc_property(p, env) is Ok,
        property_reads_back(p, env),
    ensures
        property_guids_sized(p),
    decreases p, 0int,
{
    lemma_value_guids(p.value, p.tag, env, p.meta.size);
}

/// A signed number that fits its width reads back from its bytes.
pub proof fn lemma_signed_reads_back(d: Seq<u8>, p: int, value: i64, size: u8)
    requires
        is_int_width(size as int),
        fits_signed(value, size),
        lies_at(d, p, enc_signed(value, size)),
    ensures
        signed_at(d, p, size) == value,
        enc_signed(value, size).len() == size,
{
    lemma_le_round_trip();
    if size == 1 {
        let b = (value as i8) as u8;
        assert(d.subrange(p, p + 1)[0] == b);
        assert(d[p] == b);
        assert(((((value as i8) as u8) as i8) as i64) == value) by (bit_vector)
            requires
                -0x80 <= value <= 0x7f,
        ;
    } else if size == 2 {
        let w = (value as i16) as u16;
        lemma_u16_reads_back(d, p, p + 2, w);
        assert(((((value as i16) as u16) as i16) as i64) == value) by (bit_vector)
            requires
                -0x8000 <= value <= 0x7fff,
        ;
    } else if size == 4 {
        lemma_i32_reads_back(d, p, p + 4, value as i32);
    } else {
        lemma_i64_reads_back(d, p, p + 8, value);
    }
}

/// An unsigned number that fits its width reads back from its bytes.
pub proof fn lemma_unsigned_reads_back(d: Seq<u8>, p: int, value: u64, size: u8)
    requires
        is_int_width(size as int),
        fits_unsigned(value, size),
        lies_at(d, p, enc_unsigned(value, size)),
    ensures
        unsigned_at(d, p, size) == value,
        enc_unsigned(value, size).len() == size,
{
    lemma_le_round_trip();
    if size == 1 {
        assert(d.subrange(p, p + 1)[0] == value as u8);
        assert(d[p] == value as u8);
    } else if size == 2 {
        lemma_u16_reads_back(d, p, p + 2, value as u16);
    } else if size == 4 {
        lemma_u32_reads_back(d, p, p + 4, value as u32);
    } else {
        lemma_u64_reads_back(d, p, p + 8, value);
    }
}

/// Whether a bound is right for what ends at `end`: what is open-ended
/// has to end at its bound, anything else before or at it.
pub open spec fn bound_fits(open_ended: bool, end: int, e: int) -> bool {
    if open_ended {
        e == end
    } else {
        end <= e
    }
}

/// The payload of a struct that was written reads back.
pub proof fn lemma_struct_reads_back(
    d: Seq<u8>,
    p: int,
    e: int,
    v: StructValueModel,
    pattern: PatternModel,
    env: Env,
)
    requires
        enc_struct(v, env) is Ok,
        struct_reads_back(v, pattern, env),
        lies_at(d, p, enc_struct(v, env)->Ok_0),
        bound_fits(struct_open_ended(v), p + enc_struct(v, env)->Ok_0.len(), e),
        e <= d.len() <= usize::MAX,
    ensures
        parse_struct(d, p, e, env, pattern) == Ok::<(StructValueModel, int), Error>(
            (v, p + enc_struct(v, env)->Ok_0.len()),
        ),
    decreases v, 0int,
{
    lemma_le_round_trip();
    let b = enc_struct(v, env)->Ok_0;
    match v {
        StructValueModel::PropertyList { properties, has_none } => {
            let n = properties.len() as int;
            lemma_properties_parts(properties, env, n);
            let list = enc_properties(properties, env, n)->Ok_0;
            let end = p + list.len();
            if has_none {
                let none = enc_none(env.names)->Ok_0;
                lemma_lies_at_split(d, p, list, none);
                lemma_none_reads_back(d, end, e, env.names);
                lemma_properties_read_back(d, p, e, e, properties, env, 0, true, end);
            } else {
                lemma_properties_read_back(d, p, e, e, properties, env, 0, false, end);
            }
            assert(properties.take(0) =~= Seq::<PropertyModel>::empty());
        },
        StructValueModel::Binary { bytes } => {
            lemma_bytes_read_back(d, p, e, bytes);
        },
        StructValueModel::BinaryProperties { entries } => {
            let fields = pattern->BinaryProperties_properties;
            lemma_entries_parts(entries, env, entries.len() as int);
            lemma_fields_read_back(d, p, e, entries, fields, env, 0);
            assert(entries.take(0) =~= Seq::<(Seq<char>, StructValueModel)>::empty());
        },
        StructValueModel::Int { size, value } => {
            lemma_signed_reads_back(d, p, value, size);
        },
        StructValueModel::UInt { size, value } => {
            lemma_unsigned_reads_back(d, p, value, size);
        },
        StructValueModel::Floating { size, value } => {
            lemma_unsigned_reads_back(d, p, value, size);
        },
        StructValueModel::Enum { variants, index } => {
            lemma_u8_reads_back(d, p, e, index);
        },
    }
}

/// The named parts of a struct that were written read back: those from
/// the `k`-th on, behind the first `k`.
pub proof fn lemma_fields_read_back(
    d: Seq<u8>,
    p: int,
    e: int,
    entries: Seq<(Seq<char>, StructValueModel)>,
    fields: Seq<FieldModel>,
    env: Env,
    k: int,
)
    requires
        0 <= k <= entries.len(),
        entries.len() == fields.len(),
        forall|i: int| 0 <= i < entries.len() ==> (#[trigger] enc_struct(entries[i].1, env)) is Ok,
        forall|i: int|
            0 <= i < entries.len() ==> {
                &&& (#[trigger] entries[i]).0 == fields[i].name
                &&& struct_reads_back(entries[i].1, fields[i].pattern, env)
                &&& i < entries.len() - 1 ==> !struct_open_ended(entries[i].1)
            },
        lies_at(d, p, concat_all(entry_parts(entries, env), entries.len() as int)),
        bound_fits(
            entries.len() > 0 && struct_open_ended(entries.last().1),
            p + concat_all(entry_parts(entries, env), entries.len() as int).len(),
            e,
        ),
        e <= d.len() <= usize::MAX,
    ensures
        parse_fields(
            d,
            p + concat_all(entry_parts(entries, env), k).len(),
            e,
            env,
            fields,
            k,
            entries.take(k),
        ) == Ok::<(Seq<(Seq<char>, StructValueModel)>, int), Error>(
            (entries, p + concat_all(entry_parts(entries, env), entries.len() as int).len()),
        ),
    decreases entries, entries.len() - k,
{
    let parts = entry_parts(entries, env);
    let n = entries.len() as int;
    if k < n {
        lemma_part_lies_at(d, p, parts, n, k);
        let at = p + concat_all(parts, k).len();
        assert(enc_struct(entries[k].1, env) is Ok);
        assert(parts[k] == enc_struct(entries[k].1, env)->Ok_0);
        if k == n - 1 {
            assert(entries.last() == entries[k]);
        }
        lemma_struct_reads_back(d, at, e, entries[k].1, fields[k].pattern, env);
        lemma_fields_read_back(d, p, e, entries, fields, env, k + 1);
        assert(entries.take(k).push((fields[k].name, entries[k].1)) =~= entries.take(k + 1));
    } else {
        assert(entries.take(k) =~= entries);
    }
}

/// The structs of an array that were written read back: those from the
/// `k`-th on, behind the first `k`.
pub proof fn lemma_struct_elements_read_back(
    d: Seq<u8>,
    p: int,
    e: int,
    values: Seq<ValueModel>,
    pattern: PatternModel,
    env: Env,
    k: int,
)
    requires
        0 <= k <= values.len(),
        forall|i: int|
            0 <= i < values.len() ==> {
                &&& (#[trigger] values[i]) is Struct
                &&& enc_struct(values[i]->Struct_value, env) is Ok
                &&& struct_reads_back(values[i]->Struct_value, pattern, env)
                &&& i < values.len() - 1 ==> !struct_open_ended(values[i]->Struct_value)
            },
        lies_at(d, p, concat_all(struct_parts(values, env), values.len() as int)),
        bound_fits(
            values.len() > 0 && struct_open_ended(values.last()->Struct_value),
            p + concat_all(struct_parts(values, env), values.len() as int).len(),
            e,
        ),
        e <= d.len() <= usize::MAX,
    ensures
        parse_structs(
            d,
            p + concat_all(struct_parts(values, env), k).len(),
            e,
            env,
            pattern,
            (values.len() - k) as nat,
            values.take(k),
        ) == Ok::<(Seq<ValueModel>, int), Error>(
            (values, p + concat_all(struct_parts(values, env), values.len() as int).len()),
        ),
    decreases values, values.len() - k,
{
    let parts = struct_parts(values, env);
    let n = values.len() as int;
    if k < n {
        lemma_part_lies_at(d, p, parts, n, k);
        let at = p + concat_all(parts, k).len();
        assert(values[k] is Struct);
        assert(parts[k] == enc_struct(values[k]->Struct_value, env)->Ok_0);
        if k == n - 1 {
            assert(values.last() == values[k]);
        }
        lemma_struct_reads_back(d, at, e, values[k]->Struct_value, pattern, env);
        lemma_struct_elements_read_back(d, p, e, values, pattern, env, k + 1);
        assert(values.take(k).push(ValueModel::Struct { value: values[k]->Struct_value })
            =~= values.take(k + 1));
    } else {
        assert(values.take(k) =~= values);
    }
}

/// An array of structs that was written reads back.
pub proof fn lemma_struct_array_reads_back(
    d: Seq<u8>,
    p: int,
    e: int,
    meta: Meta,
    t: TagModel,
    values: Seq<ValueModel>,
    env: Env,
    max_size: u64,
)
    requires
        enc_value(
            ValueModel::Array { meta_tag: Some((meta, t)), values },
            TagModel::Array { inner_type: PropType::StructProperty },
            env,
        ) is Ok,
        value_reads_back(
            ValueModel::Array { meta_tag: Some((meta, t)), values },
            TagModel::Array { inner_type: PropType::StructProperty },
            env,
            max_size,
        ),
        lies_at(
            d,
            p,
            enc_value(
                ValueModel::Array { meta_tag: Some((meta, t)), values },
                TagModel::Array { inner_type: PropType::StructProperty },
                env,
            )->Ok_0,
        ),
        bound_fits(
            values.len() > 0 && struct_open_ended(values.last()->Struct_value),
            p + enc_value(
                ValueModel::Array { meta_tag: Some((meta, t)), values },
                TagModel::Array { inner_type: PropType::StructProperty },
                env,
            )->Ok_0.len(),
            e,
        ),
        e <= d.len() <= usize::MAX,
    ensures
        parse_struct_array(d, p, e, env) == Ok::<(ValueModel, int), Error>(
            (
                ValueModel::Array { meta_tag: Some((meta, t)), values },
                p + enc_value(
                    ValueModel::Array { meta_tag: Some((meta, t)), values },
                    TagModel::Array { inner_type: PropType::StructProperty },
                    env,
                )->Ok_0.len(),
            ),
        ),
    decreases values, values.len() + 1,
{
    lemma_le_round_trip();
    let n = values.len() as int;
    let count = enc_u32(n as u32);
    let m = enc_meta(meta, env.names)->Ok_0;
    let tb = enc_tag(t, env.names)->Ok_0;
    let header = m + tb + seq![0u8];
    let elements = enc_values(values, t, env, n)->Ok_0;
    lemma_meta_len(meta, env.names);
    lemma_tag_len(t, env.names);
    lemma_lies_at_split(d, p, count + header, elements);
    lemma_lies_at_split(d, p, count, header);
    lemma_u32_reads_back(d, p, e, n as u32);
    lemma_lies_at_split(d, p + 4, m + tb, seq![0u8]);
    lemma_lies_at_split(d, p + 4, m, tb);
    lemma_meta_reads_back(d, p + 4, e, meta, env.names);
    lemma_tag_reads_back(d, p + 28, e, t, PropType::StructProperty, env.names);
    assert(parse_struct_tag(d, p + 28, e, env.names) == parse_tag(
        d,
        p + 28,
        e,
        env.names,
        PropType::StructProperty,
    ));
    let pattern = pattern_for(env.patterns, struct_type_text(t->Struct_struct_type, env));
    lemma_struct_values_parts(values, t, env, n);
    lemma_struct_elements_read_back(d, p + 53, e, values, pattern, env, 0);
    assert(values.take(0) =~= Seq::<ValueModel>::empty());
}

/// An array of values of a simple type that was written reads back.
pub proof fn lemma_simple_array_reads_back(
    d: Seq<u8>,
    p: int,
    e: int,
    values: Seq<ValueModel>,
    inner_type: PropType,
    env: Env,
    max_size: u64,
)
    requires
        is_simple(inner_type),
        enc_value(
            ValueModel::Array { meta_tag: None, values },
            TagModel::Array { inner_type },
            env,
        ) is Ok,
        forall|i: int| 0 <= i < values.len() ==> simple_value_reads_back(#[trigger] values[i], max_size),
        lies_at(
            d,
            p,
            enc_value(
                ValueModel::Array { meta_tag: None, values },
                TagModel::Array { inner_type },
                env,
            )->Ok_0,
        ),
        p + enc_value(
            ValueModel::Array { meta_tag: None, values },
            TagModel::Array { inner_type },
            env,
        )->Ok_0.len() <= e,
    ensures
        parse_value(d, p, e, env, TagModel::Array { inner_type }, max_size) == Ok::<
            (ValueModel, int),
            Error,
        >(
            (
                ValueModel::Array { meta_tag: None, values },
                p + enc_value(
                    ValueModel::Array { meta_tag: None, values },
                    TagModel::Array { inner_type },
                    env,
                )->Ok_0.len(),
            ),
        ),
{
    lemma_le_round_trip();
    let n = values.len() as int;
    let count = enc_u32(n as u32);
    let elements = enc_values(values, TagModel::Simple(inner_type), env, n)->Ok_0;
    assert(count + Seq::<u8>::empty() + elements =~= count + elements);
    lemma_lies_at_split(d, p, count, elements);
    lemma_u32_reads_back(d, p, e, n as u32);
    lemma_simple_values_parts(values, inner_type, env, n);
    lemma_simple_values_read_back(d, p + 4, e, values, inner_type, env, max_size, 0);
    assert(values.take(0) =~= Seq::<ValueModel>::empty());
}

/// A map of simple types that was written reads back.
pub proof fn lemma_map_reads_back(
    d: Seq<u8>,
    p: int,
    e: int,
    num_keys_to_remove: u32,
    entries: Seq<(ValueModel, ValueModel)>,
    key_type: PropType,
    value_type: PropType,
    env: Env,
    max_size: u64,
)
    requires
        enc_value(
            ValueModel::Mapping { num_keys_to_remove, entries },
            TagModel::Mapping { key_type, value_type },
            env,
        ) is Ok,
        forall|i: int|
            0 <= i < entries.len() ==> simple_value_reads_back((#[trigger] entries[i]).0, max_size)
                && simple_value_reads_back(entries[i].1, max_size),
        lies_at(
            d,
            p,
            enc_value(
                ValueModel::Mapping { num_keys_to_remove, entries },
                TagModel::Mapping { key_type, value_type },
                env,
            )->Ok_0,
        ),
        p + enc_value(
            ValueModel::Mapping { num_keys_to_remove, entries },
            TagModel::Mapping { key_type, value_type },
            env,
        )->Ok_0.len() <= e,
    ensures
        parse_value(d, p, e, env, TagModel::Mapping { key_type, value_type }, max_size) == Ok::<
            (ValueModel, int),
            Error,
        >(
            (
                ValueModel::Mapping { num_keys_to_remove, entries },
                p + enc_value(
                    ValueModel::Mapping { num_keys_to_remove, entries },
                    TagModel::Mapping { key_type, value_type },
                    env,
                )->Ok_0.len(),
            ),
        ),
{
    lemma_le_round_trip();
    let n = entries.len() as int;
    let pairs = enc_map_entries(entries, key_type, value_type, env, n)->Ok_0;
    lemma_lies_at_split(d, p, enc_u32(num_keys_to_remove) + enc_u32(n as u32), pairs);
    lemma_lies_at_split(d, p, enc_u32(num_keys_to_remove), enc_u32(n as u32));
    lemma_u32_reads_back(d, p, e, num_keys_to_remove);
    lemma_u32_reads_back(d, p + 4, e, n as u32);
    lemma_map_entries_parts(entries, key_type, value_type, env, n);
    lemma_map_entries_read_back(d, p + 8, e, entries, key_type, value_type, env, max_size, 0);
    assert(entries.take(0) =~= Seq::<(ValueModel, ValueModel)>::empty());
}

/// A value that was written reads back.
pub proof fn lemma_value_reads_back(
    d: Seq<u8>,
    p: int,
    e: int,
    v: ValueModel,
    tag: TagModel,
    env: Env,
    max_size: u64,
)
    requires
        enc_value(v, tag, env) is Ok,
        value_reads_back(v, tag, env, max_size),
        lies_at(d, p, enc_value(v, tag, env)->Ok_0),
        bound_fits(value_open_ended(v), p + enc_value(v, tag, env)->Ok_0.len(), e),
        e <= d.len() <= usize::MAX,
    ensures
        parse_value(d, p, e, env, tag, max_size) == Ok::<(ValueModel, int), Error>(
            (v, p + enc_value(v, tag, env)->Ok_0.len()),
        ),
    decreases v, 1int,
{
    match (v, tag) {
        (ValueModel::Bool, TagModel::Bool(_)) => {},
        (ValueModel::Enum(n), TagModel::Enum(_)) => {
            crate::asset::property::laws::lemma_name_variant_len(n);
            lemma_name_variant_reads_back(d, p, e, n, env.names.len() as int);
        },
        (ValueModel::Array { meta_tag, values }, TagModel::Array { inner_type }) => {
            if is_simple(inner_type) {
                lemma_simple_array_reads_back(d, p, e, values, inner_type, env, max_size);
            } else {
                if values.len() > 0 {
                    assert(values.last() is Struct);
                }
                lemma_struct_array_reads_back(
                    d,
                    p,
                    e,
                    meta_tag->Some_0.0,
                    meta_tag->Some_0.1,
                    values,
                    env,
                    max_size,
                );
            }
        },
        (
            ValueModel::Mapping { num_keys_to_remove, entries },
            TagModel::Mapping { key_type, value_type },
        ) => {
            lemma_map_reads_back(
                d,
                p,
                e,
                num_keys_to_remove,
                entries,
                key_type,
                value_type,
                env,
                max_size,
            );
        },
        (ValueModel::Struct { value }, TagModel::Struct { struct_type, .. }) => {
            lemma_struct_reads_back(
                d,
                p,
                e,
                value,
                pattern_for(env.patterns, struct_type_text(struct_type, env)),
                env,
            );
        },
        (ValueModel::RawData { data }, TagModel::Array { .. }) => {
            lemma_bytes_read_back(d, p, e, data);
        },
        (ValueModel::RawData { data }, TagModel::Mapping { .. }) => {
            lemma_bytes_read_back(d, p, e, data);
        },
        (_, TagModel::Simple(typ)) => {
            lemma_simple_value_reads_back(d, p, e, v, typ, env, max_size);
        },
        _ => {},
    }
}

/// A property that was written reads back.
pub proof fn lemma_property_reads_back(d: Seq<u8>, p: int, e: int, prop: PropertyModel, env: Env)
    requires
        enc_property(prop, env) is Ok,
        property_reads_back(prop, env),
        lies_at(d, p, enc_property(prop, env)->Ok_0),
        p + enc_property(prop, env)->Ok_0.len() <= e <= d.len() <= usize::MAX,
    ensures
        parse_property(d, p, e, env) == Ok::<(Option<PropertyModel>, int), Error>(
            (Some(prop), p + enc_property(prop, env)->Ok_0.len()),
        ),
        enc_property(prop, env)->Ok_0.len() > 24,
    decreases prop, 0int,
{
    let value = enc_value(prop.value, prop.tag, env)->Ok_0;
    lemma_property_guids(prop, env);
    lemma_value_len(prop.value, prop.tag, env);
    let written = Meta { name: prop.meta.name, typ: prop.meta.typ, size: value.len() as u64 };
    assert(written == prop.meta);
    let m = enc_meta(written, env.names)->Ok_0;
    let t = enc_tag(prop.tag, env.names)->Ok_0;
    lemma_meta_len(written, env.names);
    lemma_tag_len(prop.tag, env.names);
    lemma_lies_at_split(d, p, m + t + seq![0u8], value);
    lemma_lies_at_split(d, p, m + t, seq![0u8]);
    lemma_lies_at_split(d, p, m, t);
    lemma_meta_reads_back(d, p, e, prop.meta, env.names);
    lemma_tag_reads_back(d, p + 24, e, prop.tag, prop.meta.typ, env.names);
    let q = p + 24 + tag_size(prop.tag) + 1;
    assert(d[q - 1] == 0u8) by {
        assert(d.subrange(q - 1, q)[0] == 0u8);
    }
    assert(value_bound(d, q, prop.meta.size) == q + value.len());
    lemma_value_reads_back(d, q, q + value.len(), prop.value, prop.tag, env, prop.meta.size);
}

/// Where a list of properties that was written ends: behind the `None`
/// name where one ends it, else right behind the properties.
pub open spec fn list_end(end: int, has_none: bool) -> int {
    if has_none {
        end + 8
    } else {
        end
    }
}

/// The properties of a list that were written read back: those from the
/// `k`-th on, behind the first `k`. The properties end at `end`. What
/// ends the list is either the `None` name behind it, or the place at
/// which the list has to stop.
pub proof fn lemma_properties_read_back(
    d: Seq<u8>,
    p: int,
    e: int,
    stop: int,
    properties: Seq<PropertyModel>,
    env: Env,
    k: int,
    has_none: bool,
    end: int,
)
    requires
        0 <= k <= properties.len(),
        forall|i: int|
            0 <= i < properties.len() ==> (#[trigger] enc_property(properties[i], env)) is Ok,
        forall|i: int|
            0 <= i < properties.len() ==> property_reads_back(#[trigger] properties[i], env),
        lies_at(d, p, concat_all(property_parts(properties, env), properties.len() as int)),
        end == p + concat_all(property_parts(properties, env), properties.len() as int).len(),
        e <= d.len() <= usize::MAX,
        has_none ==> parse_meta(d, end, e, env.names) == Ok::<(Option<Meta>, int), Error>(
            (None, end + 8),
        ),
        has_none ==> end + 8 <= e && end < stop,
        !has_none ==> stop == end && end <= e,
    ensures
        parse_properties(
            d,
            p + concat_all(property_parts(properties, env), k).len(),
            e,
            stop,
            env,
            properties.take(k),
        ) == Ok::<((Seq<PropertyModel>, bool), int), Error>(
            ((properties, has_none), list_end(end, has_none)),
        ),
    decreases properties, properties.len() - k,
{
    let parts = property_parts(properties, env);
    let n = properties.len() as int;
    let at = p + concat_all(parts, k).len();
    if k < n {
        lemma_part_lies_at(d, p, parts, n, k);
        assert(enc_property(properties[k], env) is Ok);
        assert(parts[k] == enc_property(properties[k], env)->Ok_0);
        assert(property_reads_back(properties[k], env));
        lemma_property_reads_back(d, at, e, properties[k], env);
        lemma_properties_read_back(d, p, e, stop, properties, env, k + 1, has_none, end);
        assert(properties.take(k).push(properties[k]) =~= properties.take(k + 1));
        let next = at + parts[k].len();
        assert(next == p + concat_all(parts, k + 1).len());
        assert(at < next <= end);
        assert(parse_property(d, at, e, env) == Ok::<(Option<PropertyModel>, int), Error>(
            (Some(properties[k]), next),
        ));
    } else {
        assert(properties.take(k) =~= properties);
        assert(at == end);
    }
}

/* What was written reads back: property bags */

/// Whether a property bag is one that reading finds again: each of its
/// properties reads back, and unless a `None` name ends its properties,
/// nothing follows them.
pub open spec fn bag_reads_back(b: BagModel, env: Env) -> bool {
    &&& forall|i: int|
        0 <= i < b.properties.len() ==> property_reads_back(#[trigger] b.properties[i], env)
    &&& !b.ends_with_none ==> b.extra.len() == 0
}

/// A property bag that was written reads back, where its export says
/// where it lies and how long it is.
pub proof fn lemma_bag_reads_back(
    d: Seq<u8>,
    p: int,
    e: int,
    b: BagModel,
    env: Env,
    offset: u64,
    size: u64,
)
    requires
        enc_bag(b, env) is Ok,
        bag_reads_back(b, env),
        lies_at(d, p, enc_bag(b, env)->Ok_0),
        p == offset,
        size == enc_bag(b, env)->Ok_0.len(),
        p + size <= e <= d.len() <= usize::MAX,
    ensures
        parse_bag(d, p, e, env, offset, size) == Ok::<(BagModel, int), Error>((b, p + size)),
{
    let n = b.properties.len() as int;
    let list = enc_properties(b.properties, env, n)->Ok_0;
    let end = p + list.len();
    lemma_properties_parts(b.properties, env, n);
    assert(b.properties.take(0) =~= Seq::<PropertyModel>::empty());
    if b.ends_with_none {
        let none = enc_none(env.names)->Ok_0;
        crate::asset::property::laws::lemma_none_len(env.names);
        lemma_lies_at_split(d, p, list + none, b.extra);
        lemma_lies_at_split(d, p, list, none);
        lemma_none_reads_back(d, end, e, env.names);
        lemma_properties_read_back(d, p, e, offset + size, b.properties, env, 0, true, end);
        lemma_bytes_read_back(d, end + 8, e, b.extra);
    } else {
        lemma_lies_at_split(d, p, list, b.extra);
        lemma_properties_read_back(d, p, e, offset + size, b.properties, env, 0, false, end);
        lemma_bytes_read_back(d, end, e, b.extra);
    }
}

} // verus!
