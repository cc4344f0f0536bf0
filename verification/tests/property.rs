use drg::asset::exports::Export;
use drg::asset::exports::Exports;
use drg::asset::file_summary::FileSummary;
use drg::asset::imports::Import;
use drg::asset::imports::Imports;
use drg::asset::name_map::NameMap;
use drg::asset::name_map::NameVariant;
use drg::asset::property::bag::Properties;
use drg::asset::property::context::PropertyContext;
use drg::asset::property::deserialize_array;
use drg::asset::property::deserialize_map;
use drg::asset::property::deserialize_struct;
use drg::asset::property::deserialize_value;
use drg::asset::property::loaders::deserialize_simple;
use drg::asset::property::loaders::deserialize_tag;
use drg::asset::property::loaders::serialize_simple;
use drg::asset::property::loaders::serialize_tag;
use drg::asset::property::loaders::size_of_simple;
use drg::asset::property::loaders::size_of_tag;
use drg::asset::property::meta::Meta;
use drg::asset::property::prop_type::PropType;
use drg::asset::property::read_properties;
use drg::asset::property::serialize_array;
use drg::asset::property::serialize_map;
use drg::asset::property::serialize_struct;
use drg::asset::property::serialize_value;
use drg::asset::property::struct_pattern::BinaryPropertyPattern;
use drg::asset::property::struct_pattern::StructPattern;
use drg::asset::property::struct_pattern::StructPatterns;
use drg::asset::property::value::Property;
use drg::asset::property::value::StructValue;
use drg::asset::property::value::Tag;
use drg::asset::property::value::Value;
use drg::asset::property::value_size_array;
use drg::asset::property::value_size_map;
use drg::asset::property::value_size_struct;
use drg::asset::property::PropertyLoader;
use drg::asset::reference::Reference;
use drg::error::Error;
use drg::error::Failure;
use drg::error::Place;
use drg::reader::ByteReader;

const NAMES: [&str; 20] = [
    "None",
    "IntProperty",
    "ArrayProperty",
    "BoolProperty",
    "StructProperty",
    "Ids",
    "Active",
    "Vector",
    "Points",
    "UnlistedType",
    "EnumProperty",
    "ByteProperty",
    "MapProperty",
    "NameProperty",
    "StrProperty",
    "TextProperty",
    "ObjectProperty",
    "SoftObjectProperty",
    "FloatProperty",
    "UInt8Property",
];

struct Fixture {
    summary: FileSummary,
    names: NameMap,
    imports: Imports,
    exports: Exports,
    patterns: StructPatterns,
}

impl Fixture {
    fn ctx(&self) -> PropertyContext<'_> {
        PropertyContext::new(&self.summary, &self.names, &self.imports, &self.exports, &self.patterns)
    }
}

fn name(text: &str) -> NameVariant {
    NameVariant { name_idx: NAMES.iter().position(|n| *n == text).unwrap(), variant: 0 }
}

fn name_ref(text: &str) -> Vec<u8> {
    let mut out = (name(text).name_idx as u32).to_le_bytes().to_vec();
    out.extend([0, 0, 0, 0]);
    out
}

fn float() -> StructPattern {
    StructPattern::Floating { size: 4 }
}

fn vector_pattern() -> StructPattern {
    StructPattern::BinaryProperties {
        properties: vec![
            BinaryPropertyPattern { name: "x".to_string(), pattern: float() },
            BinaryPropertyPattern { name: "y".to_string(), pattern: float() },
            BinaryPropertyPattern { name: "z".to_string(), pattern: float() },
        ],
    }
}

fn fixture_with(default: StructPattern) -> Fixture {
    let mut names = NameMap { names: vec![] };
    for n in NAMES {
        names.add(n);
    }
    let summary = FileSummary {
        tag: [0xC1, 0x83, 0x2A, 0x9E],
        file_version_ue4: 0,
        file_version_license_ue4: 0,
        custom_version: [0; 12],
        total_header_size: 0,
        package_flags: 0,
        folder_name: "None".to_string(),
        name_count: 0,
        name_offset: 0,
        gatherable_text_data_count: 0,
        gatherable_text_data_offset: 0,
        export_count: 0,
        export_offset: 0,
        import_count: 0,
        import_offset: 0,
        depends_offset: 0,
        soft_package_references_count: 0,
        soft_package_references_offset: 0,
        searchable_names_offset: 0,
        thumbnail_table_offset: 0,
        guid: [0; 16],
        generations: vec![],
        saved_by_engine_version: [0; 16],
        compatible_with_engine_version: [0; 16],
        compression_flags: 0,
        package_source: 0,
        asset_registry_data_offset: 0,
        bulk_data_start_offset: 0,
        world_tile_info_data_offset: 0,
        chunk_ids: 0,
        preload_dependency_count: 0,
        preload_dependency_offset: 0,
    };
    let imports = Imports {
        objects: vec![Import {
            class_package: name("Ids"),
            class: name("Ids"),
            outer_index: 0,
            name: name("Points"),
        }],
    };
    Fixture {
        summary,
        names,
        imports,
        exports: Exports { exports: vec![] },
        patterns: StructPatterns::new(default, vec![("Vector".to_string(), vector_pattern())]),
    }
}

fn fixture() -> Fixture {
    fixture_with(StructPattern::PropertyList)
}

fn export_of_size(serial_size: u64) -> Export {
    Export {
        class: 0,
        super_index: 0,
        template: 0,
        outer: 0,
        object_name: name("Ids"),
        object_flags: 0,
        serial_size,
        serial_offset: 0,
        export_file_offset: 0,
        forced_export: false,
        not_for_client: false,
        not_for_server: false,
        was_filtered: false,
        package_guid: [0; 16],
        package_flags: 0,
        not_always_loaded_for_editor_game: false,
        is_asset: false,
        first_export_dependency: 0,
        serialization_before_serialization_dependencies: 0,
        create_before_serialization_dependencies: 0,
        serialization_before_create_dependencies: 0,
        create_before_create_dependencies: 0,
    }
}

fn meta_bytes(name_text: &str, typ: &str, size: u64) -> Vec<u8> {
    let mut out = name_ref(name_text);
    out.extend(name_ref(typ));
    out.extend(size.to_le_bytes());
    out
}

fn read_one(f: &Fixture, bytes: &[u8]) -> Result<Option<Property>, Error> {
    let mut rdr = ByteReader::new(bytes.to_vec());
    Property::deserialize(&mut rdr, f.ctx()).map_err(|failure| failure.error)
}

fn trail_of(f: &Fixture, bytes: &[u8]) -> Vec<Place> {
    let mut rdr = ByteReader::new(bytes.to_vec());
    match Property::deserialize(&mut rdr, f.ctx()) {
        Err(failure) => failure.trail,
        Ok(_) => panic!("the property was read"),
    }
}

fn write_one(f: &Fixture, p: &Property) -> Result<Vec<u8>, Error> {
    let mut out = vec![];
    p.serialize(&mut out, f.ctx()).map_err(|failure| failure.error)?;
    Ok(out)
}

fn ids_property() -> Property {
    Property {
        meta: Meta::new(name("Ids"), PropType::ArrayProperty, 16),
        tag: Tag::Array { inner_type: PropType::IntProperty },
        value: Value::Array {
            meta_tag: None,
            values: vec![Value::Int(1), Value::Int(2), Value::Int(3)],
        },
    }
}

fn ids_bytes() -> Vec<u8> {
    let mut bytes = meta_bytes("Ids", "ArrayProperty", 16);
    bytes.extend(name_ref("IntProperty"));
    bytes.push(0);
    bytes.extend([3, 0, 0, 0]);
    bytes.extend([1, 0, 0, 0, 2, 0, 0, 0, 3, 0, 0, 0]);
    bytes
}

fn active_property(value: bool) -> Property {
    Property {
        meta: Meta::new(name("Active"), PropType::BoolProperty, 0),
        tag: Tag::Bool(value),
        value: Value::Bool,
    }
}

fn active_bytes(tag: u8) -> Vec<u8> {
    let mut bytes = meta_bytes("Active", "BoolProperty", 0);
    bytes.push(tag);
    bytes.push(0);
    bytes
}

fn vector(x: f32, y: f32, z: f32) -> Value {
    let part = |n: &str, v: f32| {
        (n.to_string(), StructValue::Floating { size: 4, value: v.to_bits() as u64 })
    };
    Value::Struct {
        value: StructValue::BinaryProperties { entries: vec![part("x", x), part("y", y), part("z", z)] },
    }
}

fn points_property() -> Property {
    Property {
        meta: Meta::new(name("Points"), PropType::ArrayProperty, 77),
        tag: Tag::Array { inner_type: PropType::StructProperty },
        value: Value::Array {
            meta_tag: Some((
                Meta::new(name("Points"), PropType::StructProperty, 24),
                Tag::Struct { struct_type: name("Vector"), guid: [7; 16] },
            )),
            values: vec![vector(1.0, 2.0, 3.0), vector(-1.5, 0.0, 1e9)],
        },
    }
}

fn points_bytes() -> Vec<u8> {
    let mut bytes = meta_bytes("Points", "ArrayProperty", 77);
    bytes.extend(name_ref("StructProperty"));
    bytes.push(0);
    bytes.extend([2, 0, 0, 0]);
    bytes.extend(meta_bytes("Points", "StructProperty", 24));
    bytes.extend(name_ref("Vector"));
    bytes.extend([7; 16]);
    bytes.push(0);
    for v in [1.0f32, 2.0, 3.0, -1.5, 0.0, 1e9] {
        bytes.extend(v.to_le_bytes());
    }
    bytes
}

#[test]
fn empty_property_bag() {
    let f = fixture();
    let bytes = name_ref("None");
    assert_eq!(bytes, vec![0; 8]);
    let mut rdr = ByteReader::new(bytes.clone());
    let bag = Properties::deserialize(&mut rdr, &export_of_size(8), f.ctx()).unwrap();
    assert_eq!(bag, Properties { properties: vec![], ends_with_none: true, extra: vec![] });
    assert_eq!(rdr.position(), 8);
    assert_eq!(bag.byte_size(), 8);
    let mut out = vec![];
    assert_eq!(bag.serialize(&mut out, f.ctx()), Ok(()));
    assert_eq!(out, bytes);
}

#[test]
fn dense_simple_array() {
    let f = fixture();
    let bytes = ids_bytes();
    assert_eq!(bytes.len(), 24 + 8 + 1 + 4 + 12);
    assert_eq!(read_one(&f, &bytes), Ok(Some(ids_property())));
    assert_eq!(write_one(&f, &ids_property()), Ok(bytes));
    assert_eq!(ids_property().byte_size(), 49);
    assert_eq!(value_size_array(&ids_property().value, &ids_property().tag), 16);
}

#[test]
fn the_declared_size_is_rebuilt_from_the_value() {
    let f = fixture();
    let mut p = ids_property();
    p.meta.size = 9999;
    let written = write_one(&f, &p).unwrap();
    assert_eq!(written, ids_bytes());
    assert_eq!(written[16..24], 16u64.to_le_bytes());
    assert_eq!(written.len() - 24 - size_of_tag(&p.tag) - 1, 16);
}

#[test]
fn bool_tag() {
    let f = fixture();
    let bytes = active_bytes(1);
    assert_eq!(bytes.len(), 26);
    assert_eq!(bytes[24], 0x01);
    assert_eq!(read_one(&f, &bytes), Ok(Some(active_property(true))));
    assert_eq!(write_one(&f, &active_property(true)), Ok(bytes));
    assert_eq!(write_one(&f, &active_property(false)), Ok(active_bytes(0)));
    assert_eq!(read_one(&f, &active_bytes(0)), Ok(Some(active_property(false))));
    // anything but zero is true, and is written as one
    assert_eq!(read_one(&f, &active_bytes(2)), Ok(Some(active_property(true))));
    assert_eq!(size_of_tag(&Tag::Bool(true)), 1);
    assert_eq!(active_property(true).byte_size(), 26);
}

#[test]
fn array_of_struct() {
    let f = fixture();
    let bytes = points_bytes();
    assert_eq!(bytes.len(), 24 + 8 + 1 + 4 + 24 + 24 + 1 + 24);
    assert_eq!(read_one(&f, &bytes), Ok(Some(points_property())));
    assert_eq!(write_one(&f, &points_property()), Ok(bytes));
    assert_eq!(points_property().byte_size(), 110);
    assert_eq!(value_size_array(&points_property().value, &points_property().tag), 77);
}

#[test]
fn an_array_of_structs_needs_its_element_header() {
    let f = fixture();
    let mut bytes = meta_bytes("Points", "ArrayProperty", 12);
    bytes.extend(name_ref("StructProperty"));
    bytes.push(0);
    bytes.extend([0, 0, 0, 0]);
    bytes.extend(name_ref("None"));
    assert_eq!(read_one(&f, &bytes), Err(Error::MissingElementHeader));
}

#[test]
fn struct_pattern_fallback() {
    let f = fixture_with(StructPattern::Binary { size: 12 });
    let payload: Vec<u8> = (1..=12).collect();
    let mut bytes = meta_bytes("Ids", "StructProperty", 12);
    bytes.extend(name_ref("UnlistedType"));
    bytes.extend([3; 16]);
    bytes.push(0);
    bytes.extend(payload.clone());
    let property = Property {
        meta: Meta::new(name("Ids"), PropType::StructProperty, 12),
        tag: Tag::Struct { struct_type: name("UnlistedType"), guid: [3; 16] },
        value: Value::Struct { value: StructValue::Binary { bytes: payload.clone() } },
    };
    assert_eq!(read_one(&f, &bytes), Ok(Some(property)));
    let again = read_one(&f, &bytes).unwrap().unwrap();
    assert_eq!(write_one(&f, &again), Ok(bytes.clone()));
    assert_eq!(value_size_struct(&again.value, &again.tag), 12);
    // the pattern of a listed type is its own
    assert_eq!(f.patterns.pattern("Vector"), &vector_pattern());
    assert_eq!(f.patterns.pattern("UnlistedType"), &StructPattern::Binary { size: 12 });
    // a payload that is shorter than the pattern asks for
    assert_eq!(read_one(&f, &bytes[..bytes.len() - 1]), Err(Error::PrematureEof));
}

#[test]
fn a_property_list_struct_ends_with_none_or_with_its_size() {
    let f = fixture();
    let inner = active_bytes(1);
    let mut with_none = meta_bytes("Ids", "StructProperty", 34);
    with_none.extend(name_ref("UnlistedType"));
    with_none.extend([0; 16]);
    with_none.push(0);
    with_none.extend(inner.clone());
    with_none.extend(name_ref("None"));
    let read = read_one(&f, &with_none).unwrap().unwrap();
    assert_eq!(
        read.value,
        Value::Struct {
            value: StructValue::PropertyList {
                properties: vec![active_property(true)],
                has_none: true
            }
        }
    );
    assert_eq!(write_one(&f, &read), Ok(with_none));
    assert_eq!(read.byte_size(), 24 + 24 + 1 + 34);

    let mut without = meta_bytes("Ids", "StructProperty", 26);
    without.extend(name_ref("UnlistedType"));
    without.extend([0; 16]);
    without.push(0);
    without.extend(inner);
    // what follows the struct is not read as part of it
    let mut more = without.clone();
    more.extend(active_bytes(0));
    let read = read_one(&f, &more).unwrap().unwrap();
    assert_eq!(
        read.value,
        Value::Struct {
            value: StructValue::PropertyList {
                properties: vec![active_property(true)],
                has_none: false
            }
        }
    );
    assert_eq!(write_one(&f, &read), Ok(without));
}

#[test]
fn enums_and_bytes_name_their_type_and_their_value() {
    let f = fixture();
    for typ in ["EnumProperty", "ByteProperty"] {
        let mut bytes = meta_bytes("Ids", typ, 8);
        bytes.extend(name_ref("Vector"));
        bytes.push(0);
        bytes.extend(name_ref("Points"));
        let read = read_one(&f, &bytes).unwrap().unwrap();
        assert_eq!(read.tag, Tag::Enum(name("Vector")));
        assert_eq!(read.value, Value::Enum(name("Points")));
        assert_eq!(write_one(&f, &read), Ok(bytes));
        assert_eq!(read.byte_size(), 24 + 8 + 1 + 8);
    }
}

#[test]
fn values_of_simple_types() {
    let f = fixture();
    let cases: Vec<(PropType, Vec<u8>, Value, u64)> = vec![
        (PropType::IntProperty, vec![0xFE, 0xFF, 0xFF, 0xFF], Value::Int(-2), 0),
        (PropType::UInt8Property, vec![200], Value::UInt8(200), 0),
        (PropType::FloatProperty, 1.5f32.to_le_bytes().to_vec(), Value::Float(1.5f32.to_bits()), 0),
        (
            PropType::ObjectProperty,
            vec![0xFF, 0xFF, 0xFF, 0xFF],
            Value::Object(Reference::Import(name("Points"))),
            0,
        ),
        (
            PropType::SoftObjectProperty,
            vec![7, 0, 0, 0, 2, 0, 0, 0, 0, 0, 0, 0],
            Value::SoftObject {
                object_name: NameVariant { name_idx: 7, variant: 2 },
                parent: Reference::UObject,
            },
            0,
        ),
        (
            PropType::NameProperty,
            vec![5, 0, 0, 0, 1, 0, 0, 0],
            Value::Name(NameVariant { name_idx: 5, variant: 1 }),
            0,
        ),
        (
            PropType::StrProperty,
            vec![3, 0, 0, 0, b'h', b'i', 0],
            Value::Str("hi".to_string()),
            0,
        ),
        (PropType::TextProperty, vec![1, 2, 3, 4, 5], Value::Text { bytes: vec![1, 2, 3, 4, 5] }, 5),
    ];
    for (typ, bytes, value, max_size) in cases {
        let mut rdr = ByteReader::new(bytes.clone());
        assert_eq!(deserialize_simple(&mut rdr, typ, max_size, f.ctx()), Ok(value_copy(&value)));
        assert_eq!(rdr.position(), bytes.len() as u64);
        let mut out = vec![];
        assert_eq!(serialize_simple(&value, typ, &mut out, f.ctx()), Ok(()));
        assert_eq!(out, bytes);
        assert_eq!(size_of_simple(&value, typ), bytes.len());
        assert!(typ.is_simple());
        // the same through a whole property
        let p = Property {
            meta: Meta::new(name("Ids"), typ, bytes.len() as u64),
            tag: Tag::Simple(typ),
            value: value_copy(&value),
        };
        let written = write_one(&f, &p).unwrap();
        assert_eq!(written.len(), 24 + 1 + bytes.len());
        assert_eq!(read_one(&f, &written), Ok(Some(p)));
    }
    let mut rdr = ByteReader::new(vec![0; 8]);
    assert_eq!(
        deserialize_simple(&mut rdr, PropType::BoolProperty, 0, f.ctx()),
        Err(Error::KindMismatch)
    );
    let mut out = vec![];
    assert_eq!(
        serialize_simple(&Value::Int(1), PropType::FloatProperty, &mut out, f.ctx()),
        Err(Error::KindMismatch)
    );
    assert_eq!(size_of_simple(&Value::Int(1), PropType::FloatProperty), 0);
}

fn value_copy(v: &Value) -> Value {
    match v {
        Value::Int(x) => Value::Int(*x),
        Value::UInt8(x) => Value::UInt8(*x),
        Value::Float(x) => Value::Float(*x),
        Value::Object(r) => Value::Object(*r),
        Value::SoftObject { object_name, parent } => {
            Value::SoftObject { object_name: *object_name, parent: *parent }
        }
        Value::Name(n) => Value::Name(*n),
        Value::Str(s) => Value::Str(s.clone()),
        Value::Text { bytes } => Value::Text { bytes: bytes.clone() },
        Value::Bool => Value::Bool,
        Value::Enum(n) => Value::Enum(*n),
        Value::RawData { data } => Value::RawData { data: data.clone() },
        _ => panic!("not a flat value"),
    }
}

#[test]
fn a_map_of_simple_types_is_read_entry_by_entry() {
    let f = fixture();
    let mut bytes = meta_bytes("Ids", "MapProperty", 8 + 2 * 12);
    bytes.extend(name_ref("IntProperty"));
    bytes.extend(name_ref("NameProperty"));
    bytes.push(0);
    bytes.extend([0, 0, 0, 0]);
    bytes.extend([2, 0, 0, 0]);
    bytes.extend([10, 0, 0, 0]);
    bytes.extend(name_ref("Ids"));
    bytes.extend([20, 0, 0, 0]);
    bytes.extend(name_ref("Active"));
    let read = read_one(&f, &bytes).unwrap().unwrap();
    assert_eq!(
        read.tag,
        Tag::Mapping { key_type: PropType::IntProperty, value_type: PropType::NameProperty }
    );
    assert_eq!(
        read.value,
        Value::Mapping {
            num_keys_to_remove: 0,
            entries: vec![
                (Value::Int(10), Value::Name(name("Ids"))),
                (Value::Int(20), Value::Name(name("Active")))
            ]
        }
    );
    assert_eq!(size_of_tag(&read.tag), 16);
    assert_eq!(value_size_map(&read.value, &read.tag), 32);
    assert_eq!(read.byte_size(), 24 + 16 + 1 + 32);
    assert_eq!(write_one(&f, &read), Ok(bytes));
}

#[test]
fn containers_of_other_types_are_kept_as_bytes() {
    let f = fixture();
    // an array of booleans
    let mut bytes = meta_bytes("Ids", "ArrayProperty", 6);
    bytes.extend(name_ref("BoolProperty"));
    bytes.push(0);
    bytes.extend([2, 0, 0, 0, 1, 0]);
    let read = read_one(&f, &bytes).unwrap().unwrap();
    assert_eq!(read.value, Value::RawData { data: vec![2, 0, 0, 0, 1, 0] });
    assert_eq!(write_one(&f, &read), Ok(bytes.clone()));
    assert_eq!(value_size_array(&read.value, &read.tag), 6);
    assert_eq!(read_one(&f, &bytes[..bytes.len() - 1]), Err(Error::PrematureEof));
    // a map with structs as values
    let mut bytes = meta_bytes("Ids", "MapProperty", 3);
    bytes.extend(name_ref("IntProperty"));
    bytes.extend(name_ref("StructProperty"));
    bytes.push(0);
    bytes.extend([9, 8, 7]);
    let read = read_one(&f, &bytes).unwrap().unwrap();
    assert_eq!(read.value, Value::RawData { data: vec![9, 8, 7] });
    assert_eq!(write_one(&f, &read), Ok(bytes));
    assert_eq!(value_size_map(&read.value, &read.tag), 3);
}

#[test]
fn a_bag_keeps_what_is_left_of_its_size() {
    let f = fixture();
    let mut bytes = ids_bytes();
    bytes.extend(active_bytes(1));
    bytes.extend(name_ref("None"));
    bytes.extend([0xAB, 0xCD, 0xEF, 0x01]);
    let size = bytes.len() as u64;
    assert_eq!(size, 49 + 26 + 8 + 4);
    let mut rdr = ByteReader::new(bytes.clone());
    let bag = Properties::deserialize(&mut rdr, &export_of_size(size), f.ctx()).unwrap();
    assert_eq!(bag.properties, vec![ids_property(), active_property(true)]);
    assert!(bag.ends_with_none);
    assert_eq!(bag.extra, vec![0xAB, 0xCD, 0xEF, 0x01]);
    assert_eq!(bag.byte_size(), 87);
    assert_eq!(bag.checked_byte_size(), Some(87));
    let mut out = vec![];
    assert_eq!(bag.serialize(&mut out, f.ctx()), Ok(()));
    assert_eq!(out, bytes);
}

#[test]
fn a_bag_without_none_ends_with_its_size() {
    let f = fixture();
    let mut bytes = ids_bytes();
    bytes.extend(active_bytes(0));
    let mut stream = bytes.clone();
    stream.extend(name_ref("None"));
    let mut rdr = ByteReader::new(stream);
    let bag = Properties::deserialize(&mut rdr, &export_of_size(75), f.ctx()).unwrap();
    assert_eq!(bag.properties.len(), 2);
    assert!(!bag.ends_with_none);
    assert_eq!(bag.extra, Vec::<u8>::new());
    assert_eq!(rdr.position(), 75);
    assert_eq!(bag.byte_size(), 75);
    let mut out = vec![];
    assert_eq!(bag.serialize(&mut out, f.ctx()), Ok(()));
    // no sentinel is written where none was read
    assert_eq!(out, bytes);
}

#[test]
fn a_bag_has_to_start_where_its_export_lies_and_stay_within_its_size() {
    let f = fixture();
    let mut bytes = ids_bytes();
    bytes.extend(name_ref("None"));
    let mut export = export_of_size(57);
    export.export_file_offset = 3;
    let mut rdr = ByteReader::new(bytes.clone());
    assert_eq!(
        Properties::deserialize(&mut rdr, &export, f.ctx()),
        Err(Failure::plain(Error::PositionMismatch { expected: 3, actual: 0 }))
    );
    assert_eq!(rdr.position(), 0);
    // a property that runs past the size of the export
    let mut rdr = ByteReader::new(bytes.clone());
    assert_eq!(
        Properties::deserialize(&mut rdr, &export_of_size(40), f.ctx()),
        Err(Failure::plain(Error::SizeOverrun))
    );
    // a size that runs past the data
    let mut rdr = ByteReader::new(bytes.clone());
    assert_eq!(
        Properties::deserialize(&mut rdr, &export_of_size(58), f.ctx()),
        Err(Failure::plain(Error::PrematureEof))
    );
    // a second property that is cut short is named by where it starts
    let mut twice = ids_bytes();
    twice.extend(&ids_bytes()[..30]);
    let mut rdr = ByteReader::new(twice);
    assert_eq!(
        Properties::deserialize(&mut rdr, &export_of_size(79), f.ctx()),
        Err(Failure { error: Error::PrematureEof, trail: vec![Place::Property(49), Place::Tag] })
    );
    let mut export = export_of_size(u64::MAX);
    export.export_file_offset = 1;
    let mut rdr = ByteReader::new(bytes);
    assert_eq!(rdr.take(1).map(|b| b.len()), Ok(1));
    assert_eq!(
        Properties::deserialize(&mut rdr, &export, f.ctx()),
        Err(Failure::plain(Error::TooLong))
    );
}

#[test]
fn unknown_type_names_are_refused() {
    let f = fixture();
    // "Ids" is no type
    let bytes = meta_bytes("Active", "Ids", 0);
    assert_eq!(read_one(&f, &bytes), Err(Error::UnknownTypeName));
    // a type name with a variant is no type either
    let mut bytes = name_ref("Active");
    bytes.extend([1, 0, 0, 0, 1, 0, 0, 0]);
    bytes.extend([0; 8]);
    assert_eq!(read_one(&f, &bytes), Err(Error::UnknownTypeName));
    let mut rdr = ByteReader::new(name_ref("IntProperty"));
    assert_eq!(PropType::deserialize(&mut rdr, f.ctx()), Ok(PropType::IntProperty));
    assert_eq!(PropType::from_str("MapProperty"), Some(PropType::MapProperty));
    assert_eq!(PropType::from_str("mapproperty"), None);
    assert_eq!(PropType::StructProperty.name(), "StructProperty");
}

#[test]
fn a_property_that_is_cut_short_is_refused() {
    let f = fixture();
    let bytes = ids_bytes();
    for cut in [0, 4, 8, 12, 20, 24, 30, 32, 33, 36, 48] {
        assert_eq!(read_one(&f, &bytes[..cut]), Err(Error::PrematureEof), "cut at {}", cut);
    }
    // a size that is smaller than the value: the value hits its limit
    let mut short = ids_bytes();
    short[16] = 15;
    assert_eq!(read_one(&f, &short), Err(Error::PrematureEof));
    // a name index outside the table
    let mut bad = ids_bytes();
    bad[0] = 200;
    assert_eq!(read_one(&f, &bad), Err(Error::IndexOutOfRange));
}

#[test]
fn writing_needs_the_names_of_types_and_of_none() {
    let mut f = fixture();
    f.names.names[1].name = "Renamed".to_string();
    assert_eq!(write_one(&f, &ids_property()), Err(Error::MissingName));
    let mut f = fixture();
    f.names.names[0].name = "Renamed".to_string();
    let bag = Properties { properties: vec![], ends_with_none: true, extra: vec![] };
    let mut out = vec![];
    assert_eq!(bag.serialize(&mut out, f.ctx()), Err(Failure::plain(Error::MissingName)));
    let plain = Properties { properties: vec![], ends_with_none: false, extra: vec![1] };
    let mut out = vec![];
    assert_eq!(plain.serialize(&mut out, f.ctx()), Ok(()));
    assert_eq!(out, vec![1]);
    // a property whose name is outside the table
    let f = fixture();
    let mut p = active_property(true);
    p.meta.name = NameVariant { name_idx: 99, variant: 0 };
    assert_eq!(write_one(&f, &p), Err(Error::MissingName));
    // a reference to nothing that is imported
    let p = Property {
        meta: Meta::new(name("Ids"), PropType::ObjectProperty, 4),
        tag: Tag::Simple(PropType::ObjectProperty),
        value: Value::Object(Reference::Export(name("Ids"))),
    };
    assert_eq!(write_one(&f, &p), Err(Error::MissingName));
}

#[test]
fn values_have_to_be_of_the_kind_of_their_tag() {
    let f = fixture();
    let mut p = ids_property();
    p.tag = Tag::Bool(true);
    assert_eq!(write_one(&f, &p), Err(Error::KindMismatch));
    let mut p = ids_property();
    p.value = Value::Int(1);
    assert_eq!(write_one(&f, &p), Err(Error::KindMismatch));
    assert_eq!(p.byte_size(), 24 + 8 + 1);
    let mut p = active_property(true);
    p.value = Value::Int(1);
    assert_eq!(write_one(&f, &p), Err(Error::KindMismatch));
    let mut p = ids_property();
    p.value = Value::Array { meta_tag: None, values: vec![Value::Int(1), Value::Bool] };
    assert_eq!(write_one(&f, &p), Err(Error::KindMismatch));

    let array = Tag::Array { inner_type: PropType::IntProperty };
    let map = Tag::Mapping { key_type: PropType::IntProperty, value_type: PropType::IntProperty };
    let strct = Tag::Struct { struct_type: name("Vector"), guid: [0; 16] };
    let mut out = vec![];
    let refused = Err(Failure::plain(Error::KindMismatch));
    assert_eq!(serialize_array(&Value::Bool, &map, &mut out, f.ctx()), refused);
    assert_eq!(serialize_map(&Value::Bool, &array, &mut out, f.ctx()), refused);
    assert_eq!(serialize_struct(&Value::Bool, &strct, &mut out, f.ctx()), refused);
    assert_eq!(serialize_struct(&Value::Bool, &array, &mut out, f.ctx()), refused);
    assert_eq!(serialize_value(&Value::Bool, &strct, &mut out, f.ctx()), refused);
    assert!(out.is_empty());
    let mut rdr = ByteReader::new(vec![0; 32]);
    let mismatch = Err(Failure::plain(Error::KindMismatch));
    assert_eq!(deserialize_array(&mut rdr, &map, 0, f.ctx()), mismatch);
    assert_eq!(deserialize_map(&mut rdr, &array, 0, f.ctx()), mismatch);
    assert_eq!(deserialize_struct(&mut rdr, &array, 0, f.ctx()), mismatch);
    assert_eq!(deserialize_value(&mut rdr, &Tag::Bool(false), 0, f.ctx()), Ok(Value::Bool));
    assert_eq!(rdr.position(), 0);
    assert_eq!(value_size_array(&Value::Bool, &map), 0);
    assert_eq!(value_size_map(&Value::Bool, &array), 0);
    assert_eq!(value_size_struct(&Value::Bool, &array), 0);
}

#[test]
fn numbers_in_structs_have_to_fit_their_width() {
    let f = fixture();
    let cases: Vec<(StructValue, Result<Vec<u8>, Error>)> = vec![
        (StructValue::Int { size: 1, value: -1 }, Ok(vec![0xFF])),
        (StructValue::Int { size: 1, value: 128 }, Err(Error::ValueOutOfRange)),
        (StructValue::Int { size: 2, value: -2 }, Ok(vec![0xFE, 0xFF])),
        (StructValue::Int { size: 2, value: 40000 }, Err(Error::ValueOutOfRange)),
        (StructValue::Int { size: 4, value: 0x01020304 }, Ok(vec![4, 3, 2, 1])),
        (StructValue::Int { size: 4, value: 1 << 31 }, Err(Error::ValueOutOfRange)),
        (StructValue::Int { size: 8, value: -1 }, Ok(vec![0xFF; 8])),
        (StructValue::Int { size: 3, value: 0 }, Err(Error::InvalidWidth)),
        (StructValue::UInt { size: 1, value: 255 }, Ok(vec![0xFF])),
        (StructValue::UInt { size: 1, value: 256 }, Err(Error::ValueOutOfRange)),
        (StructValue::UInt { size: 2, value: 0x0102 }, Ok(vec![2, 1])),
        (StructValue::UInt { size: 4, value: 1 << 32 }, Err(Error::ValueOutOfRange)),
        (StructValue::UInt { size: 8, value: u64::MAX }, Ok(vec![0xFF; 8])),
        (StructValue::UInt { size: 0, value: 0 }, Err(Error::InvalidWidth)),
        (
            StructValue::Floating { size: 8, value: 2.5f64.to_bits() },
            Ok(2.5f64.to_le_bytes().to_vec()),
        ),
        (StructValue::Floating { size: 2, value: 0 }, Err(Error::InvalidWidth)),
        (StructValue::Floating { size: 4, value: u64::MAX }, Err(Error::ValueOutOfRange)),
        (StructValue::Enum { variants: vec!["a".to_string(), "b".to_string()], index: 1 }, Ok(vec![1])),
    ];
    for (value, want) in cases {
        let mut out = vec![];
        let got = value
            .serialize(&mut out, f.ctx())
            .map(|_| out.clone())
            .map_err(|failure| failure.error);
        assert_eq!(got, want, "{:?}", value);
        if let Ok(bytes) = want {
            assert_eq!(value.byte_size(), bytes.len());
        }
    }
}

#[test]
fn structs_are_read_as_their_pattern_says() {
    let f = fixture();
    let read = |pattern: StructPattern, bytes: Vec<u8>| {
        let mut rdr = ByteReader::new(bytes);
        pattern.deserialize(&mut rdr, f.ctx()).map_err(|failure| failure.error)
    };
    assert_eq!(
        read(StructPattern::Int { size: 1 }, vec![0x80]),
        Ok(StructValue::Int { size: 1, value: -128 })
    );
    assert_eq!(
        read(StructPattern::Int { size: 2 }, vec![0xFE, 0xFF]),
        Ok(StructValue::Int { size: 2, value: -2 })
    );
    assert_eq!(
        read(StructPattern::Int { size: 4 }, vec![0, 0, 0, 0x80]),
        Ok(StructValue::Int { size: 4, value: -(1 << 31) })
    );
    assert_eq!(
        read(StructPattern::Int { size: 8 }, vec![1, 0, 0, 0, 0, 0, 0, 0x80]),
        Ok(StructValue::Int { size: 8, value: i64::MIN + 1 })
    );
    assert_eq!(
        read(StructPattern::UInt { size: 2 }, vec![0xFE, 0xFF]),
        Ok(StructValue::UInt { size: 2, value: 0xFFFE })
    );
    assert_eq!(
        read(StructPattern::UInt { size: 8 }, vec![0xFF; 8]),
        Ok(StructValue::UInt { size: 8, value: u64::MAX })
    );
    assert_eq!(
        read(StructPattern::Floating { size: 4 }, 0.25f32.to_le_bytes().to_vec()),
        Ok(StructValue::Floating { size: 4, value: 0.25f32.to_bits() as u64 })
    );
    assert_eq!(read(StructPattern::Int { size: 5 }, vec![0; 8]), Err(Error::InvalidWidth));
    assert_eq!(read(StructPattern::UInt { size: 16 }, vec![0; 16]), Err(Error::InvalidWidth));
    assert_eq!(read(StructPattern::Floating { size: 1 }, vec![0; 8]), Err(Error::InvalidWidth));
    assert_eq!(read(StructPattern::Int { size: 4 }, vec![0; 3]), Err(Error::PrematureEof));
    let colours = vec!["red".to_string(), "green".to_string()];
    assert_eq!(
        read(StructPattern::Enum { variants: colours.clone() }, vec![1]),
        Ok(StructValue::Enum { variants: colours.clone(), index: 1 })
    );
    assert_eq!(
        read(StructPattern::Enum { variants: colours }, vec![2]),
        Err(Error::IndexOutOfRange)
    );
    assert_eq!(read(StructPattern::Binary { size: 0 }, vec![]), Ok(StructValue::Binary { bytes: vec![] }));
    // a struct type is looked up as it prints
    let mut rdr = ByteReader::new(vec![0; 12]);
    assert_eq!(
        f.patterns.deserialize(&mut rdr, "Vector", f.ctx()).map(|v| v.byte_size()),
        Ok(12)
    );
}

#[test]
fn tags_are_read_and_written_by_type() {
    let f = fixture();
    let mut struct_tag = name_ref("Vector");
    struct_tag.extend([5; 16]);
    let mut map_tag = name_ref("IntProperty");
    map_tag.extend(name_ref("StrProperty"));
    let cases: Vec<(PropType, Vec<u8>, Tag)> = vec![
        (PropType::IntProperty, vec![], Tag::Simple(PropType::IntProperty)),
        (PropType::TextProperty, vec![], Tag::Simple(PropType::TextProperty)),
        (PropType::BoolProperty, vec![0], Tag::Bool(false)),
        (PropType::ByteProperty, name_ref("Ids"), Tag::Enum(name("Ids"))),
        (
            PropType::ArrayProperty,
            name_ref("FloatProperty"),
            Tag::Array { inner_type: PropType::FloatProperty },
        ),
        (
            PropType::MapProperty,
            map_tag,
            Tag::Mapping { key_type: PropType::IntProperty, value_type: PropType::StrProperty },
        ),
        (
            PropType::StructProperty,
            struct_tag,
            Tag::Struct { struct_type: name("Vector"), guid: [5; 16] },
        ),
    ];
    for (typ, bytes, tag) in cases {
        let mut rdr = ByteReader::new(bytes.clone());
        assert_eq!(deserialize_tag(&mut rdr, f.ctx(), typ), Ok(tag));
        assert_eq!(rdr.position(), bytes.len() as u64);
        let mut out = vec![];
        assert_eq!(serialize_tag(&tag, &mut out, f.ctx()), Ok(()));
        assert_eq!(out, bytes);
        assert_eq!(size_of_tag(&tag), bytes.len());
        let loader = Property::get_loader_for(typ);
        assert_eq!(loader.simple, bytes.is_empty());
        assert!(loader.is_for_type(typ));
        assert_eq!(loader.tag_size(&tag), bytes.len());
        let mut rdr = ByteReader::new(bytes.clone());
        assert_eq!(loader.deserialize_tag(&mut rdr, f.ctx()), Ok(tag));
        let mut out = vec![];
        assert_eq!(loader.serialize_tag(&mut out, &tag, f.ctx()), Ok(()));
        assert_eq!(out, bytes);
    }
    let mut rdr = ByteReader::new(vec![]);
    assert_eq!(deserialize_tag(&mut rdr, f.ctx(), PropType::BoolProperty), Err(Error::PrematureEof));
}

#[test]
fn a_loader_refuses_tags_of_another_type() {
    let f = fixture();
    let int: PropertyLoader = Property::get_loader_for(PropType::IntProperty);
    let enums = Property::get_loader_for(PropType::EnumProperty);
    assert!(enums.is_for_type(PropType::ByteProperty));
    assert!(!enums.is_for_type(PropType::IntProperty));
    assert!(!int.is_for_type(PropType::FloatProperty));
    let tag = Tag::Simple(PropType::IntProperty);
    let mut rdr = ByteReader::new(vec![5, 0, 0, 0]);
    assert_eq!(int.deserialize_value(&mut rdr, &tag, 4, f.ctx()), Ok(Value::Int(5)));
    let mut rdr = ByteReader::new(vec![5, 0, 0, 0]);
    assert_eq!(
        int.deserialize_value(&mut rdr, &Tag::Bool(true), 4, f.ctx()),
        Err(Failure::plain(Error::KindMismatch))
    );
    let mut out = vec![];
    assert_eq!(int.serialize_value(&mut out, &Value::Int(5), &tag, f.ctx()), Ok(()));
    assert_eq!(out, vec![5, 0, 0, 0]);
    assert_eq!(
        enums.serialize_value(&mut out, &Value::Int(5), &tag, f.ctx()),
        Err(Failure::plain(Error::KindMismatch))
    );
    assert_eq!(enums.serialize_tag(&mut out, &tag, f.ctx()), Err(Error::KindMismatch));
    assert_eq!(int.value_size(&Value::Int(5), &tag), 4);
}

#[test]
fn a_meta_is_a_name_a_type_and_a_size() {
    let f = fixture();
    let meta = Meta::new(name("Ids"), PropType::ArrayProperty, 0x0102030405060708);
    let mut out = vec![];
    assert_eq!(meta.serialize(&mut out, f.ctx()), Ok(()));
    let mut want = name_ref("Ids");
    want.extend(name_ref("ArrayProperty"));
    want.extend([8, 7, 6, 5, 4, 3, 2, 1]);
    assert_eq!(out, want);
    assert_eq!(meta.byte_size(), 24);
    assert_eq!(Meta::maybe_byte_size(&Some(meta)), 24);
    assert_eq!(Meta::maybe_byte_size(&None), 8);
    let mut rdr = ByteReader::new(out);
    assert_eq!(Meta::deserialize(&mut rdr, f.ctx()), Ok(Some(meta)));
    assert_eq!(rdr.position(), 24);
    let mut rdr = ByteReader::new(name_ref("None"));
    assert_eq!(Meta::deserialize(&mut rdr, f.ctx()), Ok(None));
    assert_eq!(rdr.position(), 8);
    // "None" with a variant is a name like any other
    let mut bytes = vec![0, 0, 0, 0, 1, 0, 0, 0];
    bytes.extend(name_ref("IntProperty"));
    bytes.extend([4, 0, 0, 0, 0, 0, 0, 0]);
    let mut rdr = ByteReader::new(bytes);
    assert_eq!(
        Meta::deserialize(&mut rdr, f.ctx()),
        Ok(Some(Meta::new(NameVariant { name_idx: 0, variant: 1 }, PropType::IntProperty, 4)))
    );
    let mut out = vec![];
    assert_eq!(PropType::MapProperty.serialize(&mut out, f.ctx()), Ok(()));
    assert_eq!(out, name_ref("MapProperty"));
}

#[test]
fn sizes_are_computed_without_writing() {
    let f = fixture();
    for p in [ids_property(), active_property(false), points_property()] {
        let written = write_one(&f, &p).unwrap();
        assert_eq!(p.checked_byte_size(), Some(written.len()));
        assert_eq!(
            drg::asset::property::checked_value_size(&p.value, &p.tag),
            Some(written.len() - 24 - size_of_tag(&p.tag) - 1)
        );
        assert!(drg::asset::property::tag_matches_type(&p.tag, p.meta.typ));
        assert!(!drg::asset::property::tag_matches_type(&p.tag, PropType::NameProperty));
    }
    let list = vec![ids_property(), active_property(true)];
    assert_eq!(drg::asset::property::checked_properties_size(&list), Some(49 + 26));
    let mut out = vec![];
    assert_eq!(drg::asset::property::write_properties(&list, &mut out, f.ctx()), Ok(()));
    assert_eq!(out.len(), 75);
    assert_eq!(drg::asset::property::write_none(&mut out, f.ctx()), Ok(()));
    assert_eq!(out[75..], [0; 8]);
    let strct = StructValue::PropertyList { properties: list, has_none: true };
    assert_eq!(strct.checked_byte_size(), Some(83));
    let mut again = vec![];
    assert_eq!(f.patterns.serialize(&strct, &mut again, f.ctx()), Ok(()));
    assert_eq!(again, out);
}

#[test]
fn properties_are_read_up_to_a_stop() {
    let f = fixture();
    let mut bytes = active_bytes(1);
    bytes.extend(active_bytes(0));
    bytes.extend(active_bytes(1));
    let mut rdr = ByteReader::new(bytes.clone());
    let (read, ended) = read_properties(&mut rdr, Some(27), f.ctx()).unwrap();
    assert_eq!(read, vec![active_property(true), active_property(false)]);
    assert!(!ended);
    assert_eq!(rdr.position(), 52);
    let mut rdr = ByteReader::new(bytes.clone());
    rdr.limit(26);
    let (read, ended) = read_properties(&mut rdr, None, f.ctx()).unwrap();
    assert_eq!(read, vec![active_property(true)]);
    assert!(!ended);
    let mut rdr = ByteReader::new(bytes);
    assert_eq!(
        read_properties(&mut rdr, Some(79), f.ctx()),
        Err(Failure { error: Error::PrematureEof, trail: vec![Place::Property(78), Place::Meta] })
    );
}

#[test]
fn a_failure_names_the_part_of_the_property() {
    let f = fixture();
    // the name, the type or the size
    assert_eq!(trail_of(&f, &ids_bytes()[..20]), vec![Place::Meta]);
    let mut unknown = meta_bytes("Ids", "ArrayProperty", 16);
    unknown[8..12].copy_from_slice(&[0xFF, 0xFF, 0, 0]);
    assert_eq!(trail_of(&f, &unknown), vec![Place::Meta]);
    // the tag
    assert_eq!(trail_of(&f, &ids_bytes()[..30]), vec![Place::Tag]);
    // the zero byte after the tag
    assert_eq!(trail_of(&f, &ids_bytes()[..32]), Vec::<Place>::new());
    // the count of the elements
    assert_eq!(trail_of(&f, &ids_bytes()[..35]), Vec::<Place>::new());
    // the elements of an array of a simple type
    assert_eq!(trail_of(&f, &ids_bytes()[..37]), vec![Place::Element(0)]);
    assert_eq!(trail_of(&f, &ids_bytes()[..48]), vec![Place::Element(2)]);
}

#[test]
fn a_failure_names_the_element_and_its_part() {
    let f = fixture();
    let bytes = points_bytes();
    let elements = 24 + 8 + 1 + 4 + 24 + 24 + 1;
    // the meta and the tag that announce the elements
    assert_eq!(trail_of(&f, &bytes[..24 + 8 + 1 + 4 + 10]), vec![Place::Meta]);
    assert_eq!(trail_of(&f, &bytes[..24 + 8 + 1 + 4 + 24 + 10]), vec![Place::Tag]);
    // the parts of the elements
    assert_eq!(trail_of(&f, &bytes[..elements]), vec![Place::Element(0), Place::Field(0)]);
    assert_eq!(trail_of(&f, &bytes[..elements + 9]), vec![Place::Element(0), Place::Field(2)]);
    assert_eq!(trail_of(&f, &bytes[..elements + 12]), vec![Place::Element(1), Place::Field(0)]);
    assert_eq!(trail_of(&f, &bytes[..elements + 23]), vec![Place::Element(1), Place::Field(2)]);
    assert_eq!(read_one(&f, &bytes[..elements + 23]), Err(Error::PrematureEof));
}

#[test]
fn a_failure_names_the_key_or_the_value() {
    let f = fixture();
    let mut bytes = meta_bytes("Ids", "MapProperty", 32);
    bytes.extend(name_ref("IntProperty"));
    bytes.extend(name_ref("NameProperty"));
    bytes.push(0);
    bytes.extend([0, 0, 0, 0]);
    bytes.extend([2, 0, 0, 0]);
    let entries = bytes.len();
    bytes.extend([10, 0, 0, 0]);
    bytes.extend(name_ref("Ids"));
    bytes.extend([20, 0, 0, 0]);
    bytes.extend(name_ref("Active"));
    assert_eq!(trail_of(&f, &bytes[..entries - 1]), Vec::<Place>::new());
    assert_eq!(trail_of(&f, &bytes[..entries + 2]), vec![Place::Key(0)]);
    assert_eq!(trail_of(&f, &bytes[..entries + 6]), vec![Place::Value(0)]);
    assert_eq!(trail_of(&f, &bytes[..entries + 13]), vec![Place::Key(1)]);
    assert_eq!(trail_of(&f, &bytes[..entries + 23]), vec![Place::Value(1)]);
    // a name that the table lacks
    let mut wrong = bytes.clone();
    wrong[entries + 16..entries + 20].copy_from_slice(&[0xFF, 0xFF, 0, 0]);
    let mut rdr = ByteReader::new(wrong);
    assert_eq!(
        Property::deserialize(&mut rdr, f.ctx()),
        Err(Failure::at(Error::IndexOutOfRange, Place::Value(1)))
    );
}

#[test]
fn a_failure_names_the_property_within_a_struct() {
    let f = fixture_with(StructPattern::PropertyList);
    let mut bytes = meta_bytes("Ids", "StructProperty", 83);
    bytes.extend(name_ref("UnlistedType"));
    bytes.extend([3; 16]);
    bytes.push(0);
    let payload = bytes.len();
    bytes.extend(active_bytes(1));
    bytes.extend(ids_bytes());
    bytes.extend(name_ref("None"));
    assert!(read_one(&f, &bytes).is_ok());
    // the second property of the struct starts 26 bytes into the payload
    let inner = (payload + 26) as u64;
    assert_eq!(
        trail_of(&f, &bytes[..payload + 26 + 45]),
        vec![Place::Property(inner), Place::Element(2)]
    );
    assert_eq!(trail_of(&f, &bytes[..payload + 5]), vec![Place::Property(payload as u64), Place::Meta]);
    // within a bag, the property of the bag comes first
    let mut rdr = ByteReader::new(bytes[..payload + 26 + 30].to_vec());
    assert_eq!(
        Properties::deserialize(&mut rdr, &export_of_size(200), f.ctx()),
        Err(Failure {
            error: Error::PrematureEof,
            trail: vec![Place::Property(0), Place::Property(inner), Place::Tag]
        })
    );
}

#[test]
fn a_failure_names_the_part_that_could_not_be_written() {
    let f = fixture();
    let nowhere = NameVariant { name_idx: 1000, variant: 0 };
    let failed = |error: Error, trail: &[Place]| Err(Failure { error, trail: trail.to_vec() });
    let mut out = vec![];
    // the name of the property, the name of its enumerator
    let mut p = ids_property();
    p.meta.name = nowhere;
    assert_eq!(p.serialize(&mut out, f.ctx()), failed(Error::MissingName, &[Place::Meta]));
    let p = Property {
        meta: Meta::new(name("Ids"), PropType::EnumProperty, 0),
        tag: Tag::Enum(nowhere),
        value: Value::Enum(name("Ids")),
    };
    assert_eq!(p.serialize(&mut out, f.ctx()), failed(Error::MissingName, &[Place::Tag]));
    // an element of an array
    let mut p = ids_property();
    p.tag = Tag::Array { inner_type: PropType::NameProperty };
    p.value = Value::Array {
        meta_tag: None,
        values: vec![Value::Name(name("Ids")), Value::Name(nowhere), Value::Name(nowhere)],
    };
    assert_eq!(p.serialize(&mut out, f.ctx()), failed(Error::MissingName, &[Place::Element(1)]));
    assert_eq!(
        drg::asset::property::write_properties(&vec![active_property(true), ids_property(), p], &mut vec![], f.ctx()),
        failed(Error::MissingName, &[Place::Member(2), Place::Element(1)])
    );
    // a part of an element that is a struct, and the header of the elements
    let mut p = points_property();
    if let Value::Array { values, .. } = &mut p.value {
        values[1] = Value::Struct {
            value: StructValue::BinaryProperties {
                entries: vec![
                    ("x".to_string(), StructValue::Floating { size: 4, value: 0 }),
                    ("y".to_string(), StructValue::Floating { size: 4, value: 1 << 40 }),
                ],
            },
        };
    }
    assert_eq!(
        p.serialize(&mut out, f.ctx()),
        failed(Error::ValueOutOfRange, &[Place::Element(1), Place::Field(1)])
    );
    let bag = Properties { properties: vec![p], ends_with_none: true, extra: vec![] };
    assert_eq!(
        bag.serialize(&mut vec![], f.ctx()),
        failed(Error::ValueOutOfRange, &[Place::Member(0), Place::Element(1), Place::Field(1)])
    );
    let mut p = points_property();
    if let Value::Array { meta_tag: Some((_, tag)), .. } = &mut p.value {
        *tag = Tag::Struct { struct_type: nowhere, guid: [0; 16] };
    }
    assert_eq!(p.serialize(&mut out, f.ctx()), failed(Error::MissingName, &[Place::Tag]));
    // a key and a value of a map
    let map = |key: Value, value: Value| Property {
        meta: Meta::new(name("Ids"), PropType::MapProperty, 0),
        tag: Tag::Mapping { key_type: PropType::IntProperty, value_type: PropType::NameProperty },
        value: Value::Mapping {
            num_keys_to_remove: 0,
            entries: vec![(Value::Int(1), Value::Name(name("Ids"))), (key, value)],
        },
    };
    assert_eq!(
        map(Value::Bool, Value::Name(nowhere)).serialize(&mut out, f.ctx()).map_err(|x| x.trail),
        Err(vec![Place::Key(1)])
    );
    assert_eq!(
        map(Value::Int(2), Value::Name(nowhere)).serialize(&mut out, f.ctx()),
        failed(Error::MissingName, &[Place::Value(1)])
    );
    // a property within a struct
    let inner = Property {
        meta: Meta::new(name("Ids"), PropType::NameProperty, 0),
        tag: Tag::Simple(PropType::NameProperty),
        value: Value::Name(nowhere),
    };
    let p = Property {
        meta: Meta::new(name("Ids"), PropType::StructProperty, 0),
        tag: Tag::Struct { struct_type: name("UnlistedType"), guid: [0; 16] },
        value: Value::Struct {
            value: StructValue::PropertyList {
                properties: vec![active_property(true), inner],
                has_none: true,
            },
        },
    };
    assert_eq!(p.serialize(&mut out, f.ctx()), failed(Error::MissingName, &[Place::Member(1)]));
}
