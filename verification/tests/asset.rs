use drg::asset::asset_registry::AssetRegistry;
use drg::asset::compare_bytes;
use drg::asset::depends::Depends;
use drg::asset::exports::Export;
use drg::asset::exports::Exports;
use drg::asset::file_summary::FileSummary;
use drg::asset::file_summary::Generation;
use drg::asset::imports::Import;
use drg::asset::imports::Imports;
use drg::asset::name_map::NameMap;
use drg::asset::name_map::NameVariant;
use drg::asset::preload_dependencies::PreloadDependencies;
use drg::asset::property::bag::Properties;
use drg::asset::property::meta::Meta;
use drg::asset::property::prop_type::PropType;
use drg::asset::property::struct_pattern::StructPattern;
use drg::asset::property::struct_pattern::StructPatterns;
use drg::asset::property::value::Property;
use drg::asset::property::value::StructValue;
use drg::asset::property::value::Tag;
use drg::asset::property::value::Value;
use drg::asset::reference::Reference;
use drg::asset::Asset;
use drg::asset::AssetExports;
use drg::asset::AssetHeader;
use drg::error::Error;
use drg::error::Failure;
use drg::error::Place;
use drg::reader::ByteReader;

const NAMES: [&str; 8] =
    ["None", "IntProperty", "BoolProperty", "Package", "Class", "Thing", "Count", "Other"];

fn name(text: &str) -> NameVariant {
    NameVariant { name_idx: NAMES.iter().position(|n| *n == text).unwrap(), variant: 0 }
}

fn summary(folder: &str) -> FileSummary {
    FileSummary {
        tag: [0xC1, 0x83, 0x2A, 0x9E],
        file_version_ue4: 0x10,
        file_version_license_ue4: 0x20,
        custom_version: [1, 2, 3, 4, 5, 6, 7, 8, 9, 10, 11, 12],
        total_header_size: 0,
        package_flags: 0x30,
        folder_name: folder.to_string(),
        name_count: 0,
        name_offset: 0,
        gatherable_text_data_count: 0x41,
        gatherable_text_data_offset: 0x42,
        export_count: 0,
        export_offset: 0,
        import_count: 0,
        import_offset: 0,
        depends_offset: 0,
        soft_package_references_count: 0x51,
        soft_package_references_offset: 0x52,
        searchable_names_offset: 0x53,
        thumbnail_table_offset: 0x54,
        guid: [0xAA; 16],
        generations: vec![Generation { export_count: 77, name_count: 88 }],
        saved_by_engine_version: [0xBB; 16],
        compatible_with_engine_version: [0xCC; 16],
        compression_flags: 0x61,
        package_source: -5,
        asset_registry_data_offset: 0,
        bulk_data_start_offset: 0,
        world_tile_info_data_offset: 0x71,
        chunk_ids: 0x0102030405060708,
        preload_dependency_count: 0,
        preload_dependency_offset: 0,
    }
}

fn export(object_name: NameVariant) -> Export {
    Export {
        class: 1,
        super_index: -1,
        template: 2,
        outer: 0,
        object_name,
        object_flags: 3,
        serial_size: 0,
        serial_offset: 0,
        export_file_offset: 0,
        forced_export: false,
        not_for_client: true,
        not_for_server: false,
        was_filtered: true,
        package_guid: [4; 16],
        package_flags: 5,
        not_always_loaded_for_editor_game: false,
        is_asset: true,
        first_export_dependency: 6,
        serialization_before_serialization_dependencies: 7,
        create_before_serialization_dependencies: 8,
        serialization_before_create_dependencies: 9,
        create_before_create_dependencies: 10,
    }
}

fn header() -> AssetHeader {
    let mut names = NameMap { names: vec![] };
    for n in NAMES {
        names.add(n);
    }
    AssetHeader {
        summary: summary("None"),
        names,
        imports: Imports {
            objects: vec![Import {
                class_package: name("Package"),
                class: name("Class"),
                outer_index: 0,
                name: name("Thing"),
            }],
        },
        exports: Exports { exports: vec![export(name("Count")), export(name("Other"))] },
        depends: Depends { data: vec![0xD0, 0xD1, 0xD2] },
        assets: AssetRegistry { data: vec![0xE0, 0xE1] },
        dependencies: PreloadDependencies {
            dependencies: vec![Reference::Import(name("Thing")), Reference::Export(name("Other"))],
        },
    }
}

fn count_property(value: i32) -> Property {
    Property {
        meta: Meta::new(name("Count"), PropType::IntProperty, 4),
        tag: Tag::Simple(PropType::IntProperty),
        value: Value::Int(value),
    }
}

fn flag_property(value: bool) -> Property {
    Property {
        meta: Meta::new(name("Other"), PropType::BoolProperty, 0),
        tag: Tag::Bool(value),
        value: Value::Bool,
    }
}

fn bags() -> AssetExports {
    AssetExports {
        structs: vec![
            Properties {
                properties: vec![count_property(7), flag_property(true)],
                ends_with_none: true,
                extra: vec![0, 0, 0, 0],
            },
            Properties { properties: vec![count_property(-1)], ends_with_none: false, extra: vec![] },
        ],
    }
}

fn failed<T>(error: Error, trail: &[Place]) -> Result<T, Failure> {
    Err(Failure { error, trail: trail.to_vec() })
}

fn patterns() -> StructPatterns {
    StructPatterns::new(StructPattern::PropertyList, vec![])
}

fn asset() -> Asset {
    let mut asset = Asset::new(header(), bags());
    assert_eq!(asset.recalculate_offsets(), Ok(()));
    asset
}

// the size of the names: 4 + len + 1 + 4 for each
const NAMES_SIZE: u32 = 8 * 9 + (4 + 11 + 12 + 7 + 5 + 5 + 5 + 5);
const NAME_OFFSET: u32 = 188 + 4 + 1;
const IMPORT_OFFSET: u32 = NAME_OFFSET + NAMES_SIZE;
const EXPORT_OFFSET: u32 = IMPORT_OFFSET + 28;
const DEPENDS_OFFSET: u32 = EXPORT_OFFSET + 2 * 104;
const REGISTRY_OFFSET: u32 = DEPENDS_OFFSET + 3;
const PRELOAD_OFFSET: u32 = REGISTRY_OFFSET + 2;
const HEADER_SIZE: u32 = PRELOAD_OFFSET + 8;
const FIRST_BAG: u32 = (24 + 1 + 4) + (24 + 1 + 1) + 8 + 4;
const SECOND_BAG: u32 = 24 + 1 + 4;

#[test]
fn offsets_are_the_sums_of_the_sizes_before_them() {
    let asset = asset();
    let s = &asset.header.summary;
    assert_eq!(s.byte_size(), NAME_OFFSET as usize);
    assert_eq!(s.name_offset, NAME_OFFSET);
    assert_eq!(s.import_offset, IMPORT_OFFSET);
    assert_eq!(s.export_offset, EXPORT_OFFSET);
    assert_eq!(s.depends_offset, DEPENDS_OFFSET);
    assert_eq!(s.asset_registry_data_offset, REGISTRY_OFFSET);
    assert_eq!(s.preload_dependency_offset, PRELOAD_OFFSET);
    assert_eq!(s.total_header_size, HEADER_SIZE);
    assert_eq!(s.bulk_data_start_offset, HEADER_SIZE + FIRST_BAG + SECOND_BAG);
    assert_eq!(s.name_count, 8);
    assert_eq!(s.import_count, 1);
    assert_eq!(s.export_count, 2);
    assert_eq!(s.preload_dependency_count, 2);
    assert_eq!(s.generations, vec![Generation { export_count: 2, name_count: 8 }]);
    let e = &asset.header.exports.exports;
    assert_eq!(e[0].serial_size, FIRST_BAG as u64);
    assert_eq!(e[0].export_file_offset, 0);
    assert_eq!(e[0].serial_offset, HEADER_SIZE);
    assert_eq!(e[1].serial_size, SECOND_BAG as u64);
    assert_eq!(e[1].export_file_offset, FIRST_BAG as u64);
    assert_eq!(e[1].serial_offset, HEADER_SIZE + FIRST_BAG);
    // what the recalculation does not own stays
    assert_eq!(s.gatherable_text_data_offset, 0x42);
    assert_eq!(s.folder_name, "None");
    assert_eq!(e[1].create_before_create_dependencies, 10);
    assert_eq!(asset.exports, bags());
}

#[test]
fn an_asset_that_was_written_reads_back_as_itself() {
    let asset = asset();
    let (uasset, uexp) = asset.write(&patterns()).unwrap();
    assert_eq!(uasset.len(), HEADER_SIZE as usize);
    assert_eq!(uexp.len(), (FIRST_BAG + SECOND_BAG + 4) as usize);
    assert_eq!(uexp[uexp.len() - 4..], [0xC1, 0x83, 0x2A, 0x9E]);
    let read = Asset::read(uasset.clone(), uexp.clone(), &patterns()).unwrap();
    assert_eq!(read, asset);
    let (uasset_again, uexp_again) = read.write(&patterns()).unwrap();
    assert_eq!(uasset_again, uasset);
    assert_eq!(uexp_again, uexp);
    assert_eq!(Asset::test_rw(uasset, uexp, &patterns()), Ok(()));
}

#[test]
fn the_header_file_holds_its_sections_in_order() {
    let asset = asset();
    let uasset = asset.header.write().unwrap();
    assert_eq!(uasset[0..4], [0xC1, 0x83, 0x2A, 0x9E]);
    assert_eq!(uasset[24..28], HEADER_SIZE.to_le_bytes());
    assert_eq!(uasset[28..37], [5, 0, 0, 0, b'N', b'o', b'n', b'e', 0]);
    let names_at = NAME_OFFSET as usize;
    assert_eq!(uasset[names_at..names_at + 9], [5, 0, 0, 0, b'N', b'o', b'n', b'e', 0]);
    let depends_at = DEPENDS_OFFSET as usize;
    assert_eq!(uasset[depends_at..depends_at + 5], [0xD0, 0xD1, 0xD2, 0xE0, 0xE1]);
    assert_eq!(uasset[PRELOAD_OFFSET as usize..], [0xFF, 0xFF, 0xFF, 0xFF, 2, 0, 0, 0]);
    assert_eq!(AssetHeader::read(uasset), Ok(asset.header));
}

#[test]
fn the_summary_is_read_field_by_field() {
    let mut s = summary("Folder");
    s.generations = vec![
        Generation { export_count: 1, name_count: 2 },
        Generation { export_count: 3, name_count: 4 },
    ];
    s.total_header_size = 0x0A0B0C0D;
    s.name_count = 0x91;
    s.name_offset = 0x92;
    s.export_count = 0x93;
    s.export_offset = 0x94;
    s.import_count = 0x95;
    s.import_offset = 0x96;
    s.depends_offset = 0x97;
    s.asset_registry_data_offset = 0x98;
    s.bulk_data_start_offset = 0x99;
    s.preload_dependency_count = 0x9A;
    s.preload_dependency_offset = 0x9B;
    let mut out = vec![];
    assert_eq!(s.write(&mut out), Ok(()));
    assert_eq!(out.len(), 180 + 7 + 16);
    // with two generations the summary is 8 bytes longer than it is placed by
    assert_eq!(s.byte_size(), 188 + 7);
    assert_eq!(out[4..8], [0x10, 0, 0, 0]);
    assert_eq!(out[12..24], [1, 2, 3, 4, 5, 6, 7, 8, 9, 10, 11, 12]);
    assert_eq!(out[24..28], [0x0D, 0x0C, 0x0B, 0x0A]);
    assert_eq!(out[28..39], [7, 0, 0, 0, b'F', b'o', b'l', b'd', b'e', b'r', 0]);
    assert_eq!(out[39..43], [0x30, 0, 0, 0]);
    assert_eq!(out[39 + 72..39 + 76], [2, 0, 0, 0]);
    assert_eq!(out[39 + 76..39 + 92], [1, 0, 0, 0, 2, 0, 0, 0, 3, 0, 0, 0, 4, 0, 0, 0]);
    assert_eq!(out[out.len() - 36..out.len() - 28], (-5i64).to_le_bytes());
    assert_eq!(out[out.len() - 4..], [0x9B, 0, 0, 0]);
    let mut rdr = ByteReader::new(out.clone());
    assert_eq!(FileSummary::read(&mut rdr), Ok(s));
    assert_eq!(rdr.position(), out.len() as u64);
    for cut in [0, 27, 30, 38, 110, 114, 130, 202] {
        let mut rdr = ByteReader::new(out[..cut].to_vec());
        assert_eq!(FileSummary::read(&mut rdr), Err(Error::PrematureEof), "cut at {}", cut);
    }
    let mut rdr = ByteReader::new(vec![1, 0, 0, 0, 2, 0, 0, 0]);
    assert_eq!(Generation::read(&mut rdr), Ok(Generation { export_count: 1, name_count: 2 }));
    let mut rdr = ByteReader::new(vec![1, 0, 0, 0, 5, 0, 0, 0, 6, 0, 0, 0]);
    assert_eq!(
        Generation::read_array(&mut rdr),
        Ok(vec![Generation { export_count: 5, name_count: 6 }])
    );
    let mut rdr = ByteReader::new(vec![2, 0, 0, 0, 5, 0, 0, 0, 6, 0, 0, 0]);
    assert_eq!(Generation::read_array(&mut rdr), Err(Error::PrematureEof));
    let mut out = vec![];
    assert_eq!(Generation::write_array(&vec![Generation { export_count: 5, name_count: 6 }], &mut out), Ok(()));
    assert_eq!(out, vec![1, 0, 0, 0, 5, 0, 0, 0, 6, 0, 0, 0]);
}

#[test]
fn sections_have_to_lie_where_the_summary_says() {
    let asset = asset();
    let uasset = asset.header.write().unwrap();
    // one byte more in the folder name moves everything
    let mut moved = asset.header.clone();
    moved.summary.folder_name = "Nonee".to_string();
    let bytes = moved.write().unwrap();
    assert_eq!(
        AssetHeader::read(bytes),
        failed(
            Error::PositionMismatch { expected: NAME_OFFSET as u64, actual: NAME_OFFSET as u64 + 1 },
            &[Place::Names]
        )
    );
    let mut wrong = asset.header.clone();
    wrong.summary.import_offset += 1;
    assert_eq!(
        AssetHeader::read(wrong.write().unwrap()),
        failed(
            Error::PositionMismatch {
                expected: IMPORT_OFFSET as u64 + 1,
                actual: IMPORT_OFFSET as u64
            },
            &[Place::Imports]
        )
    );
    let mut wrong = asset.header.clone();
    wrong.summary.asset_registry_data_offset = DEPENDS_OFFSET - 1;
    assert_eq!(
        AssetHeader::read(wrong.write().unwrap()),
        failed(Error::BadOffsets, &[Place::Depends])
    );
    let mut wrong = asset.header.clone();
    wrong.summary.export_offset -= 1;
    assert_eq!(
        AssetHeader::read(wrong.write().unwrap()),
        failed(
            Error::PositionMismatch {
                expected: EXPORT_OFFSET as u64 - 1,
                actual: EXPORT_OFFSET as u64
            },
            &[Place::Exports]
        )
    );
    let mut wrong = asset.header.clone();
    wrong.summary.depends_offset += 2;
    assert_eq!(
        AssetHeader::read(wrong.write().unwrap()),
        failed(
            Error::PositionMismatch {
                expected: DEPENDS_OFFSET as u64 + 2,
                actual: DEPENDS_OFFSET as u64
            },
            &[Place::Depends]
        )
    );
    assert_eq!(
        AssetHeader::read(uasset[..uasset.len() - 1].to_vec()),
        failed(Error::PrematureEof, &[Place::PreloadDependencies])
    );
    assert_eq!(
        AssetHeader::read(uasset[..20].to_vec()),
        failed(Error::PrematureEof, &[Place::Summary])
    );
    let mut wrong = asset.header.clone();
    wrong.summary.preload_dependency_offset = REGISTRY_OFFSET - 1;
    assert_eq!(
        AssetHeader::read(wrong.write().unwrap()),
        failed(Error::BadOffsets, &[Place::AssetRegistry])
    );
    let mut rdr = ByteReader::new(vec![1, 2, 3]);
    let mut s = summary("None");
    s.depends_offset = 0;
    s.asset_registry_data_offset = 2;
    s.preload_dependency_offset = 3;
    let depends = Depends::read(&mut rdr, &s).unwrap();
    assert_eq!(depends.data, vec![1, 2]);
    assert_eq!(depends.byte_size(), 2);
    let registry = AssetRegistry::read(&mut rdr, &s).unwrap();
    assert_eq!(registry.data, vec![3]);
    assert_eq!(registry.byte_size(), 1);
    let mut out = vec![];
    depends.write(&mut out);
    registry.write(&mut out);
    assert_eq!(out, vec![1, 2, 3]);
}

#[test]
fn the_body_file_ends_with_the_tag_of_the_summary() {
    let asset = asset();
    let (_, uexp) = asset.write(&patterns()).unwrap();
    let mut wrong = uexp.clone();
    let last = wrong.len() - 1;
    wrong[last] ^= 1;
    assert_eq!(
        AssetExports::read(&asset.header, wrong, &patterns()),
        failed(Error::BadTrailer, &[Place::Trailer])
    );
    assert_eq!(
        AssetExports::read(&asset.header, uexp[..uexp.len() - 1].to_vec(), &patterns()),
        failed(Error::PrematureEof, &[Place::Trailer])
    );
    assert_eq!(AssetExports::read(&asset.header, uexp, &patterns()), Ok(bags()));
}

#[test]
fn recalculation_needs_a_bag_for_each_export() {
    let mut asset = Asset::new(header(), AssetExports { structs: vec![] });
    let before = Asset::new(header(), AssetExports { structs: vec![] });
    assert_eq!(asset.recalculate_offsets(), Err(Error::BagCount));
    assert_eq!(asset, before);
}

#[test]
fn a_header_alone_moves_what_lies_behind_it() {
    let mut h = asset().header;
    h.names.add("OneMoreName");
    h.dependencies.dependencies.push(Reference::UObject);
    let growth = (4 + 11 + 1 + 4) + 4;
    assert_eq!(h.recalculate_offsets(), Ok(()));
    assert_eq!(h.summary.name_count, 9);
    assert_eq!(h.summary.preload_dependency_count, 3);
    assert_eq!(h.summary.name_offset, NAME_OFFSET);
    assert_eq!(h.summary.import_offset, IMPORT_OFFSET + 20);
    assert_eq!(h.summary.preload_dependency_offset, PRELOAD_OFFSET + 20);
    assert_eq!(h.summary.total_header_size, HEADER_SIZE + growth);
    assert_eq!(h.summary.bulk_data_start_offset, HEADER_SIZE + FIRST_BAG + SECOND_BAG + growth);
    assert_eq!(h.exports.exports[0].serial_offset, HEADER_SIZE + growth);
    assert_eq!(h.exports.exports[1].serial_offset, HEADER_SIZE + FIRST_BAG + growth);
    assert_eq!(h.exports.exports[1].export_file_offset, FIRST_BAG as u64);
    assert_eq!(h.summary.generations, vec![Generation { export_count: 2, name_count: 9 }]);
    // a header that cannot shrink below nothing is left as it is
    let mut odd = header();
    odd.summary.total_header_size = u32::MAX;
    let before = odd.clone();
    assert_eq!(odd.recalculate_offsets(), Err(Error::TooLong));
    assert_eq!(odd, before);
}

#[test]
fn round_trips_fail_at_the_first_difference() {
    assert_eq!(compare_bytes(&[1, 2, 3], &[1, 2, 3]), Ok(()));
    assert_eq!(compare_bytes(&[], &[]), Ok(()));
    assert_eq!(compare_bytes(&[1, 2, 3], &[1, 9, 3]), Err(Error::RoundTripInequality { offset: 1 }));
    assert_eq!(compare_bytes(&[1, 2, 3], &[1, 2]), Err(Error::RoundTripInequality { offset: 2 }));
    assert_eq!(compare_bytes(&[1], &[1, 2, 9]), Err(Error::RoundTripInequality { offset: 1 }));
    assert_eq!(compare_bytes(&[5, 6], &[7, 6, 1]), Err(Error::RoundTripInequality { offset: 0 }));
    // a boolean that is stored as 2 is written as 1
    let asset = asset();
    let (uasset, mut uexp) = asset.write(&patterns()).unwrap();
    let tag_of_flag = (24 + 1 + 4) + 24;
    assert_eq!(uexp[tag_of_flag], 1);
    uexp[tag_of_flag] = 2;
    assert_eq!(
        Asset::test_rw(uasset.clone(), uexp, &patterns()),
        failed(Error::RoundTripInequality { offset: tag_of_flag as u64 }, &[Place::Body])
    );
    assert_eq!(
        Asset::test_rw(vec![], vec![], &patterns()),
        failed(Error::PrematureEof, &[Place::Header, Place::Summary])
    );
}

#[test]
fn a_failure_names_the_part_that_could_not_be_read() {
    let asset = asset();
    let (uasset, uexp) = asset.write(&patterns()).unwrap();
    // the second bag is cut short: the file ends within it
    let first = asset.header.exports.exports[0].serial_size as usize;
    let cut = uexp[..first + 3].to_vec();
    let start = Place::Property(first as u64);
    assert_eq!(
        AssetExports::read(&asset.header, cut.clone(), &patterns()),
        failed(Error::PrematureEof, &[Place::Bag(1), start, Place::Meta])
    );
    assert_eq!(
        Asset::read(uasset.clone(), cut.clone(), &patterns()),
        failed(Error::PrematureEof, &[Place::Body, Place::Bag(1), start, Place::Meta])
    );
    assert_eq!(
        Asset::test_rw(uasset.clone(), cut, &patterns()),
        failed(Error::PrematureEof, &[Place::Body, Place::Bag(1), start, Place::Meta])
    );
    assert_eq!(
        AssetExports::read(&asset.header, vec![], &patterns()).map_err(|f| f.trail),
        Err(vec![Place::Bag(0), Place::Property(0), Place::Meta])
    );
    // the second property of the first bag is cut short
    assert_eq!(
        AssetExports::read(&asset.header, uexp[..31].to_vec(), &patterns()),
        failed(Error::PrematureEof, &[Place::Bag(0), Place::Property(29), Place::Meta])
    );
    // the import table ends within its only entry
    assert_eq!(
        AssetHeader::read(uasset[..IMPORT_OFFSET as usize + 5].to_vec()),
        failed(Error::PrematureEof, &[Place::Imports, Place::Entry(IMPORT_OFFSET as u64)])
    );
    // the export table ends within its second entry
    assert_eq!(
        AssetHeader::read(uasset[..EXPORT_OFFSET as usize + 110].to_vec()),
        failed(Error::PrematureEof, &[Place::Exports, Place::Entry(EXPORT_OFFSET as u64 + 104)])
    );
    // a header that ends within the name table
    assert_eq!(
        Asset::read(uasset[..NAME_OFFSET as usize + 2].to_vec(), uexp.clone(), &patterns())
            .map_err(|f| f.trail),
        Err(vec![Place::Header, Place::Names])
    );
    // a name that cannot be written: the header file is not written
    let mut odd = self::asset();
    odd.header.imports.objects[0].name = NameVariant { name_idx: 1000, variant: 0 };
    assert_eq!(
        odd.write(&patterns()),
        failed(Error::MissingName, &[Place::Header, Place::Imports])
    );
    assert_eq!(odd.header.write(), failed(Error::MissingName, &[Place::Imports]));
    let mut odd = self::asset();
    odd.header.exports.exports[1].object_name = NameVariant { name_idx: 1000, variant: 0 };
    assert_eq!(odd.header.write(), failed(Error::MissingName, &[Place::Exports]));
    // a property of the second bag whose name cannot be written
    let mut odd = self::asset();
    odd.exports.structs[1].properties[0].meta.name = NameVariant { name_idx: 1000, variant: 0 };
    assert_eq!(
        odd.exports.write(&odd.header, &patterns()),
        failed(Error::MissingName, &[Place::Bag(1), Place::Member(0), Place::Meta])
    );
    assert_eq!(
        odd.write(&patterns()),
        failed(Error::MissingName, &[Place::Body, Place::Bag(1), Place::Member(0), Place::Meta])
    );
    let f = Failure::at(Error::MissingName, Place::Bag(2)).within(Place::Body);
    assert_eq!(f, Failure { error: Error::MissingName, trail: vec![Place::Body, Place::Bag(2)] });
}

#[test]
fn struct_types_without_a_pattern_are_listed_once() {
    let vector = |guid: u8| Tag::Struct { struct_type: name("Thing"), guid: [guid; 16] };
    let inner = Property {
        meta: Meta::new(name("Count"), PropType::StructProperty, 0),
        tag: Tag::Struct { struct_type: NameVariant { name_idx: 1, variant: 3 }, guid: [0; 16] },
        value: Value::Struct { value: StructValue::Binary { bytes: vec![] } },
    };
    let outer = Property {
        meta: Meta::new(name("Other"), PropType::StructProperty, 0),
        tag: Tag::Struct { struct_type: name("Class"), guid: [0; 16] },
        value: Value::Struct {
            value: StructValue::BinaryProperties {
                entries: vec![
                    ("a".to_string(), StructValue::Int { size: 1, value: 0 }),
                    (
                        "b".to_string(),
                        StructValue::PropertyList { properties: vec![inner], has_none: true },
                    ),
                ],
            },
        },
    };
    let array = Property {
        meta: Meta::new(name("Count"), PropType::ArrayProperty, 0),
        tag: Tag::Array { inner_type: PropType::StructProperty },
        value: Value::Array {
            meta_tag: Some((Meta::new(name("Count"), PropType::StructProperty, 0), vector(1))),
            values: vec![
                Value::Struct { value: StructValue::Binary { bytes: vec![1] } },
                Value::Int(3),
            ],
        },
    };
    let unknown = Property {
        meta: Meta::new(name("Count"), PropType::StructProperty, 0),
        tag: Tag::Struct { struct_type: NameVariant { name_idx: 99, variant: 0 }, guid: [0; 16] },
        value: Value::Struct { value: StructValue::Binary { bytes: vec![] } },
    };
    let exports = AssetExports {
        structs: vec![
            Properties {
                properties: vec![count_property(1), outer],
                ends_with_none: true,
                extra: vec![],
            },
            Properties { properties: vec![array, unknown], ends_with_none: true, extra: vec![] },
        ],
    };
    let asset = Asset::new(header(), exports);
    let first = NameVariant { name_idx: 1, variant: 3 };
    let types = asset.struct_types();
    assert_eq!(
        types,
        vec![name("Class"), first, name("Thing"), NameVariant { name_idx: 99, variant: 0 }]
    );
    let mut twice = types.clone();
    twice.extend(types.iter());
    let none = StructPatterns::new(StructPattern::PropertyList, vec![]);
    assert_eq!(
        none.unlisted(&twice, asset.names()),
        vec!["Class".to_string(), first.to_string(asset.names()), "Thing".to_string()]
    );
    let some = StructPatterns::new(
        StructPattern::PropertyList,
        vec![("Class".to_string(), StructPattern::Binary { size: 1 })],
    );
    assert_eq!(
        some.unlisted(&twice, asset.names()),
        vec![first.to_string(asset.names()), "Thing".to_string()]
    );
    assert_eq!(some.unlisted(&vec![], asset.names()), Vec::<String>::new());
}
