use drg::asset::exports::Export;
use drg::asset::exports::Exports;
use drg::asset::file_summary::FileSummary;
use drg::asset::imports::Import;
use drg::asset::imports::Imports;
use drg::asset::name_map::NameMap;
use drg::asset::name_map::NameVariant;
use drg::asset::preload_dependencies::PreloadDependencies;
use drg::asset::reference::Reference;
use drg::error::Error;
use drg::error::Failure;
use drg::error::Place;
use drg::reader::ByteReader;

fn table(names: &[&str]) -> NameMap {
    let mut map = NameMap { names: vec![] };
    for n in names {
        map.add(n);
    }
    map
}

fn nv(idx: usize, variant: u32) -> NameVariant {
    NameVariant { name_idx: idx, variant }
}

fn blank_summary() -> FileSummary {
    FileSummary {
        tag: [0xC1, 0x83, 0x2A, 0x9E],
        file_version_ue4: 0,
        file_version_license_ue4: 0,
        custom_version: [0; 12],
        total_header_size: 0,
        package_flags: 0,
        folder_name: "None".to_string(),
        name_count: 0,
        name_offset: 0,
        gatherable_text_data_count: 0,
        gatherable_text_data_offset: 0,
        export_count: 0,
        export_offset: 0,
        import_count: 0,
        import_offset: 0,
        depends_offset: 0,
        soft_package_references_count: 0,
        soft_package_references_offset: 0,
        searchable_names_offset: 0,
        thumbnail_table_offset: 0,
        guid: [0; 16],
        generations: vec![],
        saved_by_engine_version: [0; 16],
        compatible_with_engine_version: [0; 16],
        compression_flags: 0,
        package_source: 0,
        asset_registry_data_offset: 0,
        bulk_data_start_offset: 0,
        world_tile_info_data_offset: 0,
        chunk_ids: 0,
        preload_dependency_count: 0,
        preload_dependency_offset: 0,
    }
}

fn import(name: NameVariant, outer_index: i32) -> Import {
    Import { class_package: nv(0, 0), class: nv(1, 0), outer_index, name }
}

fn export(object_name: NameVariant, serial_size: u64) -> Export {
    Export {
        class: 0x11,
        super_index: -2,
        template: 0x33,
        outer: 4,
        object_name,
        object_flags: 0x55,
        serial_size,
        serial_offset: 0x77,
        export_file_offset: 0,
        forced_export: true,
        not_for_client: false,
        not_for_server: true,
        was_filtered: false,
        package_guid: [9; 16],
        package_flags: 0x88,
        not_always_loaded_for_editor_game: true,
        is_asset: false,
        first_export_dependency: 1,
        serialization_before_serialization_dependencies: 2,
        create_before_serialization_dependencies: 3,
        serialization_before_create_dependencies: 4,
        create_before_create_dependencies: 5,
    }
}

#[test]
fn an_import_is_28_bytes() {
    let names = table(&["P", "C", "X"]);
    let object = Import { class_package: nv(0, 0), class: nv(1, 2), outer_index: -3, name: nv(2, 1) };
    let mut out = vec![];
    assert_eq!(object.write(&mut out, &names), Ok(()));
    assert_eq!(
        out,
        vec![
            0, 0, 0, 0, 0, 0, 0, 0, 1, 0, 0, 0, 2, 0, 0, 0, 0xFD, 0xFF, 0xFF, 0xFF, 2, 0, 0, 0, 1,
            0, 0, 0
        ]
    );
    let mut rdr = ByteReader::new(out);
    assert_eq!(Import::read(&mut rdr, &names), Ok(object));
    assert_eq!(rdr.position(), 28);
}

#[test]
fn imports_are_read_where_the_summary_says() {
    let names = table(&["P", "C", "X", "Y"]);
    let imports = Imports { objects: vec![import(nv(2, 0), 0), import(nv(3, 0), -1)] };
    assert_eq!(imports.byte_size(), 56);
    let mut bytes = vec![];
    assert_eq!(imports.write(&mut bytes, &names), Ok(()));
    assert_eq!(bytes.len(), 56);

    let mut summary = blank_summary();
    summary.import_count = 2;
    summary.import_offset = 0;
    let mut rdr = ByteReader::new(bytes.clone());
    assert_eq!(Imports::read(&mut rdr, &summary, &names), Ok(imports.clone()));

    summary.import_offset = 4;
    let mut rdr = ByteReader::new(bytes.clone());
    assert_eq!(
        Imports::read(&mut rdr, &summary, &names),
        Err(Failure::plain(Error::PositionMismatch { expected: 4, actual: 0 }))
    );
    assert_eq!(rdr.position(), 0);
    summary.import_offset = 0;
    summary.import_count = 3;
    let mut rdr = ByteReader::new(bytes.clone());
    assert_eq!(
        Imports::read(&mut rdr, &summary, &names),
        Err(Failure::at(Error::PrematureEof, Place::Entry(56)))
    );
    // a name index outside a smaller table
    summary.import_count = 2;
    let mut rdr = ByteReader::new(bytes);
    assert_eq!(
        Imports::read(&mut rdr, &summary, &table(&["P", "C", "X"])).map_err(|f| f.error),
        Err(Error::IndexOutOfRange)
    );
    // an import that names nothing cannot be written
    let mut out = vec![];
    assert_eq!(imports.write(&mut out, &table(&["P", "C", "X"])), Err(Error::MissingName));
}

#[test]
fn imports_are_numbered_downwards_from_minus_one() {
    let mut imports = Imports { objects: vec![import(nv(2, 0), 0), import(nv(3, 0), -1)] };
    assert_eq!(imports.index_of(&nv(2, 0)), Some(-1));
    assert_eq!(imports.index_of(&nv(3, 0)), Some(-2));
    assert_eq!(imports.index_of(&nv(3, 1)), None);
    assert_eq!(imports.serialized_index_of(&nv(3, 0)), Some(0xFFFF_FFFE));
    assert_eq!(imports.serialized_index_of(&nv(9, 0)), None);
    assert_eq!(imports.lookup(1).map(|i| i.name), Ok(nv(3, 0)));
    assert_eq!(imports.lookup(2), Err(Error::IndexOutOfRange));

    // a new name is added behind the others
    assert_eq!(imports.add(nv(0, 0), nv(1, 0), nv(4, 0), -2), -3);
    assert_eq!(imports.objects.len(), 3);
    assert_eq!(
        imports.objects[2],
        Import { class_package: nv(0, 0), class: nv(1, 0), outer_index: -2, name: nv(4, 0) }
    );
    // a name that is imported already keeps its number
    assert_eq!(imports.add(nv(1, 0), nv(0, 0), nv(3, 0), 0), -2);
    assert_eq!(imports.objects.len(), 3);
    assert_eq!(imports.objects[1], import(nv(3, 0), -1));
}

#[test]
fn an_export_is_104_bytes() {
    let names = table(&["A", "B"]);
    let object = export(nv(1, 6), 0x0102030405060708);
    let mut out = vec![];
    assert_eq!(object.write(&mut out, &names), Ok(()));
    let mut want = vec![0x11, 0, 0, 0, 0xFE, 0xFF, 0xFF, 0xFF, 0x33, 0, 0, 0, 4, 0, 0, 0];
    want.extend([1, 0, 0, 0, 6, 0, 0, 0]);
    want.extend([0x55, 0, 0, 0]);
    want.extend([8, 7, 6, 5, 4, 3, 2, 1]);
    want.extend([0x77, 0, 0, 0]);
    want.extend([1, 0, 0, 0, 0, 0, 0, 0, 1, 0, 0, 0, 0, 0, 0, 0]);
    want.extend([9; 16]);
    want.extend([0x88, 0, 0, 0]);
    want.extend([1, 0, 0, 0, 0, 0, 0, 0]);
    want.extend([1, 0, 0, 0, 2, 0, 0, 0, 3, 0, 0, 0, 4, 0, 0, 0, 5, 0, 0, 0]);
    assert_eq!(want.len(), 104);
    assert_eq!(out, want);
    let mut rdr = ByteReader::new(out);
    assert_eq!(Export::read(&mut rdr, &names), Ok(object));
    assert_eq!(rdr.position(), 104);
}

#[test]
fn exports_get_their_place_in_the_body_file_when_read() {
    let names = table(&["A", "B", "C"]);
    let mut first = export(nv(0, 0), 10);
    let mut second = export(nv(1, 0), 25);
    let mut third = export(nv(2, 0), 7);
    // what is stored for the place is nothing: the place is a running sum
    first.export_file_offset = 999;
    let written = Exports { exports: vec![first, second, third] };
    assert_eq!(written.byte_size(), 312);
    let mut bytes = vec![0; 2];
    assert_eq!(written.write(&mut bytes, &names), Ok(()));
    assert_eq!(bytes.len(), 2 + 312);

    let mut summary = blank_summary();
    summary.export_count = 3;
    summary.export_offset = 2;
    let mut rdr = ByteReader::new(bytes.clone());
    assert_eq!(rdr.take(2).map(|b| b.len()), Ok(2));
    first.export_file_offset = 0;
    second.export_file_offset = 10;
    third.export_file_offset = 35;
    assert_eq!(
        Exports::read(&mut rdr, &summary, &names),
        Ok(Exports { exports: vec![first, second, third] })
    );

    let mut rdr = ByteReader::new(bytes.clone());
    assert_eq!(
        Exports::read(&mut rdr, &summary, &names),
        Err(Failure::plain(Error::PositionMismatch { expected: 2, actual: 0 }))
    );
    assert_eq!(rdr.position(), 0);
    summary.export_count = 4;
    let mut rdr = ByteReader::new(bytes);
    assert_eq!(rdr.take(2).map(|b| b.len()), Ok(2));
    assert_eq!(
        Exports::read(&mut rdr, &summary, &names),
        Err(Failure::at(Error::PrematureEof, Place::Entry(2 + 3 * 104)))
    );
}

#[test]
fn sizes_of_exports_that_leave_64_bits_are_refused() {
    let names = table(&["A"]);
    let written = Exports {
        exports: vec![export(nv(0, 0), u64::MAX), export(nv(0, 0), 1), export(nv(0, 0), 0)],
    };
    let mut bytes = vec![];
    assert_eq!(written.write(&mut bytes, &names), Ok(()));
    let mut summary = blank_summary();
    summary.export_count = 3;
    let mut rdr = ByteReader::new(bytes.clone());
    assert_eq!(
        Exports::read(&mut rdr, &summary, &names),
        Err(Failure::at(Error::TooLong, Place::Entry(2 * 104)))
    );
    // the size of the last export is not added to anything
    summary.export_count = 2;
    let mut rdr = ByteReader::new(bytes);
    assert_eq!(Exports::read(&mut rdr, &summary, &names).map(|e| e.exports.len()).ok(), Some(2));
}

#[test]
fn exports_are_numbered_upwards_from_one() {
    let exports = Exports { exports: vec![export(nv(2, 0), 1), export(nv(3, 0), 1)] };
    assert_eq!(exports.serialized_index_of(&nv(2, 0)), Some(1));
    assert_eq!(exports.serialized_index_of(&nv(3, 0)), Some(2));
    assert_eq!(exports.serialized_index_of(&nv(3, 5)), None);
    assert_eq!(exports.lookup(0).map(|e| e.object_name), Ok(nv(2, 0)));
    assert_eq!(exports.lookup(2), Err(Error::IndexOutOfRange));
}

#[test]
fn a_reference_is_one_signed_number() {
    let names = table(&["P", "C", "X", "Y", "Z"]);
    let imports = Imports { objects: vec![import(nv(2, 0), 0), import(nv(3, 0), -1)] };
    let exports = Exports { exports: vec![export(nv(4, 0), 1), export(nv(4, 1), 1)] };

    assert_eq!(Reference::uobject().serialize(&imports, &exports), 0);
    assert_eq!(Reference::import(nv(2, 0)).serialize(&imports, &exports), -1);
    assert_eq!(Reference::import(nv(3, 0)).serialize(&imports, &exports), -2);
    assert_eq!(Reference::export(nv(4, 0)).serialize(&imports, &exports), 1);
    assert_eq!(Reference::export(nv(4, 1)).serialize(&imports, &exports), 2);
    assert_eq!(Reference::export(nv(2, 0)).try_serialize(&imports, &exports), None);
    assert_eq!(Reference::import(nv(4, 0)).try_serialize(&imports, &exports), None);

    assert_eq!(Reference::deserialize(0, &imports, &exports), Ok(Reference::UObject));
    assert_eq!(Reference::deserialize(-2, &imports, &exports), Ok(Reference::Import(nv(3, 0))));
    assert_eq!(Reference::deserialize(2, &imports, &exports), Ok(Reference::Export(nv(4, 1))));
    assert_eq!(Reference::deserialize(-3, &imports, &exports), Err(Error::IndexOutOfRange));
    assert_eq!(Reference::deserialize(3, &imports, &exports), Err(Error::IndexOutOfRange));
    assert_eq!(Reference::deserialize(i32::MIN, &imports, &exports), Err(Error::IndexOutOfRange));
    assert_eq!(Reference::deserialize(i32::MAX, &imports, &exports), Err(Error::IndexOutOfRange));

    // decoding undoes encoding
    for r in [
        Reference::UObject,
        Reference::Import(nv(2, 0)),
        Reference::Import(nv(3, 0)),
        Reference::Export(nv(4, 0)),
        Reference::Export(nv(4, 1)),
    ] {
        let idx = r.serialize(&imports, &exports);
        assert_eq!(Reference::deserialize(idx, &imports, &exports), Ok(r));
    }

    let mut out = vec![];
    assert_eq!(Reference::Import(nv(3, 0)).write(&mut out, &names, &imports, &exports), Ok(()));
    assert_eq!(Reference::Export(nv(4, 0)).write(&mut out, &names, &imports, &exports), Ok(()));
    assert_eq!(out, vec![0xFE, 0xFF, 0xFF, 0xFF, 1, 0, 0, 0]);
    assert_eq!(
        Reference::Import(nv(0, 0)).write(&mut out, &names, &imports, &exports),
        Err(Error::MissingName)
    );
    assert_eq!(out.len(), 8);
    let mut rdr = ByteReader::new(out);
    assert_eq!(Reference::read(&mut rdr, &imports, &exports), Ok(Reference::Import(nv(3, 0))));
    assert_eq!(Reference::read(&mut rdr, &imports, &exports), Ok(Reference::Export(nv(4, 0))));
    assert_eq!(Reference::read(&mut rdr, &imports, &exports), Err(Error::PrematureEof));

    assert_eq!(Reference::UObject.to_string(&names), "UObject");
    assert_eq!(Reference::Import(nv(3, 0)).to_string(&names), "Import Y");
    assert_eq!(Reference::Export(nv(4, 12)).to_string(&names), "Export Z_12");
}

#[test]
fn preload_dependencies_are_a_list_of_references() {
    let names = table(&["P", "C", "X", "Y", "Z"]);
    let imports = Imports { objects: vec![import(nv(2, 0), 0), import(nv(3, 0), -1)] };
    let exports = Exports { exports: vec![export(nv(4, 0), 1)] };
    let deps = PreloadDependencies {
        dependencies: vec![
            Reference::Import(nv(3, 0)),
            Reference::UObject,
            Reference::Export(nv(4, 0)),
        ],
    };
    assert_eq!(deps.byte_size(), 12);
    let mut bytes = vec![0];
    assert_eq!(deps.write(&mut bytes, &names, &imports, &exports), Ok(()));
    assert_eq!(bytes, vec![0, 0xFE, 0xFF, 0xFF, 0xFF, 0, 0, 0, 0, 1, 0, 0, 0]);

    let mut summary = blank_summary();
    summary.preload_dependency_offset = 1;
    summary.preload_dependency_count = 3;
    let mut rdr = ByteReader::new(bytes.clone());
    assert_eq!(rdr.take(1).map(|b| b.len()), Ok(1));
    assert_eq!(PreloadDependencies::read(&mut rdr, &summary, &imports, &exports), Ok(deps));
    let mut rdr = ByteReader::new(bytes.clone());
    assert_eq!(
        PreloadDependencies::read(&mut rdr, &summary, &imports, &exports),
        Err(Error::PositionMismatch { expected: 1, actual: 0 })
    );
    let none = Imports { objects: vec![] };
    let mut rdr = ByteReader::new(bytes);
    assert_eq!(rdr.take(1).map(|b| b.len()), Ok(1));
    assert_eq!(
        PreloadDependencies::read(&mut rdr, &summary, &none, &exports),
        Err(Error::IndexOutOfRange)
    );
    let unknown = PreloadDependencies { dependencies: vec![Reference::Import(nv(0, 0))] };
    let mut out = vec![];
    assert_eq!(unknown.write(&mut out, &names, &imports, &exports), Err(Error::MissingName));
}
