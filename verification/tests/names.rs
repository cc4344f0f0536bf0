use drg::asset::file_summary::FileSummary;
use drg::asset::name_map::Name;
use drg::asset::name_map::NameMap;
use drg::asset::name_map::NameVariant;
use drg::error::Error;
use drg::reader::ByteReader;

fn table(names: &[&str]) -> NameMap {
    let mut map = NameMap { names: vec![] };
    for n in names {
        map.add(n);
    }
    map
}

fn summary_with_names(count: u32, offset: u32) -> FileSummary {
    FileSummary {
        tag: [0xC1, 0x83, 0x2A, 0x9E],
        file_version_ue4: 0,
        file_version_license_ue4: 0,
        custom_version: [0; 12],
        total_header_size: 0,
        package_flags: 0,
        folder_name: "None".to_string(),
        name_count: count,
        name_offset: offset,
        gatherable_text_data_count: 0,
        gatherable_text_data_offset: 0,
        export_count: 0,
        export_offset: 0,
        import_count: 0,
        import_offset: 0,
        depends_offset: 0,
        soft_package_references_count: 0,
        soft_package_references_offset: 0,
        searchable_names_offset: 0,
        thumbnail_table_offset: 0,
        guid: [0; 16],
        generations: vec![],
        saved_by_engine_version: [0; 16],
        compatible_with_engine_version: [0; 16],
        compression_flags: 0,
        package_source: 0,
        asset_registry_data_offset: 0,
        bulk_data_start_offset: 0,
        world_tile_info_data_offset: 0,
        chunk_ids: 0,
        preload_dependency_count: 0,
        preload_dependency_offset: 0,
    }
}

#[test]
fn adding_a_name_twice_is_a_no_op() {
    let mut map = NameMap { names: vec![] };
    assert!(map.add("X"));
    assert!(map.add("Y"));
    assert!(!map.add("X"));
    assert_eq!(map.names.len(), 2);
    assert_eq!(map.names[0].name, "X");
    assert_eq!(map.names[0].index, 0);
    assert_eq!(map.names[1].name, "Y");
    assert_eq!(map.names[1].index, 1);
    assert_eq!(map.names[1].non_case_preserving_hash, 0);
    assert_eq!(map.names[1].case_preserving_hash, 0);
}

#[test]
fn names_are_found_by_spelling_and_by_index() {
    let map = table(&["A", "B", "C"]);
    assert_eq!(map.find("B"), Some(1));
    assert_eq!(map.find("b"), None);
    assert_eq!(map.expect("C"), 2);
    assert_eq!(map.get_name_obj("A").map(|n| n.index), Some(0));
    assert_eq!(map.get_name_obj("D"), None);
    assert_eq!(map.lookup(2).map(|n| n.name.clone()), Ok("C".to_string()));
    // the index right behind the table is out of range, too
    assert_eq!(map.lookup(3), Err(Error::IndexOutOfRange));
    assert_eq!(map.lookup(u32::MAX), Err(Error::IndexOutOfRange));
}

#[test]
fn a_surface_text_splits_on_its_last_underscore() {
    let map = table(&["X", "A_B", "Y_7"]);
    assert_eq!(NameVariant::parse("X_3", &map), NameVariant { name_idx: 0, variant: 3 });
    assert_eq!(NameVariant::parse("X", &map), NameVariant { name_idx: 0, variant: 0 });
    assert_eq!(NameVariant::parse("A_B_12", &map), NameVariant { name_idx: 1, variant: 12 });
    assert_eq!(NameVariant::parse("A_B", &map), NameVariant { name_idx: 1, variant: 0 });
    // a sign and leading zeros are read as numbers are
    assert_eq!(NameVariant::parse("X_+4", &map), NameVariant { name_idx: 0, variant: 4 });
    assert_eq!(NameVariant::parse("X_007", &map), NameVariant { name_idx: 0, variant: 7 });
    assert_eq!(
        NameVariant::parse("X_4294967295", &map),
        NameVariant { name_idx: 0, variant: u32::MAX }
    );
    // "Y" is no name of the table, so the whole text is the name
    assert_eq!(NameVariant::parse("Y_7", &map), NameVariant { name_idx: 2, variant: 0 });
}

#[test]
fn a_text_that_names_nothing_does_not_parse() {
    let map = table(&["X"]);
    assert_eq!(NameVariant::try_parse("Z", &map), None);
    assert_eq!(NameVariant::try_parse("Z_1", &map), None);
    // too large for a variant, and no name of that spelling
    assert_eq!(NameVariant::try_parse("X_4294967296", &map), None);
    assert_eq!(NameVariant::try_parse("X_", &map), None);
    assert_eq!(NameVariant::try_parse("X_-1", &map), None);
    assert_eq!(NameVariant::try_parse("X_1a", &map), None);
    assert_eq!(NameVariant::try_parse("", &map), None);
    assert_eq!(NameVariant::try_parse("X_2", &map), Some(NameVariant { name_idx: 0, variant: 2 }));
}

#[test]
fn parse_and_add_inserts_the_base_name() {
    let mut map = table(&["X"]);
    assert_eq!(NameVariant::parse_and_add("X_3", &mut map), NameVariant { name_idx: 0, variant: 3 });
    assert_eq!(map.names.len(), 1);
    assert_eq!(NameVariant::parse_and_add("Q_5", &mut map), NameVariant { name_idx: 1, variant: 5 });
    assert_eq!(map.names[1].name, "Q");
    assert_eq!(
        NameVariant::parse_and_add("Plain", &mut map),
        NameVariant { name_idx: 2, variant: 0 }
    );
    assert_eq!(
        NameVariant::parse_and_add("With_Tail", &mut map),
        NameVariant { name_idx: 3, variant: 0 }
    );
    assert_eq!(map.names[3].name, "With_Tail");
    assert_eq!(map.names.len(), 4);
}

#[test]
fn a_name_reference_prints_with_its_variant() {
    let map = table(&["X", "None"]);
    assert_eq!(NameVariant { name_idx: 0, variant: 0 }.to_string(&map), "X");
    assert_eq!(NameVariant { name_idx: 0, variant: 3 }.to_string(&map), "X_3");
    assert_eq!(NameVariant { name_idx: 0, variant: 10 }.to_string(&map), "X_10");
    assert_eq!(NameVariant { name_idx: 0, variant: 4294967295 }.to_string(&map), "X_4294967295");
    assert_eq!(NameVariant { name_idx: 1, variant: 120 }.to_string(&map), "None_120");
    assert!(NameVariant { name_idx: 1, variant: 0 }.is("None", &map));
    assert!(!NameVariant { name_idx: 1, variant: 1 }.is("None", &map));
    assert!(!NameVariant { name_idx: 0, variant: 0 }.is("None", &map));
    assert_eq!(NameVariant::new("None", 9, &map), NameVariant { name_idx: 1, variant: 9 });
}

#[test]
fn reading_undoes_printing_of_a_name_reference() {
    let map = table(&["Alpha", "Beta", "Gamma_Ray"]);
    for (idx, variant) in [(0usize, 0u32), (0, 1), (1, 42), (2, 0), (2, 9), (1, u32::MAX)] {
        let n = NameVariant { name_idx: idx, variant };
        assert_eq!(NameVariant::parse(&n.to_string(&map), &map), n);
    }
}

#[test]
fn a_name_reference_is_two_numbers() {
    let map = table(&["A", "B"]);
    let mut out = vec![];
    assert_eq!(NameVariant { name_idx: 1, variant: 7 }.write(&mut out, &map), Ok(()));
    assert_eq!(out, vec![1, 0, 0, 0, 7, 0, 0, 0]);
    let mut rdr = ByteReader::new(out);
    assert_eq!(NameVariant::read(&mut rdr, &map), Ok(NameVariant { name_idx: 1, variant: 7 }));
    assert_eq!(rdr.position(), 8);
}

#[test]
fn a_name_reference_outside_the_table_is_refused() {
    let map = table(&["A", "B"]);
    let mut out = vec![0xEE];
    assert_eq!(
        NameVariant { name_idx: 2, variant: 0 }.write(&mut out, &map),
        Err(Error::MissingName)
    );
    assert_eq!(out, vec![0xEE]);
    let mut rdr = ByteReader::new(vec![2, 0, 0, 0, 0, 0, 0, 0]);
    assert_eq!(NameVariant::read(&mut rdr, &map), Err(Error::IndexOutOfRange));
    let mut rdr = ByteReader::new(vec![1, 0, 0, 0, 0, 0]);
    assert_eq!(NameVariant::read(&mut rdr, &map), Err(Error::PrematureEof));
    let mut rdr = ByteReader::new(vec![1, 0]);
    assert_eq!(NameVariant::read(&mut rdr, &map), Err(Error::PrematureEof));
}

#[test]
fn a_name_is_its_string_and_two_hashes() {
    let name = Name {
        index: 5,
        name: "Ab".to_string(),
        non_case_preserving_hash: 0x0102,
        case_preserving_hash: 0x0304,
    };
    let mut out = vec![];
    assert_eq!(name.write(&mut out), Ok(()));
    assert_eq!(out, vec![3, 0, 0, 0, b'A', b'b', 0, 2, 1, 4, 3]);
    let mut rdr = ByteReader::new(out);
    let read = Name::read(&mut rdr).unwrap();
    // the index is not stored
    assert_eq!(read.index, 0);
    assert_eq!(read.name, "Ab");
    assert_eq!(read.non_case_preserving_hash, 0x0102);
    assert_eq!(read.case_preserving_hash, 0x0304);
    let mut rdr = ByteReader::new(vec![3, 0, 0, 0, b'A', b'b', 0, 2, 1, 4]);
    assert_eq!(Name::read(&mut rdr), Err(Error::PrematureEof));
}

#[test]
fn the_name_table_is_read_where_the_summary_says() {
    let mut map = table(&["None", "IntProperty"]);
    map.names[1].case_preserving_hash = 0xBEEF;
    assert_eq!(map.byte_size(), (4 + 4 + 1 + 4) + (4 + 11 + 1 + 4));
    assert_eq!(map.checked_byte_size(), Some(33));
    let mut bytes = vec![0xFF; 3];
    assert_eq!(map.write(&mut bytes), Ok(()));
    assert_eq!(bytes.len(), 3 + 33);

    let mut rdr = ByteReader::new(bytes.clone());
    assert_eq!(rdr.take(3).map(|b| b.len()), Ok(3));
    assert_eq!(NameMap::read(&mut rdr, &summary_with_names(2, 3)), Ok(map.clone()));
    assert_eq!(rdr.position(), 36);

    // at another place than the summary says
    let mut rdr = ByteReader::new(bytes.clone());
    assert_eq!(
        NameMap::read(&mut rdr, &summary_with_names(2, 3)),
        Err(Error::PositionMismatch { expected: 3, actual: 0 })
    );
    // more names than there are bytes for
    let mut rdr = ByteReader::new(bytes.clone());
    assert_eq!(rdr.take(3).map(|b| b.len()), Ok(3));
    assert_eq!(NameMap::read(&mut rdr, &summary_with_names(3, 3)), Err(Error::PrematureEof));
    // the index of a name and its string
    let mut rdr = ByteReader::new(vec![1, 0, 0, 0, 9, 0, 0, 0]);
    assert_eq!(map.read_name(&mut rdr), Ok("IntProperty".to_string()));
    assert_eq!(map.read_name(&mut rdr), Err(Error::IndexOutOfRange));
    assert_eq!(map.read_name(&mut rdr), Err(Error::PrematureEof));
}
