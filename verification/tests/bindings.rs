use drg::asset::asset_registry::AssetRegistry;
use drg::asset::depends::Depends;
use drg::asset::exports::Export;
use drg::asset::exports::Exports;
use drg::asset::file_summary::FileSummary;
use drg::asset::imports::Import;
use drg::asset::imports::Imports;
use drg::asset::name_map::NameMap;
use drg::asset::name_map::NameVariant;
use drg::asset::preload_dependencies::PreloadDependencies;
use drg::asset::property::bag::Properties;
use drg::asset::property::meta::Meta;
use drg::asset::property::prop_type::PropType;
use drg::asset::property::value::Property;
use drg::asset::property::value::Tag;
use drg::asset::property::value::Value;
use drg::asset::reference::Reference;
use drg::asset::Asset;
use drg::asset::AssetExports;
use drg::asset::AssetHeader;
use drg::bindings::as_property;
use drg::bindings::FromValue;
use drg::error::Error;

fn nv(idx: usize, variant: u32) -> NameVariant {
    NameVariant { name_idx: idx, variant }
}

fn export(object_name: NameVariant) -> Export {
    Export {
        class: 0,
        super_index: 0,
        template: 0,
        outer: 0,
        object_name,
        object_flags: 0,
        serial_size: 0,
        serial_offset: 0,
        export_file_offset: 0,
        forced_export: false,
        not_for_client: false,
        not_for_server: false,
        was_filtered: false,
        package_guid: [0; 16],
        package_flags: 0,
        not_always_loaded_for_editor_game: false,
        is_asset: false,
        first_export_dependency: 0,
        serialization_before_serialization_dependencies: 0,
        create_before_serialization_dependencies: 0,
        serialization_before_create_dependencies: 0,
        create_before_create_dependencies: 0,
    }
}

fn header(names: &[&str]) -> AssetHeader {
    let mut map = NameMap { names: vec![] };
    for n in names {
        map.add(n);
    }
    AssetHeader {
        summary: FileSummary {
            tag: [0; 4],
            file_version_ue4: 0,
            file_version_license_ue4: 0,
            custom_version: [0; 12],
            total_header_size: 0,
            package_flags: 0,
            folder_name: "None".to_string(),
            name_count: 0,
            name_offset: 0,
            gatherable_text_data_count: 0,
            gatherable_text_data_offset: 0,
            export_count: 0,
            export_offset: 0,
            import_count: 0,
            import_offset: 0,
            depends_offset: 0,
            soft_package_references_count: 0,
            soft_package_references_offset: 0,
            searchable_names_offset: 0,
            thumbnail_table_offset: 0,
            guid: [0; 16],
            generations: vec![],
            saved_by_engine_version: [0; 16],
            compatible_with_engine_version: [0; 16],
            compression_flags: 0,
            package_source: 0,
            asset_registry_data_offset: 0,
            bulk_data_start_offset: 0,
            world_tile_info_data_offset: 0,
            chunk_ids: 0,
            preload_dependency_count: 0,
            preload_dependency_offset: 0,
        },
        names: map,
        imports: Imports { objects: vec![] },
        exports: Exports { exports: vec![] },
        depends: Depends { data: vec![] },
        assets: AssetRegistry { data: vec![] },
        dependencies: PreloadDependencies { dependencies: vec![] },
    }
}

#[test]
fn add_an_import() {
    let mut h = header(&["None", "Existing"]);
    h.imports.objects.push(Import {
        class_package: nv(0, 0),
        class: nv(0, 0),
        outer_index: 0,
        name: nv(1, 0),
    });
    assert_eq!(h.import("P", "C", "X", Reference::UObject), Ok(-2));
    let spelled: Vec<&str> = h.names.names.iter().map(|n| n.name.as_str()).collect();
    assert_eq!(spelled, vec!["None", "Existing", "P", "C", "X"]);
    assert_eq!(h.imports.objects.len(), 2);
    assert_eq!(
        h.imports.objects[1],
        Import { class_package: nv(2, 0), class: nv(3, 0), outer_index: 0, name: nv(4, 0) }
    );
    let after_first = h.clone();
    // a second call with the same name changes nothing
    assert_eq!(h.import("P", "C", "X", Reference::UObject), Ok(-2));
    assert_eq!(h, after_first);
    assert_eq!(h.import("Q", "C", "X", Reference::Import(nv(1, 0))), Ok(-2));
    assert_eq!(h.imports, after_first.imports);
    assert_eq!(h.names.names.len(), 6);
    // an import inside another one
    assert_eq!(h.import("P", "C", "Inner_2", Reference::Import(nv(4, 0))), Ok(-3));
    assert_eq!(h.names.names[6].name, "Inner");
    assert_eq!(
        h.imports.objects[2],
        Import { class_package: nv(2, 0), class: nv(3, 0), outer_index: -2, name: nv(6, 2) }
    );
    assert_eq!(h.list_imports().len(), 3);
}

#[test]
fn an_import_needs_an_outer_that_exists() {
    let mut h = header(&["None"]);
    assert_eq!(h.import("P", "C", "X", Reference::Import(nv(0, 0))), Err(Error::MissingName));
    assert_eq!(h.imports.objects.len(), 0);
    // the names were added all the same
    assert_eq!(h.names.names.len(), 4);
    assert_eq!(h.import("P", "C", "X", Reference::Export(nv(0, 0))), Err(Error::MissingName));
    h.exports.exports.push(export(nv(0, 0)));
    assert_eq!(h.import("P", "C", "X", Reference::Export(nv(0, 0))), Ok(-1));
    assert_eq!(h.imports.objects[0].outer_index, 1);
}

#[test]
fn a_preload_dependency_is_added_once() {
    let mut h = header(&["None", "A"]);
    h.preload(Reference::Import(nv(1, 0)));
    h.preload(Reference::UObject);
    h.preload(Reference::Import(nv(1, 0)));
    h.preload(Reference::Import(nv(1, 1)));
    assert_eq!(
        h.dependencies.dependencies,
        vec![Reference::Import(nv(1, 0)), Reference::UObject, Reference::Import(nv(1, 1))]
    );
}

#[test]
fn exports_are_listed_and_found_by_name() {
    let mut h = header(&["None", "First", "Second"]);
    h.exports.exports = vec![export(nv(1, 0)), export(nv(2, 3)), export(nv(2, 0))];
    assert_eq!(h.list_exports(), vec![nv(1, 0), nv(2, 3), nv(2, 0)]);
    let bag = |extra: u8| Properties { properties: vec![], ends_with_none: false, extra: vec![extra] };
    let asset = Asset::new(h, AssetExports { structs: vec![bag(10), bag(11)] });
    assert_eq!(asset.list_exports(), vec![nv(1, 0), nv(2, 3), nv(2, 0)]);
    assert_eq!(asset.list_imports().len(), 0);
    assert_eq!(asset.find_struct("First"), Some(0));
    assert_eq!(asset.find_struct("Second_3"), Some(1));
    assert_eq!(asset.get_struct("Second_3").map(|b| b.extra.clone()), Some(vec![11]));
    // an export without a bag, a name that is not exported, a name that is none
    assert_eq!(asset.find_struct("Second"), None);
    assert_eq!(asset.get_struct("Second"), None);
    assert_eq!(asset.find_struct("None"), None);
    assert_eq!(asset.find_struct("Third"), None);
}

#[test]
fn the_parts_of_an_asset_can_be_changed_in_place() {
    let mut h = header(&["None", "First"]);
    h.exports.exports = vec![export(nv(1, 0))];
    let bag = Properties { properties: vec![], ends_with_none: false, extra: vec![1] };
    let mut asset = Asset::new(h, AssetExports { structs: vec![bag] });
    asset.get_struct_mut("First").unwrap().extra.push(2);
    assert_eq!(asset.get_struct("First").map(|b| b.extra.clone()), Some(vec![1, 2]));
    assert!(asset.get_struct_mut("Second").is_none());
    asset.names_mut().add("Second");
    assert_eq!(asset.names().names.len(), 3);
    asset.summary_mut().package_flags = 9;
    assert_eq!(asset.summary().package_flags, 9);
    asset.imports_mut().add(nv(0, 0), nv(0, 0), nv(2, 0), 0);
    assert_eq!(asset.imports().objects.len(), 1);
    asset.exports_mut().exports.push(export(nv(2, 0)));
    assert_eq!(asset.exports().exports.len(), 2);
    asset.assets_mut().data.push(7);
    assert_eq!(asset.assets().data, vec![7]);
    asset.deps_mut().dependencies.push(Reference::UObject);
    assert_eq!(asset.deps().dependencies, vec![Reference::UObject]);
    asset.structs_mut().push(Properties { properties: vec![], ends_with_none: true, extra: vec![] });
    assert_eq!(asset.structs().len(), 2);
    assert_eq!(asset.get_struct("Second").map(|b| b.ends_with_none), Some(true));
}

#[test]
fn properties_are_set_and_got_by_name() {
    let mut map = NameMap { names: vec![] };
    for n in ["None", "Count", "Label", "Flag", "Target"] {
        map.add(n);
    }
    let mut bag = Properties { properties: vec![], ends_with_none: true, extra: vec![] };
    assert!(bag.set("Count", 5i32, &map));
    assert!(bag.set("Label", "hello".to_string(), &map));
    assert!(bag.set("Flag", true, &map));
    assert!(bag.set("Target", Reference::UObject, &map));
    assert!(bag.set("Count_2", 6i32, &map));
    assert!(!bag.set("Unknown", 1i32, &map));
    assert_eq!(bag.properties.len(), 5);
    assert_eq!(
        bag.properties[0],
        Property {
            meta: Meta::new(nv(1, 0), PropType::IntProperty, 0),
            tag: Tag::Simple(PropType::IntProperty),
            value: Value::Int(5)
        }
    );
    assert_eq!(bag.properties[2].tag, Tag::Bool(true));
    assert_eq!(bag.properties[2].value, Value::Bool);
    // setting again replaces in place
    assert!(bag.set("Count", 9i32, &map));
    assert_eq!(bag.properties.len(), 5);
    assert_eq!(bag.properties[0].value, Value::Int(9));
    assert_eq!(bag.get::<i32>("Count", &map), Some(9));
    assert_eq!(bag.get::<i32>("Count_2", &map), Some(6));
    assert_eq!(bag.get::<String>("Label", &map), Some("hello".to_string()));
    assert_eq!(bag.get::<bool>("Flag", &map), Some(true));
    assert_eq!(bag.get::<Reference>("Target", &map), Some(Reference::UObject));
    // of another kind, not there, not a name
    assert_eq!(bag.get::<i32>("Label", &map), None);
    assert_eq!(bag.get::<i32>("None", &map), None);
    assert_eq!(bag.get::<i32>("Unknown", &map), None);
    assert_eq!(bag.find(nv(3, 0)), Some(2));
    assert_eq!(bag.find(nv(3, 1)), None);
    assert_eq!(bag.get_property(nv(2, 0)).map(|p| p.meta.typ), Some(PropType::StrProperty));
    assert_eq!(Property::try_into::<String>(&bag.properties[1]), Some("hello".to_string()));
    assert_eq!(Property::try_into::<bool>(&bag.properties[1]), None);
    let p = as_property(&7i32, nv(4, 1));
    assert_eq!(p.meta, Meta::new(nv(4, 1), PropType::IntProperty, 0));
    bag.set_property(p);
    assert_eq!(bag.properties.len(), 6);
    assert!(bag.ends_with_none);
}

#[test]
fn a_list_becomes_an_array_property() {
    let list: Vec<i32> = vec![7, 9];
    let p = as_property(&list, nv(0, 0));
    assert_eq!(p.meta, Meta { name: nv(0, 0), typ: PropType::ArrayProperty, size: 0 });
    assert_eq!(p.tag, Tag::Array { inner_type: PropType::IntProperty });
    assert_eq!(p.value, Value::Array { meta_tag: None, values: vec![Value::Int(7), Value::Int(9)] });
    // set by name, and got again
    let mut map = NameMap { names: vec![] };
    map.add("None");
    map.add("Ids");
    let mut bag = Properties { properties: vec![], ends_with_none: true, extra: vec![] };
    assert!(bag.set("Ids", list.clone(), &map));
    assert_eq!(bag.properties[0].tag, Tag::Array { inner_type: PropType::IntProperty });
    assert_eq!(bag.get::<Vec<i32>>("Ids", &map), Some(list));
    assert_eq!(bag.get::<Vec<String>>("Ids", &map), Some(vec![]));
    assert_eq!(bag.get::<i32>("Ids", &map), None);
}

#[test]
fn a_list_of_lists_is_tagged_as_arrays() {
    let list: Vec<Vec<String>> = vec![vec!["a".to_string()], vec![]];
    let p = as_property(&list, nv(1, 2));
    assert_eq!(p.tag, Tag::Array { inner_type: PropType::ArrayProperty });
    assert_eq!(
        p.value,
        Value::Array {
            meta_tag: None,
            values: vec![
                Value::Array { meta_tag: None, values: vec![Value::Str("a".to_string())] },
                Value::Array { meta_tag: None, values: vec![] },
            ],
        }
    );
}

#[test]
fn a_simple_value_has_a_simple_tag() {
    let p = as_property(&Reference::Import(nv(3, 0)), nv(2, 0));
    assert_eq!(p.meta.typ, PropType::ObjectProperty);
    assert_eq!(p.tag, Tag::Simple(PropType::ObjectProperty));
    assert_eq!(p.value, Value::Object(Reference::Import(nv(3, 0))));
    let q = as_property(&"text".to_string(), nv(2, 0));
    assert_eq!(q.meta.typ, PropType::StrProperty);
    assert_eq!(q.tag, Tag::Simple(PropType::StrProperty));
    assert_eq!(q.value, Value::Str("text".to_string()));
    let b = as_property(&true, nv(2, 0));
    assert_eq!(b.meta.typ, PropType::BoolProperty);
    assert_eq!(b.tag, Tag::Bool(true));
    assert_eq!(b.value, Value::Bool);
}

#[test]
fn a_list_is_made_of_the_elements_of_its_kind() {
    let array = Value::Array {
        meta_tag: None,
        values: vec![
            Value::Int(1),
            Value::Bool,
            Value::Int(3),
            Value::Str("x".to_string()),
            Value::Int(-4),
        ],
    };
    assert_eq!(<Vec<i32> as FromValue>::from_value(&array), Some(vec![1, 3, -4]));
    assert_eq!(<Vec<String> as FromValue>::from_value(&array), Some(vec!["x".to_string()]));
    assert_eq!(<Vec<Reference> as FromValue>::from_value(&array), Some(vec![]));
    assert_eq!(<Vec<i32> as FromValue>::from_value(&Value::Int(1)), None);
    let p = Property {
        meta: Meta { name: nv(0, 0), typ: PropType::ArrayProperty, size: 0 },
        tag: Tag::Array { inner_type: PropType::IntProperty },
        value: array,
    };
    assert_eq!(Property::try_into::<Vec<i32>>(&p), Some(vec![1, 3, -4]));
}
