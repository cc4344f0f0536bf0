use drg::asset::property::struct_pattern::BinaryPropertyPattern;
use drg::asset::property::struct_pattern::Json;
use drg::asset::property::struct_pattern::StructPattern;
use drg::asset::property::struct_pattern::StructPatterns;
use drg::error::Error;

fn s(text: &str) -> Json {
    Json::String(text.to_string())
}

fn n(value: u64) -> Json {
    Json::Number(Some(value))
}

fn obj(members: Vec<(&str, Json)>) -> Json {
    Json::Object(members.into_iter().map(|(k, v)| (k.to_string(), v)).collect())
}

fn typed(typ: &str) -> Json {
    obj(vec![("type", s(typ))])
}

fn sized(typ: &str, size: u64) -> Json {
    obj(vec![("type", s(typ)), ("size", n(size))])
}

#[test]
fn each_kind_of_pattern_is_read_from_json() {
    assert_eq!(StructPattern::from_json(&typed("property-list")), Ok(StructPattern::PropertyList));
    assert_eq!(
        StructPattern::from_json(&sized("binary", 12)),
        Ok(StructPattern::Binary { size: 12 })
    );
    for size in [1u8, 2, 4, 8] {
        assert_eq!(
            StructPattern::from_json(&sized("int", size as u64)),
            Ok(StructPattern::Int { size })
        );
        assert_eq!(
            StructPattern::from_json(&sized("uint", size as u64)),
            Ok(StructPattern::UInt { size })
        );
    }
    assert_eq!(
        StructPattern::from_json(&sized("floating", 4)),
        Ok(StructPattern::Floating { size: 4 })
    );
    assert_eq!(
        StructPattern::from_json(&sized("floating", 8)),
        Ok(StructPattern::Floating { size: 8 })
    );
    let variants = Json::Array(vec![s("Off"), s("On")]);
    assert_eq!(
        StructPattern::from_json(&obj(vec![("type", s("enum")), ("variants", variants)])),
        Ok(StructPattern::Enum { variants: vec!["Off".to_string(), "On".to_string()] })
    );
}

#[test]
fn named_parts_keep_their_order() {
    let part = |name: &str, typ: &str| obj(vec![("name", s(name)), ("type", s(typ))]);
    let nested = obj(vec![
        ("type", s("binary-properties")),
        ("name", s("inner")),
        ("properties", Json::Array(vec![part("b", "u8"), part("a", "i64")])),
    ]);
    let json = obj(vec![
        ("type", s("binary-properties")),
        (
            "properties",
            Json::Array(vec![part("x", "f32"), part("y", "f32"), part("z", "f32"), nested]),
        ),
    ]);
    let float = |name: &str| BinaryPropertyPattern {
        name: name.to_string(),
        pattern: StructPattern::Floating { size: 4 },
    };
    assert_eq!(
        StructPattern::from_json(&json),
        Ok(StructPattern::BinaryProperties {
            properties: vec![
                float("x"),
                float("y"),
                float("z"),
                BinaryPropertyPattern {
                    name: "inner".to_string(),
                    pattern: StructPattern::BinaryProperties {
                        properties: vec![
                            BinaryPropertyPattern {
                                name: "b".to_string(),
                                pattern: StructPattern::UInt { size: 1 }
                            },
                            BinaryPropertyPattern {
                                name: "a".to_string(),
                                pattern: StructPattern::Int { size: 8 }
                            },
                        ]
                    }
                },
            ]
        })
    );
    assert_eq!(BinaryPropertyPattern::from_json(&part("x", "f64")).map(|p| p.name), Ok("x".to_string()));
    assert_eq!(BinaryPropertyPattern::from_json(&typed("f64")), Err(Error::InvalidPattern));
    let unnamed = obj(vec![("name", n(1)), ("type", s("f64"))]);
    assert_eq!(BinaryPropertyPattern::from_json(&unnamed), Err(Error::InvalidPattern));
}

#[test]
fn short_type_names_give_a_width_in_bits() {
    assert_eq!(StructPattern::read_numeric_size("i32"), Ok(4));
    assert_eq!(StructPattern::read_numeric_size("u8"), Ok(1));
    assert_eq!(StructPattern::read_numeric_size("f64"), Ok(8));
    assert_eq!(StructPattern::read_numeric_size("i16"), Ok(2));
    assert_eq!(StructPattern::read_numeric_size("i+16"), Ok(2));
    assert_eq!(StructPattern::read_numeric_size("i12"), Err(Error::InvalidWidth));
    assert_eq!(StructPattern::read_numeric_size("i128"), Err(Error::InvalidWidth));
    assert_eq!(StructPattern::read_numeric_size("i"), Err(Error::InvalidPattern));
    assert_eq!(StructPattern::read_numeric_size(""), Err(Error::InvalidPattern));
    assert_eq!(StructPattern::read_numeric_size("ixx"), Err(Error::InvalidPattern));
    assert_eq!(StructPattern::from_json(&typed("i16")), Ok(StructPattern::Int { size: 2 }));
    assert_eq!(StructPattern::from_json(&typed("u64")), Ok(StructPattern::UInt { size: 8 }));
    assert_eq!(StructPattern::from_json(&typed("f32")), Ok(StructPattern::Floating { size: 4 }));
}

#[test]
fn malformed_patterns_are_refused() {
    let bad = vec![
        Json::Null,
        Json::Bool(true),
        n(1),
        s("binary"),
        Json::Array(vec![]),
        obj(vec![]),
        obj(vec![("type", n(1))]),
        typed("binary"),
        obj(vec![("type", s("binary")), ("size", s("12"))]),
        obj(vec![("type", s("binary")), ("size", Json::Number(None))]),
        typed("binary-properties"),
        obj(vec![("type", s("binary-properties")), ("properties", obj(vec![]))]),
        obj(vec![("type", s("binary-properties")), ("properties", Json::Array(vec![typed("u8")]))]),
        typed("int"),
        obj(vec![("type", s("int")), ("size", s("4"))]),
        typed("enum"),
        obj(vec![("type", s("enum")), ("variants", Json::Array(vec![n(1)]))]),
        typed("x32"),
        typed(""),
        typed("Property-List"),
    ];
    for json in bad {
        assert_eq!(StructPattern::from_json(&json), Err(Error::InvalidPattern), "{:?}", json);
    }
    let wide = vec![
        sized("int", 3),
        sized("uint", 0),
        sized("int", 16),
        sized("floating", 2),
        sized("floating", 16),
        typed("i7"),
        typed("f0"),
    ];
    for json in wide {
        assert_eq!(StructPattern::from_json(&json), Err(Error::InvalidWidth), "{:?}", json);
    }
}

#[test]
fn the_first_member_of_a_key_is_the_one_that_counts() {
    let json = obj(vec![("type", s("binary")), ("size", n(4)), ("size", n(8))]);
    assert_eq!(json.get("size"), Some(&n(4)));
    assert_eq!(json.get("type"), Some(&s("binary")));
    assert_eq!(json.get("other"), None);
    assert_eq!(s("x").get("size"), None);
    assert_eq!(StructPattern::from_json(&json), Ok(StructPattern::Binary { size: 4 }));
}

#[test]
fn a_registry_has_a_default_and_patterns_by_type() {
    let json = obj(vec![
        ("default", sized("binary", 12)),
        ("patterns", obj(vec![("Vector", typed("property-list")), ("Guid", sized("binary", 16))])),
    ]);
    let patterns = StructPatterns::from_json(&json).ok().unwrap();
    assert_eq!(patterns.default, StructPattern::Binary { size: 12 });
    assert_eq!(patterns.patterns.len(), 2);
    let listed = StructPatterns::new(
        StructPattern::Binary { size: 12 },
        vec![
            ("Vector".to_string(), StructPattern::PropertyList),
            ("Guid".to_string(), StructPattern::Binary { size: 16 }),
            ("Guid".to_string(), StructPattern::Binary { size: 17 }),
        ],
    );
    assert_eq!(listed.patterns.len(), 2);
    for name in ["Guid", "Vector", "UnlistedType", "vector", ""] {
        assert_eq!(listed.pattern(name), patterns.pattern(name), "{}", name);
        assert_eq!(listed.is_listed(name), patterns.is_listed(name), "{}", name);
    }
    assert_eq!(patterns.pattern("Guid"), &StructPattern::Binary { size: 16 });
    assert_eq!(patterns.pattern("Vector"), &StructPattern::PropertyList);
    assert_eq!(patterns.pattern("UnlistedType"), &StructPattern::Binary { size: 12 });
    assert_eq!(patterns.pattern("vector"), &StructPattern::Binary { size: 12 });
    assert!(patterns.is_listed("Guid"));
    assert!(!patterns.is_listed("UnlistedType"));
}

#[test]
fn a_malformed_registry_is_refused() {
    let patterns = obj(vec![("Vector", typed("property-list"))]);
    let bad = vec![
        Json::Null,
        obj(vec![]),
        obj(vec![("patterns", obj(vec![]))]),
        obj(vec![("default", Json::Null), ("patterns", obj(vec![]))]),
        obj(vec![("default", typed("property-list"))]),
        obj(vec![("default", typed("property-list")), ("patterns", Json::Array(vec![]))]),
        obj(vec![("default", typed("nothing")), ("patterns", obj(vec![]))]),
        obj(vec![("default", typed("u8")), ("patterns", obj(vec![("Bad", typed("binary"))]))]),
    ];
    for json in bad {
        assert_eq!(
            StructPatterns::from_json(&json).err(),
            Some(Error::InvalidPattern),
            "{:?}",
            json
        );
    }
    let wide = obj(vec![("default", typed("u8")), ("patterns", obj(vec![("Bad", typed("u9"))]))]);
    assert_eq!(StructPatterns::from_json(&wide).err(), Some(Error::InvalidWidth));
    let fine = obj(vec![("default", typed("u8")), ("patterns", patterns)]);
    assert_eq!(StructPatterns::from_json(&fine).ok().map(|p| p.patterns.len()), Some(1));
    // of two members of one key the later stands
    let twice = obj(vec![
        ("default", typed("u8")),
        ("patterns", obj(vec![("A", typed("i8")), ("A", typed("i16"))])),
    ]);
    let read = StructPatterns::from_json(&twice).ok().unwrap();
    assert_eq!(read.patterns.len(), 1);
    assert_eq!(read.pattern("A"), &StructPattern::Int { size: 2 });
    assert_eq!(StructPatterns::first_malformed(&fine), None);
    assert_eq!(StructPatterns::first_malformed(&wide), Some(0));
    let second = obj(vec![
        ("default", typed("u8")),
        ("patterns", obj(vec![("A", typed("i8")), ("B", typed("binary")), ("C", typed("?"))])),
    ]);
    assert_eq!(StructPatterns::first_malformed(&second), Some(1));
    assert_eq!(StructPatterns::first_malformed(&Json::Null), None);
}
