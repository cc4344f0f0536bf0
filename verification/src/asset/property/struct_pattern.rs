use vstd::prelude::*;
use vstd::hash_map::StringHashMap;
use crate::asset::name_map::chars_of;
use crate::asset::name_map::parse_variant;
use crate::asset::name_map::variant_of;
use crate::error::Error;
use crate::util::str_eq;

verus! {

/* A JSON document as plain values */

/// A JSON value. A number holds what it is as an unsigned integer, if it is one.
#[derive(Debug, PartialEq, Eq)]
pub enum Json {
    Null,
    Bool(bool),
    Number(Option<u64>),
    String(String),
    Array(Vec<Json>),
    Object(Vec<(String, Json)>),
}

/// A [`Json`] value as plain values.
pub enum JsonModel {
    Null,
    Bool(bool),
    Number(Option<u64>),
    String(Seq<char>),
    Array(Seq<JsonModel>),
    Object(Seq<(Seq<char>, JsonModel)>),
}

impl Json {
    pub open spec fn model(self) -> JsonModel
        decreases self,
    {
        match self {
            Json::Null => JsonModel::Null,
            Json::Bool(b) => JsonModel::Bool(b),
            Json::Number(n) => JsonModel::Number(n),
            Json::String(s) => JsonModel::String(s@),
            Json::Array(items) => JsonModel::Array(
                Seq::new(
                    items@.len(),
                    |i: int|
                        if 0 <= i < items@.len() {
                            items@[i].model()
                        } else {
                            JsonModel::Null
                        },
                ),
            ),
            Json::Object(entries) => JsonModel::Object(
                Seq::new(
                    entries@.len(),
                    |i: int|
                        if 0 <= i < entries@.len() {
                            (entries@[i].0@, entries@[i].1.model())
                        } else {
                            (Seq::empty(), JsonModel::Null)
                        },
                ),
            ),
        }
    }
}

impl View for Json {
    type V = JsonModel;

    open spec fn view(&self) -> JsonModel {
        self.model()
    }
}

/// The place of the first entry with the key, from `i` on, or -1.
pub open spec fn key_index(entries: Seq<(Seq<char>, JsonModel)>, key: Seq<char>, i: int) -> int
    decreases entries.len() - i,
{
    if i < 0 || i >= entries.len() {
        -1
    } else if entries[i].0 == key {
        i
    } else {
        key_index(entries, key, i + 1)
    }
}

/// The place of the member with the key in an object, or -1 where the
/// value is no object or has no such member.
pub open spec fn member_index(j: JsonModel, key: Seq<char>) -> int {
    match j {
        JsonModel::Object(entries) => key_index(entries, key, 0),
        _ => -1,
    }
}

proof fn lemma_key_index_in_range(entries: Seq<(Seq<char>, JsonModel)>, key: Seq<char>, i: int)
    requires
        0 <= i,
    ensures
        -1 <= key_index(entries, key, i) < entries.len(),
        key_index(entries, key, i) >= 0 ==> key_index(entries, key, i) >= i,
    decreases entries.len() - i,
{
    if i < entries.len() && entries[i].0 != key {
        lemma_key_index_in_range(entries, key, i + 1);
    }
}

impl Json {
    /// The member with the key, where the value is an object that has one.
    pub fn get(&self, key: &str) -> (r: Option<&Json>)
        ensures
            match r {
                Some(x) => {
                    &&& self is Object
                    &&& 0 <= member_index(self@, key@) < self->Object_0@.len()
                    &&& *x == self->Object_0@[member_index(self@, key@)].1
                    &&& x@ == self@->Object_0[member_index(self@, key@)].1
                },
                None => member_index(self@, key@) < 0,
            },
    {
        match self {
            Json::Object(entries) => {
                let mut i: usize = 0;
                while i < entries.len()
                    invariant
                        0 <= i <= entries@.len(),
                        *self == Json::Object(*entries),
                        self@ is Object,
                        self@->Object_0.len() == entries@.len(),
                        key_index(self@->Object_0, key@, 0) == key_index(
                            self@->Object_0,
                            key@,
                            i as int,
                        ),
                        forall|k: int|
                            0 <= k < entries@.len() ==> (#[trigger] self@->Object_0[k]) == (
                                entries@[k].0@,
                                entries@[k].1@,
                            ),
                    decreases entries@.len() - i,
                {
                    if str_eq(entries[i].0.as_str(), key) {
                        return Some(&entries[i].1);
                    }
                    i = i + 1;
                }
                None
            },
            _ => None,
        }
    }
}

/* Patterns */

/// How the payload of a struct of some type is laid out.
#[derive(Debug, PartialEq, Eq)]
#[allow(inconsistent_fields)]
pub enum StructPattern {
    /// Properties up to a `None` name.
    PropertyList,
    /// That many bytes.
    Binary { size: usize },
    /// Named parts, one after the other.
    BinaryProperties { properties: Vec<BinaryPropertyPattern> },
    /// A signed integer of 1, 2, 4 or 8 bytes.
    Int { size: u8 },
    /// An unsigned integer of 1, 2, 4 or 8 bytes.
    UInt { size: u8 },
    /// A floating point number of 4 or 8 bytes.
    Floating { size: u8 },
    /// One byte that picks one of the variants.
    Enum { variants: Vec<String> },
}

/// A named part of a struct.
#[derive(Debug, PartialEq, Eq)]
pub struct BinaryPropertyPattern {
    pub name: String,
    pub pattern: StructPattern,
}

/// A [`StructPattern`] as plain values.
#[allow(inconsistent_fields)]
pub enum PatternModel {
    PropertyList,
    Binary { size: usize },
    BinaryProperties { properties: Seq<FieldModel> },
    Int { size: u8 },
    UInt { size: u8 },
    Floating { size: u8 },
    Enum { variants: Seq<Seq<char>> },
}

/// A [`BinaryPropertyPattern`] as plain values.
pub struct FieldModel {
    pub name: Seq<char>,
    pub pattern: PatternModel,
}

impl StructPattern {
    pub open spec fn model(self) -> PatternModel
        decreases self,
    {
        match self {
            StructPattern::PropertyList => PatternModel::PropertyList,
            StructPattern::Binary { size } => PatternModel::Binary { size },
            StructPattern::BinaryProperties { properties } => PatternModel::BinaryProperties {
                properties: Seq::new(
                    properties@.len(),
                    |i: int|
                        if 0 <= i < properties@.len() {
                            FieldModel {
                                name: properties@[i].name@,
                                pattern: properties@[i].pattern.model(),
                            }
                        } else {
                            FieldModel { name: Seq::empty(), pattern: PatternModel::PropertyList }
                        },
                ),
            },
            StructPattern::Int { size } => PatternModel::Int { size },
            StructPattern::UInt { size } => PatternModel::UInt { size },
            StructPattern::Floating { size } => PatternModel::Floating { size },
            StructPattern::Enum { variants } => PatternModel::Enum {
                variants: variants@.map_values(|s: String| s@),
            },
        }
    }
}

impl View for StructPattern {
    type V = PatternModel;

    open spec fn view(&self) -> PatternModel {
        self.model()
    }
}

impl View for BinaryPropertyPattern {
    type V = FieldModel;

    open spec fn view(&self) -> FieldModel {
        FieldModel { name: self.name@, pattern: self.pattern@ }
    }
}

/// The width in bytes that a short type name such as `i32` asks for: what
/// follows the first letter has to be 8, 16, 32 or 64.
pub open spec fn numeric_size(typ: Seq<char>) -> Result<u8, Error> {
    if typ.len() == 0 {
        Err(Error::InvalidPattern)
    } else {
        match parse_variant(typ.drop_first()) {
            None => Err(Error::InvalidPattern),
            Some(bits) => if bits == 8 || bits == 16 || bits == 32 || bits == 64 {
                Ok((bits / 8) as u8)
            } else {
                Err(Error::InvalidWidth)
            },
        }
    }
}

/// Whether a width is one that integers have.
pub open spec fn is_int_width(size: int) -> bool {
    size == 1 || size == 2 || size == 4 || size == 8
}

/// Whether a width is one that floating point numbers have.
pub open spec fn is_float_width(size: int) -> bool {
    size == 4 || size == 8
}

/// The `size` member of a pattern, where it is one of the widths that
/// the predicate admits.
pub open spec fn width_of_json(j: JsonModel, floating: bool) -> Result<u8, Error> {
    let k = member_index(j, "size"@);
    if k < 0 {
        Err(Error::InvalidPattern)
    } else {
        match j->Object_0[k].1 {
            JsonModel::Number(Some(n)) => if (floating && is_float_width(n as int)) || (!floating
                && is_int_width(n as int)) {
                Ok(n as u8)
            } else {
                Err(Error::InvalidWidth)
            },
            _ => Err(Error::InvalidPattern),
        }
    }
}

/// The strings of an array of strings.
pub open spec fn strings_of_json(items: Seq<JsonModel>, i: int, acc: Seq<Seq<char>>) -> Result<
    Seq<Seq<char>>,
    Error,
>
    decreases items.len() - i,
{
    if i < 0 || i >= items.len() {
        Ok(acc)
    } else {
        match items[i] {
            JsonModel::String(s) => strings_of_json(items, i + 1, acc.push(s)),
            _ => Err(Error::InvalidPattern),
        }
    }
}

/// The pattern that a short type name stands for: `i`, `u` or `f` and a
/// number of bits.
pub open spec fn short_pattern(typ: Seq<char>) -> Result<PatternModel, Error> {
    if typ.len() > 0 && typ[0] == 'i' {
        match numeric_size(typ) {
            Ok(size) => Ok(PatternModel::Int { size }),
            Err(err) => Err(err),
        }
    } else if typ.len() > 0 && typ[0] == 'u' {
        match numeric_size(typ) {
            Ok(size) => Ok(PatternModel::UInt { size }),
            Err(err) => Err(err),
        }
    } else if typ.len() > 0 && typ[0] == 'f' {
        match numeric_size(typ) {
            Ok(size) => Ok(PatternModel::Floating { size }),
            Err(err) => Err(err),
        }
    } else {
        Err(Error::InvalidPattern)
    }
}

/// The pattern that a JSON value describes. Its `type` member says which
/// kind it is; the other members depend on the kind.
pub open spec fn pattern_of_json(j: JsonModel) -> Result<PatternModel, Error>
    decreases j, 0int,
{
    let t = member_index(j, "type"@);
    if t < 0 || !(j is Object) || t >= j->Object_0.len() {
        Err(Error::InvalidPattern)
    } else {
        match j->Object_0[t].1 {
            JsonModel::String(typ) => if typ == "property-list"@ {
                Ok(PatternModel::PropertyList)
            } else if typ == "binary"@ {
                let k = member_index(j, "size"@);
                if k < 0 {
                    Err(Error::InvalidPattern)
                } else {
                    match j->Object_0[k].1 {
                        JsonModel::Number(Some(n)) => if n <= usize::MAX {
                            Ok(PatternModel::Binary { size: n as usize })
                        } else {
                            Err(Error::InvalidPattern)
                        },
                        _ => Err(Error::InvalidPattern),
                    }
                }
            } else if typ == "binary-properties"@ {
                let k = member_index(j, "properties"@);
                if k < 0 || k >= j->Object_0.len() {
                    Err(Error::InvalidPattern)
                } else {
                    match j->Object_0[k].1 {
                        JsonModel::Array(items) => match fields_of_json(items, 0, Seq::empty()) {
                            Ok(properties) => Ok(PatternModel::BinaryProperties { properties }),
                            Err(err) => Err(err),
                        },
                        _ => Err(Error::InvalidPattern),
                    }
                }
            } else if typ == "int"@ {
                match width_of_json(j, false) {
                    Ok(size) => Ok(PatternModel::Int { size }),
                    Err(err) => Err(err),
                }
            } else if typ == "uint"@ {
                match width_of_json(j, false) {
                    Ok(size) => Ok(PatternModel::UInt { size }),
                    Err(err) => Err(err),
                }
            } else if typ == "floating"@ {
                match width_of_json(j, true) {
                    Ok(size) => Ok(PatternModel::Floating { size }),
                    Err(err) => Err(err),
                }
            } else if typ == "enum"@ {
                let k = member_index(j, "variants"@);
                if k < 0 {
                    Err(Error::InvalidPattern)
                } else {
                    match j->Object_0[k].1 {
                        JsonModel::Array(items) => match strings_of_json(items, 0, Seq::empty()) {
                            Ok(variants) => Ok(PatternModel::Enum { variants }),
                            Err(err) => Err(err),
                        },
                        _ => Err(Error::InvalidPattern),
                    }
                }
            } else {
                short_pattern(typ)
            },
            _ => Err(Error::InvalidPattern),
        }
    }
}

/// The named part that a JSON value describes: it has a `name` member,
/// and is a pattern.
pub open spec fn field_of_json(j: JsonModel) -> Result<FieldModel, Error>
    decreases j, 1int,
{
    let k = member_index(j, "name"@);
    if k < 0 {
        Err(Error::InvalidPattern)
    } else {
        match j->Object_0[k].1 {
            JsonModel::String(name) => match pattern_of_json(j) {
                Ok(pattern) => Ok(FieldModel { name, pattern }),
                Err(err) => Err(err),
            },
            _ => Err(Error::InvalidPattern),
        }
    }
}

/// The named parts that an array of JSON values describes.
pub open spec fn fields_of_json(items: Seq<JsonModel>, i: int, acc: Seq<FieldModel>) -> Result<
    Seq<FieldModel>,
    Error,
>
    decreases items, items.len() - i,
{
    if i < 0 || i >= items.len() {
        Ok(acc)
    } else {
        match field_of_json(items[i]) {
            Ok(field) => fields_of_json(items, i + 1, acc.push(field)),
            Err(err) => Err(err),
        }
    }
}

/// The struct patterns of a process: one for each struct type that has
/// its own, by the name of the type, and one for all the others.
pub struct StructPatterns {
    pub default: StructPattern,
    pub patterns: StringHashMap<StructPattern>,
}

/// [`StructPatterns`] as plain values.
pub struct PatternsModel {
    pub default: PatternModel,
    pub patterns: Map<Seq<char>, PatternModel>,
}

impl View for StructPatterns {
    type V = PatternsModel;

    open spec fn view(&self) -> PatternsModel {
        PatternsModel {
            default: self.default@,
            patterns: self.patterns@.map_values(|p: StructPattern| p@),
        }
    }
}

/// The pattern of a struct type: its own, or the default one.
pub open spec fn pattern_for(patterns: PatternsModel, struct_type: Seq<char>) -> PatternModel {
    if patterns.patterns.contains_key(struct_type) {
        patterns.patterns[struct_type]
    } else {
        patterns.default
    }
}

/// The patterns of a list from the `i`-th on, by their struct types. Of
/// two patterns for one struct type the first stands.
pub open spec fn listed_patterns(entries: Seq<(Seq<char>, PatternModel)>, i: int) -> Map<
    Seq<char>,
    PatternModel,
>
    decreases entries.len() - i,
{
    if i < 0 || i >= entries.len() {
        Map::empty()
    } else {
        listed_patterns(entries, i + 1).insert(entries[i].0, entries[i].1)
    }
}

/// The members of the `patterns` member of a JSON document, where it is
/// an object that has one that is an object.
pub open spec fn patterns_member(j: JsonModel) -> Option<Seq<(Seq<char>, JsonModel)>> {
    let p = member_index(j, "patterns"@);
    if p < 0 {
        None
    } else {
        match j->Object_0[p].1 {
            JsonModel::Object(entries) => Some(entries),
            _ => None,
        }
    }
}

/// Whether the `i`-th member is the first whose pattern is malformed.
pub open spec fn is_first_malformed(entries: Seq<(Seq<char>, JsonModel)>, i: int) -> bool {
    &&& 0 <= i < entries.len()
    &&& pattern_of_json(entries[i].1) is Err
    &&& forall|k: int| 0 <= k < i ==> pattern_of_json((#[trigger] entries[k]).1) is Ok
}

/// The patterns that the members of a JSON object describe, by their
/// keys. Of two members of one key the later stands.
pub open spec fn named_patterns_of_json(
    entries: Seq<(Seq<char>, JsonModel)>,
    i: int,
    acc: Map<Seq<char>, PatternModel>,
) -> Result<Map<Seq<char>, PatternModel>, Error>
    decreases entries.len() - i,
{
    if i < 0 || i >= entries.len() {
        Ok(acc)
    } else {
        match pattern_of_json(entries[i].1) {
            Ok(pattern) => named_patterns_of_json(entries, i + 1, acc.insert(entries[i].0, pattern)),
            Err(err) => Err(err),
        }
    }
}

/// The struct patterns that a JSON document describes: a `default`
/// pattern, and an object `patterns` of patterns by struct type.
pub open spec fn patterns_of_json(j: JsonModel) -> Result<PatternsModel, Error> {
    let d = member_index(j, "default"@);
    let p = member_index(j, "patterns"@);
    if d < 0 || j->Object_0[d].1 is Null {
        Err(Error::InvalidPattern)
    } else {
        match pattern_of_json(j->Object_0[d].1) {
            Err(err) => Err(err),
            Ok(default) => if p < 0 {
                Err(Error::InvalidPattern)
            } else {
                match j->Object_0[p].1 {
                    JsonModel::Object(entries) => match named_patterns_of_json(
                        entries,
                        0,
                        Map::empty(),
                    ) {
                        Ok(patterns) => Ok(PatternsModel { default, patterns }),
                        Err(err) => Err(err),
                    },
                    _ => Err(Error::InvalidPattern),
                }
            },
        }
    }
}

/// An unsigned width from the `size` member of a pattern.
fn width_from_json(val: &Json, floating: bool) -> (r: Result<u8, Error>)
    ensures
        r == width_of_json(val@, floating),
{
    match val.get("size") {
        Some(Json::Number(Some(n))) => {
            let n = *n;
            let ok = if floating {
                n == 4 || n == 8
            } else {
                n == 1 || n == 2 || n == 4 || n == 8
            };
            if ok {
                Ok(n as u8)
            } else {
                Err(Error::InvalidWidth)
            }
        },
        _ => Err(Error::InvalidPattern),
    }
}

/// The strings of an array of strings.
fn strings_from_json(items: &Vec<Json>) -> (r: Result<Vec<String>, Error>)
    ensures
        match strings_of_json((Json::Array(*items))@->Array_0, 0, Seq::empty()) {
            Ok(strings) => r is Ok && r->Ok_0@.map_values(|s: String| s@) == strings,
            Err(e) => r == Err::<Vec<String>, Error>(e),
        },
{
    let ghost models = (Json::Array(*items))@->Array_0;
    let mut strings: Vec<String> = Vec::new();
    let mut i: usize = 0;
    assert(strings@.map_values(|s: String| s@) =~= Seq::empty());
    while i < items.len()
        invariant
            0 <= i <= items@.len(),
            models == (Json::Array(*items))@->Array_0,
            models.len() == items@.len(),
            strings_of_json(models, 0, Seq::empty()) == strings_of_json(
                models,
                i as int,
                strings@.map_values(|s: String| s@),
            ),
        decreases items@.len() - i,
    {
        let ghost before = strings@.map_values(|s: String| s@);
        assert(models[i as int] == items@[i as int]@);
        match &items[i] {
            Json::String(s) => {
                strings.push(s.clone());
                assert(strings@.map_values(|s: String| s@) =~= before.push(s@));
            },
            _ => {
                return Err(Error::InvalidPattern);
            },
        }
        i = i + 1;
    }
    Ok(strings)
}

impl BinaryPropertyPattern {
    pub fn from_json(val: &Json) -> (r: Result<Self, Error>)
        ensures
            match field_of_json(val@) {
                Ok(m) => r is Ok && r->Ok_0@ == m,
                Err(e) => r == Err::<Self, Error>(e),
            },
        decreases val, 1int,
    {
        match val.get("name") {
            Some(Json::String(name)) => {
                let pattern = StructPattern::from_json(val)?;
                Ok(Self { name: name.clone(), pattern })
            },
            _ => Err(Error::InvalidPattern),
        }
    }
}

impl StructPattern {
    /// Reads the width of a short type name such as `i32`, in bytes.
    pub fn read_numeric_size(typ: &str) -> (r: Result<u8, Error>)
        ensures
            r == numeric_size(typ@),
    {
        let cs = chars_of(typ);
        if cs.len() == 0 {
            return Err(Error::InvalidPattern);
        }
        assert(cs@.subrange(1, cs@.len() as int) =~= typ@.drop_first());
        match variant_of(&cs, 1) {
            None => Err(Error::InvalidPattern),
            Some(bits) => if bits == 8 || bits == 16 || bits == 32 || bits == 64 {
                Ok((bits / 8) as u8)
            } else {
                Err(Error::InvalidWidth)
            },
        }
    }

    /// The pattern that a short type name stands for.
    fn from_short(typ: &str) -> (r: Result<Self, Error>)
        ensures
            match short_pattern(typ@) {
                Ok(m) => r is Ok && r->Ok_0@ == m,
                Err(e) => r == Err::<Self, Error>(e),
            },
    {
        let cs = chars_of(typ);
        if cs.len() == 0 {
            return Err(Error::InvalidPattern);
        }
        let first = cs[0];
        if first == 'i' {
            let size = Self::read_numeric_size(typ)?;
            Ok(Self::Int { size })
        } else if first == 'u' {
            let size = Self::read_numeric_size(typ)?;
            Ok(Self::UInt { size })
        } else if first == 'f' {
            let size = Self::read_numeric_size(typ)?;
            Ok(Self::Floating { size })
        } else {
            Err(Error::InvalidPattern)
        }
    }

    /// The named parts that an array of JSON values describes.
    fn fields_from_json(items: &Vec<Json>) -> (r: Result<Vec<BinaryPropertyPattern>, Error>)
        ensures
            match fields_of_json((Json::Array(*items))@->Array_0, 0, Seq::empty()) {
                Ok(fields) => r is Ok && (StructPattern::BinaryProperties {
                    properties: r->Ok_0,
                })@ == (PatternModel::BinaryProperties { properties: fields }),
                Err(e) => r == Err::<Vec<BinaryPropertyPattern>, Error>(e),
            },
        decreases items, 0int,
    {
        let ghost models = (Json::Array(*items))@->Array_0;
        let mut properties: Vec<BinaryPropertyPattern> = Vec::new();
        let ghost mut acc: Seq<FieldModel> = Seq::empty();
        let mut i: usize = 0;
        while i < items.len()
            invariant
                0 <= i <= items@.len(),
                models == (Json::Array(*items))@->Array_0,
                models.len() == items@.len(),
                acc.len() == properties@.len(),
                forall|k: int| 0 <= k < acc.len() ==> acc[k] == (#[trigger] properties@[k])@,
                fields_of_json(models, 0, Seq::empty()) == fields_of_json(models, i as int, acc),
            decreases items@.len() - i,
        {
            assert(models[i as int] == items@[i as int]@);
            let field = match BinaryPropertyPattern::from_json(&items[i]) {
                Ok(field) => field,
                Err(err) => {
                    return Err(err);
                },
            };
            proof {
                acc = acc.push(field@);
            }
            properties.push(field);
            i = i + 1;
        }
        proof {
            let built = (StructPattern::BinaryProperties { properties })@;
            assert(built->BinaryProperties_properties =~= acc);
        }
        Ok(properties)
    }

    /// The pattern that a JSON value describes.
    pub fn from_json(val: &Json) -> (r: Result<Self, Error>)
        ensures
            match pattern_of_json(val@) {
                Ok(m) => r is Ok && r->Ok_0@ == m,
                Err(e) => r == Err::<Self, Error>(e),
            },
        decreases val, 0int,
    {
        let typ = match val.get("type") {
            Some(Json::String(typ)) => typ.as_str(),
            _ => {
                return Err(Error::InvalidPattern);
            },
        };
        if str_eq(typ, "property-list") {
            Ok(Self::PropertyList)
        } else if str_eq(typ, "binary") {
            match val.get("size") {
                Some(Json::Number(Some(n))) => {
                    if *n <= usize::MAX as u64 {
                        Ok(Self::Binary { size: *n as usize })
                    } else {
                        Err(Error::InvalidPattern)
                    }
                },
                _ => Err(Error::InvalidPattern),
            }
        } else if str_eq(typ, "binary-properties") {
            match val.get("properties") {
                Some(Json::Array(items)) => {
                    let properties = Self::fields_from_json(items)?;
                    Ok(Self::BinaryProperties { properties })
                },
                _ => Err(Error::InvalidPattern),
            }
        } else if str_eq(typ, "int") {
            let size = width_from_json(val, false)?;
            Ok(Self::Int { size })
        } else if str_eq(typ, "uint") {
            let size = width_from_json(val, false)?;
            Ok(Self::UInt { size })
        } else if str_eq(typ, "floating") {
            let size = width_from_json(val, true)?;
            Ok(Self::Floating { size })
        } else if str_eq(typ, "enum") {
            match val.get("variants") {
                Some(Json::Array(items)) => {
                    let variants = strings_from_json(items)?;
                    Ok(Self::Enum { variants })
                },
                _ => Err(Error::InvalidPattern),
            }
        } else {
            Self::from_short(typ)
        }
    }
}

impl StructPatterns {
    /// The struct patterns with the given default and the patterns of a
    /// list, by their struct types. Of two patterns for one struct type
    /// the first stands.
    pub fn new(default: StructPattern, patterns: Vec<(String, StructPattern)>) -> (r: Self)
        ensures
            r@ == (PatternsModel {
                default: default@,
                patterns: listed_patterns(
                    Seq::new(patterns@.len(), |i: int| (patterns@[i].0@, patterns@[i].1@)),
                    0,
                ),
            }),
    {
        let ghost entries = Seq::new(patterns@.len(), |i: int| (patterns@[i].0@, patterns@[i].1@));
        let mut rest = patterns;
        let mut found: StringHashMap<StructPattern> = StringHashMap::new();
        assert(found@.map_values(|p: StructPattern| p@) =~= listed_patterns(
            entries,
            rest@.len() as int,
        ));
        while rest.len() > 0
            invariant
                rest@.len() <= entries.len(),
                forall|k: int|
                    0 <= k < rest@.len() ==> entries[k] == ((#[trigger] rest@[k]).0@, rest@[k].1@),
                found@.map_values(|p: StructPattern| p@) == listed_patterns(
                    entries,
                    rest@.len() as int,
                ),
            decreases rest@.len(),
        {
            let ghost before = found@.map_values(|p: StructPattern| p@);
            let ghost last = rest@[rest@.len() - 1];
            match rest.pop() {
                Some((struct_type, pattern)) => {
                    assert((struct_type, pattern) == last);
                    found.insert(struct_type, pattern);
                    assert(found@.map_values(|p: StructPattern| p@) =~= before.insert(
                        struct_type@,
                        pattern@,
                    ));
                },
                None => {},
            }
        }
        Self { default, patterns: found }
    }

    /// The struct patterns that a JSON document describes.
    pub fn from_json(val: &Json) -> (r: Result<Self, Error>)
        ensures
            match patterns_of_json(val@) {
                Ok(m) => r is Ok && r->Ok_0@ == m,
                Err(e) => r is Err && r->Err_0 == e,
            },
    {
        let default = match val.get("default") {
            None => {
                return Err(Error::InvalidPattern);
            },
            Some(Json::Null) => {
                return Err(Error::InvalidPattern);
            },
            Some(default_json) => StructPattern::from_json(default_json)?,
        };
        let entries = match val.get("patterns") {
            Some(Json::Object(entries)) => entries,
            _ => {
                return Err(Error::InvalidPattern);
            },
        };
        let ghost models = (Json::Object(*entries))@->Object_0;
        let mut patterns: StringHashMap<StructPattern> = StringHashMap::new();
        let mut i: usize = 0;
        assert(patterns@.map_values(|p: StructPattern| p@) =~= Map::empty());
        while i < entries.len()
            invariant
                0 <= i <= entries@.len(),
                models == (Json::Object(*entries))@->Object_0,
                patterns_of_json(val@) == match named_patterns_of_json(models, 0, Map::empty()) {
                    Ok(found) => Ok::<PatternsModel, Error>(
                        PatternsModel { default: default@, patterns: found },
                    ),
                    Err(err) => Err::<PatternsModel, Error>(err),
                },
                models.len() == entries@.len(),
                named_patterns_of_json(models, 0, Map::empty()) == named_patterns_of_json(
                    models,
                    i as int,
                    patterns@.map_values(|p: StructPattern| p@),
                ),
            decreases entries@.len() - i,
        {
            assert(models[i as int] == (entries@[i as int].0@, entries@[i as int].1@));
            let ghost before = patterns@.map_values(|p: StructPattern| p@);
            let pattern = match StructPattern::from_json(&entries[i].1) {
                Ok(pattern) => pattern,
                Err(err) => {
                    return Err(err);
                },
            };
            patterns.insert(entries[i].0.clone(), pattern);
            assert(patterns@.map_values(|p: StructPattern| p@) =~= before.insert(
                entries@[i as int].0@,
                pattern@,
            ));
            i = i + 1;
        }
        Ok(Self { default, patterns })
    }

    /// The place, among the members of `patterns`, of the first pattern
    /// that is malformed; nothing where the document has no such
    /// member or every pattern of it is well-formed.
    pub fn first_malformed(val: &Json) -> (r: Option<usize>)
        ensures
            match r {
                Some(i) => patterns_member(val@) is Some && is_first_malformed(
                    patterns_member(val@)->Some_0,
                    i as int,
                ),
                None => patterns_member(val@) is Some ==> forall|i: int|
                    0 <= i < patterns_member(val@)->Some_0.len() ==> pattern_of_json(
                        (#[trigger] patterns_member(val@)->Some_0[i]).1,
                    ) is Ok,
            },
    {
        let entries = match val.get("patterns") {
            Some(Json::Object(entries)) => entries,
            _ => {
                return None;
            },
        };
        let ghost models = (Json::Object(*entries))@->Object_0;
        assert(patterns_member(val@) == Some(models));
        let mut i: usize = 0;
        while i < entries.len()
            invariant
                0 <= i <= entries@.len(),
                models == (Json::Object(*entries))@->Object_0,
                patterns_member(val@) == Some(models),
                models.len() == entries@.len(),
                forall|k: int| 0 <= k < i ==> pattern_of_json((#[trigger] models[k]).1) is Ok,
            decreases entries@.len() - i,
        {
            assert(models[i as int] == (entries@[i as int].0@, entries@[i as int].1@));
            if StructPattern::from_json(&entries[i].1).is_err() {
                return Some(i);
            }
            i = i + 1;
        }
        None
    }

    /// Whether a struct type has a pattern of its own. A type that has
    /// none is read with the default pattern.
    pub fn is_listed(&self, struct_type: &str) -> (r: bool)
        ensures
            r == self@.patterns.contains_key(struct_type@),
    {
        self.patterns.contains_key(struct_type)
    }

    /// The pattern of a struct type: its own, or the default one.
    pub fn pattern(&self, struct_type: &str) -> (r: &StructPattern)
        ensures
            r@ == pattern_for(self@, struct_type@),
    {
        match self.patterns.get(struct_type) {
            Some(pattern) => pattern,
            None => &self.default,
        }
    }
}

} // verus!
