use vstd::prelude::*;
use crate::asset::bag_models;
use crate::asset::name_map::surface;
use crate::asset::name_map::NameMap;
use crate::asset::name_map::NameModel;
use crate::asset::name_map::NameVariant;
use crate::asset::property::bag::BagModel;
use crate::asset::property::bag::Properties;
use crate::asset::property::struct_pattern::PatternsModel;
use crate::asset::property::struct_pattern::StructPatterns;
use crate::asset::property::value::property_models;
use crate::asset::property::value::Property;
use crate::asset::property::value::PropertyModel;
use crate::asset::property::value::StructValue;
use crate::asset::property::value::StructValueModel;
use crate::asset::property::value::Tag;
use crate::asset::property::value::TagModel;
use crate::asset::property::value::Value;
use crate::asset::property::value::ValueModel;
use crate::asset::Asset;
use crate::util::str_eq;

verus! {

/* The struct types that the values of an asset name, in the order in
   which the values are written */

/// The struct type that a tag names, if it is the tag of a struct.
pub open spec fn tag_types(tag: TagModel) -> Seq<NameVariant> {
    match tag {
        TagModel::Struct { struct_type, .. } => seq![struct_type],
        _ => Seq::empty(),
    }
}

/// The struct type that the element header of an array names.
pub open spec fn header_types(meta_tag: Option<(crate::asset::property::meta::Meta, TagModel)>) -> Seq<
    NameVariant,
> {
    match meta_tag {
        Some((_, tag)) => tag_types(tag),
        None => Seq::empty(),
    }
}

/// The struct types that a value names: those of the element header
/// and of the elements of an array, those of the parts of a struct.
pub open spec fn value_types(v: ValueModel) -> Seq<NameVariant>
    decreases v, 0int,
{
    match v {
        ValueModel::Array { meta_tag, values } => header_types(meta_tag) + values_types(
            values,
            values.len() as int,
        ),
        ValueModel::Struct { value } => struct_types(value),
        _ => Seq::empty(),
    }
}

/// The struct types that the first `n` values of a list name.
pub open spec fn values_types(values: Seq<ValueModel>, n: int) -> Seq<NameVariant>
    decreases values, n,
{
    if n <= 0 || n > values.len() {
        Seq::empty()
    } else {
        values_types(values, n - 1) + value_types(values[n - 1])
    }
}

/// The struct types that the payload of a struct names.
pub open spec fn struct_types(v: StructValueModel) -> Seq<NameVariant>
    decreases v, 0int,
{
    match v {
        StructValueModel::PropertyList { properties, .. } => properties_types(
            properties,
            properties.len() as int,
        ),
        StructValueModel::BinaryProperties { entries } => entries_types(
            entries,
            entries.len() as int,
        ),
        _ => Seq::empty(),
    }
}

/// The struct types that the first `n` named parts of a struct name.
pub open spec fn entries_types(entries: Seq<(Seq<char>, StructValueModel)>, n: int) -> Seq<
    NameVariant,
>
    decreases entries, n,
{
    if n <= 0 || n > entries.len() {
        Seq::empty()
    } else {
        entries_types(entries, n - 1) + struct_types(entries[n - 1].1)
    }
}

/// The struct types that a property names: that of its tag, then those
/// of its value.
pub open spec fn property_types(p: PropertyModel) -> Seq<NameVariant>
    decreases p, 0int,
{
    tag_types(p.tag) + value_types(p.value)
}

/// The struct types that the first `n` properties of a list name.
pub open spec fn properties_types(properties: Seq<PropertyModel>, n: int) -> Seq<NameVariant>
    decreases properties, n,
{
    if n <= 0 || n > properties.len() {
        Seq::empty()
    } else {
        properties_types(properties, n - 1) + property_types(properties[n - 1])
    }
}

/// The struct types that the first `n` property bags name.
pub open spec fn bags_types(bags: Seq<BagModel>, n: int) -> Seq<NameVariant>
    decreases n,
{
    if n <= 0 || n > bags.len() {
        Seq::empty()
    } else {
        bags_types(bags, n - 1) + properties_types(
            bags[n - 1].properties,
            bags[n - 1].properties.len() as int,
        )
    }
}

/// Adds the struct type that a tag names.
pub fn collect_tag(tag: &Tag, found: &mut Vec<NameVariant>)
    ensures
        final(found)@ == old(found)@ + tag_types(tag@),
{
    match tag {
        Tag::Struct { struct_type, .. } => {
            found.push(*struct_type);
            assert(found@ =~= old(found)@ + seq![*struct_type]);
        },
        _ => {
            assert(found@ =~= old(found)@ + Seq::<NameVariant>::empty());
        },
    }
}

/// Adds the struct types that a value names.
pub fn collect_value(val: &Value, found: &mut Vec<NameVariant>)
    ensures
        final(found)@ == old(found)@ + value_types(val@),
    decreases val, 1int,
{
    match val {
        Value::Array { meta_tag, values } => {
            let ghost models = val@->Array_values;
            match meta_tag {
                Some((_, tag)) => {
                    collect_tag(tag, found);
                },
                None => {
                    assert(found@ =~= old(found)@ + Seq::<NameVariant>::empty());
                },
            }
            let ghost header = header_types(val@->Array_meta_tag);
            let mut i: usize = 0;
            while i < values.len()
                invariant
                    0 <= i <= values@.len(),
                    val is Array,
                    val->Array_values == *values,
                    models == val@->Array_values,
                    models.len() == values@.len(),
                    header == header_types(val@->Array_meta_tag),
                    found@ == old(found)@ + header + values_types(models, i as int),
                decreases values@.len() - i,
            {
                assert(models[i as int] == values@[i as int]@);
                let ghost before = found@;
                collect_value(&values[i], found);
                assert(found@ =~= old(found)@ + header + values_types(models, i + 1));
                i = i + 1;
            }
            assert(found@ =~= old(found)@ + (header + values_types(models, models.len() as int)));
        },
        Value::Struct { value } => {
            collect_struct(value, found);
        },
        _ => {
            assert(found@ =~= old(found)@ + Seq::<NameVariant>::empty());
        },
    }
}

/// Adds the struct types that the payload of a struct names.
pub fn collect_struct(val: &StructValue, found: &mut Vec<NameVariant>)
    ensures
        final(found)@ == old(found)@ + struct_types(val@),
    decreases val, 1int,
{
    match val {
        StructValue::PropertyList { properties, .. } => {
            assert(val@->PropertyList_properties =~= property_models(properties@));
            collect_properties(properties, found);
        },
        StructValue::BinaryProperties { entries } => {
            let ghost models = val@->BinaryProperties_entries;
            let mut i: usize = 0;
            assert(found@ =~= old(found)@ + entries_types(models, 0));
            while i < entries.len()
                invariant
                    0 <= i <= entries@.len(),
                    val is BinaryProperties,
                    val->BinaryProperties_entries == *entries,
                    models == val@->BinaryProperties_entries,
                    models.len() == entries@.len(),
                    found@ == old(found)@ + entries_types(models, i as int),
                decreases entries@.len() - i,
            {
                assert(models[i as int] == (entries@[i as int].0@, entries@[i as int].1@));
                collect_struct(&entries[i].1, found);
                assert(found@ =~= old(found)@ + entries_types(models, i + 1));
                i = i + 1;
            }
        },
        _ => {
            assert(found@ =~= old(found)@ + Seq::<NameVariant>::empty());
        },
    }
}

/// Adds the struct types that a property names.
pub fn collect_property(property: &Property, found: &mut Vec<NameVariant>)
    ensures
        final(found)@ == old(found)@ + property_types(property@),
    decreases property, 2int,
{
    collect_tag(&property.tag, found);
    collect_value(&property.value, found);
    assert(found@ =~= old(found)@ + (tag_types(property@.tag) + value_types(property@.value)));
}

/// Adds the struct types that the properties of a list name.
pub fn collect_properties(properties: &Vec<Property>, found: &mut Vec<NameVariant>)
    ensures
        final(found)@ == old(found)@ + properties_types(
            property_models(properties@),
            properties@.len() as int,
        ),
    decreases properties, 0int,
{
    let ghost models = property_models(properties@);
    let mut i: usize = 0;
    assert(found@ =~= old(found)@ + properties_types(models, 0));
    while i < properties.len()
        invariant
            0 <= i <= properties@.len(),
            models == property_models(properties@),
            found@ == old(found)@ + properties_types(models, i as int),
        decreases properties@.len() - i,
    {
        collect_property(&properties[i], found);
        assert(found@ =~= old(found)@ + properties_types(models, i + 1));
        i = i + 1;
    }
}

impl Asset {
    /// The struct types that the property bags of the asset name, each
    /// as often as it is named and in the order in which they are
    /// written.
    pub fn struct_types(&self) -> (r: Vec<NameVariant>)
        ensures
            r@ == bags_types(self.exports@, self.exports.structs@.len() as int),
    {
        let ghost bags = bag_models(self.exports.structs@);
        let mut found: Vec<NameVariant> = Vec::new();
        let mut i: usize = 0;
        assert(found@ =~= bags_types(bags, 0));
        while i < self.exports.structs.len()
            invariant
                0 <= i <= self.exports.structs@.len(),
                bags == bag_models(self.exports.structs@),
                found@ == bags_types(bags, i as int),
            decreases self.exports.structs@.len() - i,
        {
            let bag: &Properties = &self.exports.structs[i];
            assert(bags[i as int].properties =~= property_models(bag.properties@));
            collect_properties(&bag.properties, &mut found);
            i = i + 1;
        }
        found
    }
}

/* The struct types for which the default pattern stands in */

/// The texts of those of the first `n` struct types that the name table
/// holds and for which the registry lists no pattern, each once, in the
/// order in which they first occur.
pub open spec fn unlisted_types(
    patterns: PatternsModel,
    types: Seq<NameVariant>,
    names: Seq<NameModel>,
    n: int,
) -> Seq<Seq<char>>
    decreases n,
{
    if n <= 0 || n > types.len() {
        Seq::empty()
    } else {
        let before = unlisted_types(patterns, types, names, n - 1);
        let t = types[n - 1];
        if t.name_idx < names.len() {
            let text = surface(names[t.name_idx as int].name, t.variant);
            if !patterns.patterns.contains_key(text) && !before.contains(text) {
                before.push(text)
            } else {
                before
            }
        } else {
            before
        }
    }
}

/// Whether a list of texts holds the text.
pub fn holds_text(texts: &Vec<String>, text: &str) -> (r: bool)
    ensures
        r == texts@.map_values(|s: String| s@).contains(text@),
{
    let ghost views = texts@.map_values(|s: String| s@);
    let mut i: usize = 0;
    while i < texts.len()
        invariant
            0 <= i <= texts@.len(),
            views == texts@.map_values(|s: String| s@),
            forall|j: int| 0 <= j < i ==> views[j] != text@,
        decreases texts@.len() - i,
    {
        assert(views[i as int] == texts@[i as int]@);
        if str_eq(texts[i].as_str(), text) {
            return true;
        }
        i = i + 1;
    }
    false
}

impl StructPatterns {
    /// The struct types of a list that are read and written by the
    /// default pattern, as texts: those for which no pattern is listed,
    /// each once, in the order in which they first occur. A type whose
    /// name the name table lacks is left out.
    pub fn unlisted(&self, types: &Vec<NameVariant>, names: &NameMap) -> (r: Vec<String>)
        ensures
            r@.map_values(|s: String| s@) == unlisted_types(
                self@,
                types@,
                names@,
                types@.len() as int,
            ),
    {
        let mut found: Vec<String> = Vec::new();
        let mut i: usize = 0;
        assert(found@.map_values(|s: String| s@) =~= unlisted_types(self@, types@, names@, 0));
        while i < types.len()
            invariant
                0 <= i <= types@.len(),
                found@.map_values(|s: String| s@) == unlisted_types(
                    self@,
                    types@,
                    names@,
                    i as int,
                ),
            decreases types@.len() - i,
        {
            let t = types[i];
            let ghost before = found@.map_values(|s: String| s@);
            if t.name_idx < names.names.len() {
                let text = t.to_string(names);
                if !self.is_listed(text.as_str()) && !holds_text(&found, text.as_str()) {
                    found.push(text);
                    assert(found@.map_values(|s: String| s@) =~= before.push(text@));
                }
            }
            i = i + 1;
        }
        found
    }
}

} // verus!
