use vstd::prelude::*;
use crate::asset::exports::is_first_export;
use crate::asset::exports::ExportModel;
use crate::asset::imports::has_import;
use crate::asset::imports::has_numbered_import;
use crate::asset::imports::import_place;
use crate::asset::imports::is_first_import;
use crate::asset::imports::Import;
use crate::asset::name_map::added_ref;
use crate::asset::name_map::is_first;
use crate::asset::name_map::lemma_first_unique;
use crate::asset::name_map::resolve;
use crate::asset::name_map::resolved_ref;
use crate::asset::reference::reference_index;
use crate::asset::name_map::surface_parts;
use crate::asset::name_map::with_name;
use crate::asset::name_map::NameMap;
use crate::asset::name_map::NameVariant;
use crate::asset::property::bag::Properties;
use crate::asset::property::meta::Meta;
use crate::asset::property::prop_type::PropType;
use crate::asset::property::value::Property;
use crate::asset::property::value::Tag;
use crate::asset::property::value::Value;
use crate::asset::reference::encodable;
use crate::asset::reference::Reference;
use crate::asset::Asset;
use crate::asset::AssetHeader;
use crate::error::Error;

verus! {

/* Plain values as properties */

/// A value that can be turned into the parts of a property.
pub trait AsProperty {
    /// Whether the value has a tag. A list has one where it is not
    /// empty: its tag is made of its first element.
    open spec fn has_tag(&self) -> bool {
        true
    }

    fn prop_type(&self) -> PropType;

    fn as_tag(&self) -> Tag
        requires
            self.has_tag(),
    ;

    fn as_value(&self) -> Value;
}

/// A value that can be turned into a property with a simple tag.
pub trait AsSimpleProperty {
    fn simple_prop_type() -> PropType;

    fn as_simple_value(&self) -> Value;
}

/// A value that can be made from a property.
pub trait FromProperty: Sized {
    fn from_property(property: &Property) -> Option<Self>;
}

/// A value that can be made from the value of a property.
pub trait FromValue: Sized {
    fn from_value(value: &Value) -> Option<Self>;
}

/// Whether a property is made of the parts that a value is turned into.
pub open spec fn made_of<T: AsProperty>(value: &T, property: Property) -> bool {
    &&& call_ensures(T::prop_type, (value,), property.meta.typ)
    &&& call_ensures(T::as_tag, (value,), property.tag)
    &&& call_ensures(T::as_value, (value,), property.value)
}

/// The property of the given name that a value is turned into. The size
/// that its meta declares is set when the property is written.
pub fn as_property<T: AsProperty>(value: &T, name: NameVariant) -> (r: Property)
    requires
        value.has_tag(),
    ensures
        r.meta.name == name,
        r.meta.size == 0,
        made_of(value, r),
{
    Property {
        meta: Meta::new(name, value.prop_type(), 0),
        tag: value.as_tag(),
        value: value.as_value(),
    }
}

/// A value with a simple tag is turned into a property of that tag.
impl<T: AsSimpleProperty> AsProperty for T {
    fn prop_type(&self) -> (r: PropType)
        ensures
            call_ensures(T::simple_prop_type, (), r),
    {
        Self::simple_prop_type()
    }

    fn as_tag(&self) -> (r: Tag)
        ensures
            r is Simple,
            call_ensures(T::simple_prop_type, (), r->Simple_0),
    {
        Tag::Simple(Self::simple_prop_type())
    }

    fn as_value(&self) -> (r: Value)
        ensures
            call_ensures(T::as_simple_value, (self,), r),
    {
        self.as_simple_value()
    }
}

/// What can be made from the value of a property is made from a
/// property by its value.
impl<T: FromValue> FromProperty for T {
    fn from_property(property: &Property) -> (r: Option<Self>)
        ensures
            call_ensures(T::from_value, (&property.value,), r),
    {
        Self::from_value(&property.value)
    }
}

impl AsProperty for bool {
    fn prop_type(&self) -> (r: PropType)
        ensures
            r == PropType::BoolProperty,
    {
        PropType::BoolProperty
    }

    fn as_tag(&self) -> (r: Tag)
        ensures
            r == Tag::Bool(*self),
    {
        Tag::Bool(*self)
    }

    fn as_value(&self) -> (r: Value)
        ensures
            r == Value::Bool,
    {
        Value::Bool
    }
}

impl FromProperty for bool {
    fn from_property(property: &Property) -> (r: Option<Self>)
        ensures
            r == match property.tag {
                Tag::Bool(value) => Some(value),
                _ => None,
            },
    {
        match &property.tag {
            Tag::Bool(value) => Some(*value),
            _ => None,
        }
    }
}

impl AsSimpleProperty for i32 {
    fn simple_prop_type() -> (r: PropType)
        ensures
            r == PropType::IntProperty,
    {
        PropType::IntProperty
    }

    fn as_simple_value(&self) -> (r: Value)
        ensures
            r == Value::Int(*self),
    {
        Value::Int(*self)
    }
}

impl FromValue for i32 {
    fn from_value(value: &Value) -> (r: Option<Self>)
        ensures
            r == match *value {
                Value::Int(value) => Some(value),
                _ => None,
            },
    {
        match value {
            Value::Int(value) => Some(*value),
            _ => None,
        }
    }
}

impl AsSimpleProperty for Reference {
    fn simple_prop_type() -> (r: PropType)
        ensures
            r == PropType::ObjectProperty,
    {
        PropType::ObjectProperty
    }

    fn as_simple_value(&self) -> (r: Value)
        ensures
            r == Value::Object(*self),
    {
        Value::Object(*self)
    }
}

impl FromValue for Reference {
    fn from_value(value: &Value) -> (r: Option<Self>)
        ensures
            r == match *value {
                Value::Object(value) => Some(value),
                _ => None,
            },
    {
        match value {
            Value::Object(value) => Some(*value),
            _ => None,
        }
    }
}

impl AsSimpleProperty for String {
    fn simple_prop_type() -> (r: PropType)
        ensures
            r == PropType::StrProperty,
    {
        PropType::StrProperty
    }

    fn as_simple_value(&self) -> (r: Value)
        ensures
            r == Value::Str(*self),
    {
        Value::Str(self.clone())
    }
}

impl FromValue for String {
    fn from_value(value: &Value) -> (r: Option<Self>)
        ensures
            r == match *value {
                Value::Str(value) => Some(value),
                _ => None,
            },
    {
        match value {
            Value::Str(value) => Some(value.clone()),
            _ => None,
        }
    }
}

/// Whether `values` are what the elements of a list are turned into,
/// one for one and in their order.
pub open spec fn values_of<T: AsProperty>(elements: Seq<T>, values: Seq<Value>) -> bool {
    &&& values.len() == elements.len()
    &&& forall|i: int|
        0 <= i < elements.len() ==> call_ensures(T::as_value, (&elements[i],), #[trigger] values[i])
}

/// A list is turned into an array property. Its tag names the kind of
/// its first element, so an empty list has none.
impl<T: AsProperty> AsProperty for Vec<T> {
    open spec fn has_tag(&self) -> bool {
        self@.len() > 0
    }

    fn prop_type(&self) -> (r: PropType)
        ensures
            r == PropType::ArrayProperty,
    {
        PropType::ArrayProperty
    }

    fn as_tag(&self) -> (r: Tag)
        ensures
            r is Array,
            call_ensures(T::prop_type, (&self@[0],), r->Array_inner_type),
    {
        let inner_type = self[0].prop_type();
        Tag::Array { inner_type }
    }

    fn as_value(&self) -> (r: Value)
        ensures
            r is Array,
            r->Array_meta_tag is None,
            values_of(self@, r->Array_values@),
    {
        let mut values: Vec<Value> = Vec::new();
        let mut i: usize = 0;
        while i < self.len()
            invariant
                0 <= i <= self@.len(),
                values_of(self@.take(i as int), values@),
            decreases self@.len() - i,
        {
            let value = self[i].as_value();
            values.push(value);
            i = i + 1;
        }
        proof {
            assert(self@.take(i as int) == self@);
        }
        Value::Array { meta_tag: None, values }
    }
}

/// Whether `found` are the values made of those of `values` of which
/// one can be made, in their order: each value gave nothing or the
/// next of `found`.
pub open spec fn made_from<T: FromValue>(values: Seq<Value>, found: Seq<T>) -> bool
    decreases values.len(),
{
    if values.len() == 0 {
        found.len() == 0
    } else {
        ||| (call_ensures(T::from_value, (&values.last(),), None::<T>) && made_from(
            values.drop_last(),
            found,
        ))
        ||| (found.len() > 0 && call_ensures(T::from_value, (&values.last(),), Some(found.last()))
            && made_from(values.drop_last(), found.drop_last()))
    }
}

/// A list is made from an array: of the elements of which a `T` can be
/// made, in their order. The others are left out.
impl<T: FromValue> FromValue for Vec<T> {
    fn from_value(value: &Value) -> (r: Option<Self>)
        ensures
            match *value {
                Value::Array { values, .. } => r is Some && made_from(values@, r->Some_0@),
                _ => r is None,
            },
    {
        match value {
            Value::Array { values, .. } => {
                let mut found: Vec<T> = Vec::new();
                let mut i: usize = 0;
                while i < values.len()
                    invariant
                        0 <= i <= values@.len(),
                        made_from(values@.take(i as int), found@),
                    decreases values@.len() - i,
                {
                    let ghost before = found@;
                    proof {
                        assert(values@.take(i + 1).drop_last() == values@.take(i as int));
                        assert(values@.take(i + 1).last() == values@[i as int]);
                    }
                    match T::from_value(&values[i]) {
                        Some(element) => {
                            found.push(element);
                            proof {
                                assert(found@.drop_last() == before);
                            }
                        },
                        None => {},
                    }
                    i = i + 1;
                }
                proof {
                    assert(values@.take(i as int) == values@);
                }
                Some(found)
            },
            _ => None,
        }
    }
}

impl Property {
    /// The value that the property is turned into: what making a `T`
    /// from the property gives.
    pub fn try_into<T: FromProperty>(&self) -> (r: Option<T>)
        ensures
            call_ensures(T::from_property, (self,), r),
    {
        T::from_property(self)
    }
}

/* Properties by name */

/// Whether `i` is the first place at which a list holds a property of
/// the given name.
pub open spec fn is_first_property(properties: Seq<Property>, name: NameVariant, i: int) -> bool {
    &&& 0 <= i < properties.len()
    &&& properties[i].meta.name == name
    &&& forall|j: int| 0 <= j < i ==> (#[trigger] properties[j]).meta.name != name
}

pub open spec fn has_property(properties: Seq<Property>, name: NameVariant) -> bool {
    exists|i: int| 0 <= i < properties.len() && (#[trigger] properties[i]).meta.name == name
}

/// The first place at which a list holds a property of the given name.
pub open spec fn first_property(properties: Seq<Property>, name: NameVariant) -> int {
    choose|i: int| is_first_property(properties, name, i)
}

/// One place at most is the first at which a list holds a property of a name.
pub proof fn lemma_first_property_unique(properties: Seq<Property>, name: NameVariant, i: int)
    requires
        is_first_property(properties, name, i),
    ensures
        first_property(properties, name) == i,
        has_property(properties, name),
{
    let j = first_property(properties, name);
    if i < j {
        assert(properties[i].meta.name == name);
    } else if j < i {
        assert(properties[j].meta.name == name);
    }
}

impl Properties {
    /// The first place at which the bag holds a property of the given name.
    pub fn find(&self, name: NameVariant) -> (r: Option<usize>)
        ensures
            match r {
                Some(i) => is_first_property(self.properties@, name, i as int),
                None => !has_property(self.properties@, name),
            },
    {
        let mut i: usize = 0;
        while i < self.properties.len()
            invariant
                0 <= i <= self.properties@.len(),
                forall|j: int| 0 <= j < i ==> (#[trigger] self.properties@[j]).meta.name != name,
            decreases self.properties@.len() - i,
        {
            if self.properties[i].meta.name == name {
                return Some(i);
            }
            i = i + 1;
        }
        None
    }

    /// The first property of the given name.
    pub fn get_property(&self, name: NameVariant) -> (r: Option<&Property>)
        ensures
            match r {
                Some(p) => has_property(self.properties@, name) && *p
                    == self.properties@[first_property(self.properties@, name)],
                None => !has_property(self.properties@, name),
            },
    {
        match self.find(name) {
            Some(i) => {
                proof {
                    lemma_first_property_unique(self.properties@, name, i as int);
                }
                Some(&self.properties[i])
            },
            None => None,
        }
    }

    /// Puts a property in the place of the first one of its name, or at
    /// the end where the bag has none of that name.
    pub fn set_property(&mut self, property: Property)
        ensures
            final(self).ends_with_none == old(self).ends_with_none,
            final(self).extra == old(self).extra,
            has_property(old(self).properties@, property.meta.name) ==> final(self).properties@
                == old(self).properties@.update(
                first_property(old(self).properties@, property.meta.name),
                property,
            ),
            !has_property(old(self).properties@, property.meta.name) ==> final(self).properties@
                == old(self).properties@.push(property),
    {
        match self.find(property.meta.name) {
            None => {
                self.properties.push(property);
            },
            Some(i) => {
                proof {
                    lemma_first_property_unique(self.properties@, property.meta.name, i as int);
                }
                self.properties.set(i, property);
            },
        }
    }

    /// The value of the first property of the name that the text stands
    /// for: what making a `T` from that property gives. Nothing where the
    /// name table lacks the name or the bag has no such property.
    pub fn get<T: FromProperty>(&self, name: &str, names: &NameMap) -> (r: Option<T>)
        ensures
            if resolve(names@, name@) is Some && has_property(
                self.properties@,
                resolved_ref(names@, name@),
            ) {
                call_ensures(
                    T::from_property,
                    (
                        &self.properties@[first_property(
                            self.properties@,
                            resolved_ref(names@, name@),
                        )],
                    ),
                    r,
                )
            } else {
                r is None
            },
    {
        let name = match NameVariant::try_parse(name, names) {
            Some(name) => name,
            None => {
                return None;
            },
        };
        match self.get_property(name) {
            Some(property) => T::from_property(property),
            None => None,
        }
    }

    /// Sets the value of the property of the name that the text stands
    /// for: in the place of the first property of that name, or at the
    /// end. Says whether it did: the name table has to hold the name.
    /// The property is made of the parts that the value is turned into.
    pub fn set<T: AsProperty>(&mut self, name: &str, value: T, names: &NameMap) -> (r: bool)
        requires
            value.has_tag(),
        ensures
            r == resolve(names@, name@) is Some,
            !r ==> *final(self) == *old(self),
            r ==> final(self).ends_with_none == old(self).ends_with_none && final(self).extra
                == old(self).extra,
            r ==> changed_at(
                old(self).properties@,
                final(self).properties@,
                resolved_ref(names@, name@),
            ),
            r ==> made_of(
                &value,
                final(self).properties@[changed_place(
                    old(self).properties@,
                    resolved_ref(names@, name@),
                )],
            ),
    {
        let name = match NameVariant::try_parse(name, names) {
            Some(name) => name,
            None => {
                return false;
            },
        };
        let new_prop = as_property(&value, name);
        match self.find(name) {
            Some(i) => {
                proof {
                    lemma_first_property_unique(self.properties@, name, i as int);
                }
                self.properties.set(i, new_prop);
            },
            None => {
                self.properties.push(new_prop);
            },
        }
        true
    }
}

/// The place of a list at which a property of the given name is set:
/// that of the first property of that name, or the end where there is
/// none of that name.
pub open spec fn changed_place(before: Seq<Property>, name: NameVariant) -> int {
    if has_property(before, name) {
        first_property(before, name)
    } else {
        before.len() as int
    }
}

/// Whether a list differs from another only by a property of the given
/// name: one that stands in the place of the first property of that
/// name, or at the end where there was none of that name. The size that
/// the property declares is 0.
pub open spec fn changed_at(before: Seq<Property>, after: Seq<Property>, name: NameVariant) -> bool {
    let place = changed_place(before, name);
    &&& after.len() == if has_property(before, name) {
        before.len()
    } else {
        before.len() + 1
    }
    &&& 0 <= place < after.len()
    &&& after[place].meta.name == name
    &&& after[place].meta.size == 0
    &&& forall|j: int| 0 <= j < before.len() && j != place ==> after[j] == before[j]
}

/* Imports, exports and preload dependencies by name */

impl AssetHeader {
    /// Imports an object into the asset: adds the names of its class
    /// package, its class and itself where the name table lacks them,
    /// and, unless an object of that name is imported already, adds the
    /// import. Gives the number that stands for the import of that name.
    ///
    /// Succeeds where an object of that name is imported already at a
    /// place that a 32-bit number stands for, and where `outer` names
    /// nothing, an import or an export and the import table has room.
    /// Fails otherwise; the names have then been added all the same.
    pub fn import(&mut self, class_package: &str, class: &str, name: &str, outer: Reference) -> (r:
        Result<i32, Error>)
        ensures
            final(self)@.names == with_name(
                with_name(
                    with_name(old(self)@.names, surface_parts(class_package@).0),
                    surface_parts(class@).0,
                ),
                surface_parts(name@).0,
            ),
            final(self).summary == old(self).summary,
            final(self).exports == old(self).exports,
            final(self).depends == old(self).depends,
            final(self).assets == old(self).assets,
            final(self).dependencies == old(self).dependencies,
            r is Ok <==> has_numbered_import(
                old(self)@.imports,
                added_ref(final(self)@.names, name@),
            ) || (encodable(outer, old(self)@.imports, old(self)@.exports)
                && old(self)@.imports.len() <= i32::MAX),
            match r {
                Ok(idx) => {
                    &&& is_first_import(
                        final(self)@.imports,
                        added_ref(final(self)@.names, name@),
                        import_place(idx),
                    )
                    &&& if has_import(old(self)@.imports, added_ref(final(self)@.names, name@)) {
                        final(self)@.imports == old(self)@.imports
                    } else {
                        encodable(outer, old(self)@.imports, old(self)@.exports) && final(
                            self)@.imports == old(self)@.imports.push(
                            Import {
                                class_package: added_ref(final(self)@.names, class_package@),
                                class: added_ref(final(self)@.names, class@),
                                outer_index: reference_index(
                                    outer,
                                    old(self)@.imports,
                                    old(self)@.exports,
                                ),
                                name: added_ref(final(self)@.names, name@),
                            },
                        )
                    }
                },
                Err(e) => {
                    &&& final(self)@.imports == old(self)@.imports
                    &&& e == if encodable(outer, old(self)@.imports, old(self)@.exports) {
                        Error::TooLong
                    } else {
                        Error::MissingName
                    }
                },
            },
    {
        // Make sure all names are in the names list
        let package_ref = NameVariant::parse_and_add(class_package, &mut self.names);
        let class_ref = NameVariant::parse_and_add(class, &mut self.names);
        let name_ref = NameVariant::parse_and_add(name, &mut self.names);
        proof {
            let one = with_name(old(self)@.names, surface_parts(class_package@).0);
            let two = with_name(one, surface_parts(class@).0);
            lemma_with_name_keeps_first(
                one,
                surface_parts(class_package@).0,
                surface_parts(class@).0,
                package_ref.name_idx as int,
            );
            lemma_with_name_keeps_first(
                two,
                surface_parts(class_package@).0,
                surface_parts(name@).0,
                package_ref.name_idx as int,
            );
            lemma_with_name_keeps_first(
                two,
                surface_parts(class@).0,
                surface_parts(name@).0,
                class_ref.name_idx as int,
            );
            lemma_first_unique(
                self@.names,
                surface_parts(class_package@).0,
                package_ref.name_idx as int,
                package_ref.name_idx as int,
            );
            lemma_first_unique(
                self@.names,
                surface_parts(class@).0,
                class_ref.name_idx as int,
                class_ref.name_idx as int,
            );
        }
        match self.imports.index_of(&name_ref) {
            Some(index) => {
                assert(has_import(self@.imports, name_ref));
                return Ok(index);
            },
            None => {},
        }
        // Create a new import
        let outer_index = match outer.try_serialize(&self.imports, &self.exports) {
            Some(outer_index) => outer_index,
            None => {
                return Err(Error::MissingName);
            },
        };
        assert(encodable(outer, self@.imports, self@.exports));
        if self.imports.objects.len() > i32::MAX as usize {
            return Err(Error::TooLong);
        }
        let index = self.imports.add(package_ref, class_ref, name_ref, outer_index);
        assert(!has_import(old(self)@.imports, name_ref)) by {
            if has_import(old(self)@.imports, name_ref) {
                let k = choose|k: int|
                    0 <= k < old(self)@.imports.len() && (#[trigger] old(self)@.imports[k]).name
                        == name_ref;
                crate::asset::imports::lemma_first_import_exists(old(self)@.imports, name_ref, k);
            }
        }
        Ok(index)
    }

    /// Adds an object to the preload dependencies, unless it is one already.
    pub fn preload(&mut self, dep: Reference)
        ensures
            final(self)@.dependencies == if old(self)@.dependencies.contains(dep) {
                old(self)@.dependencies
            } else {
                old(self)@.dependencies.push(dep)
            },
            final(self).summary == old(self).summary,
            final(self).names == old(self).names,
            final(self).imports == old(self).imports,
            final(self).exports == old(self).exports,
            final(self).depends == old(self).depends,
            final(self).assets == old(self).assets,
    {
        let mut i: usize = 0;
        while i < self.dependencies.dependencies.len()
            invariant
                0 <= i <= self@.dependencies.len(),
                *self == *old(self),
                forall|j: int| 0 <= j < i ==> self@.dependencies[j] != dep,
            decreases self@.dependencies.len() - i,
        {
            if self.dependencies.dependencies[i] == dep {
                return ;
            }
            i = i + 1;
        }
        // Create a new preload
        self.dependencies.dependencies.push(dep);
    }

    /// All imports.
    pub fn list_imports(&self) -> (r: &Vec<Import>)
        ensures
            r@ == self@.imports,
    {
        &self.imports.objects
    }

    /// The names of all exports.
    pub fn list_exports(&self) -> (r: Vec<NameVariant>)
        ensures
            r@.len() == self@.exports.len(),
            forall|i: int| 0 <= i < r@.len() ==> r@[i] == (#[trigger] self@.exports[i]).object_name,
    {
        let mut names: Vec<NameVariant> = Vec::new();
        let mut i: usize = 0;
        while i < self.exports.exports.len()
            invariant
                0 <= i <= self.exports.exports@.len(),
                self@.exports.len() == self.exports.exports@.len(),
                names@.len() == i,
                forall|k: int| 0 <= k < i ==> names@[k] == (#[trigger] self@.exports[k]).object_name,
            decreases self.exports.exports@.len() - i,
        {
            assert(self@.exports[i as int] == self.exports.exports@[i as int]@);
            names.push(self.exports.exports[i].object_name);
            i = i + 1;
        }
        names
    }
}

/// A name that is the first of its spelling stays so when another name
/// is added to the table.
pub proof fn lemma_with_name_keeps_first(
    names: Seq<crate::asset::name_map::NameModel>,
    s: Seq<char>,
    added: Seq<char>,
    i: int,
)
    requires
        is_first(names, s, i),
    ensures
        is_first(with_name(names, added), s, i),
{
    let after = with_name(names, added);
    assert forall|j: int| 0 <= j < i implies (#[trigger] after[j]).name != s by {
        assert(after[j] == names[j]);
    }
    assert(after[i] == names[i]);
}

/// The place of the first export of a name.
pub open spec fn first_export(exports: Seq<ExportModel>, name: NameVariant) -> int {
    choose|i: int| is_first_export(exports, name, i)
}

/// One place at most is the first at which an export has a name.
pub proof fn lemma_first_export_unique(exports: Seq<ExportModel>, name: NameVariant, i: int)
    requires
        is_first_export(exports, name, i),
    ensures
        first_export(exports, name) == i,
{
    let j = first_export(exports, name);
    if i < j {
        assert(exports[i].object_name == name);
    } else if j < i {
        assert(exports[j].object_name == name);
    }
}

impl Asset {
    /// All imports.
    pub fn list_imports(&self) -> (r: &Vec<Import>)
        ensures
            r@ == self.header@.imports,
    {
        self.header.list_imports()
    }

    /// The names of all exports.
    pub fn list_exports(&self) -> (r: Vec<NameVariant>)
        ensures
            r@.len() == self.header@.exports.len(),
            forall|i: int|
                0 <= i < r@.len() ==> r@[i] == (#[trigger] self.header@.exports[i]).object_name,
    {
        self.header.list_exports()
    }

    /// The place of the first export of the name that the text stands
    /// for, where the name table holds the name and a property bag
    /// belongs to the export.
    pub fn find_struct(&self, name: &str) -> (r: Option<usize>)
        ensures
            match r {
                Some(i) => {
                    &&& resolve(self.header@.names, name@) is Some
                    &&& i < self.exports.structs@.len()
                    &&& is_first_export(
                        self.header@.exports,
                        resolved_ref(self.header@.names, name@),
                        i as int,
                    )
                },
                None => resolve(self.header@.names, name@) is Some ==> forall|i: int|
                    is_first_export(
                        self.header@.exports,
                        resolved_ref(self.header@.names, name@),
                        i,
                    ) ==> i >= self.exports.structs@.len(),
            },
    {
        let object = match NameVariant::try_parse(name, &self.header.names) {
            Some(object) => object,
            None => {
                return None;
            },
        };
        let mut i: usize = 0;
        while i < self.header.exports.exports.len()
            invariant
                0 <= i <= self.header.exports.exports@.len(),
                self.header@.exports.len() == self.header.exports.exports@.len(),
                resolve(self.header@.names, name@) is Some,
                object == resolved_ref(self.header@.names, name@),
                forall|j: int|
                    0 <= j < i ==> (#[trigger] self.header@.exports[j]).object_name != object,
            decreases self.header.exports.exports@.len() - i,
        {
            assert(self.header@.exports[i as int] == self.header.exports.exports@[i as int]@);
            if self.header.exports.exports[i].object_name == object {
                assert(is_first_export(self.header@.exports, object, i as int));
                assert forall|k: int| is_first_export(self.header@.exports, object, k) implies k
                    == i by {
                    if k < i {
                        assert(self.header@.exports[k].object_name != object);
                    } else if k > i {
                        assert(self.header@.exports[i as int].object_name == object);
                    }
                }
                if i < self.exports.structs.len() {
                    return Some(i);
                }
                return None;
            }
            i = i + 1;
        }
        None
    }

    /// The property bag of the first export of the name that the text
    /// stands for.
    pub fn get_struct(&self, name: &str) -> (r: Option<&Properties>)
        ensures
            match r {
                Some(bag) => {
                    &&& resolve(self.header@.names, name@) is Some
                    &&& is_first_export(
                        self.header@.exports,
                        resolved_ref(self.header@.names, name@),
                        first_export(self.header@.exports, resolved_ref(self.header@.names, name@)),
                    )
                    &&& first_export(
                        self.header@.exports,
                        resolved_ref(self.header@.names, name@),
                    ) < self.exports.structs@.len()
                    &&& *bag == self.exports.structs@[first_export(
                        self.header@.exports,
                        resolved_ref(self.header@.names, name@),
                    )]
                },
                None => resolve(self.header@.names, name@) is Some ==> forall|i: int|
                    is_first_export(
                        self.header@.exports,
                        resolved_ref(self.header@.names, name@),
                        i,
                    ) ==> i >= self.exports.structs@.len(),
            },
    {
        match self.find_struct(name) {
            None => None,
            Some(i) => {
                proof {
                    lemma_first_export_unique(
                        self.header@.exports,
                        resolved_ref(self.header@.names, name@),
                        i as int,
                    );
                }
                Some(&self.exports.structs[i])
            },
        }
    }

    /// The property bag of the first export of the name that the text
    /// stands for, to change it.
    pub fn get_struct_mut(&mut self, name: &str) -> (r: Option<&mut Properties>)
        ensures
            final(self).header == old(self).header,
            match r {
                Some(bag) => {
                    &&& resolve(old(self).header@.names, name@) is Some
                    &&& first_export(
                        old(self).header@.exports,
                        resolved_ref(old(self).header@.names, name@),
                    ) < old(self).exports.structs@.len()
                    &&& *bag == old(self).exports.structs@[first_export(
                        old(self).header@.exports,
                        resolved_ref(old(self).header@.names, name@),
                    )]
                    &&& final(self).exports.structs@ == old(self).exports.structs@.update(
                        first_export(
                            old(self).header@.exports,
                            resolved_ref(old(self).header@.names, name@),
                        ),
                        *final(bag),
                    )
                },
                None => {
                    &&& *final(self) == *old(self)
                    &&& resolve(old(self).header@.names, name@) is Some ==> forall|i: int|
                        is_first_export(
                            old(self).header@.exports,
                            resolved_ref(old(self).header@.names, name@),
                            i,
                        ) ==> i >= old(self).exports.structs@.len()
                },
            },
    {
        match self.find_struct(name) {
            None => None,
            Some(i) => {
                proof {
                    lemma_first_export_unique(
                        self.header@.exports,
                        resolved_ref(self.header@.names, name@),
                        i as int,
                    );
                }
                Some(&mut self.exports.structs[i])
            },
        }
    }
}

} // verus!
