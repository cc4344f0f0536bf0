use vstd::prelude::*;
use crate::asset::name_map::enc_name_variant;
use crate::asset::name_map::first_index;
use crate::asset::name_map::has_name;
use crate::asset::name_map::lemma_first_unique;
use crate::asset::name_map::parse_name_variant;
use crate::asset::name_map::NameModel;
use crate::asset::name_map::NameVariant;
use crate::asset::property::context::PropertyContext;
use crate::error::Error;
use crate::reader::ByteReader;
use crate::util::reads;
use crate::util::str_eq;

verus! {

/// The type of a property, which the body file writes as a name.
#[derive(Debug, Clone, Copy, PartialEq, Eq, Structural)]
pub enum PropType {
    IntProperty,
    UInt8Property,
    FloatProperty,
    ObjectProperty,
    SoftObjectProperty,
    NameProperty,
    StrProperty,
    TextProperty,
    BoolProperty,
    ByteProperty,
    EnumProperty,
    ArrayProperty,
    StructProperty,
    MapProperty,
}

/// The name that a type is written as.
pub open spec fn name_of_type(t: PropType) -> Seq<char> {
    match t {
        PropType::IntProperty => "IntProperty"@,
        PropType::UInt8Property => "UInt8Property"@,
        PropType::FloatProperty => "FloatProperty"@,
        PropType::ObjectProperty => "ObjectProperty"@,
        PropType::SoftObjectProperty => "SoftObjectProperty"@,
        PropType::NameProperty => "NameProperty"@,
        PropType::StrProperty => "StrProperty"@,
        PropType::TextProperty => "TextProperty"@,
        PropType::BoolProperty => "BoolProperty"@,
        PropType::ByteProperty => "ByteProperty"@,
        PropType::EnumProperty => "EnumProperty"@,
        PropType::ArrayProperty => "ArrayProperty"@,
        PropType::StructProperty => "StructProperty"@,
        PropType::MapProperty => "MapProperty"@,
    }
}

/// The type that a name stands for.
pub open spec fn type_of_name(s: Seq<char>) -> Option<PropType> {
    if s == "IntProperty"@ {
        Some(PropType::IntProperty)
    } else if s == "UInt8Property"@ {
        Some(PropType::UInt8Property)
    } else if s == "FloatProperty"@ {
        Some(PropType::FloatProperty)
    } else if s == "ObjectProperty"@ {
        Some(PropType::ObjectProperty)
    } else if s == "SoftObjectProperty"@ {
        Some(PropType::SoftObjectProperty)
    } else if s == "NameProperty"@ {
        Some(PropType::NameProperty)
    } else if s == "StrProperty"@ {
        Some(PropType::StrProperty)
    } else if s == "TextProperty"@ {
        Some(PropType::TextProperty)
    } else if s == "BoolProperty"@ {
        Some(PropType::BoolProperty)
    } else if s == "ByteProperty"@ {
        Some(PropType::ByteProperty)
    } else if s == "EnumProperty"@ {
        Some(PropType::EnumProperty)
    } else if s == "ArrayProperty"@ {
        Some(PropType::ArrayProperty)
    } else if s == "StructProperty"@ {
        Some(PropType::StructProperty)
    } else if s == "MapProperty"@ {
        Some(PropType::MapProperty)
    } else {
        None
    }
}

/// Whether the tag of a type is implied by the type, so that nothing is
/// written for it and arrays of the type are dense.
pub open spec fn is_simple(t: PropType) -> bool {
    match t {
        PropType::IntProperty => true,
        PropType::UInt8Property => true,
        PropType::FloatProperty => true,
        PropType::ObjectProperty => true,
        PropType::SoftObjectProperty => true,
        PropType::NameProperty => true,
        PropType::StrProperty => true,
        PropType::TextProperty => true,
        _ => false,
    }
}

/// A type is read as a name reference with variant 0 whose name is that
/// of a type.
pub open spec fn parse_prop_type(d: Seq<u8>, p: int, e: int, names: Seq<NameModel>) -> Result<
    (PropType, int),
    Error,
> {
    match parse_name_variant(d, p, e, names.len() as int) {
        Err(err) => Err(err),
        Ok((name, q)) => if name.variant != 0 {
            Err(Error::UnknownTypeName)
        } else {
            match type_of_name(names[name.name_idx as int].name) {
                Some(t) => Ok((t, q)),
                None => Err(Error::UnknownTypeName),
            }
        },
    }
}

/// A type is written as the reference to the first name of its spelling,
/// which the table has to hold at a place that fits 32 bits.
pub open spec fn enc_prop_type(t: PropType, names: Seq<NameModel>) -> Result<Seq<u8>, Error> {
    if has_name(names, name_of_type(t)) && first_index(names, name_of_type(t)) <= u32::MAX {
        Ok(
            enc_name_variant(
                NameVariant { name_idx: first_index(names, name_of_type(t)) as usize, variant: 0 },
            ),
        )
    } else {
        Err(Error::MissingName)
    }
}

impl PropType {
    /// The type that a name stands for.
    pub fn from_str(s: &str) -> (r: Option<Self>)
        ensures
            r == type_of_name(s@),
    {
        if str_eq(s, "IntProperty") {
            Some(PropType::IntProperty)
        } else if str_eq(s, "UInt8Property") {
            Some(PropType::UInt8Property)
        } else if str_eq(s, "FloatProperty") {
            Some(PropType::FloatProperty)
        } else if str_eq(s, "ObjectProperty") {
            Some(PropType::ObjectProperty)
        } else if str_eq(s, "SoftObjectProperty") {
            Some(PropType::SoftObjectProperty)
        } else if str_eq(s, "NameProperty") {
            Some(PropType::NameProperty)
        } else if str_eq(s, "StrProperty") {
            Some(PropType::StrProperty)
        } else if str_eq(s, "TextProperty") {
            Some(PropType::TextProperty)
        } else if str_eq(s, "BoolProperty") {
            Some(PropType::BoolProperty)
        } else if str_eq(s, "ByteProperty") {
            Some(PropType::ByteProperty)
        } else if str_eq(s, "EnumProperty") {
            Some(PropType::EnumProperty)
        } else if str_eq(s, "ArrayProperty") {
            Some(PropType::ArrayProperty)
        } else if str_eq(s, "StructProperty") {
            Some(PropType::StructProperty)
        } else if str_eq(s, "MapProperty") {
            Some(PropType::MapProperty)
        } else {
            None
        }
    }

    /// The name that the type is written as.
    pub fn name(&self) -> (r: &'static str)
        ensures
            r@ == name_of_type(*self),
    {
        match self {
            PropType::IntProperty => "IntProperty",
            PropType::UInt8Property => "UInt8Property",
            PropType::FloatProperty => "FloatProperty",
            PropType::ObjectProperty => "ObjectProperty",
            PropType::SoftObjectProperty => "SoftObjectProperty",
            PropType::NameProperty => "NameProperty",
            PropType::StrProperty => "StrProperty",
            PropType::TextProperty => "TextProperty",
            PropType::BoolProperty => "BoolProperty",
            PropType::ByteProperty => "ByteProperty",
            PropType::EnumProperty => "EnumProperty",
            PropType::ArrayProperty => "ArrayProperty",
            PropType::StructProperty => "StructProperty",
            PropType::MapProperty => "MapProperty",
        }
    }

    /// Whether the tag of the type is implied by the type.
    pub fn is_simple(&self) -> (r: bool)
        ensures
            r == is_simple(*self),
    {
        match self {
            PropType::IntProperty => true,
            PropType::UInt8Property => true,
            PropType::FloatProperty => true,
            PropType::ObjectProperty => true,
            PropType::SoftObjectProperty => true,
            PropType::NameProperty => true,
            PropType::StrProperty => true,
            PropType::TextProperty => true,
            _ => false,
        }
    }

    pub fn deserialize(rdr: &mut ByteReader, ctx: PropertyContext) -> (r: Result<Self, Error>)
        ensures
            reads(
                old(rdr)@,
                final(rdr)@,
                r,
                parse_prop_type(
                    old(rdr)@.data,
                    old(rdr)@.pos as int,
                    old(rdr)@.bound(),
                    ctx@.names,
                ),
            ),
    {
        let name = NameVariant::read(rdr, ctx.names)?;
        if name.variant != 0 {
            return Err(Error::UnknownTypeName);
        }
        match PropType::from_str(ctx.names.names[name.name_idx].name.as_str()) {
            Some(typ) => Ok(typ),
            None => Err(Error::UnknownTypeName),
        }
    }

    /// Writes the type. Nothing is written where the name table lacks the
    /// name of the type.
    pub fn serialize(&self, out: &mut Vec<u8>, ctx: PropertyContext) -> (r: Result<(), Error>)
        ensures
            match enc_prop_type(*self, ctx@.names) {
                Ok(bytes) => r is Ok && final(out)@ == old(out)@ + bytes,
                Err(e) => r == Err::<(), Error>(e) && final(out)@ == old(out)@,
            },
    {
        match ctx.names.find(self.name()) {
            Some(pos) => {
                proof {
                    lemma_first_unique(ctx@.names, name_of_type(*self), pos as int, pos as int);
                }
                let name = NameVariant { name_idx: pos, variant: 0 };
                name.write(out, ctx.names)
            },
            None => Err(Error::MissingName),
        }
    }
}

} // verus!
