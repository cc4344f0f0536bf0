use vstd::prelude::*;
use crate::asset::name_map::enc_name_variant;
use crate::asset::name_map::name_variant_fits;
use crate::asset::name_map::parse_name_variant;
use crate::asset::name_map::NameModel;
use crate::asset::name_map::NameVariant;
use crate::asset::property::context::PropertyContext;
use crate::asset::property::prop_type::enc_prop_type;
use crate::asset::property::prop_type::parse_prop_type;
use crate::asset::property::prop_type::PropType;
use crate::error::Error;
use crate::reader::ByteReader;
use crate::util::enc_u64;
use crate::util::parse_u64;
use crate::util::read_u64;
use crate::util::reads;
use crate::util::write_u64;

verus! {

/// What every property begins with: its name, its type and the size of its value.
#[derive(Debug, Clone, Copy, PartialEq, Eq, Structural)]
pub struct Meta {
    pub name: NameVariant,
    pub typ: PropType,
    pub size: u64,
}

/// Whether a name reference prints as `None`, which ends a property list.
pub open spec fn is_none(name: NameVariant, names: Seq<NameModel>) -> bool {
    name.variant == 0 && names[name.name_idx as int].name == "None"@
}

/// A meta is a name, then, unless the name is `None`, a type and a size.
pub open spec fn parse_meta(d: Seq<u8>, p: int, e: int, names: Seq<NameModel>) -> Result<
    (Option<Meta>, int),
    Error,
> {
    match parse_name_variant(d, p, e, names.len() as int) {
        Err(err) => Err(err),
        Ok((name, p1)) => if is_none(name, names) {
            Ok((None, p1))
        } else {
            match parse_prop_type(d, p1, e, names) {
                Err(err) => Err(err),
                Ok((typ, p2)) => match parse_u64(d, p2, e) {
                    Err(err) => Err(err),
                    Ok((size, p3)) => Ok((Some(Meta { name, typ, size }), p3)),
                },
            }
        },
    }
}

/// The 24 bytes of a meta, where its name and its type can be written.
pub open spec fn enc_meta(m: Meta, names: Seq<NameModel>) -> Result<Seq<u8>, Error> {
    if !name_variant_fits(m.name, names.len() as int) {
        Err(Error::MissingName)
    } else {
        match enc_prop_type(m.typ, names) {
            Err(err) => Err(err),
            Ok(typ) => Ok(enc_name_variant(m.name) + typ + enc_u64(m.size)),
        }
    }
}

impl Meta {
    pub fn new(name: NameVariant, typ: PropType, size: u64) -> (r: Self)
        ensures
            r == (Meta { name, typ, size }),
    {
        Self { name, typ, size }
    }

    /// Reads a meta; `None` where the list ends here.
    pub fn deserialize(rdr: &mut ByteReader, ctx: PropertyContext) -> (r: Result<
        Option<Self>,
        Error,
    >)
        ensures
            reads(
                old(rdr)@,
                final(rdr)@,
                r,
                parse_meta(old(rdr)@.data, old(rdr)@.pos as int, old(rdr)@.bound(), ctx@.names),
            ),
    {
        let name = NameVariant::read(rdr, ctx.names)?;
        if name.is("None", ctx.names) {
            return Ok(None);
        }
        let typ = PropType::deserialize(rdr, ctx)?;
        let size = read_u64(rdr)?;
        Ok(Some(Self { name, typ, size }))
    }

    pub fn serialize(&self, out: &mut Vec<u8>, ctx: PropertyContext) -> (r: Result<(), Error>)
        ensures
            match enc_meta(*self, ctx@.names) {
                Ok(bytes) => r is Ok && final(out)@ == old(out)@ + bytes,
                Err(e) => r == Err::<(), Error>(e),
            },
    {
        self.name.write(out, ctx.names)?;
        self.typ.serialize(out, ctx)?;
        write_u64(out, self.size);
        proof {
            let typ = enc_prop_type(self.typ, ctx@.names)->Ok_0;
            assert(out@ =~= old(out)@ + (enc_name_variant(self.name) + typ + enc_u64(self.size)));
        }
        Ok(())
    }

    /// The bytes that a meta takes.
    pub fn byte_size(&self) -> (r: usize)
        ensures
            r == 24,
    {
        24
    }

    /// The bytes that a meta takes, or those of the `None` name that
    /// stands in its place at the end of a list.
    pub fn maybe_byte_size(meta: &Option<Self>) -> (r: usize)
        ensures
            r == if meta is Some {
                24int
            } else {
                8int
            },
    {
        match meta {
            Some(m) => m.byte_size(),
            None => 8,
        }
    }
}

} // verus!
