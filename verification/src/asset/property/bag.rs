use vstd::prelude::*;
use crate::asset::exports::Export;
use crate::asset::property::checked_properties_size;
use crate::asset::property::context::Env;
use crate::asset::property::context::PropertyContext;
use crate::asset::property::encode::enc_none;
use crate::asset::property::encode::enc_properties;
use crate::asset::property::encode::properties_size;
use crate::asset::property::parse_properties;
use crate::asset::property::read_properties;
use crate::asset::property::sized;
use crate::asset::property::value::property_models;
use crate::asset::property::value::Property;
use crate::asset::property::value::PropertyModel;
use crate::asset::property::write_none;
use crate::asset::property::write_properties;
use crate::asset::property::properties_trail;
use crate::asset::property::encode::enc_properties_trail;
use crate::asset::property::loaders::wrote_in;
use crate::error::fails_with;
use crate::error::unplaced;
use crate::error::Error;
use crate::error::Failure;
use crate::error::Place;
use crate::reader::ByteReader;
use crate::util::parse_bytes;
use crate::util::read_bytes;
use crate::util::write_bytes;

verus! {

/// The property bag of an export: its properties, whether a `None` name
/// ends them, and the bytes that fill the rest of the export's size.
#[derive(Debug, PartialEq, Eq)]
pub struct Properties {
    pub properties: Vec<Property>,
    pub ends_with_none: bool,
    pub extra: Vec<u8>,
}

/// [`Properties`] as plain values.
pub struct BagModel {
    pub properties: Seq<PropertyModel>,
    pub ends_with_none: bool,
    pub extra: Seq<u8>,
}

impl View for Properties {
    type V = BagModel;

    open spec fn view(&self) -> BagModel {
        BagModel {
            properties: property_models(self.properties@),
            ends_with_none: self.ends_with_none,
            extra: self.extra@,
        }
    }
}

/// The property bag of an export that lies at `offset` and has `size`
/// bytes. It has to start at the position. Its properties go up to a
/// `None` name or up to the end of the export; they may not go past that
/// end, and what is left before it is kept as it is.
pub open spec fn parse_bag(d: Seq<u8>, p: int, e: int, env: Env, offset: u64, size: u64) -> Result<
    (BagModel, int),
    Error,
> {
    if p != offset {
        Err(Error::PositionMismatch { expected: offset, actual: p as u64 })
    } else if offset + size > u64::MAX {
        Err(Error::TooLong)
    } else {
        match parse_properties(d, p, e, offset + size, env, Seq::empty()) {
            Err(err) => Err(err),
            Ok(((properties, ends_with_none), q)) => if q - p > size {
                Err(Error::SizeOverrun)
            } else {
                match parse_bytes(d, q, e, size - (q - p)) {
                    Err(err) => Err(err),
                    Ok((extra, q2)) => Ok((BagModel { properties, ends_with_none, extra }, q2)),
                }
            },
        }
    }
}

/// The bytes of a property bag: its properties, the `None` name if one
/// ends them, the rest.
pub open spec fn enc_bag(b: BagModel, env: Env) -> Result<Seq<u8>, Error> {
    match enc_properties(b.properties, env, b.properties.len() as int) {
        Err(err) => Err(err),
        Ok(list) => if b.ends_with_none {
            match enc_none(env.names) {
                Err(err) => Err(err),
                Ok(none) => Ok(list + none + b.extra),
            }
        } else {
            Ok(list + b.extra)
        },
    }
}

/// The bytes that a property bag takes: those of its properties, 8 for
/// the `None` name if one ends them, the rest.
pub open spec fn bag_size(b: BagModel) -> nat {
    properties_size(b.properties, b.properties.len() as int) + if b.ends_with_none {
        8nat
    } else {
        0nat
    } + b.extra.len()
}

/// The property at which a property bag can be read no further, and
/// the part of it that cannot be read, where it is a property that
/// cannot.
pub open spec fn bag_trail(d: Seq<u8>, p: int, e: int, env: Env, offset: u64, size: u64) -> Seq<
    Place,
> {
    if p == offset && offset + size <= u64::MAX && parse_properties(
        d,
        p,
        e,
        offset + size,
        env,
        Seq::empty(),
    ) is Err {
        properties_trail(d, p, e, offset + size, env)
    } else {
        Seq::empty()
    }
}

/// The property of a property bag that cannot be written, and the part
/// of it that cannot, where there is one.
pub open spec fn enc_bag_trail(b: BagModel, env: Env) -> Seq<Place> {
    if enc_properties(b.properties, env, b.properties.len() as int) is Err {
        enc_properties_trail(b.properties, env, b.properties.len() as int)
    } else {
        Seq::empty()
    }
}

impl Properties {
    /// Reads the property bag of an export. A failure names the
    /// property that could not be read, if it was one.
    pub fn deserialize(rdr: &mut ByteReader, export: &Export, ctx: PropertyContext) -> (r: Result<
        Self,
        Failure,
    >)
        ensures
            final(rdr)@.data == old(rdr)@.data,
            final(rdr)@.limits == old(rdr)@.limits,
            match parse_bag(
                old(rdr)@.data,
                old(rdr)@.pos as int,
                old(rdr)@.bound(),
                ctx@,
                export.export_file_offset,
                export.serial_size,
            ) {
                Ok((bag, q)) => r is Ok && r->Ok_0@ == bag && final(rdr)@.pos == q,
                Err(err) => fails_with(
                    r,
                    err,
                    bag_trail(
                        old(rdr)@.data,
                        old(rdr)@.pos as int,
                        old(rdr)@.bound(),
                        ctx@,
                        export.export_file_offset,
                        export.serial_size,
                    ),
                ),
            },
            old(rdr)@.pos != export.export_file_offset ==> final(rdr)@ == old(rdr)@,
    {
        // Check that start position is correct
        let start_pos = rdr.position();
        if start_pos != export.export_file_offset {
            return Err(
                Failure::plain(
                    Error::PositionMismatch {
                        expected: export.export_file_offset,
                        actual: start_pos,
                    },
                ),
            );
        }
        if export.serial_size > u64::MAX - export.export_file_offset {
            return Err(Failure::plain(Error::TooLong));
        }
        // Read all properties until None prop or past end of this export
        let end_pos = export.export_file_offset + export.serial_size;
        let (properties, ends_with_none) = match read_properties(rdr, Some(end_pos), ctx) {
            Ok(read) => read,
            Err(failure) => {
                return Err(failure);
            },
        };
        // Check that not too many bytes were read
        let num_bytes_read = rdr.position() - start_pos;
        if num_bytes_read > export.serial_size {
            return Err(Failure::plain(Error::SizeOverrun));
        }
        // Read any bytes that were left over
        let remaining = export.serial_size - num_bytes_read;
        if remaining > rdr.available() as u64 {
            return Err(Failure::plain(Error::PrematureEof));
        }
        let extra = match read_bytes(rdr, remaining as usize) {
            Ok(extra) => extra,
            Err(err) => {
                return Err(Failure::plain(err));
            },
        };
        Ok(Self { properties, ends_with_none, extra })
    }

    /// Writes the property bag. What is written has the size that is
    /// computed for the bag.
    pub fn serialize(&self, out: &mut Vec<u8>, ctx: PropertyContext) -> (r: Result<(), Failure>)
        ensures
            wrote_in(
                old(out)@,
                final(out)@,
                r,
                enc_bag(self@, ctx@),
                enc_bag_trail(self@, ctx@),
            ),
            r is Ok ==> final(out)@.len() == old(out)@.len() + bag_size(self@),
    {
        proof {
            crate::asset::property::laws::lemma_properties_shaped(self.properties@);
            if enc_bag(self@, ctx@) is Ok {
                crate::asset::property::laws::lemma_bag_len(self@, ctx@);
            }
        }
        write_properties(&self.properties, out, ctx)?;
        if self.ends_with_none {
            unplaced(write_none(out, ctx))?;
        }
        write_bytes(out, self.extra.as_slice());
        proof {
            let list = enc_properties(self@.properties, ctx@, self@.properties.len() as int)->Ok_0;
            if self.ends_with_none {
                let none = enc_none(ctx@.names)->Ok_0;
                assert(out@ =~= old(out)@ + (list + none + self@.extra));
            } else {
                assert(out@ =~= old(out)@ + (list + self@.extra));
            }
        }
        Ok(())
    }

    /// The bytes that the property bag takes, unless that number is no `usize`.
    pub fn checked_byte_size(&self) -> (r: Option<usize>)
        ensures
            sized(r, bag_size(self@)),
    {
        let props_size = match checked_properties_size(&self.properties) {
            Some(size) => size,
            None => {
                return None;
            },
        };
        let none_size: usize = if self.ends_with_none {
            8
        } else {
            0
        };
        let extra_size = self.extra.len();
        if none_size > usize::MAX - props_size {
            return None;
        }
        if extra_size > usize::MAX - props_size - none_size {
            return None;
        }
        Some(props_size + none_size + extra_size)
    }

    /// The bytes that the property bag takes.
    pub fn byte_size(&self) -> (r: usize)
        requires
            bag_size(self@) <= usize::MAX,
        ensures
            r == bag_size(self@),
    {
        match self.checked_byte_size() {
            Some(size) => size,
            None => vstd::pervasive::unreached(),
        }
    }
}

} // verus!
