use vstd::prelude::*;
use crate::asset::file_summary::FileSummary;
use crate::error::Error;
use crate::reader::ByteReader;
use crate::util::parse_bytes;
use crate::util::read_bytes;
use crate::util::reads_as;
use crate::util::write_bytes;

verus! {

/// The depends section of the header file, kept as the bytes it is.
#[derive(Debug, Clone, PartialEq, Eq)]
pub struct Depends {
    pub data: Vec<u8>,
}

impl View for Depends {
    type V = Seq<u8>;

    open spec fn view(&self) -> Seq<u8> {
        self.data@
    }
}

/// An opaque section: it has to start at `start`, and it ends where the
/// next section starts.
pub open spec fn parse_region(d: Seq<u8>, p: int, e: int, start: u32, next: u32) -> Result<
    (Seq<u8>, int),
    Error,
> {
    if p != start {
        Err(Error::PositionMismatch { expected: start as u64, actual: p as u64 })
    } else if next < start {
        Err(Error::BadOffsets)
    } else {
        parse_bytes(d, p, e, next - start)
    }
}

impl Depends {
    /// Reads the bytes from the depends offset up to the asset registry.
    pub fn read(rdr: &mut ByteReader, summary: &FileSummary) -> (r: Result<Self, Error>)
        ensures
            reads_as(
                old(rdr)@,
                final(rdr)@,
                r,
                parse_region(
                    old(rdr)@.data,
                    old(rdr)@.pos as int,
                    old(rdr)@.bound(),
                    summary.depends_offset,
                    summary.asset_registry_data_offset,
                ),
            ),
            old(rdr)@.pos != summary.depends_offset ==> final(rdr)@ == old(rdr)@,
    {
        if rdr.position() != summary.depends_offset as u64 {
            return Err(
                Error::PositionMismatch {
                    expected: summary.depends_offset as u64,
                    actual: rdr.position(),
                },
            );
        }
        if summary.asset_registry_data_offset < summary.depends_offset {
            return Err(Error::BadOffsets);
        }
        let depends_len = (summary.asset_registry_data_offset - summary.depends_offset) as usize;
        let data = read_bytes(rdr, depends_len)?;
        Ok(Self { data })
    }

    pub fn write(&self, out: &mut Vec<u8>)
        ensures
            final(out)@ == old(out)@ + self@,
    {
        write_bytes(out, self.data.as_slice());
    }

    pub fn byte_size(&self) -> (r: usize)
        ensures
            r == self@.len(),
    {
        self.data.len()
    }
}

} // verus!
