use vstd::prelude::*;
use crate::asset::depends::parse_region;
use crate::asset::file_summary::FileSummary;
use crate::error::Error;
use crate::reader::ByteReader;
use crate::util::read_bytes;
use crate::util::reads_as;
use crate::util::write_bytes;

verus! {

/// The asset registry section of the header file, kept as the bytes it is.
#[derive(Debug, Clone, PartialEq, Eq)]
pub struct AssetRegistry {
    pub data: Vec<u8>,
}

impl View for AssetRegistry {
    type V = Seq<u8>;

    open spec fn view(&self) -> Seq<u8> {
        self.data@
    }
}

impl AssetRegistry {
    /// Reads the bytes from the asset registry offset up to the preload dependencies.
    pub fn read(rdr: &mut ByteReader, summary: &FileSummary) -> (r: Result<Self, Error>)
        ensures
            reads_as(
                old(rdr)@,
                final(rdr)@,
                r,
                parse_region(
                    old(rdr)@.data,
                    old(rdr)@.pos as int,
                    old(rdr)@.bound(),
                    summary.asset_registry_data_offset,
                    summary.preload_dependency_offset,
                ),
            ),
            old(rdr)@.pos != summary.asset_registry_data_offset ==> final(rdr)@ == old(rdr)@,
    {
        if rdr.position() != summary.asset_registry_data_offset as u64 {
            return Err(
                Error::PositionMismatch {
                    expected: summary.asset_registry_data_offset as u64,
                    actual: rdr.position(),
                },
            );
        }
        if summary.preload_dependency_offset < summary.asset_registry_data_offset {
            return Err(Error::BadOffsets);
        }
        let assets_len = (summary.preload_dependency_offset
            - summary.asset_registry_data_offset) as usize;
        let data = read_bytes(rdr, assets_len)?;
        Ok(AssetRegistry { data })
    }

    pub fn write(&self, out: &mut Vec<u8>)
        ensures
            final(out)@ == old(out)@ + self@,
    {
        write_bytes(out, self.data.as_slice());
    }

    pub fn byte_size(&self) -> (r: usize)
        ensures
            r == self@.len(),
    {
        self.data.len()
    }
}

} // verus!
