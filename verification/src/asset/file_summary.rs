use vstd::prelude::*;
use vstd::utf8::encode_utf8;
use crate::error::Error;
use crate::reader::ByteReader;
use crate::util::avail;
use crate::util::enc_i64;
use crate::util::enc_string;
use crate::util::enc_u32;
use crate::util::enc_u64;
use crate::util::get_array;
use crate::util::get_i64;
use crate::util::get_u32;
use crate::util::get_u64;
use crate::util::i64_at;
use crate::util::parse_string;
use crate::util::read_string;
use crate::util::read_u32;
use crate::util::reads;
use crate::util::reads_as;
use crate::util::span;
use crate::util::u32_at;
use crate::util::u64_at;
use crate::util::write_bytes;
use crate::util::write_i64;
use crate::util::write_string;
use crate::util::write_u32;
use crate::util::write_u64;

verus! {

/// The counts that one saved generation of the package had.
#[derive(Debug, Clone, Copy, PartialEq, Eq, Structural)]
pub struct Generation {
    pub export_count: u32,
    pub name_count: u32,
}

/// The fixed-width prefix of the header file: versions, the offsets and
/// counts of every section, and the tag that also closes the body file.
#[derive(Debug, Clone, PartialEq, Eq)]
pub struct FileSummary {
    pub tag: [u8; 4],
    pub file_version_ue4: u32,
    pub file_version_license_ue4: u32,
    pub custom_version: [u8; 12],
    pub total_header_size: u32,
    pub package_flags: u32,
    pub folder_name: String,
    pub name_count: u32,
    pub name_offset: u32,
    pub gatherable_text_data_count: u32,
    pub gatherable_text_data_offset: u32,
    pub export_count: u32,
    pub export_offset: u32,
    pub import_count: u32,
    pub import_offset: u32,
    pub depends_offset: u32,
    pub soft_package_references_count: u32,
    pub soft_package_references_offset: u32,
    pub searchable_names_offset: u32,
    pub thumbnail_table_offset: u32,
    pub guid: [u8; 16],
    pub generations: Vec<Generation>,
    pub saved_by_engine_version: [u8; 16],
    pub compatible_with_engine_version: [u8; 16],
    pub compression_flags: u32,
    pub package_source: i64,
    pub asset_registry_data_offset: u32,
    pub bulk_data_start_offset: u32,
    pub world_tile_info_data_offset: u32,
    pub chunk_ids: u64,
    pub preload_dependency_count: u32,
    pub preload_dependency_offset: u32,
}

/// A [`FileSummary`] as plain values.
pub struct SummaryModel {
    pub tag: Seq<u8>,
    pub file_version_ue4: u32,
    pub file_version_license_ue4: u32,
    pub custom_version: Seq<u8>,
    pub total_header_size: u32,
    pub package_flags: u32,
    pub folder_name: Seq<char>,
    pub name_count: u32,
    pub name_offset: u32,
    pub gatherable_text_data_count: u32,
    pub gatherable_text_data_offset: u32,
    pub export_count: u32,
    pub export_offset: u32,
    pub import_count: u32,
    pub import_offset: u32,
    pub depends_offset: u32,
    pub soft_package_references_count: u32,
    pub soft_package_references_offset: u32,
    pub searchable_names_offset: u32,
    pub thumbnail_table_offset: u32,
    pub guid: Seq<u8>,
    pub generations: Seq<Generation>,
    pub saved_by_engine_version: Seq<u8>,
    pub compatible_with_engine_version: Seq<u8>,
    pub compression_flags: u32,
    pub package_source: i64,
    pub asset_registry_data_offset: u32,
    pub bulk_data_start_offset: u32,
    pub world_tile_info_data_offset: u32,
    pub chunk_ids: u64,
    pub preload_dependency_count: u32,
    pub preload_dependency_offset: u32,
}

impl View for FileSummary {
    type V = SummaryModel;

    open spec fn view(&self) -> SummaryModel {
        SummaryModel {
            tag: self.tag@,
            file_version_ue4: self.file_version_ue4,
            file_version_license_ue4: self.file_version_license_ue4,
            custom_version: self.custom_version@,
            total_header_size: self.total_header_size,
            package_flags: self.package_flags,
            folder_name: self.folder_name@,
            name_count: self.name_count,
            name_offset: self.name_offset,
            gatherable_text_data_count: self.gatherable_text_data_count,
            gatherable_text_data_offset: self.gatherable_text_data_offset,
            export_count: self.export_count,
            export_offset: self.export_offset,
            import_count: self.import_count,
            import_offset: self.import_offset,
            depends_offset: self.depends_offset,
            soft_package_references_count: self.soft_package_references_count,
            soft_package_references_offset: self.soft_package_references_offset,
            searchable_names_offset: self.searchable_names_offset,
            thumbnail_table_offset: self.thumbnail_table_offset,
            guid: self.guid@,
            generations: self.generations@,
            saved_by_engine_version: self.saved_by_engine_version@,
            compatible_with_engine_version: self.compatible_with_engine_version@,
            compression_flags: self.compression_flags,
            package_source: self.package_source,
            asset_registry_data_offset: self.asset_registry_data_offset,
            bulk_data_start_offset: self.bulk_data_start_offset,
            world_tile_info_data_offset: self.world_tile_info_data_offset,
            chunk_ids: self.chunk_ids,
            preload_dependency_count: self.preload_dependency_count,
            preload_dependency_offset: self.preload_dependency_offset,
        }
    }
}

/* Generations */

pub open spec fn parse_generation(d: Seq<u8>, p: int, e: int) -> Result<(Generation, int), Error> {
    if 8 > avail(p, e) {
        Err(Error::PrematureEof)
    } else {
        Ok((Generation { export_count: u32_at(d, p), name_count: u32_at(d, p + 4) }, p + 8))
    }
}

/// The generation records that `count * 8` bytes hold.
pub open spec fn generations_in(s: Seq<u8>, count: int) -> Seq<Generation> {
    Seq::new(
        count as nat,
        |i: int| Generation { export_count: u32_at(s, 8 * i), name_count: u32_at(s, 8 * i + 4) },
    )
}

/// A list of generations is its length, then the records.
pub open spec fn parse_generations(d: Seq<u8>, p: int, e: int) -> Result<
    (Seq<Generation>, int),
    Error,
> {
    if 4 > avail(p, e) {
        Err(Error::PrematureEof)
    } else if 8 * u32_at(d, p) > avail(p + 4, e) {
        Err(Error::PrematureEof)
    } else {
        Ok(
            (
                generations_in(span(d, p + 4, 8 * u32_at(d, p)), u32_at(d, p) as int),
                p + 4 + 8 * u32_at(d, p),
            ),
        )
    }
}

pub open spec fn enc_generation(g: Generation) -> Seq<u8> {
    enc_u32(g.export_count) + enc_u32(g.name_count)
}

/// The records of the first `n` generations, one after the other.
pub open spec fn enc_generation_records(gens: Seq<Generation>, n: int) -> Seq<u8>
    decreases n,
{
    if n <= 0 {
        Seq::empty()
    } else {
        enc_generation_records(gens, n - 1) + enc_generation(gens[n - 1])
    }
}

pub open spec fn enc_generations(gens: Seq<Generation>) -> Seq<u8> {
    enc_u32(gens.len() as u32) + enc_generation_records(gens, gens.len() as int)
}

impl Generation {
    pub fn read(rdr: &mut ByteReader) -> (r: Result<Self, Error>)
        ensures
            reads(
                old(rdr)@,
                final(rdr)@,
                r,
                parse_generation(old(rdr)@.data, old(rdr)@.pos as int, old(rdr)@.bound()),
            ),
    {
        let seg = rdr.take(8)?;
        let export_count = get_u32(seg.as_slice(), 0);
        let name_count = get_u32(seg.as_slice(), 4);
        proof {
            let d = old(rdr)@.data;
            let p = old(rdr)@.pos as int;
            assert(seg@.subrange(0, 4) =~= d.subrange(p, p + 4));
            assert(seg@.subrange(4, 8) =~= d.subrange(p + 4, p + 8));
        }
        Ok(Generation { export_count, name_count })
    }

    pub fn write(&self, out: &mut Vec<u8>)
        ensures
            final(out)@ == old(out)@ + enc_generation(*self),
    {
        write_u32(out, self.export_count);
        write_u32(out, self.name_count);
        assert(out@ =~= old(out)@ + enc_generation(*self));
    }

    pub fn read_array(rdr: &mut ByteReader) -> (r: Result<Vec<Generation>, Error>)
        ensures
            reads_as(
                old(rdr)@,
                final(rdr)@,
                r,
                parse_generations(old(rdr)@.data, old(rdr)@.pos as int, old(rdr)@.bound()),
            ),
    {
        let length = read_u32(rdr)?;
        if 8 * (length as u64) > rdr.available() as u64 {
            return Err(Error::PrematureEof);
        }
        let seg = rdr.take(8 * (length as usize))?;
        let _ = seg.len();
        let mut generations: Vec<Generation> = Vec::new();
        let mut i: usize = 0;
        while i < length as usize
            invariant
                0 <= i <= length,
                seg@.len() == 8 * length,
                8 * length <= usize::MAX,
                generations@.len() == i,
                forall|j: int|
                    0 <= j < i ==> generations@[j] == generations_in(seg@, length as int)[j],
            decreases length - i,
        {
            let export_count = get_u32(seg.as_slice(), 8 * i);
            let name_count = get_u32(seg.as_slice(), 8 * i + 4);
            generations.push(Generation { export_count, name_count });
            i = i + 1;
        }
        assert(generations@ =~= generations_in(seg@, length as int));
        Ok(generations)
    }

    /// Writes the list with its length; a list too long for the length
    /// field is refused, and nothing is written.
    pub fn write_array(gens: &Vec<Generation>, out: &mut Vec<u8>) -> (r: Result<(), Error>)
        ensures
            gens@.len() <= u32::MAX ==> r is Ok && final(out)@ == old(out)@ + enc_generations(
                gens@,
            ),
            gens@.len() > u32::MAX ==> r == Err::<(), Error>(Error::TooLong) && final(out)@
                == old(out)@,
    {
        if gens.len() as u64 > u32::MAX as u64 {
            return Err(Error::TooLong);
        }
        write_u32(out, gens.len() as u32);
        let mut i: usize = 0;
        while i < gens.len()
            invariant
                0 <= i <= gens@.len(),
                out@ == old(out)@ + enc_u32(gens@.len() as u32) + enc_generation_records(
                    gens@,
                    i as int,
                ),
            decreases gens@.len() - i,
        {
            let ghost before = out@;
            gens[i].write(out);
            assert(out@ =~= old(out)@ + enc_u32(gens@.len() as u32) + enc_generation_records(
                gens@,
                i + 1,
            ));
            i = i + 1;
        }
        assert(out@ =~= old(out)@ + enc_generations(gens@));
        Ok(())
    }
}

/* The summary */

/// The summary that the bytes from `p` on hold: 28 fixed bytes, the folder
/// name, 72 fixed bytes, the generations, 72 fixed bytes.
pub open spec fn parse_summary(d: Seq<u8>, p: int, e: int) -> Result<(SummaryModel, int), Error> {
    if 28 > avail(p, e) {
        Err(Error::PrematureEof)
    } else {
        match parse_string(d, p + 28, e) {
            Err(err) => Err(err),
            Ok((folder_name, q)) => if 72 > avail(q, e) {
                Err(Error::PrematureEof)
            } else {
                match parse_generations(d, q + 72, e) {
                    Err(err) => Err(err),
                    Ok((generations, t)) => if 72 > avail(t, e) {
                        Err(Error::PrematureEof)
                    } else {
                        Ok(
                            (
                                summary_of(
                                    span(d, p, 28),
                                    folder_name,
                                    span(d, q, 72),
                                    generations,
                                    span(d, t, 72),
                                ),
                                t + 72,
                            ),
                        )
                    },
                }
            },
        }
    }
}

/// The summary whose three fixed parts are `head`, `mid` and `tail`.
pub open spec fn summary_of(
    head: Seq<u8>,
    folder_name: Seq<char>,
    mid: Seq<u8>,
    generations: Seq<Generation>,
    tail: Seq<u8>,
) -> SummaryModel {
    SummaryModel {
        tag: head.subrange(0, 4),
        file_version_ue4: u32_at(head, 4),
        file_version_license_ue4: u32_at(head, 8),
        custom_version: head.subrange(12, 24),
        total_header_size: u32_at(head, 24),
        folder_name,
        package_flags: u32_at(mid, 0),
        name_count: u32_at(mid, 4),
        name_offset: u32_at(mid, 8),
        gatherable_text_data_count: u32_at(mid, 12),
        gatherable_text_data_offset: u32_at(mid, 16),
        export_count: u32_at(mid, 20),
        export_offset: u32_at(mid, 24),
        import_count: u32_at(mid, 28),
        import_offset: u32_at(mid, 32),
        depends_offset: u32_at(mid, 36),
        soft_package_references_count: u32_at(mid, 40),
        soft_package_references_offset: u32_at(mid, 44),
        searchable_names_offset: u32_at(mid, 48),
        thumbnail_table_offset: u32_at(mid, 52),
        guid: mid.subrange(56, 72),
        generations,
        saved_by_engine_version: tail.subrange(0, 16),
        compatible_with_engine_version: tail.subrange(16, 32),
        compression_flags: u32_at(tail, 32),
        package_source: i64_at(tail, 36),
        asset_registry_data_offset: u32_at(tail, 44),
        bulk_data_start_offset: u32_at(tail, 48),
        world_tile_info_data_offset: u32_at(tail, 52),
        chunk_ids: u64_at(tail, 56),
        preload_dependency_count: u32_at(tail, 64),
        preload_dependency_offset: u32_at(tail, 68),
    }
}

pub open spec fn enc_summary_head(s: SummaryModel) -> Seq<u8> {
    s.tag + enc_u32(s.file_version_ue4) + enc_u32(s.file_version_license_ue4) + s.custom_version
        + enc_u32(s.total_header_size)
}

pub open spec fn enc_summary_names(s: SummaryModel) -> Seq<u8> {
    enc_u32(s.package_flags) + enc_u32(s.name_count) + enc_u32(s.name_offset) + enc_u32(
        s.gatherable_text_data_count,
    ) + enc_u32(s.gatherable_text_data_offset)
}

pub open spec fn enc_summary_tables(s: SummaryModel) -> Seq<u8> {
    enc_u32(s.export_count) + enc_u32(s.export_offset) + enc_u32(s.import_count) + enc_u32(
        s.import_offset,
    ) + enc_u32(s.depends_offset)
}

pub open spec fn enc_summary_references(s: SummaryModel) -> Seq<u8> {
    enc_u32(s.soft_package_references_count) + enc_u32(s.soft_package_references_offset)
        + enc_u32(s.searchable_names_offset) + enc_u32(s.thumbnail_table_offset) + s.guid
}

pub open spec fn enc_summary_mid(s: SummaryModel) -> Seq<u8> {
    enc_summary_names(s) + enc_summary_tables(s) + enc_summary_references(s)
}

pub open spec fn enc_summary_versions(s: SummaryModel) -> Seq<u8> {
    s.saved_by_engine_version + s.compatible_with_engine_version + enc_u32(s.compression_flags)
        + enc_i64(s.package_source)
}

pub open spec fn enc_summary_offsets(s: SummaryModel) -> Seq<u8> {
    enc_u32(s.asset_registry_data_offset) + enc_u32(s.bulk_data_start_offset) + enc_u32(
        s.world_tile_info_data_offset,
    ) + enc_u64(s.chunk_ids) + enc_u32(s.preload_dependency_count) + enc_u32(
        s.preload_dependency_offset,
    )
}

pub open spec fn enc_summary_tail(s: SummaryModel) -> Seq<u8> {
    enc_summary_versions(s) + enc_summary_offsets(s)
}

/// The bytes of a summary, in the order in which it is read.
pub open spec fn enc_summary(s: SummaryModel) -> Seq<u8> {
    enc_summary_head(s) + enc_string(s.folder_name) + enc_summary_mid(s) + enc_generations(
        s.generations,
    ) + enc_summary_tail(s)
}

/// Whether a summary can be written: its folder name and its generations
/// fit their length fields.
pub open spec fn summary_fits(s: SummaryModel) -> bool {
    encode_utf8(s.folder_name).len() < u32::MAX && s.generations.len() <= u32::MAX
}

impl FileSummary {
    pub fn read(rdr: &mut ByteReader) -> (r: Result<Self, Error>)
        ensures
            reads_as(
                old(rdr)@,
                final(rdr)@,
                r,
                parse_summary(old(rdr)@.data, old(rdr)@.pos as int, old(rdr)@.bound()),
            ),
    {
        let head = rdr.take(28)?;
        let folder_name = read_string(rdr)?;
        let mid = rdr.take(72)?;
        let generations = Generation::read_array(rdr)?;
        let tail = rdr.take(72)?;
        let head = head.as_slice();
        let mid = mid.as_slice();
        let tail = tail.as_slice();
        Ok(
            FileSummary {
                tag: get_array::<4>(head, 0),
                file_version_ue4: get_u32(head, 4),
                file_version_license_ue4: get_u32(head, 8),
                custom_version: get_array::<12>(head, 12),
                total_header_size: get_u32(head, 24),
                package_flags: get_u32(mid, 0),
                folder_name,
                name_count: get_u32(mid, 4),
                name_offset: get_u32(mid, 8),
                gatherable_text_data_count: get_u32(mid, 12),
                gatherable_text_data_offset: get_u32(mid, 16),
                export_count: get_u32(mid, 20),
                export_offset: get_u32(mid, 24),
                import_count: get_u32(mid, 28),
                import_offset: get_u32(mid, 32),
                depends_offset: get_u32(mid, 36),
                soft_package_references_count: get_u32(mid, 40),
                soft_package_references_offset: get_u32(mid, 44),
                searchable_names_offset: get_u32(mid, 48),
                thumbnail_table_offset: get_u32(mid, 52),
                guid: get_array::<16>(mid, 56),
                generations,
                saved_by_engine_version: get_array::<16>(tail, 0),
                compatible_with_engine_version: get_array::<16>(tail, 16),
                compression_flags: get_u32(tail, 32),
                package_source: get_i64(tail, 36),
                asset_registry_data_offset: get_u32(tail, 44),
                bulk_data_start_offset: get_u32(tail, 48),
                world_tile_info_data_offset: get_u32(tail, 52),
                chunk_ids: get_u64(tail, 56),
                preload_dependency_count: get_u32(tail, 64),
                preload_dependency_offset: get_u32(tail, 68),
            },
        )
    }


    fn write_head(&self, out: &mut Vec<u8>)
        ensures
            final(out)@ == old(out)@ + enc_summary_head(self@),
    {
        write_bytes(out, self.tag.as_slice());
        write_u32(out, self.file_version_ue4);
        write_u32(out, self.file_version_license_ue4);
        write_bytes(out, self.custom_version.as_slice());
        write_u32(out, self.total_header_size);
        assert(out@ =~= old(out)@ + enc_summary_head(self@));
    }

    fn write_names(&self, out: &mut Vec<u8>)
        ensures
            final(out)@ == old(out)@ + enc_summary_names(self@),
    {
        write_u32(out, self.package_flags);
        write_u32(out, self.name_count);
        write_u32(out, self.name_offset);
        write_u32(out, self.gatherable_text_data_count);
        write_u32(out, self.gatherable_text_data_offset);
        assert(out@ =~= old(out)@ + enc_summary_names(self@));
    }

    fn write_tables(&self, out: &mut Vec<u8>)
        ensures
            final(out)@ == old(out)@ + enc_summary_tables(self@),
    {
        write_u32(out, self.export_count);
        write_u32(out, self.export_offset);
        write_u32(out, self.import_count);
        write_u32(out, self.import_offset);
        write_u32(out, self.depends_offset);
        assert(out@ =~= old(out)@ + enc_summary_tables(self@));
    }

    fn write_references(&self, out: &mut Vec<u8>)
        ensures
            final(out)@ == old(out)@ + enc_summary_references(self@),
    {
        write_u32(out, self.soft_package_references_count);
        write_u32(out, self.soft_package_references_offset);
        write_u32(out, self.searchable_names_offset);
        write_u32(out, self.thumbnail_table_offset);
        write_bytes(out, self.guid.as_slice());
        assert(out@ =~= old(out)@ + enc_summary_references(self@));
    }

    fn write_mid(&self, out: &mut Vec<u8>)
        ensures
            final(out)@ == old(out)@ + enc_summary_mid(self@),
    {
        self.write_names(out);
        self.write_tables(out);
        self.write_references(out);
        assert(out@ =~= old(out)@ + enc_summary_mid(self@));
    }

    fn write_versions(&self, out: &mut Vec<u8>)
        ensures
            final(out)@ == old(out)@ + enc_summary_versions(self@),
    {
        write_bytes(out, self.saved_by_engine_version.as_slice());
        write_bytes(out, self.compatible_with_engine_version.as_slice());
        write_u32(out, self.compression_flags);
        write_i64(out, self.package_source);
        assert(out@ =~= old(out)@ + enc_summary_versions(self@));
    }

    fn write_offsets(&self, out: &mut Vec<u8>)
        ensures
            final(out)@ == old(out)@ + enc_summary_offsets(self@),
    {
        write_u32(out, self.asset_registry_data_offset);
        write_u32(out, self.bulk_data_start_offset);
        write_u32(out, self.world_tile_info_data_offset);
        write_u64(out, self.chunk_ids);
        write_u32(out, self.preload_dependency_count);
        write_u32(out, self.preload_dependency_offset);
        assert(out@ =~= old(out)@ + enc_summary_offsets(self@));
    }

    fn write_tail(&self, out: &mut Vec<u8>)
        ensures
            final(out)@ == old(out)@ + enc_summary_tail(self@),
    {
        self.write_versions(out);
        self.write_offsets(out);
        assert(out@ =~= old(out)@ + enc_summary_tail(self@));
    }

    /// Writes the summary. One whose folder name or generations do not fit
    /// their length fields is refused.
    pub fn write(&self, out: &mut Vec<u8>) -> (r: Result<(), Error>)
        ensures
            summary_fits(self@) ==> r is Ok && final(out)@ == old(out)@ + enc_summary(self@),
            !summary_fits(self@) ==> r == Err::<(), Error>(Error::TooLong),
    {
        let folder = self.folder_name.as_str().as_bytes();
        if folder.len() as u64 >= u32::MAX as u64 || self.generations.len() as u64 > u32::MAX
            as u64 {
            return Err(Error::TooLong);
        }
        self.write_head(out);
        let _ = write_string(out, self.folder_name.as_str());
        self.write_mid(out);
        let _ = Generation::write_array(&self.generations, out);
        self.write_tail(out);
        assert(out@ =~= old(out)@ + enc_summary(self@));
        Ok(())
    }

    /// The size that the sections after the summary are placed by: 188
    /// bytes, the folder name and its terminator.
    pub fn byte_size(&self) -> (r: usize)
        requires
            188 + encode_utf8(self@.folder_name).len() + 1 <= usize::MAX,
        ensures
            r == 188 + encode_utf8(self@.folder_name).len() + 1,
    {
        188 + self.folder_name.as_str().as_bytes().len() + 1
    }
}

} // verus!
