use vstd::prelude::*;
use crate::asset::file_summary::FileSummary;
use crate::asset::name_map::enc_name_variant;
use crate::asset::name_map::name_variant_fits;
use crate::asset::name_map::parse_name_variant;
use crate::asset::name_map::NameMap;
use crate::asset::name_map::NameVariant;
use crate::error::fails_with;
use crate::error::Error;
use crate::error::Failure;
use crate::error::Place;
use crate::reader::ByteReader;
use crate::util::avail;
use crate::util::bool_at;
use crate::util::enc_bool;
use crate::util::enc_i32;
use crate::util::enc_u32;
use crate::util::enc_u64;
use crate::util::get_array;
use crate::util::get_bool;
use crate::util::get_i32;
use crate::util::get_u32;
use crate::util::get_u64;
use crate::util::i32_at;
use crate::util::reads_as;
use crate::util::span;
use crate::util::u32_at;
use crate::util::u64_at;
use crate::util::write_bool;
use crate::util::write_bytes;
use crate::util::write_i32;
use crate::util::write_u32;
use crate::util::write_u64;

verus! {

/// An object that the asset defines. Its property bag lies in the body file.
#[derive(Debug, Clone, Copy, PartialEq, Eq)]
pub struct Export {
    pub class: u32,
    pub super_index: i32,
    pub template: u32,
    pub outer: i32,
    pub object_name: NameVariant,
    pub object_flags: u32,
    /// The length of the property bag.
    pub serial_size: u64,
    /// Where the property bag starts, counted from the start of the header file.
    pub serial_offset: u32,
    /// Where the property bag starts in the body file. Not stored.
    pub export_file_offset: u64,
    pub forced_export: bool,
    pub not_for_client: bool,
    pub not_for_server: bool,
    pub was_filtered: bool,
    pub package_guid: [u8; 16],
    pub package_flags: u32,
    pub not_always_loaded_for_editor_game: bool,
    pub is_asset: bool,
    pub first_export_dependency: u32,
    pub serialization_before_serialization_dependencies: u32,
    pub create_before_serialization_dependencies: u32,
    pub serialization_before_create_dependencies: u32,
    pub create_before_create_dependencies: u32,
}

/// An [`Export`] as plain values.
pub struct ExportModel {
    pub class: u32,
    pub super_index: i32,
    pub template: u32,
    pub outer: i32,
    pub object_name: NameVariant,
    pub object_flags: u32,
    pub serial_size: u64,
    pub serial_offset: u32,
    pub export_file_offset: u64,
    pub forced_export: bool,
    pub not_for_client: bool,
    pub not_for_server: bool,
    pub was_filtered: bool,
    pub package_guid: Seq<u8>,
    pub package_flags: u32,
    pub not_always_loaded_for_editor_game: bool,
    pub is_asset: bool,
    pub first_export_dependency: u32,
    pub serialization_before_serialization_dependencies: u32,
    pub create_before_serialization_dependencies: u32,
    pub serialization_before_create_dependencies: u32,
    pub create_before_create_dependencies: u32,
}

impl View for Export {
    type V = ExportModel;

    open spec fn view(&self) -> ExportModel {
        ExportModel {
            class: self.class,
            super_index: self.super_index,
            template: self.template,
            outer: self.outer,
            object_name: self.object_name,
            object_flags: self.object_flags,
            serial_size: self.serial_size,
            serial_offset: self.serial_offset,
            export_file_offset: self.export_file_offset,
            forced_export: self.forced_export,
            not_for_client: self.not_for_client,
            not_for_server: self.not_for_server,
            was_filtered: self.was_filtered,
            package_guid: self.package_guid@,
            package_flags: self.package_flags,
            not_always_loaded_for_editor_game: self.not_always_loaded_for_editor_game,
            is_asset: self.is_asset,
            first_export_dependency: self.first_export_dependency,
            serialization_before_serialization_dependencies: self.serialization_before_serialization_dependencies,
            create_before_serialization_dependencies: self.create_before_serialization_dependencies,
            serialization_before_create_dependencies: self.serialization_before_create_dependencies,
            create_before_create_dependencies: self.create_before_create_dependencies,
        }
    }
}

/// The export table.
#[derive(Debug, Clone, PartialEq, Eq)]
pub struct Exports {
    pub exports: Vec<Export>,
}

/// The views of the entries of a table.
pub open spec fn export_models(exports: Seq<Export>) -> Seq<ExportModel> {
    exports.map_values(|x: Export| x@)
}

impl View for Exports {
    type V = Seq<ExportModel>;

    open spec fn view(&self) -> Seq<ExportModel> {
        export_models(self.exports@)
    }
}

/// The export whose 16 bytes before the name are `head` and whose 80
/// bytes after it are `tail`. Its place in the body file is given.
pub open spec fn export_of(
    head: Seq<u8>,
    object_name: NameVariant,
    tail: Seq<u8>,
    export_file_offset: u64,
) -> ExportModel {
    ExportModel {
        class: u32_at(head, 0),
        super_index: i32_at(head, 4),
        template: u32_at(head, 8),
        outer: i32_at(head, 12),
        object_name,
        object_flags: u32_at(tail, 0),
        serial_size: u64_at(tail, 4),
        serial_offset: u32_at(tail, 12),
        export_file_offset,
        forced_export: bool_at(tail, 16),
        not_for_client: bool_at(tail, 20),
        not_for_server: bool_at(tail, 24),
        was_filtered: bool_at(tail, 28),
        package_guid: tail.subrange(32, 48),
        package_flags: u32_at(tail, 48),
        not_always_loaded_for_editor_game: bool_at(tail, 52),
        is_asset: bool_at(tail, 56),
        first_export_dependency: u32_at(tail, 60),
        serialization_before_serialization_dependencies: u32_at(tail, 64),
        create_before_serialization_dependencies: u32_at(tail, 68),
        serialization_before_create_dependencies: u32_at(tail, 72),
        create_before_create_dependencies: u32_at(tail, 76),
    }
}

/// An export is 104 bytes: 16 fixed bytes, the object name, 80 fixed bytes.
/// Its place in the body file is not stored and reads as 0.
pub open spec fn parse_export(d: Seq<u8>, p: int, e: int, names: int) -> Result<
    (ExportModel, int),
    Error,
> {
    if 16 > avail(p, e) {
        Err(Error::PrematureEof)
    } else {
        match parse_name_variant(d, p + 16, e, names) {
            Err(err) => Err(err),
            Ok((object_name, q)) => if 80 > avail(q, e) {
                Err(Error::PrematureEof)
            } else {
                Ok((export_of(span(d, p, 16), object_name, span(d, q, 80), 0), q + 80))
            },
        }
    }
}

pub open spec fn enc_export_head(x: ExportModel) -> Seq<u8> {
    enc_u32(x.class) + enc_i32(x.super_index) + enc_u32(x.template) + enc_i32(x.outer)
}

pub open spec fn enc_export_serial(x: ExportModel) -> Seq<u8> {
    enc_u32(x.object_flags) + enc_u64(x.serial_size) + enc_u32(x.serial_offset)
}

pub open spec fn enc_export_filters(x: ExportModel) -> Seq<u8> {
    enc_bool(x.forced_export) + enc_bool(x.not_for_client) + enc_bool(x.not_for_server)
        + enc_bool(x.was_filtered)
}

pub open spec fn enc_export_package(x: ExportModel) -> Seq<u8> {
    x.package_guid + enc_u32(x.package_flags) + enc_bool(x.not_always_loaded_for_editor_game)
        + enc_bool(x.is_asset)
}

pub open spec fn enc_export_dependencies(x: ExportModel) -> Seq<u8> {
    enc_u32(x.first_export_dependency) + enc_u32(
        x.serialization_before_serialization_dependencies,
    ) + enc_u32(x.create_before_serialization_dependencies) + enc_u32(
        x.serialization_before_create_dependencies,
    ) + enc_u32(x.create_before_create_dependencies)
}

pub open spec fn enc_export_tail(x: ExportModel) -> Seq<u8> {
    enc_export_serial(x) + enc_export_filters(x) + enc_export_package(x)
        + enc_export_dependencies(x)
}

/// The bytes of an export. Its place in the body file is not among them.
pub open spec fn enc_export(x: ExportModel) -> Seq<u8> {
    enc_export_head(x) + enc_name_variant(x.object_name) + enc_export_tail(x)
}

/// `count` exports in a row. Each gets as its place in the body file the
/// sum of the sizes before it, which has to fit 64 bits.
pub open spec fn parse_exports(
    d: Seq<u8>,
    p: int,
    e: int,
    names: int,
    count: nat,
    acc: Seq<ExportModel>,
    offset: int,
) -> Result<(Seq<ExportModel>, int), Error>
    decreases count,
{
    if count == 0 {
        Ok((acc, p))
    } else if offset > u64::MAX {
        Err(Error::TooLong)
    } else {
        match parse_export(d, p, e, names) {
            Err(err) => Err(err),
            Ok((x, q)) => parse_exports(
                d,
                q,
                e,
                names,
                (count - 1) as nat,
                acc.push(placed(x, offset as u64)),
                offset + x.serial_size,
            ),
        }
    }
}

/// The export at another place in the body file.
pub open spec fn placed(x: ExportModel, export_file_offset: u64) -> ExportModel {
    ExportModel { export_file_offset, ..x }
}

/// The export table that starts at `p`, which has to be where the
/// summary says it starts.
pub open spec fn parse_export_table(
    d: Seq<u8>,
    p: int,
    e: int,
    names: int,
    offset: u32,
    count: u32,
) -> Result<(Seq<ExportModel>, int), Error> {
    if p != offset {
        Err(Error::PositionMismatch { expected: offset as u64, actual: p as u64 })
    } else {
        parse_exports(d, p, e, names, count as nat, Seq::empty(), 0)
    }
}

/// Where the first of `count` exports in a row that cannot be read starts.
pub open spec fn failing_export(
    d: Seq<u8>,
    p: int,
    e: int,
    names: int,
    count: nat,
    offset: int,
) -> int
    decreases count,
{
    if count == 0 || offset > u64::MAX {
        p
    } else {
        match parse_export(d, p, e, names) {
            Err(_) => p,
            Ok((x, q)) => failing_export(
                d,
                q,
                e,
                names,
                (count - 1) as nat,
                offset + x.serial_size,
            ),
        }
    }
}

/// The export at which an export table can be read no further, where it
/// starts where the summary says.
pub open spec fn export_table_trail(
    d: Seq<u8>,
    p: int,
    e: int,
    names: int,
    offset: u32,
    count: u32,
) -> Seq<Place> {
    if p == offset {
        seq![Place::Entry(failing_export(d, p, e, names, count as nat, 0) as u64)]
    } else {
        Seq::empty()
    }
}

/// The bytes of the first `n` exports.
pub open spec fn enc_exports(exports: Seq<ExportModel>, n: int) -> Seq<u8>
    decreases n,
{
    if n <= 0 {
        Seq::empty()
    } else {
        enc_exports(exports, n - 1) + enc_export(exports[n - 1])
    }
}

pub open spec fn exports_fit(exports: Seq<ExportModel>, names: int) -> bool {
    forall|i: int|
        0 <= i < exports.len() ==> name_variant_fits((#[trigger] exports[i]).object_name, names)
}

/// Whether `i` is the first export whose object name is `name`.
pub open spec fn is_first_export(exports: Seq<ExportModel>, name: NameVariant, i: int) -> bool {
    &&& 0 <= i < exports.len()
    &&& exports[i].object_name == name
    &&& forall|j: int| 0 <= j < i ==> (#[trigger] exports[j]).object_name != name
}

pub open spec fn has_export(exports: Seq<ExportModel>, name: NameVariant) -> bool {
    exists|i: int| 0 <= i < exports.len() && (#[trigger] exports[i]).object_name == name
}

/// The number that stands for the export at place `i`: positive, and one
/// above its place.
pub open spec fn export_index(i: int) -> int {
    i + 1
}

impl Export {
    /// Reads an export. Its place in the body file is left at 0.
    pub fn read(rdr: &mut ByteReader, names: &NameMap) -> (r: Result<Self, Error>)
        ensures
            reads_as(
                old(rdr)@,
                final(rdr)@,
                r,
                parse_export(
                    old(rdr)@.data,
                    old(rdr)@.pos as int,
                    old(rdr)@.bound(),
                    names@.len() as int,
                ),
            ),
    {
        let head = rdr.take(16)?;
        let object_name = NameVariant::read(rdr, names)?;
        let tail = rdr.take(80)?;
        let head = head.as_slice();
        let tail = tail.as_slice();
        Ok(
            Export {
                class: get_u32(head, 0),
                super_index: get_i32(head, 4),
                template: get_u32(head, 8),
                outer: get_i32(head, 12),
                object_name,
                object_flags: get_u32(tail, 0),
                serial_size: get_u64(tail, 4),
                serial_offset: get_u32(tail, 12),
                export_file_offset: 0,
                forced_export: get_bool(tail, 16),
                not_for_client: get_bool(tail, 20),
                not_for_server: get_bool(tail, 24),
                was_filtered: get_bool(tail, 28),
                package_guid: get_array::<16>(tail, 32),
                package_flags: get_u32(tail, 48),
                not_always_loaded_for_editor_game: get_bool(tail, 52),
                is_asset: get_bool(tail, 56),
                first_export_dependency: get_u32(tail, 60),
                serialization_before_serialization_dependencies: get_u32(tail, 64),
                create_before_serialization_dependencies: get_u32(tail, 68),
                serialization_before_create_dependencies: get_u32(tail, 72),
                create_before_create_dependencies: get_u32(tail, 76),
            },
        )
    }

    fn write_head(&self, out: &mut Vec<u8>)
        ensures
            final(out)@ == old(out)@ + enc_export_head(self@),
    {
        write_u32(out, self.class);
        write_i32(out, self.super_index);
        write_u32(out, self.template);
        write_i32(out, self.outer);
        assert(out@ =~= old(out)@ + enc_export_head(self@));
    }

    fn write_serial(&self, out: &mut Vec<u8>)
        ensures
            final(out)@ == old(out)@ + enc_export_serial(self@),
    {
        write_u32(out, self.object_flags);
        write_u64(out, self.serial_size);
        write_u32(out, self.serial_offset);
        assert(out@ =~= old(out)@ + enc_export_serial(self@));
    }

    fn write_filters(&self, out: &mut Vec<u8>)
        ensures
            final(out)@ == old(out)@ + enc_export_filters(self@),
    {
        write_bool(out, self.forced_export);
        write_bool(out, self.not_for_client);
        write_bool(out, self.not_for_server);
        write_bool(out, self.was_filtered);
        assert(out@ =~= old(out)@ + enc_export_filters(self@));
    }

    fn write_package(&self, out: &mut Vec<u8>)
        ensures
            final(out)@ == old(out)@ + enc_export_package(self@),
    {
        write_bytes(out, self.package_guid.as_slice());
        write_u32(out, self.package_flags);
        write_bool(out, self.not_always_loaded_for_editor_game);
        write_bool(out, self.is_asset);
        assert(out@ =~= old(out)@ + enc_export_package(self@));
    }

    fn write_dependencies(&self, out: &mut Vec<u8>)
        ensures
            final(out)@ == old(out)@ + enc_export_dependencies(self@),
    {
        write_u32(out, self.first_export_dependency);
        write_u32(out, self.serialization_before_serialization_dependencies);
        write_u32(out, self.create_before_serialization_dependencies);
        write_u32(out, self.serialization_before_create_dependencies);
        write_u32(out, self.create_before_create_dependencies);
        assert(out@ =~= old(out)@ + enc_export_dependencies(self@));
    }

    fn write_tail(&self, out: &mut Vec<u8>)
        ensures
            final(out)@ == old(out)@ + enc_export_tail(self@),
    {
        self.write_serial(out);
        self.write_filters(out);
        self.write_package(out);
        self.write_dependencies(out);
        assert(out@ =~= old(out)@ + enc_export_tail(self@));
    }

    /// Writes the export. One whose object name points outside the table
    /// is refused.
    pub fn write(&self, out: &mut Vec<u8>, names: &NameMap) -> (r: Result<(), Error>)
        ensures
            name_variant_fits(self.object_name, names@.len() as int) ==> r is Ok && final(out)@
                == old(out)@ + enc_export(self@),
            !name_variant_fits(self.object_name, names@.len() as int) ==> r == Err::<(), Error>(
                Error::MissingName,
            ),
    {
        self.write_head(out);
        self.object_name.write(out, names)?;
        self.write_tail(out);
        assert(out@ =~= old(out)@ + enc_export(self@));
        Ok(())
    }
}

impl Exports {
    pub fn read(rdr: &mut ByteReader, summary: &FileSummary, names: &NameMap) -> (r: Result<
        Self,
        Failure,
    >)
        ensures
            final(rdr)@.data == old(rdr)@.data,
            final(rdr)@.limits == old(rdr)@.limits,
            match parse_export_table(
                old(rdr)@.data,
                old(rdr)@.pos as int,
                old(rdr)@.bound(),
                names@.len() as int,
                summary.export_offset,
                summary.export_count,
            ) {
                Ok((exports, q)) => r is Ok && r->Ok_0@ == exports && final(rdr)@.pos == q,
                Err(err) => fails_with(
                    r,
                    err,
                    export_table_trail(
                        old(rdr)@.data,
                        old(rdr)@.pos as int,
                        old(rdr)@.bound(),
                        names@.len() as int,
                        summary.export_offset,
                        summary.export_count,
                    ),
                ),
            },
            old(rdr)@.pos != summary.export_offset ==> final(rdr)@ == old(rdr)@,
    {
        if rdr.position() != summary.export_offset as u64 {
            return Err(
                Failure::plain(
                    Error::PositionMismatch {
                        expected: summary.export_offset as u64,
                        actual: rdr.position(),
                    },
                ),
            );
        }
        let ghost d = rdr@.data;
        let ghost e = rdr@.bound();
        let ghost p0 = rdr@.pos as int;
        let ghost n = names@.len() as int;
        let mut exports: Vec<Export> = Vec::new();
        // The place of the next export in the body file, unless it is past 64 bits.
        let mut export_file_offset: Option<u64> = Some(0);
        let ghost mut offset: int = 0;
        let mut i: u32 = 0;
        assert(export_models(exports@) =~= Seq::empty());
        while i < summary.export_count
            invariant
                0 <= i <= summary.export_count,
                rdr@ == old(rdr)@.at(rdr@.pos as int),
                d == old(rdr)@.data,
                e == old(rdr)@.bound(),
                p0 == old(rdr)@.pos,
                p0 == summary.export_offset,
                n == names@.len(),
                exports@.len() == i,
                offset >= 0,
                match export_file_offset {
                    Some(o) => o == offset,
                    None => offset > u64::MAX,
                },
                parse_exports(d, p0, e, n, summary.export_count as nat, Seq::empty(), 0)
                    == parse_exports(
                    d,
                    rdr@.pos as int,
                    e,
                    n,
                    (summary.export_count - i) as nat,
                    export_models(exports@),
                    offset,
                ),
                failing_export(d, p0, e, n, summary.export_count as nat, 0) == failing_export(
                    d,
                    rdr@.pos as int,
                    e,
                    n,
                    (summary.export_count - i) as nat,
                    offset,
                ),
            decreases summary.export_count - i,
        {
            let ghost p = rdr@.pos as int;
            let ghost before = export_models(exports@);
            let start = rdr.position();
            let place = match export_file_offset {
                Some(place) => place,
                None => {
                    return Err(Failure::at(Error::TooLong, Place::Entry(start)));
                },
            };
            let mut object = match Export::read(rdr, names) {
                Ok(object) => object,
                Err(err) => {
                    assert(parse_exports(
                        d,
                        p,
                        e,
                        n,
                        (summary.export_count - i) as nat,
                        before,
                        offset,
                    ) == Err::<(Seq<ExportModel>, int), Error>(err));
                    return Err(Failure::at(err, Place::Entry(start)));
                },
            };
            let ghost read = object@;
            object.export_file_offset = place;
            export_file_offset = if object.serial_size <= u64::MAX - place {
                Some(place + object.serial_size)
            } else {
                None
            };
            proof {
                offset = offset + object.serial_size;
            }
            exports.push(object);
            assert(export_models(exports@) =~= before.push(placed(read, place)));
            i = i + 1;
        }
        Ok(Exports { exports })
    }

    /// Writes every export in order. Fails at the first export that cannot be written.
    pub fn write(&self, out: &mut Vec<u8>, names: &NameMap) -> (r: Result<(), Error>)
        ensures
            exports_fit(self@, names@.len() as int) ==> r is Ok && final(out)@ == old(out)@
                + enc_exports(self@, self@.len() as int),
            !exports_fit(self@, names@.len() as int) ==> r == Err::<(), Error>(Error::MissingName),
    {
        let mut i: usize = 0;
        while i < self.exports.len()
            invariant
                0 <= i <= self@.len(),
                self@.len() == self.exports@.len(),
                out@ == old(out)@ + enc_exports(self@, i as int),
                forall|j: int|
                    0 <= j < i ==> name_variant_fits(
                        (#[trigger] self@[j]).object_name,
                        names@.len() as int,
                    ),
            decreases self@.len() - i,
        {
            assert(self@[i as int] == self.exports@[i as int]@);
            match self.exports[i].write(out, names) {
                Ok(()) => {},
                Err(err) => {
                    return Err(err);
                },
            }
            assert(out@ =~= old(out)@ + enc_exports(self@, i + 1));
            i = i + 1;
        }
        Ok(())
    }

    /// The number that stands for the first export named `object`, where
    /// there is one that a positive 32-bit number can stand for.
    pub fn serialized_index_of(&self, object: &NameVariant) -> (r: Option<u32>)
        ensures
            match r {
                Some(idx) => is_first_export(self@, *object, idx - 1) && idx <= i32::MAX,
                None => forall|i: int| is_first_export(self@, *object, i) ==> i >= i32::MAX,
            },
    {
        let mut i: usize = 0;
        while i < self.exports.len()
            invariant
                0 <= i <= self@.len(),
                self@.len() == self.exports@.len(),
                forall|j: int| 0 <= j < i ==> (#[trigger] self@[j]).object_name != *object,
            decreases self@.len() - i,
        {
            assert(self@[i as int] == self.exports@[i as int]@);
            if self.exports[i].object_name == *object {
                if i >= i32::MAX as usize {
                    assert forall|k: int| is_first_export(self@, *object, k) implies k
                        >= i32::MAX by {
                        if k < i {
                            assert(self@[k].object_name != *object);
                        } else if k > i {
                            assert(self@[i as int].object_name == *object);
                        }
                    }
                    return None;
                }
                assert(is_first_export(self@, *object, i as int));
                return Some(i as u32 + 1);
            }
            i = i + 1;
        }
        None
    }

    /// The export at place `index`.
    pub fn lookup(&self, index: u64) -> (r: Result<&Export, Error>)
        ensures
            match r {
                Ok(x) => index < self@.len() && x@ == self@[index as int],
                Err(e) => index >= self@.len() && e == Error::IndexOutOfRange,
            },
    {
        if index >= self.exports.len() as u64 {
            return Err(Error::IndexOutOfRange);
        }
        Ok(&self.exports[index as usize])
    }

    /// The bytes that the table takes: 104 for each export.
    pub fn byte_size(&self) -> (r: usize)
        requires
            104 * self@.len() <= usize::MAX,
        ensures
            r == 104 * self@.len(),
    {
        104 * self.exports.len()
    }
}

/// Where some export has the name, a first one has it.
pub proof fn lemma_first_export_exists(exports: Seq<ExportModel>, name: NameVariant, k: int)
    requires
        0 <= k < exports.len(),
        exports[k].object_name == name,
    ensures
        exists|i: int| is_first_export(exports, name, i) && i <= k,
    decreases k,
{
    if exists|j: int| 0 <= j < k && (#[trigger] exports[j]).object_name == name {
        let j = choose|j: int| 0 <= j < k && (#[trigger] exports[j]).object_name == name;
        lemma_first_export_exists(exports, name, j);
    } else {
        assert(is_first_export(exports, name, k));
    }
}

} // verus!
