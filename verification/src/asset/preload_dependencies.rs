use vstd::prelude::*;
use crate::asset::exports::ExportModel;
use crate::asset::exports::Exports;
use crate::asset::file_summary::FileSummary;
use crate::asset::imports::Import;
use crate::asset::imports::Imports;
use crate::asset::name_map::NameMap;
use crate::asset::reference::encodable;
use crate::asset::reference::enc_reference;
use crate::asset::reference::parse_reference;
use crate::asset::reference::Reference;
use crate::error::Error;
use crate::reader::ByteReader;
use crate::util::reads_as;

verus! {

/// The objects that have to be loaded before the asset's own.
#[derive(Debug, Clone, PartialEq, Eq)]
pub struct PreloadDependencies {
    pub dependencies: Vec<Reference>,
}

impl View for PreloadDependencies {
    type V = Seq<Reference>;

    open spec fn view(&self) -> Seq<Reference> {
        self.dependencies@
    }
}

/// `count` references in a row.
pub open spec fn parse_references(
    d: Seq<u8>,
    p: int,
    e: int,
    imports: Seq<Import>,
    exports: Seq<ExportModel>,
    count: nat,
    acc: Seq<Reference>,
) -> Result<(Seq<Reference>, int), Error>
    decreases count,
{
    if count == 0 {
        Ok((acc, p))
    } else {
        match parse_reference(d, p, e, imports, exports) {
            Err(err) => Err(err),
            Ok((r, q)) => parse_references(
                d,
                q,
                e,
                imports,
                exports,
                (count - 1) as nat,
                acc.push(r),
            ),
        }
    }
}

/// The preload dependencies that start at `p`, which has to be where the
/// summary says they start.
pub open spec fn parse_preload_dependencies(
    d: Seq<u8>,
    p: int,
    e: int,
    imports: Seq<Import>,
    exports: Seq<ExportModel>,
    offset: u32,
    count: u32,
) -> Result<(Seq<Reference>, int), Error> {
    if p != offset {
        Err(Error::PositionMismatch { expected: offset as u64, actual: p as u64 })
    } else {
        parse_references(d, p, e, imports, exports, count as nat, Seq::empty())
    }
}

/// The bytes of the first `n` references.
pub open spec fn enc_references(
    refs: Seq<Reference>,
    imports: Seq<Import>,
    exports: Seq<ExportModel>,
    n: int,
) -> Seq<u8>
    decreases n,
{
    if n <= 0 {
        Seq::empty()
    } else {
        enc_references(refs, imports, exports, n - 1) + enc_reference(
            refs[n - 1],
            imports,
            exports,
        )
    }
}

/// Whether every reference names an import or an export of the tables.
pub open spec fn all_encodable(
    refs: Seq<Reference>,
    imports: Seq<Import>,
    exports: Seq<ExportModel>,
) -> bool {
    forall|i: int| 0 <= i < refs.len() ==> encodable(#[trigger] refs[i], imports, exports)
}

impl PreloadDependencies {
    pub fn read(
        rdr: &mut ByteReader,
        summary: &FileSummary,
        imports: &Imports,
        exports: &Exports,
    ) -> (r: Result<Self, Error>)
        ensures
            reads_as(
                old(rdr)@,
                final(rdr)@,
                r,
                parse_preload_dependencies(
                    old(rdr)@.data,
                    old(rdr)@.pos as int,
                    old(rdr)@.bound(),
                    imports@,
                    exports@,
                    summary.preload_dependency_offset,
                    summary.preload_dependency_count,
                ),
            ),
            old(rdr)@.pos != summary.preload_dependency_offset ==> final(rdr)@ == old(rdr)@,
    {
        if rdr.position() != summary.preload_dependency_offset as u64 {
            return Err(
                Error::PositionMismatch {
                    expected: summary.preload_dependency_offset as u64,
                    actual: rdr.position(),
                },
            );
        }
        let ghost d = rdr@.data;
        let ghost e = rdr@.bound();
        let ghost p0 = rdr@.pos as int;
        let count = summary.preload_dependency_count;
        let mut dependencies: Vec<Reference> = Vec::new();
        let mut i: u32 = 0;
        while i < count
            invariant
                0 <= i <= count,
                rdr@ == old(rdr)@.at(rdr@.pos as int),
                d == old(rdr)@.data,
                e == old(rdr)@.bound(),
                p0 == old(rdr)@.pos,
                p0 == summary.preload_dependency_offset,
                count == summary.preload_dependency_count,
                dependencies@.len() == i,
                parse_references(d, p0, e, imports@, exports@, count as nat, Seq::empty())
                    == parse_references(
                    d,
                    rdr@.pos as int,
                    e,
                    imports@,
                    exports@,
                    (count - i) as nat,
                    dependencies@,
                ),
            decreases count - i,
        {
            let ghost p = rdr@.pos as int;
            let ghost before = dependencies@;
            let reference = match Reference::read(rdr, imports, exports) {
                Ok(reference) => reference,
                Err(err) => {
                    assert(parse_references(
                        d,
                        p,
                        e,
                        imports@,
                        exports@,
                        (count - i) as nat,
                        before,
                    ) == Err::<(Seq<Reference>, int), Error>(err));
                    return Err(err);
                },
            };
            dependencies.push(reference);
            i = i + 1;
        }
        Ok(PreloadDependencies { dependencies })
    }

    /// Writes the number of every reference in order. Fails at the first
    /// reference that names neither an import nor an export.
    pub fn write(
        &self,
        out: &mut Vec<u8>,
        names: &NameMap,
        imports: &Imports,
        exports: &Exports,
    ) -> (r: Result<(), Error>)
        ensures
            match r {
                Ok(()) => all_encodable(self@, imports@, exports@) && final(out)@ == old(out)@
                    + enc_references(self@, imports@, exports@, self@.len() as int),
                Err(e) => !all_encodable(self@, imports@, exports@) && e == Error::MissingName,
            },
    {
        let mut i: usize = 0;
        while i < self.dependencies.len()
            invariant
                0 <= i <= self@.len(),
                forall|j: int| 0 <= j < i ==> encodable(#[trigger] self@[j], imports@, exports@),
                out@ == old(out)@ + enc_references(self@, imports@, exports@, i as int),
            decreases self@.len() - i,
        {
            match self.dependencies[i].write(out, names, imports, exports) {
                Ok(()) => {},
                Err(err) => {
                    return Err(err);
                },
            }
            assert(out@ =~= old(out)@ + enc_references(self@, imports@, exports@, i + 1));
            i = i + 1;
        }
        Ok(())
    }

    /// The bytes that the list takes: 4 for each reference.
    pub fn byte_size(&self) -> (r: usize)
        requires
            4 * self@.len() <= usize::MAX,
        ensures
            r == 4 * self@.len(),
    {
        self.dependencies.len() * 4
    }
}

} // verus!
