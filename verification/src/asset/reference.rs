use vstd::prelude::*;
use vstd::string::StringExecFns;
use crate::asset::exports::is_first_export;
use crate::asset::exports::ExportModel;
use crate::asset::exports::Exports;
use crate::asset::imports::import_place;
use crate::asset::imports::is_first_import;
use crate::asset::imports::Import;
use crate::asset::imports::Imports;
use crate::asset::name_map::surface;
use crate::asset::name_map::NameMap;
use crate::asset::name_map::NameModel;
use crate::asset::name_map::NameVariant;
use crate::error::Error;
use crate::reader::ByteReader;
use crate::util::avail;
use crate::util::enc_i32;
use crate::util::i32_at;
use crate::util::read_i32;
use crate::util::reads;
use crate::util::write_i32;

verus! {

/// What an object index points at: nothing, an import or an export.
#[derive(Debug, Clone, Copy, PartialEq, Eq, Structural)]
pub enum Reference {
    UObject,
    Import(NameVariant),
    Export(NameVariant),
}

/// Whether `idx` is the number that stands for the reference: 0 for
/// nothing, a negative number for the first import of that name, a
/// positive number for the first export of that name.
pub open spec fn encodes(
    r: Reference,
    imports: Seq<Import>,
    exports: Seq<ExportModel>,
    idx: i32,
) -> bool {
    match r {
        Reference::UObject => idx == 0,
        Reference::Import(name) => is_first_import(imports, name, import_place(idx)),
        Reference::Export(name) => is_first_export(exports, name, idx - 1),
    }
}

/// Whether a 32-bit number stands for the reference.
pub open spec fn encodable(r: Reference, imports: Seq<Import>, exports: Seq<ExportModel>) -> bool {
    exists|idx: i32| encodes(r, imports, exports, idx)
}

/// The number that stands for an encodable reference.
pub open spec fn reference_index(
    r: Reference,
    imports: Seq<Import>,
    exports: Seq<ExportModel>,
) -> i32 {
    choose|idx: i32| encodes(r, imports, exports, idx)
}

/// The four bytes of an encodable reference.
pub open spec fn enc_reference(
    r: Reference,
    imports: Seq<Import>,
    exports: Seq<ExportModel>,
) -> Seq<u8> {
    enc_i32(reference_index(r, imports, exports))
}

/// One number at most stands for a reference.
pub proof fn lemma_encodes_unique(
    r: Reference,
    imports: Seq<Import>,
    exports: Seq<ExportModel>,
    a: i32,
    b: i32,
)
    requires
        encodes(r, imports, exports, a),
        encodes(r, imports, exports, b),
    ensures
        a == b,
        a == reference_index(r, imports, exports),
{
    assert forall|x: i32, y: i32|
        encodes(r, imports, exports, x) && encodes(r, imports, exports, y) implies x == y by {
        match r {
            Reference::UObject => {},
            Reference::Import(name) => {
                let i = import_place(x);
                let j = import_place(y);
                if i < j {
                    assert(imports[i].name == name);
                } else if j < i {
                    assert(imports[j].name == name);
                }
            },
            Reference::Export(name) => {
                let i = x - 1;
                let j = y - 1;
                if i < j {
                    assert(exports[i].object_name == name);
                } else if j < i {
                    assert(exports[j].object_name == name);
                }
            },
        }
    }
}

/// The reference that a number stands for.
pub open spec fn decode_reference(
    idx: i32,
    imports: Seq<Import>,
    exports: Seq<ExportModel>,
) -> Result<Reference, Error> {
    if idx == 0 {
        Ok(Reference::UObject)
    } else if idx < 0 {
        if import_place(idx) < imports.len() {
            Ok(Reference::Import(imports[import_place(idx)].name))
        } else {
            Err(Error::IndexOutOfRange)
        }
    } else {
        if idx - 1 < exports.len() {
            Ok(Reference::Export(exports[idx - 1].object_name))
        } else {
            Err(Error::IndexOutOfRange)
        }
    }
}

/// A reference is one signed 32-bit number.
pub open spec fn parse_reference(
    d: Seq<u8>,
    p: int,
    e: int,
    imports: Seq<Import>,
    exports: Seq<ExportModel>,
) -> Result<(Reference, int), Error> {
    if 4 > avail(p, e) {
        Err(Error::PrematureEof)
    } else {
        match decode_reference(i32_at(d, p), imports, exports) {
            Err(err) => Err(err),
            Ok(r) => Ok((r, p + 4)),
        }
    }
}

/// The text of a reference.
pub open spec fn reference_text(r: Reference, names: Seq<NameModel>) -> Seq<char> {
    match r {
        Reference::UObject => "UObject"@,
        Reference::Import(name) => "Import "@ + surface(
            names[name.name_idx as int].name,
            name.variant,
        ),
        Reference::Export(name) => "Export "@ + surface(
            names[name.name_idx as int].name,
            name.variant,
        ),
    }
}

/// Decoding undoes encoding: the number that stands for a reference
/// stands for no other.
pub proof fn lemma_decode_encode(
    r: Reference,
    imports: Seq<Import>,
    exports: Seq<ExportModel>,
    idx: i32,
)
    requires
        encodes(r, imports, exports, idx),
    ensures
        decode_reference(idx, imports, exports) == Ok::<Reference, Error>(r),
{
}

/// Each import and each export that a 32-bit number can reach is named by
/// a reference that encodes and decodes to itself.
pub proof fn lemma_reference_round_trip(
    imports: Seq<Import>,
    exports: Seq<ExportModel>,
    i: int,
    j: int,
)
    requires
        0 <= i < imports.len(),
        i <= i32::MAX,
        0 <= j < exports.len(),
        j < i32::MAX,
    ensures
        encodable(Reference::UObject, imports, exports),
        encodable(Reference::Import(imports[i].name), imports, exports),
        encodable(Reference::Export(exports[j].object_name), imports, exports),
        forall|r: Reference, idx: i32| #[trigger]
            encodes(r, imports, exports, idx) ==> decode_reference(idx, imports, exports) == Ok::<
                Reference,
                Error,
            >(r),
{
    assert(encodes(Reference::UObject, imports, exports, 0i32));
    crate::asset::imports::lemma_first_import_exists(imports, imports[i].name, i);
    let fi = choose|k: int| is_first_import(imports, imports[i].name, k) && k <= i;
    let idx = (-fi - 1) as i32;
    assert(import_place(idx) == fi);
    assert(encodes(Reference::Import(imports[i].name), imports, exports, idx));
    crate::asset::exports::lemma_first_export_exists(exports, exports[j].object_name, j);
    let fj = choose|k: int| is_first_export(exports, exports[j].object_name, k) && k <= j;
    let jdx = (fj + 1) as i32;
    assert(encodes(Reference::Export(exports[j].object_name), imports, exports, jdx));
}

/// A reference that was written reads back.
pub proof fn lemma_reference_reads_back(
    d: Seq<u8>,
    p: int,
    e: int,
    r: Reference,
    imports: Seq<Import>,
    exports: Seq<ExportModel>,
)
    requires
        encodable(r, imports, exports),
        crate::util::lies_at(d, p, enc_reference(r, imports, exports)),
        p + 4 <= e,
    ensures
        parse_reference(d, p, e, imports, exports) == Ok::<(Reference, int), Error>((r, p + 4)),
        enc_reference(r, imports, exports).len() == 4,
{
    let idx = reference_index(r, imports, exports);
    lemma_decode_encode(r, imports, exports, idx);
    crate::util::lemma_i32_reads_back(d, p, e, idx);
    crate::util::lemma_le_round_trip();
}

impl Reference {
    pub fn import(name: NameVariant) -> (r: Self)
        ensures
            r == Reference::Import(name),
    {
        Self::Import(name)
    }

    pub fn export(name: NameVariant) -> (r: Self)
        ensures
            r == Reference::Export(name),
    {
        Self::Export(name)
    }

    pub fn uobject() -> (r: Self)
        ensures
            r == Reference::UObject,
    {
        Self::UObject
    }

    /// The number that stands for the reference, if there is one.
    pub fn try_serialize(&self, imports: &Imports, exports: &Exports) -> (r: Option<i32>)
        ensures
            match r {
                Some(idx) => encodes(*self, imports@, exports@, idx) && idx == reference_index(
                    *self,
                    imports@,
                    exports@,
                ),
                None => !encodable(*self, imports@, exports@),
            },
    {
        let r = match self {
            Self::UObject => Some(0),
            Self::Import(name) => imports.index_of(name),
            Self::Export(name) => match exports.serialized_index_of(name) {
                Some(idx) => Some(idx as i32),
                None => None,
            },
        };
        proof {
            if let Some(idx) = r {
                lemma_encodes_unique(*self, imports@, exports@, idx, idx);
            }
        }
        r
    }

    /// The number that stands for the reference, which has to name an
    /// import or an export of the tables.
    pub fn serialize(&self, imports: &Imports, exports: &Exports) -> (r: i32)
        requires
            encodable(*self, imports@, exports@),
        ensures
            encodes(*self, imports@, exports@, r),
            r == reference_index(*self, imports@, exports@),
    {
        match self.try_serialize(imports, exports) {
            Some(idx) => idx,
            None => vstd::pervasive::unreached(),
        }
    }

    pub fn deserialize(idx: i32, imports: &Imports, exports: &Exports) -> (r: Result<Self, Error>)
        ensures
            r == decode_reference(idx, imports@, exports@),
    {
        if idx == 0 {
            Ok(Self::UObject)
        } else if idx < 0 {
            let place = (-(idx as i64) - 1) as u64;
            let import = imports.lookup(place)?;
            Ok(Self::Import(import.name))
        } else {
            let export = exports.lookup((idx - 1) as u64)?;
            Ok(Self::Export(export.object_name))
        }
    }

    pub fn read(rdr: &mut ByteReader, imports: &Imports, exports: &Exports) -> (r: Result<
        Self,
        Error,
    >)
        ensures
            reads(
                old(rdr)@,
                final(rdr)@,
                r,
                parse_reference(
                    old(rdr)@.data,
                    old(rdr)@.pos as int,
                    old(rdr)@.bound(),
                    imports@,
                    exports@,
                ),
            ),
    {
        let idx = read_i32(rdr)?;
        Self::deserialize(idx, imports, exports)
    }

    /// Writes the number that stands for the reference. A reference to a
    /// name that is neither imported nor exported is refused, and nothing
    /// is written.
    pub fn write(
        &self,
        out: &mut Vec<u8>,
        names: &NameMap,
        imports: &Imports,
        exports: &Exports,
    ) -> (r: Result<(), Error>)
        ensures
            match r {
                Ok(()) => encodable(*self, imports@, exports@) && final(out)@ == old(out)@
                    + enc_reference(*self, imports@, exports@),
                Err(e) => !encodable(*self, imports@, exports@) && e == Error::MissingName
                    && final(out)@ == old(out)@,
            },
    {
        match self.try_serialize(imports, exports) {
            Some(idx) => {
                write_i32(out, idx);
                Ok(())
            },
            None => Err(Error::MissingName),
        }
    }

    /// The text of the reference.
    pub fn to_string(&self, names: &NameMap) -> (r: String)
        requires
            match *self {
                Reference::UObject => true,
                Reference::Import(name) => name.name_idx < names@.len(),
                Reference::Export(name) => name.name_idx < names@.len(),
            },
        ensures
            r@ == reference_text(*self, names@),
    {
        match self {
            Self::UObject => String::from_str("UObject"),
            Self::Import(name) => {
                let mut s = String::from_str("Import ");
                s.append(name.to_string(names).as_str());
                s
            },
            Self::Export(name) => {
                let mut s = String::from_str("Export ");
                s.append(name.to_string(names).as_str());
                s
            },
        }
    }
}

} // verus!
