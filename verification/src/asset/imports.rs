use vstd::prelude::*;
use crate::asset::file_summary::FileSummary;
use crate::asset::name_map::enc_name_variant;
use crate::asset::name_map::name_variant_fits;
use crate::asset::name_map::parse_name_variant;
use crate::asset::name_map::NameMap;
use crate::asset::name_map::NameVariant;
use crate::error::fails_with;
use crate::error::Error;
use crate::error::Failure;
use crate::error::Place;
use crate::reader::ByteReader;
use crate::util::enc_i32;
use crate::util::parse_i32;
use crate::util::read_i32;
use crate::util::reads;
use crate::util::write_i32;

verus! {

/// An object that the asset takes from another package.
#[derive(Debug, Clone, Copy, PartialEq, Eq, Structural)]
pub struct Import {
    pub class_package: NameVariant,
    pub class: NameVariant,
    /// A serialized reference to the object that this one lies in.
    pub outer_index: i32,
    pub name: NameVariant,
}

/// The import table.
#[derive(Debug, Clone, PartialEq, Eq)]
pub struct Imports {
    pub objects: Vec<Import>,
}

impl View for Imports {
    type V = Seq<Import>;

    open spec fn view(&self) -> Seq<Import> {
        self.objects@
    }
}

/// An import is 28 bytes: two name references, the outer index, a name reference.
pub open spec fn parse_import(d: Seq<u8>, p: int, e: int, names: int) -> Result<
    (Import, int),
    Error,
> {
    match parse_name_variant(d, p, e, names) {
        Err(err) => Err(err),
        Ok((class_package, p1)) => match parse_name_variant(d, p1, e, names) {
            Err(err) => Err(err),
            Ok((class, p2)) => match parse_i32(d, p2, e) {
                Err(err) => Err(err),
                Ok((outer_index, p3)) => match parse_name_variant(d, p3, e, names) {
                    Err(err) => Err(err),
                    Ok((name, p4)) => Ok((Import { class_package, class, outer_index, name }, p4)),
                },
            },
        },
    }
}

pub open spec fn enc_import(i: Import) -> Seq<u8> {
    enc_name_variant(i.class_package) + enc_name_variant(i.class) + enc_i32(i.outer_index)
        + enc_name_variant(i.name)
}

/// Whether an import can be written against a table of `names` entries.
pub open spec fn import_fits(i: Import, names: int) -> bool {
    name_variant_fits(i.class_package, names) && name_variant_fits(i.class, names)
        && name_variant_fits(i.name, names)
}

/// `count` imports in a row.
pub open spec fn parse_imports(
    d: Seq<u8>,
    p: int,
    e: int,
    names: int,
    count: nat,
    acc: Seq<Import>,
) -> Result<(Seq<Import>, int), Error>
    decreases count,
{
    if count == 0 {
        Ok((acc, p))
    } else {
        match parse_import(d, p, e, names) {
            Err(err) => Err(err),
            Ok((i, q)) => parse_imports(d, q, e, names, (count - 1) as nat, acc.push(i)),
        }
    }
}

/// The import table that starts at `p`, which has to be where the
/// summary says it starts.
pub open spec fn parse_import_table(
    d: Seq<u8>,
    p: int,
    e: int,
    names: int,
    offset: u32,
    count: u32,
) -> Result<(Seq<Import>, int), Error> {
    if p != offset {
        Err(Error::PositionMismatch { expected: offset as u64, actual: p as u64 })
    } else {
        parse_imports(d, p, e, names, count as nat, Seq::empty())
    }
}

/// Where the first of `count` imports in a row that cannot be read starts.
pub open spec fn failing_import(d: Seq<u8>, p: int, e: int, names: int, count: nat) -> int
    decreases count,
{
    if count == 0 {
        p
    } else {
        match parse_import(d, p, e, names) {
            Err(_) => p,
            Ok((_, q)) => failing_import(d, q, e, names, (count - 1) as nat),
        }
    }
}

/// The import at which an import table can be read no further, where it
/// starts where the summary says.
pub open spec fn import_table_trail(
    d: Seq<u8>,
    p: int,
    e: int,
    names: int,
    offset: u32,
    count: u32,
) -> Seq<Place> {
    if p == offset {
        seq![Place::Entry(failing_import(d, p, e, names, count as nat) as u64)]
    } else {
        Seq::empty()
    }
}

/// The bytes of the first `n` imports.
pub open spec fn enc_imports(imports: Seq<Import>, n: int) -> Seq<u8>
    decreases n,
{
    if n <= 0 {
        Seq::empty()
    } else {
        enc_imports(imports, n - 1) + enc_import(imports[n - 1])
    }
}

pub open spec fn imports_fit(imports: Seq<Import>, names: int) -> bool {
    forall|i: int| 0 <= i < imports.len() ==> import_fits(#[trigger] imports[i], names)
}

/// Whether `i` is the first import whose name is `name`.
pub open spec fn is_first_import(imports: Seq<Import>, name: NameVariant, i: int) -> bool {
    &&& 0 <= i < imports.len()
    &&& imports[i].name == name
    &&& forall|j: int| 0 <= j < i ==> (#[trigger] imports[j]).name != name
}

pub open spec fn has_import(imports: Seq<Import>, name: NameVariant) -> bool {
    exists|i: int| 0 <= i < imports.len() && (#[trigger] imports[i]).name == name
}

/// Whether an import has the name at a place that a 32-bit number stands for.
pub open spec fn has_numbered_import(imports: Seq<Import>, name: NameVariant) -> bool {
    exists|i: int| is_first_import(imports, name, i) && i <= i32::MAX
}

/// The number that stands for the import at place `i`: negative, and one
/// below its place.
pub open spec fn import_index(i: int) -> int {
    -i - 1
}

/// The place of the import that a negative number stands for.
pub open spec fn import_place(idx: i32) -> int {
    -(idx as int) - 1
}

impl Import {
    pub fn read(rdr: &mut ByteReader, names: &NameMap) -> (r: Result<Self, Error>)
        ensures
            reads(
                old(rdr)@,
                final(rdr)@,
                r,
                parse_import(
                    old(rdr)@.data,
                    old(rdr)@.pos as int,
                    old(rdr)@.bound(),
                    names@.len() as int,
                ),
            ),
    {
        let class_package = NameVariant::read(rdr, names)?;
        let class = NameVariant::read(rdr, names)?;
        let outer_index = read_i32(rdr)?;
        let name = NameVariant::read(rdr, names)?;
        Ok(Import { class_package, class, outer_index, name })
    }

    /// Writes the import. One with a name reference that points outside
    /// the table is refused.
    pub fn write(&self, out: &mut Vec<u8>, names: &NameMap) -> (r: Result<(), Error>)
        ensures
            import_fits(*self, names@.len() as int) ==> r is Ok && final(out)@ == old(out)@
                + enc_import(*self),
            !import_fits(*self, names@.len() as int) ==> r == Err::<(), Error>(Error::MissingName),
    {
        self.class_package.write(out, names)?;
        self.class.write(out, names)?;
        write_i32(out, self.outer_index);
        self.name.write(out, names)?;
        assert(out@ =~= old(out)@ + enc_import(*self));
        Ok(())
    }
}

impl Imports {
    pub fn read(rdr: &mut ByteReader, summary: &FileSummary, name_map: &NameMap) -> (r: Result<
        Self,
        Failure,
    >)
        ensures
            final(rdr)@.data == old(rdr)@.data,
            final(rdr)@.limits == old(rdr)@.limits,
            match parse_import_table(
                old(rdr)@.data,
                old(rdr)@.pos as int,
                old(rdr)@.bound(),
                name_map@.len() as int,
                summary.import_offset,
                summary.import_count,
            ) {
                Ok((imports, q)) => r is Ok && r->Ok_0@ == imports && final(rdr)@.pos == q,
                Err(err) => fails_with(
                    r,
                    err,
                    import_table_trail(
                        old(rdr)@.data,
                        old(rdr)@.pos as int,
                        old(rdr)@.bound(),
                        name_map@.len() as int,
                        summary.import_offset,
                        summary.import_count,
                    ),
                ),
            },
            old(rdr)@.pos != summary.import_offset ==> final(rdr)@ == old(rdr)@,
    {
        if rdr.position() != summary.import_offset as u64 {
            return Err(
                Failure::plain(
                    Error::PositionMismatch {
                        expected: summary.import_offset as u64,
                        actual: rdr.position(),
                    },
                ),
            );
        }
        let ghost d = rdr@.data;
        let ghost e = rdr@.bound();
        let ghost p0 = rdr@.pos as int;
        let ghost n = name_map@.len() as int;
        let mut objects: Vec<Import> = Vec::new();
        let mut i: u32 = 0;
        while i < summary.import_count
            invariant
                0 <= i <= summary.import_count,
                rdr@ == old(rdr)@.at(rdr@.pos as int),
                d == old(rdr)@.data,
                e == old(rdr)@.bound(),
                p0 == old(rdr)@.pos,
                p0 == summary.import_offset,
                n == name_map@.len(),
                objects@.len() == i,
                parse_imports(d, p0, e, n, summary.import_count as nat, Seq::empty())
                    == parse_imports(
                    d,
                    rdr@.pos as int,
                    e,
                    n,
                    (summary.import_count - i) as nat,
                    objects@,
                ),
                failing_import(d, p0, e, n, summary.import_count as nat) == failing_import(
                    d,
                    rdr@.pos as int,
                    e,
                    n,
                    (summary.import_count - i) as nat,
                ),
            decreases summary.import_count - i,
        {
            let ghost p = rdr@.pos as int;
            let ghost before = objects@;
            let start = rdr.position();
            let object = match Import::read(rdr, name_map) {
                Ok(object) => object,
                Err(err) => {
                    assert(parse_imports(d, p, e, n, (summary.import_count - i) as nat, before)
                        == Err::<(Seq<Import>, int), Error>(err));
                    assert(failing_import(d, p, e, n, (summary.import_count - i) as nat) == p);
                    return Err(Failure::at(err, Place::Entry(start)));
                },
            };
            objects.push(object);
            i = i + 1;
        }
        Ok(Imports { objects })
    }

    /// Writes every import in order. Fails at the first import that cannot be written.
    pub fn write(&self, out: &mut Vec<u8>, names: &NameMap) -> (r: Result<(), Error>)
        ensures
            imports_fit(self@, names@.len() as int) ==> r is Ok && final(out)@ == old(out)@
                + enc_imports(self@, self@.len() as int),
            !imports_fit(self@, names@.len() as int) ==> r == Err::<(), Error>(Error::MissingName),
    {
        let mut i: usize = 0;
        while i < self.objects.len()
            invariant
                0 <= i <= self@.len(),
                out@ == old(out)@ + enc_imports(self@, i as int),
                forall|j: int| 0 <= j < i ==> import_fits(#[trigger] self@[j], names@.len() as int),
            decreases self@.len() - i,
        {
            match self.objects[i].write(out, names) {
                Ok(()) => {},
                Err(err) => {
                    return Err(err);
                },
            }
            assert(out@ =~= old(out)@ + enc_imports(self@, i + 1));
            i = i + 1;
        }
        Ok(())
    }

    /// The bytes that the table takes: 28 for each import.
    pub fn byte_size(&self) -> (r: usize)
        requires
            28 * self@.len() <= usize::MAX,
        ensures
            r == 28 * self@.len(),
    {
        28 * self.objects.len()
    }

    /// The number that stands for the first import named `object`, where
    /// there is one that a 32-bit number can stand for.
    pub fn index_of(&self, object: &NameVariant) -> (r: Option<i32>)
        ensures
            match r {
                Some(idx) => is_first_import(self@, *object, import_place(idx)),
                None => forall|i: int| is_first_import(self@, *object, i) ==> i > i32::MAX,
            },
    {
        let mut i: usize = 0;
        while i < self.objects.len()
            invariant
                0 <= i <= self@.len(),
                forall|j: int| 0 <= j < i ==> (#[trigger] self@[j]).name != *object,
            decreases self@.len() - i,
        {
            if self.objects[i].name == *object {
                if i > i32::MAX as usize {
                    assert forall|k: int| is_first_import(self@, *object, k) implies k
                        > i32::MAX by {
                        if k < i {
                            assert(self@[k].name != *object);
                        } else if k > i {
                            assert(self@[i as int].name == *object);
                        }
                    }
                    return None;
                }
                assert(is_first_import(self@, *object, i as int));
                return Some(-(i as i32) - 1);
            }
            i = i + 1;
        }
        None
    }

    /// As [`Imports::index_of`], as the 32 bits that are written.
    pub fn serialized_index_of(&self, object: &NameVariant) -> (r: Option<u32>)
        ensures
            match r {
                Some(bits) => is_first_import(self@, *object, import_place(bits as i32)),
                None => forall|i: int| is_first_import(self@, *object, i) ==> i > i32::MAX,
            },
    {
        match self.index_of(object) {
            Some(idx) => {
                assert((idx as u32) as i32 == idx) by (bit_vector);
                Some(
                    #[verifier::truncate]
                    (idx as u32),
                )
            },
            None => None,
        }
    }

    /// The import at place `index`.
    pub fn lookup(&self, index: u64) -> (r: Result<&Import, Error>)
        ensures
            match r {
                Ok(i) => index < self@.len() && *i == self@[index as int],
                Err(e) => index >= self@.len() && e == Error::IndexOutOfRange,
            },
    {
        if index >= self.objects.len() as u64 {
            return Err(Error::IndexOutOfRange);
        }
        Ok(&self.objects[index as usize])
    }

    /// Adds an import at the end of the table, unless the table has one of
    /// that name. Gives the number that stands for the import of that name.
    pub fn add(
        &mut self,
        class_package: NameVariant,
        class: NameVariant,
        name: NameVariant,
        outer_index: i32,
    ) -> (r: i32)
        requires
            old(self)@.len() <= i32::MAX,
        ensures
            has_import(old(self)@, name) ==> final(self)@ == old(self)@,
            !has_import(old(self)@, name) ==> final(self)@ == old(self)@.push(
                Import { class_package, class, outer_index, name },
            ),
            is_first_import(final(self)@, name, import_place(r)),
    {
        match self.index_of(&name) {
            Some(index) => {
                return index;
            },
            None => {},
        }
        assert(!has_import(self@, name)) by {
            if has_import(self@, name) {
                let k = choose|k: int| 0 <= k < self@.len() && (#[trigger] self@[k]).name == name;
                lemma_first_import_exists(self@, name, k);
            }
        }
        let object = Import { class_package, class, outer_index, name };
        let len = self.objects.len();
        self.objects.push(object);
        assert(is_first_import(self@, name, len as int));
        -(len as i32) - 1
    }
}

/// Where some import has the name, a first one has it.
pub proof fn lemma_first_import_exists(imports: Seq<Import>, name: NameVariant, k: int)
    requires
        0 <= k < imports.len(),
        imports[k].name == name,
    ensures
        exists|i: int| is_first_import(imports, name, i) && i <= k,
    decreases k,
{
    if exists|j: int| 0 <= j < k && (#[trigger] imports[j]).name == name {
        let j = choose|j: int| 0 <= j < k && (#[trigger] imports[j]).name == name;
        lemma_first_import_exists(imports, name, j);
    } else {
        assert(is_first_import(imports, name, k));
    }
}

} // verus!
