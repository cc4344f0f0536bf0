use vstd::prelude::*;
use vstd::utf8::encode_utf8;
use crate::asset::exports::Export;
use crate::asset::exports::ExportModel;
use crate::asset::file_summary::Generation;
use crate::asset::file_summary::SummaryModel;
use crate::asset::name_map::names_size;
use crate::asset::property::bag::bag_size;
use crate::asset::property::bag::BagModel;
use crate::asset::Asset;
use crate::asset::AssetHeader;
use crate::asset::HeaderModel;
use crate::error::Error;

verus! {

/* Where the sections of a header file lie */

/// The bytes that a summary is placed by: 188, its folder name and the
/// terminator of the name.
pub open spec fn summary_size(s: SummaryModel) -> int {
    188 + encode_utf8(s.folder_name).len() as int + 1
}

/// Where the names start: behind the summary.
pub open spec fn name_offset_of(h: HeaderModel) -> int {
    summary_size(h.summary)
}

/// Where the imports start: behind the names.
pub open spec fn import_offset_of(h: HeaderModel) -> int {
    name_offset_of(h) + names_size(h.names, h.names.len() as int)
}

/// Where the exports start: behind the imports, which take 28 bytes each.
pub open spec fn export_offset_of(h: HeaderModel) -> int {
    import_offset_of(h) + 28 * h.imports.len()
}

/// Where the depends section starts: behind the exports, which take 104
/// bytes each.
pub open spec fn depends_offset_of(h: HeaderModel) -> int {
    export_offset_of(h) + 104 * h.exports.len()
}

/// Where the asset registry starts: behind the depends section.
pub open spec fn asset_registry_offset_of(h: HeaderModel) -> int {
    depends_offset_of(h) + h.depends.len()
}

/// Where the preload dependencies start: behind the asset registry.
pub open spec fn preload_offset_of(h: HeaderModel) -> int {
    asset_registry_offset_of(h) + h.assets.len()
}

/// Where the header file ends: behind the preload dependencies, which
/// take 4 bytes each.
pub open spec fn header_size_of(h: HeaderModel) -> int {
    preload_offset_of(h) + 4 * h.dependencies.len()
}

/// Whether every offset and count of the summary is what the tables
/// say: each offset is the sum of the sizes of the sections before it,
/// each count is the length of its table, and each generation holds the
/// counts of exports and names.
pub open spec fn offsets_consistent(h: HeaderModel) -> bool {
    &&& h.summary.name_offset == name_offset_of(h)
    &&& h.summary.import_offset == import_offset_of(h)
    &&& h.summary.export_offset == export_offset_of(h)
    &&& h.summary.depends_offset == depends_offset_of(h)
    &&& h.summary.asset_registry_data_offset == asset_registry_offset_of(h)
    &&& h.summary.preload_dependency_offset == preload_offset_of(h)
    &&& h.summary.total_header_size == header_size_of(h)
    &&& h.summary.name_count == h.names.len()
    &&& h.summary.import_count == h.imports.len()
    &&& h.summary.export_count == h.exports.len()
    &&& h.summary.preload_dependency_count == h.dependencies.len()
    &&& forall|i: int|
        0 <= i < h.summary.generations.len() ==> (#[trigger] h.summary.generations[i])
            == (Generation {
            export_count: h.exports.len() as u32,
            name_count: h.names.len() as u32,
        })
}

/// The summary with its offsets and counts set to what the tables say.
/// The start of the bulk data is given.
pub open spec fn relaid_summary(h: HeaderModel, bulk_data_start_offset: int) -> SummaryModel {
    SummaryModel {
        total_header_size: header_size_of(h) as u32,
        name_count: h.names.len() as u32,
        name_offset: name_offset_of(h) as u32,
        export_count: h.exports.len() as u32,
        export_offset: export_offset_of(h) as u32,
        import_count: h.imports.len() as u32,
        import_offset: import_offset_of(h) as u32,
        depends_offset: depends_offset_of(h) as u32,
        asset_registry_data_offset: asset_registry_offset_of(h) as u32,
        bulk_data_start_offset: bulk_data_start_offset as u32,
        preload_dependency_count: h.dependencies.len() as u32,
        preload_dependency_offset: preload_offset_of(h) as u32,
        generations: Seq::new(
            h.summary.generations.len(),
            |i: int|
                Generation {
                    export_count: h.exports.len() as u32,
                    name_count: h.names.len() as u32,
                },
        ),
        ..h.summary
    }
}

/* A header on its own */

/// By how much the header file grows when its offsets are set anew.
pub open spec fn header_growth(h: HeaderModel) -> int {
    header_size_of(h) - h.summary.total_header_size
}

/// Whether the offsets of a header on its own can be set anew: the
/// header file stays within 32 bits, and so does everything that moves
/// with its end.
pub open spec fn header_layout_fits(h: HeaderModel) -> bool {
    &&& header_size_of(h) <= u32::MAX
    &&& 0 <= h.summary.bulk_data_start_offset + header_growth(h) <= u32::MAX
    &&& forall|i: int|
        0 <= i < h.exports.len() ==> 0 <= (#[trigger] h.exports[i]).serial_offset + header_growth(
            h,
        ) <= u32::MAX
}

/// A header with its offsets and counts set anew, without its property
/// bags: what lies behind the header file moves by as much as the header
/// file grows.
pub open spec fn relaid_header(h: HeaderModel) -> HeaderModel {
    HeaderModel {
        summary: relaid_summary(h, h.summary.bulk_data_start_offset + header_growth(h)),
        exports: Seq::new(
            h.exports.len(),
            |i: int|
                ExportModel {
                    serial_offset: (h.exports[i].serial_offset + header_growth(h)) as u32,
                    ..h.exports[i]
                },
        ),
        ..h
    }
}

/// After its offsets were set anew, every offset and count of a header
/// is what its tables say.
pub proof fn lemma_relaid_header_consistent(h: HeaderModel)
    requires
        header_layout_fits(h),
    ensures
        offsets_consistent(relaid_header(h)),
{
    let r = relaid_header(h);
    lemma_layout_carries(h, r);
}

/// A header that differs from another only in the numbers of its summary
/// and of its exports is laid out as the other is, and where that layout
/// stays within 32 bits, so does every count.
proof fn lemma_layout_carries(h: HeaderModel, r: HeaderModel)
    requires
        r.names == h.names,
        r.imports == h.imports,
        r.exports.len() == h.exports.len(),
        r.depends == h.depends,
        r.assets == h.assets,
        r.dependencies == h.dependencies,
        r.summary.folder_name == h.summary.folder_name,
    ensures
        name_offset_of(r) == name_offset_of(h),
        import_offset_of(r) == import_offset_of(h),
        export_offset_of(r) == export_offset_of(h),
        depends_offset_of(r) == depends_offset_of(h),
        asset_registry_offset_of(r) == asset_registry_offset_of(h),
        preload_offset_of(r) == preload_offset_of(h),
        header_size_of(r) == header_size_of(h),
        0 <= name_offset_of(h) <= import_offset_of(h) <= export_offset_of(h) <= depends_offset_of(
            h,
        ) <= asset_registry_offset_of(h) <= preload_offset_of(h) <= header_size_of(h),
        h.names.len() <= header_size_of(h),
        h.imports.len() <= header_size_of(h),
        h.exports.len() <= header_size_of(h),
        h.dependencies.len() <= header_size_of(h),
{
    lemma_names_count(h.names, h.names.len() as int);
}

/* An asset with its property bags */

/// The bytes that the first `n` property bags take.
pub open spec fn bags_size(bags: Seq<BagModel>, n: int) -> nat
    decreases n,
{
    if n <= 0 {
        0
    } else {
        bags_size(bags, n - 1) + bag_size(bags[n - 1])
    }
}

/// A longer run of property bags takes no fewer bytes.
pub proof fn lemma_bags_size_grows(bags: Seq<BagModel>, i: int, n: int)
    requires
        0 <= i <= n,
    ensures
        bags_size(bags, i) <= bags_size(bags, n),
    decreases n - i,
{
    if i < n {
        lemma_bags_size_grows(bags, i, n - 1);
    }
}

/// Whether the offsets of an asset can be set anew: it has a property
/// bag for each export, and both files together stay within 32 bits.
pub open spec fn asset_layout_fits(h: HeaderModel, bags: Seq<BagModel>) -> bool {
    &&& bags.len() == h.exports.len()
    &&& header_size_of(h) + bags_size(bags, bags.len() as int) <= u32::MAX
}

/// The export whose property bag is the `i`-th: its size is that of the
/// bag, and it lies behind the bags before it.
pub open spec fn relaid_export(h: HeaderModel, bags: Seq<BagModel>, i: int) -> ExportModel {
    ExportModel {
        serial_size: bag_size(bags[i]) as u64,
        export_file_offset: bags_size(bags, i) as u64,
        serial_offset: (header_size_of(h) + bags_size(bags, i)) as u32,
        ..h.exports[i]
    }
}

/// The header of an asset with its offsets and counts set anew.
pub open spec fn relaid_asset(h: HeaderModel, bags: Seq<BagModel>) -> HeaderModel {
    HeaderModel {
        summary: relaid_summary(h, header_size_of(h) + bags_size(bags, bags.len() as int)),
        exports: Seq::new(h.exports.len(), |i: int| relaid_export(h, bags, i)),
        ..h
    }
}

/// Whether the body file is laid out as the header says: each export has
/// the size of its property bag, lies behind the bags before it, and is
/// that far behind the header file; the bulk data starts behind the last bag.
pub open spec fn bags_consistent(h: HeaderModel, bags: Seq<BagModel>) -> bool {
    &&& bags.len() == h.exports.len()
    &&& h.summary.bulk_data_start_offset == h.summary.total_header_size + bags_size(
        bags,
        bags.len() as int,
    )
    &&& forall|i: int|
        0 <= i < h.exports.len() ==> {
            &&& (#[trigger] h.exports[i]).serial_size == bag_size(bags[i])
            &&& h.exports[i].export_file_offset == bags_size(bags, i)
            &&& h.exports[i].serial_offset == h.summary.total_header_size + h.exports[i].export_file_offset
        }
}

/// After its offsets were set anew, every offset and count of an asset
/// is what its tables and its property bags say.
pub proof fn lemma_relaid_asset_consistent(h: HeaderModel, bags: Seq<BagModel>)
    requires
        asset_layout_fits(h, bags),
    ensures
        offsets_consistent(relaid_asset(h, bags)),
        bags_consistent(relaid_asset(h, bags), bags),
{
    let r = relaid_asset(h, bags);
    lemma_layout_carries(h, r);
    assert forall|i: int| 0 <= i < r.exports.len() implies {
        &&& (#[trigger] r.exports[i]).serial_size == bag_size(bags[i])
        &&& r.exports[i].export_file_offset == bags_size(bags, i)
        &&& r.exports[i].serial_offset == r.summary.total_header_size + r.exports[i].export_file_offset
    } by {
        lemma_bags_size_grows(bags, i, bags.len() as int);
        lemma_bags_size_grows(bags, i + 1, bags.len() as int);
    }
}

/// `a + b`, where that is within 32 bits.
fn within(a: u64, b: usize) -> (r: Option<u64>)
    requires
        a <= u32::MAX,
    ensures
        match r {
            Some(n) => n == a + b && n <= u32::MAX,
            None => a + b > u32::MAX,
        },
{
    if b as u64 > u32::MAX as u64 - a {
        None
    } else {
        Some(a + b as u64)
    }
}

/// `n * width`, where that is within 32 bits.
fn records(n: usize, width: u64) -> (r: Option<usize>)
    requires
        0 < width <= 104,
    ensures
        match r {
            Some(size) => size == n * width && size <= u32::MAX,
            None => n * width > u32::MAX,
        },
{
    if n as u64 > u32::MAX as u64 / width {
        assert(n * width > u32::MAX) by (nonlinear_arith)
            requires
                n > u32::MAX as u64 / width,
                0 < width <= 104,
        ;
        None
    } else {
        assert(n * width <= u32::MAX) by (nonlinear_arith)
            requires
                n <= u32::MAX as u64 / width,
                0 < width <= 104,
        ;
        Some((n as u64 * width) as usize)
    }
}

/// Where the sections of a header file start.
struct Layout {
    name_offset: u64,
    import_offset: u64,
    export_offset: u64,
    depends_offset: u64,
    asset_registry_data_offset: u64,
    preload_dependency_offset: u64,
    total_header_size: u64,
}

impl AssetHeader {
    /// Where the sections of the header file start, where the file stays
    /// within 32 bits.
    fn layout(&self) -> (r: Option<Layout>)
        ensures
            match r {
                Some(l) => {
                    &&& l.name_offset == name_offset_of(self@)
                    &&& l.import_offset == import_offset_of(self@)
                    &&& l.export_offset == export_offset_of(self@)
                    &&& l.depends_offset == depends_offset_of(self@)
                    &&& l.asset_registry_data_offset == asset_registry_offset_of(self@)
                    &&& l.preload_dependency_offset == preload_offset_of(self@)
                    &&& l.total_header_size == header_size_of(self@)
                    &&& header_size_of(self@) <= u32::MAX
                },
                None => header_size_of(self@) > u32::MAX,
            },
    {
        let folder = self.summary.folder_name.as_str().as_bytes().len();
        let name_offset = within(189, folder)?;
        let names = match self.names.checked_byte_size() {
            Some(size) => size,
            None => {
                return None;
            },
        };
        let import_offset = within(name_offset, names)?;
        let export_offset = within(import_offset, records(self.imports.objects.len(), 28)?)?;
        let depends_offset = within(export_offset, records(self.exports.exports.len(), 104)?)?;
        let asset_registry_data_offset = within(depends_offset, self.depends.data.len())?;
        let preload_dependency_offset = within(asset_registry_data_offset, self.assets.data.len())?;
        let total_header_size = within(
            preload_dependency_offset,
            records(self.dependencies.dependencies.len(), 4)?,
        )?;
        Some(
            Layout {
                name_offset,
                import_offset,
                export_offset,
                depends_offset,
                asset_registry_data_offset,
                preload_dependency_offset,
                total_header_size,
            },
        )
    }

    /// Sets the offsets and counts of the summary to what the layout and
    /// the tables say.
    fn set_summary(&mut self, layout: &Layout, bulk_data_start_offset: u32)
        requires
            layout.name_offset == name_offset_of(old(self)@),
            layout.import_offset == import_offset_of(old(self)@),
            layout.export_offset == export_offset_of(old(self)@),
            layout.depends_offset == depends_offset_of(old(self)@),
            layout.asset_registry_data_offset == asset_registry_offset_of(old(self)@),
            layout.preload_dependency_offset == preload_offset_of(old(self)@),
            layout.total_header_size == header_size_of(old(self)@),
            header_size_of(old(self)@) <= u32::MAX,
        ensures
            final(self)@.summary == relaid_summary(old(self)@, bulk_data_start_offset as int),
            final(self).names == old(self).names,
            final(self).imports == old(self).imports,
            final(self).exports == old(self).exports,
            final(self).depends == old(self).depends,
            final(self).assets == old(self).assets,
            final(self).dependencies == old(self).dependencies,
    {
        let name_count = self.names.names.len() as u32;
        let export_count = self.exports.exports.len() as u32;
        proof {
            assert(28 * self@.imports.len() <= u32::MAX);
            assert(104 * self@.exports.len() <= u32::MAX);
            assert(4 * self@.dependencies.len() <= u32::MAX);
            crate::asset::offsets::lemma_names_count(self@.names, self@.names.len() as int);
        }
        self.summary.total_header_size = layout.total_header_size as u32;
        self.summary.name_count = name_count;
        self.summary.name_offset = layout.name_offset as u32;
        self.summary.import_count = self.imports.objects.len() as u32;
        self.summary.import_offset = layout.import_offset as u32;
        self.summary.export_count = export_count;
        self.summary.export_offset = layout.export_offset as u32;
        self.summary.depends_offset = layout.depends_offset as u32;
        self.summary.asset_registry_data_offset = layout.asset_registry_data_offset as u32;
        self.summary.bulk_data_start_offset = bulk_data_start_offset;
        self.summary.preload_dependency_count = self.dependencies.dependencies.len() as u32;
        self.summary.preload_dependency_offset = layout.preload_dependency_offset as u32;
        let count = self.summary.generations.len();
        let mut generations: Vec<Generation> = Vec::new();
        let mut i: usize = 0;
        while i < count
            invariant
                0 <= i <= count,
                generations@.len() == i,
                forall|k: int|
                    0 <= k < i ==> (#[trigger] generations@[k]) == (Generation {
                        export_count,
                        name_count,
                    }),
            decreases count - i,
        {
            generations.push(Generation { export_count, name_count });
            i = i + 1;
        }
        self.summary.generations = generations;
        assert(self@.summary.generations =~= relaid_summary(
            old(self)@,
            bulk_data_start_offset as int,
        ).generations);
    }

    /// Recalculates the offsets and counts of the summary without the
    /// property bags: what lies behind the header file moves by as much as
    /// the header file grows. Where that leaves 32 bits, nothing is changed.
    pub fn recalculate_offsets(&mut self) -> (r: Result<(), Error>)
        ensures
            header_layout_fits(old(self)@) ==> r is Ok && final(self)@ == relaid_header(old(self)@)
                && offsets_consistent(final(self)@),
            !header_layout_fits(old(self)@) ==> r == Err::<(), Error>(Error::TooLong) && *final(self) == *old(self),
    {
        let layout = match self.layout() {
            Some(layout) => layout,
            None => {
                return Err(Error::TooLong);
            },
        };
        let delta: i64 = layout.total_header_size as i64 - self.summary.total_header_size as i64;
        let bulk = self.summary.bulk_data_start_offset as i64 + delta;
        if bulk < 0 || bulk > u32::MAX as i64 {
            return Err(Error::TooLong);
        }
        let ghost h = self@;
        let mut exports: Vec<Export> = Vec::new();
        let mut i: usize = 0;
        while i < self.exports.exports.len()
            invariant
                0 <= i <= self.exports.exports@.len(),
                *self == *old(self),
                h == self@,
                delta == header_growth(h),
                -0xffff_ffff <= delta <= 0xffff_ffff,
                exports@.len() == i,
                forall|k: int|
                    0 <= k < i ==> 0 <= (#[trigger] h.exports[k]).serial_offset + delta
                        <= u32::MAX,
                forall|k: int|
                    0 <= k < i ==> (#[trigger] exports@[k])@ == (ExportModel {
                        serial_offset: (h.exports[k].serial_offset + delta) as u32,
                        ..h.exports[k]
                    }),
            decreases self.exports.exports@.len() - i,
        {
            let mut export = self.exports.exports[i];
            assert(h.exports[i as int] == export@);
            let moved = export.serial_offset as i64 + delta;
            if moved < 0 || moved > u32::MAX as i64 {
                return Err(Error::TooLong);
            }
            export.serial_offset = moved as u32;
            exports.push(export);
            i = i + 1;
        }
        self.set_summary(&layout, bulk as u32);
        self.exports.exports = exports;
        proof {
            assert(self@.exports =~= relaid_header(h).exports);
            lemma_relaid_header_consistent(h);
        }
        Ok(())
    }
}

/// A table whose names take at most 32 bits of bytes has at most that
/// many names.
pub proof fn lemma_names_count(names: Seq<crate::asset::name_map::NameModel>, n: int)
    requires
        0 <= n <= names.len(),
    ensures
        n <= names_size(names, n),
    decreases n,
{
    if n > 0 {
        lemma_names_count(names, n - 1);
    }
}

impl Asset {
    /// Recalculates the offsets and counts of the summary and the place
    /// and size of every export from the tables and the property bags.
    /// Where there is not one bag for each export, or where the files
    /// leave 32 bits, nothing is changed.
    pub fn recalculate_offsets(&mut self) -> (r: Result<(), Error>)
        ensures
            match r {
                Ok(()) => {
                    &&& asset_layout_fits(old(self).header@, old(self).exports@)
                    &&& final(self).header@ == relaid_asset(
                        old(self).header@,
                        old(self).exports@,
                    )
                    &&& final(self).exports == old(self).exports
                    &&& offsets_consistent(final(self).header@)
                    &&& bags_consistent(final(self).header@, final(self).exports@)
                },
                Err(e) => {
                    &&& !asset_layout_fits(old(self).header@, old(self).exports@)
                    &&& e == if old(self).exports@.len() != old(self).header@.exports.len() {
                        Error::BagCount
                    } else {
                        Error::TooLong
                    }
                    &&& *final(self) == *old(self)
                },
            },
    {
        let count = self.header.exports.exports.len();
        if self.exports.structs.len() != count {
            return Err(Error::BagCount);
        }
        let layout = match self.header.layout() {
            Some(layout) => layout,
            None => {
                proof {
                    lemma_bags_size_grows(self.exports@, 0, self.exports@.len() as int);
                }
                return Err(Error::TooLong);
            },
        };
        let ghost h = self.header@;
        let ghost bags = self.exports@;
        let mut exports: Vec<Export> = Vec::new();
        let mut running: u64 = 0;
        let mut i: usize = 0;
        while i < count
            invariant
                0 <= i <= count,
                count == self.header.exports.exports@.len(),
                count == self.exports.structs@.len(),
                *self == *old(self),
                h == self.header@,
                bags == self.exports@,
                bags.len() == count,
                header_size_of(h) == layout.total_header_size,
                running == bags_size(bags, i as int),
                layout.total_header_size + running <= u32::MAX,
                exports@.len() == i,
                forall|k: int|
                    0 <= k < i ==> (#[trigger] exports@[k])@ == relaid_export(h, bags, k),
            decreases count - i,
        {
            proof {
                lemma_bags_size_grows(bags, i + 1, count as int);
            }
            assert(bags[i as int] == self.exports.structs@[i as int]@);
            let size = match self.exports.structs[i].checked_byte_size() {
                Some(size) => size,
                None => {
                    return Err(Error::TooLong);
                },
            };
            let next = match within(layout.total_header_size + running, size) {
                Some(next) => next,
                None => {
                    return Err(Error::TooLong);
                },
            };
            let mut export = self.header.exports.exports[i];
            assert(h.exports[i as int] == export@);
            export.export_file_offset = running;
            export.serial_size = size as u64;
            export.serial_offset = (layout.total_header_size + running) as u32;
            exports.push(export);
            running = next - layout.total_header_size;
            i = i + 1;
        }
        self.header.set_summary(&layout, (layout.total_header_size + running) as u32);
        self.header.exports.exports = exports;
        proof {
            assert(self.header@.exports =~= relaid_asset(h, bags).exports);
            lemma_relaid_asset_consistent(h, bags);
        }
        Ok(())
    }
}

} // verus!
