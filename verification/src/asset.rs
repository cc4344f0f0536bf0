pub mod asset_registry;
pub mod depends;
pub mod exports;
pub mod file_summary;
pub mod imports;
pub mod layout;
pub mod name_map;
pub mod offsets;
pub mod preload_dependencies;
pub mod property;
pub mod reference;
pub mod round_trip;

use vstd::prelude::*;
use vstd::utf8::encode_utf8;
use crate::asset::asset_registry::AssetRegistry;
use crate::asset::depends::parse_region;
use crate::asset::depends::Depends;
use crate::asset::exports::enc_exports;
use crate::asset::exports::parse_export_table;
use crate::asset::exports::ExportModel;
use crate::asset::exports::Exports;
use crate::asset::file_summary::enc_summary;
use crate::asset::file_summary::parse_summary;
use crate::asset::file_summary::summary_fits;
use crate::asset::file_summary::FileSummary;
use crate::asset::file_summary::SummaryModel;
use crate::asset::imports::enc_imports;
use crate::asset::imports::parse_import_table;
use crate::asset::imports::Import;
use crate::asset::imports::Imports;
use crate::asset::name_map::enc_names;
use crate::asset::name_map::parse_name_map;
use crate::asset::name_map::NameMap;
use crate::asset::name_map::NameModel;
use crate::asset::preload_dependencies::enc_references;
use crate::asset::preload_dependencies::parse_preload_dependencies;
use crate::asset::preload_dependencies::PreloadDependencies;
use crate::asset::property::bag::enc_bag;
use crate::asset::property::bag::parse_bag;
use crate::asset::property::bag::BagModel;
use crate::asset::property::bag::Properties;
use crate::asset::property::context::Env;
use crate::asset::property::context::PropertyContext;
use crate::asset::property::struct_pattern::PatternsModel;
use crate::asset::property::struct_pattern::StructPatterns;
use crate::asset::reference::Reference;
use crate::asset::property::bag::bag_trail;
use crate::asset::property::bag::enc_bag_trail;
use crate::asset::exports::export_table_trail;
use crate::asset::imports::import_table_trail;
use crate::error::fails_with;
use crate::error::Error;
use crate::error::Failure;
use crate::error::Place;
use crate::reader::ByteReader;
use crate::util::bytes_eq;
use crate::util::parse_bytes;
use crate::util::read_bytes;
use crate::util::write_bytes;

verus! {

/// The header file of an asset: the summary and the tables.
#[derive(Debug, Clone, PartialEq, Eq)]
pub struct AssetHeader {
    pub summary: FileSummary,
    pub names: NameMap,
    pub imports: Imports,
    pub exports: Exports,
    pub depends: Depends,
    pub assets: AssetRegistry,
    pub dependencies: PreloadDependencies,
}

/// The body file of an asset: one property bag for each export.
#[derive(Debug, PartialEq, Eq)]
pub struct AssetExports {
    pub structs: Vec<Properties>,
}

/// An asset: its header file and its body file.
#[derive(Debug, PartialEq, Eq)]
pub struct Asset {
    pub header: AssetHeader,
    pub exports: AssetExports,
}

/// An [`AssetHeader`] as plain values.
pub struct HeaderModel {
    pub summary: SummaryModel,
    pub names: Seq<NameModel>,
    pub imports: Seq<Import>,
    pub exports: Seq<ExportModel>,
    pub depends: Seq<u8>,
    pub assets: Seq<u8>,
    pub dependencies: Seq<Reference>,
}

impl View for AssetHeader {
    type V = HeaderModel;

    open spec fn view(&self) -> HeaderModel {
        HeaderModel {
            summary: self.summary@,
            names: self.names@,
            imports: self.imports@,
            exports: self.exports@,
            depends: self.depends@,
            assets: self.assets@,
            dependencies: self.dependencies@,
        }
    }
}

/// The views of the property bags of a body file.
pub open spec fn bag_models(structs: Seq<Properties>) -> Seq<BagModel> {
    Seq::new(structs.len(), |i: int| structs[i]@)
}

impl View for AssetExports {
    type V = Seq<BagModel>;

    open spec fn view(&self) -> Seq<BagModel> {
        bag_models(self.structs@)
    }
}

/// What the property codec resolves against for a header and patterns.
pub open spec fn env_of(h: HeaderModel, patterns: PatternsModel) -> Env {
    Env { names: h.names, imports: h.imports, exports: h.exports, patterns }
}

/* The header file */

/// The header that a header file holds: the summary, the names, the
/// imports, the exports, the depends section, the asset registry and the
/// preload dependencies, each where the summary says it starts.
pub open spec fn parse_header(d: Seq<u8>) -> Result<HeaderModel, Error> {
    let e = d.len() as int;
    match parse_summary(d, 0, e) {
        Err(err) => Err(err),
        Ok((summary, p1)) => match parse_name_map(
            d,
            p1,
            e,
            summary.name_offset,
            summary.name_count,
        ) {
            Err(err) => Err(err),
            Ok((names, p2)) => match parse_import_table(
                d,
                p2,
                e,
                names.len() as int,
                summary.import_offset,
                summary.import_count,
            ) {
                Err(err) => Err(err),
                Ok((imports, p3)) => match parse_export_table(
                    d,
                    p3,
                    e,
                    names.len() as int,
                    summary.export_offset,
                    summary.export_count,
                ) {
                    Err(err) => Err(err),
                    Ok((exports, p4)) => match parse_region(
                        d,
                        p4,
                        e,
                        summary.depends_offset,
                        summary.asset_registry_data_offset,
                    ) {
                        Err(err) => Err(err),
                        Ok((depends, p5)) => match parse_region(
                            d,
                            p5,
                            e,
                            summary.asset_registry_data_offset,
                            summary.preload_dependency_offset,
                        ) {
                            Err(err) => Err(err),
                            Ok((assets, p6)) => match parse_preload_dependencies(
                                d,
                                p6,
                                e,
                                imports,
                                exports,
                                summary.preload_dependency_offset,
                                summary.preload_dependency_count,
                            ) {
                                Err(err) => Err(err),
                                Ok((dependencies, _)) => Ok(
                                    HeaderModel {
                                        summary,
                                        names,
                                        imports,
                                        exports,
                                        depends,
                                        assets,
                                        dependencies,
                                    },
                                ),
                            },
                        },
                    },
                },
            },
        },
    }
}

/// The parts of a header file that cannot be read, where there are
/// such: the section and, in a table of imports or exports that starts
/// where it should, the entry.
pub open spec fn header_trail(d: Seq<u8>) -> Seq<Place> {
    let e = d.len() as int;
    match parse_summary(d, 0, e) {
        Err(_) => seq![Place::Summary],
        Ok((summary, p1)) => match parse_name_map(
            d,
            p1,
            e,
            summary.name_offset,
            summary.name_count,
        ) {
            Err(_) => seq![Place::Names],
            Ok((names, p2)) => match parse_import_table(
                d,
                p2,
                e,
                names.len() as int,
                summary.import_offset,
                summary.import_count,
            ) {
                Err(_) => seq![Place::Imports] + import_table_trail(
                    d,
                    p2,
                    e,
                    names.len() as int,
                    summary.import_offset,
                    summary.import_count,
                ),
                Ok((imports, p3)) => match parse_export_table(
                    d,
                    p3,
                    e,
                    names.len() as int,
                    summary.export_offset,
                    summary.export_count,
                ) {
                    Err(_) => seq![Place::Exports] + export_table_trail(
                        d,
                        p3,
                        e,
                        names.len() as int,
                        summary.export_offset,
                        summary.export_count,
                    ),
                    Ok((exports, p4)) => match parse_region(
                        d,
                        p4,
                        e,
                        summary.depends_offset,
                        summary.asset_registry_data_offset,
                    ) {
                        Err(_) => seq![Place::Depends],
                        Ok((depends, p5)) => match parse_region(
                            d,
                            p5,
                            e,
                            summary.asset_registry_data_offset,
                            summary.preload_dependency_offset,
                        ) {
                            Err(_) => seq![Place::AssetRegistry],
                            Ok(_) => seq![Place::PreloadDependencies],
                        },
                    },
                },
            },
        },
    }
}

/// Whether a header can be written: its strings and lists fit their
/// length fields, and every name, import and export that it refers to is
/// in its tables.
pub open spec fn header_fits(h: HeaderModel) -> bool {
    &&& summary_fits(h.summary)
    &&& crate::asset::name_map::names_fit(h.names)
    &&& crate::asset::imports::imports_fit(h.imports, h.names.len() as int)
    &&& crate::asset::exports::exports_fit(h.exports, h.names.len() as int)
    &&& crate::asset::preload_dependencies::all_encodable(h.dependencies, h.imports, h.exports)
}

/// Why a header cannot be written: a string or a list is too long for
/// its length field, or a name, an import or an export is referred to
/// that is in no table.
pub open spec fn header_error(h: HeaderModel) -> Error {
    if !summary_fits(h.summary) || !crate::asset::name_map::names_fit(h.names) {
        Error::TooLong
    } else {
        Error::MissingName
    }
}

/// The section of a header that cannot be written, where there is one.
pub open spec fn unwritten_section(h: HeaderModel) -> Place {
    if !summary_fits(h.summary) {
        Place::Summary
    } else if !crate::asset::name_map::names_fit(h.names) {
        Place::Names
    } else if !crate::asset::imports::imports_fit(h.imports, h.names.len() as int) {
        Place::Imports
    } else if !crate::asset::exports::exports_fit(h.exports, h.names.len() as int) {
        Place::Exports
    } else {
        Place::PreloadDependencies
    }
}

/// The bytes of a header file, section after section.
pub open spec fn enc_header(h: HeaderModel) -> Seq<u8> {
    enc_summary(h.summary) + enc_names(h.names, h.names.len() as int) + enc_imports(
        h.imports,
        h.imports.len() as int,
    ) + enc_exports(h.exports, h.exports.len() as int) + h.depends + h.assets + enc_references(
        h.dependencies,
        h.imports,
        h.exports,
        h.dependencies.len() as int,
    )
}

/* The body file */

/// The property bags of the exports from the `i`-th on, one after the other.
pub open spec fn parse_bags(
    d: Seq<u8>,
    p: int,
    env: Env,
    exports: Seq<ExportModel>,
    i: int,
    acc: Seq<BagModel>,
) -> Result<(Seq<BagModel>, int), Error>
    decreases exports.len() - i,
{
    if i < 0 || i >= exports.len() {
        Ok((acc, p))
    } else {
        match parse_bag(
            d,
            p,
            d.len() as int,
            env,
            exports[i].export_file_offset,
            exports[i].serial_size,
        ) {
            Err(err) => Err(err),
            Ok((bag, q)) => parse_bags(d, q, env, exports, i + 1, acc.push(bag)),
        }
    }
}

/// The number of the first export, from the `i`-th on, whose property
/// bag cannot be read; the number of exports where there is none.
pub open spec fn failing_bag(d: Seq<u8>, p: int, env: Env, exports: Seq<ExportModel>, i: int) -> int
    decreases exports.len() - i,
{
    if i < 0 || i >= exports.len() {
        i
    } else {
        match parse_bag(
            d,
            p,
            d.len() as int,
            env,
            exports[i].export_file_offset,
            exports[i].serial_size,
        ) {
            Err(_) => i,
            Ok((_, q)) => failing_bag(d, q, env, exports, i + 1),
        }
    }
}

/// The place at which the property bag of the first export, from the
/// `i`-th on, that cannot be read starts.
pub open spec fn failing_bag_start(
    d: Seq<u8>,
    p: int,
    env: Env,
    exports: Seq<ExportModel>,
    i: int,
) -> int
    decreases exports.len() - i,
{
    if i < 0 || i >= exports.len() {
        p
    } else {
        match parse_bag(
            d,
            p,
            d.len() as int,
            env,
            exports[i].export_file_offset,
            exports[i].serial_size,
        ) {
            Err(_) => p,
            Ok((_, q)) => failing_bag_start(d, q, env, exports, i + 1),
        }
    }
}

/// The parts of a body file that cannot be read, where there are such:
/// a property bag and, where it is one that cannot be read, the
/// property; or the tag at the end.
pub open spec fn body_trail(d: Seq<u8>, h: HeaderModel, patterns: PatternsModel) -> Seq<Place> {
    let env = env_of(h, patterns);
    match parse_bags(d, 0, env, h.exports, 0, Seq::empty()) {
        Err(_) => {
            let i = failing_bag(d, 0, env, h.exports, 0);
            seq![Place::Bag(i as usize)] + bag_trail(
                d,
                failing_bag_start(d, 0, env, h.exports, 0),
                d.len() as int,
                env,
                h.exports[i].export_file_offset,
                h.exports[i].serial_size,
            )
        },
        Ok(_) => seq![Place::Trailer],
    }
}

/// The property bags that a body file holds: one for each export, then
/// the tag of the summary.
pub open spec fn parse_body(d: Seq<u8>, h: HeaderModel, patterns: PatternsModel) -> Result<
    Seq<BagModel>,
    Error,
> {
    match parse_bags(d, 0, env_of(h, patterns), h.exports, 0, Seq::empty()) {
        Err(err) => Err(err),
        Ok((bags, q)) => match parse_bytes(d, q, d.len() as int, 4) {
            Err(err) => Err(err),
            Ok((tag, _)) => if tag == h.summary.tag {
                Ok(bags)
            } else {
                Err(Error::BadTrailer)
            },
        },
    }
}

/// The bytes of the first `n` property bags.
pub open spec fn enc_bags(bags: Seq<BagModel>, env: Env, n: int) -> Result<Seq<u8>, Error>
    decreases n,
{
    if n <= 0 {
        Ok(Seq::empty())
    } else {
        match enc_bags(bags, env, n - 1) {
            Err(err) => Err(err),
            Ok(before) => match enc_bag(bags[n - 1], env) {
                Err(err) => Err(err),
                Ok(bag) => Ok(before + bag),
            },
        }
    }
}

/// The bytes of a body file: the property bags, then the tag of the summary.
pub open spec fn enc_body(bags: Seq<BagModel>, h: HeaderModel, patterns: PatternsModel) -> Result<
    Seq<u8>,
    Error,
> {
    match enc_bags(bags, env_of(h, patterns), bags.len() as int) {
        Err(err) => Err(err),
        Ok(bytes) => Ok(bytes + h.summary.tag),
    }
}

/// Once a property bag cannot be written, no longer run of bags can.
/// The number of the first of the first `n` property bags that cannot
/// be written, where there is one.
pub open spec fn unwritten_bag(bags: Seq<BagModel>, env: Env, n: int) -> int
    decreases n,
{
    if n <= 0 {
        0
    } else if enc_bags(bags, env, n - 1) is Err {
        unwritten_bag(bags, env, n - 1)
    } else {
        n - 1
    }
}

/// The first property bag that cannot be written is the same for
/// every number of bags that holds it.
pub proof fn lemma_unwritten_bag(bags: Seq<BagModel>, env: Env, i: int, n: int)
    requires
        0 < i <= n,
        enc_bags(bags, env, i) is Err,
    ensures
        unwritten_bag(bags, env, n) == unwritten_bag(bags, env, i),
    decreases n - i,
{
    if i < n {
        lemma_enc_bags_fails(bags, env, i, n - 1);
        lemma_unwritten_bag(bags, env, i, n - 1);
    }
}

pub proof fn lemma_enc_bags_fails(bags: Seq<BagModel>, env: Env, i: int, n: int)
    requires
        0 < i <= n,
        enc_bags(bags, env, i) is Err,
    ensures
        enc_bags(bags, env, n) == enc_bags(bags, env, i),
    decreases n - i,
{
    if i < n {
        lemma_enc_bags_fails(bags, env, i, n - 1);
    }
}

impl AssetHeader {
    /// Reads a header file. A failure names the section that could not
    /// be read.
    pub fn read(uasset: Vec<u8>) -> (r: Result<Self, Failure>)
        ensures
            match parse_header(uasset@) {
                Ok(h) => r is Ok && r->Ok_0@ == h,
                Err(e) => fails_with(r, e, header_trail(uasset@)),
            },
    {
        let mut rdr = ByteReader::new(uasset);
        let ghost d = uasset@;
        let ghost e = d.len() as int;
        let summary = match FileSummary::read(&mut rdr) {
            Ok(summary) => summary,
            Err(err) => {
                assert(parse_summary(d, 0, e) == Err::<(SummaryModel, int), Error>(err));
                return Err(Failure::at(err, Place::Summary));
            },
        };
        let ghost p1 = rdr@.pos as int;
        assert(parse_summary(d, 0, e) == Ok::<(SummaryModel, int), Error>((summary@, p1)));
        let names = match NameMap::read(&mut rdr, &summary) {
            Ok(names) => names,
            Err(err) => {
                assert(parse_name_map(d, p1, e, summary@.name_offset, summary@.name_count) == Err::<
                    (Seq<NameModel>, int),
                    Error,
                >(err));
                return Err(Failure::at(err, Place::Names));
            },
        };
        let ghost p2 = rdr@.pos as int;
        assert(parse_name_map(d, p1, e, summary@.name_offset, summary@.name_count) == Ok::<
            (Seq<NameModel>, int),
            Error,
        >((names@, p2)));
        let imports = match Imports::read(&mut rdr, &summary, &names) {
            Ok(imports) => imports,
            Err(failure) => {
                assert(parse_import_table(
                    d,
                    p2,
                    e,
                    names@.len() as int,
                    summary@.import_offset,
                    summary@.import_count,
                ) == Err::<(Seq<Import>, int), Error>(failure.error));
                assert(parse_header(d) == Err::<HeaderModel, Error>(failure.error));
                return Err(failure.within(Place::Imports));
            },
        };
        let ghost p3 = rdr@.pos as int;
        assert(parse_import_table(
            d,
            p2,
            e,
            names@.len() as int,
            summary@.import_offset,
            summary@.import_count,
        ) == Ok::<(Seq<Import>, int), Error>((imports@, p3)));
        let exports = match Exports::read(&mut rdr, &summary, &names) {
            Ok(exports) => exports,
            Err(failure) => {
                assert(parse_export_table(
                    d,
                    p3,
                    e,
                    names@.len() as int,
                    summary@.export_offset,
                    summary@.export_count,
                ) == Err::<(Seq<ExportModel>, int), Error>(failure.error));
                assert(parse_header(d) == Err::<HeaderModel, Error>(failure.error));
                return Err(failure.within(Place::Exports));
            },
        };
        let ghost p4 = rdr@.pos as int;
        assert(parse_export_table(
            d,
            p3,
            e,
            names@.len() as int,
            summary@.export_offset,
            summary@.export_count,
        ) == Ok::<(Seq<ExportModel>, int), Error>((exports@, p4)));
        let depends = match Depends::read(&mut rdr, &summary) {
            Ok(depends) => depends,
            Err(err) => {
                assert(parse_region(
                    d,
                    p4,
                    e,
                    summary@.depends_offset,
                    summary@.asset_registry_data_offset,
                ) == Err::<(Seq<u8>, int), Error>(err));
                assert(parse_header(d) == Err::<HeaderModel, Error>(err));
                return Err(Failure::at(err, Place::Depends));
            },
        };
        let ghost p5 = rdr@.pos as int;
        assert(parse_region(
            d,
            p4,
            e,
            summary@.depends_offset,
            summary@.asset_registry_data_offset,
        ) == Ok::<(Seq<u8>, int), Error>((depends@, p5)));
        let assets = match AssetRegistry::read(&mut rdr, &summary) {
            Ok(assets) => assets,
            Err(err) => {
                assert(parse_region(
                    d,
                    p5,
                    e,
                    summary@.asset_registry_data_offset,
                    summary@.preload_dependency_offset,
                ) == Err::<(Seq<u8>, int), Error>(err));
                assert(parse_header(d) == Err::<HeaderModel, Error>(err));
                return Err(Failure::at(err, Place::AssetRegistry));
            },
        };
        let ghost p6 = rdr@.pos as int;
        assert(parse_region(
            d,
            p5,
            e,
            summary@.asset_registry_data_offset,
            summary@.preload_dependency_offset,
        ) == Ok::<(Seq<u8>, int), Error>((assets@, p6)));
        let dependencies = match PreloadDependencies::read(&mut rdr, &summary, &imports, &exports) {
            Ok(dependencies) => dependencies,
            Err(err) => {
                assert(parse_preload_dependencies(
                    d,
                    p6,
                    e,
                    imports@,
                    exports@,
                    summary@.preload_dependency_offset,
                    summary@.preload_dependency_count,
                ) == Err::<(Seq<Reference>, int), Error>(err));
                assert(parse_header(d) == Err::<HeaderModel, Error>(err));
                return Err(Failure::at(err, Place::PreloadDependencies));
            },
        };
        assert(parse_preload_dependencies(
            d,
            p6,
            e,
            imports@,
            exports@,
            summary@.preload_dependency_offset,
            summary@.preload_dependency_count,
        ) is Ok);
        Ok(Self { summary, names, imports, exports, depends, assets, dependencies })
    }

    /// Writes the header file.
    pub fn write(&self) -> (r: Result<Vec<u8>, Failure>)
        ensures
            header_fits(self@) ==> r is Ok && r->Ok_0@ == enc_header(self@),
            !header_fits(self@) ==> fails_with(
                r,
                header_error(self@),
                seq![unwritten_section(self@)],
            ),
    {
        let mut out: Vec<u8> = Vec::new();
        match self.summary.write(&mut out) {
            Ok(()) => {},
            Err(err) => {
                return Err(Failure::at(err, Place::Summary));
            },
        }
        match self.names.write(&mut out) {
            Ok(()) => {},
            Err(err) => {
                return Err(Failure::at(err, Place::Names));
            },
        }
        match self.imports.write(&mut out, &self.names) {
            Ok(()) => {},
            Err(err) => {
                return Err(Failure::at(err, Place::Imports));
            },
        }
        match self.exports.write(&mut out, &self.names) {
            Ok(()) => {},
            Err(err) => {
                return Err(Failure::at(err, Place::Exports));
            },
        }
        self.depends.write(&mut out);
        self.assets.write(&mut out);
        match self.dependencies.write(&mut out, &self.names, &self.imports, &self.exports) {
            Ok(()) => {},
            Err(err) => {
                return Err(Failure::at(err, Place::PreloadDependencies));
            },
        }
        assert(out@ =~= enc_header(self@));
        Ok(out)
    }
}

impl AssetExports {
    /// Reads a body file against its header. A failure names the
    /// property bag that could not be read, or the tag at the end.
    pub fn read(header: &AssetHeader, uexp: Vec<u8>, patterns: &StructPatterns) -> (r: Result<
        Self,
        Failure,
    >)
        ensures
            match parse_body(uexp@, header@, patterns@) {
                Ok(bags) => r is Ok && r->Ok_0@ == bags,
                Err(e) => fails_with(r, e, body_trail(uexp@, header@, patterns@)),
            },
    {
        let mut cursor_uexp = ByteReader::new(uexp);
        let ctx = PropertyContext::new(
            &header.summary,
            &header.names,
            &header.imports,
            &header.exports,
            patterns,
        );
        let ghost d = uexp@;
        let ghost env = env_of(header@, patterns@);
        let ghost models = header@.exports;
        assert(ctx@ == env);
        // Read all export structs
        let mut structs: Vec<Properties> = Vec::new();
        let mut i: usize = 0;
        assert(bag_models(structs@) =~= Seq::empty());
        while i < header.exports.exports.len()
            invariant
                0 <= i <= header.exports.exports@.len(),
                models == header@.exports,
                models.len() == header.exports.exports@.len(),
                ctx@ == env,
                d == uexp@,
                env == env_of(header@, patterns@),
                cursor_uexp@.data == d,
                cursor_uexp@.limits.len() == 0,
                parse_bags(d, 0, env, models, 0, Seq::empty()) == parse_bags(
                    d,
                    cursor_uexp@.pos as int,
                    env,
                    models,
                    i as int,
                    bag_models(structs@),
                ),
                failing_bag(d, 0, env, models, 0) == failing_bag(
                    d,
                    cursor_uexp@.pos as int,
                    env,
                    models,
                    i as int,
                ),
                failing_bag_start(d, 0, env, models, 0) == failing_bag_start(
                    d,
                    cursor_uexp@.pos as int,
                    env,
                    models,
                    i as int,
                ),
            decreases header.exports.exports@.len() - i,
        {
            let ghost p = cursor_uexp@.pos as int;
            let ghost before = bag_models(structs@);
            let export = &header.exports.exports[i];
            assert(models[i as int] == export@);
            let strct = match Properties::deserialize(&mut cursor_uexp, export, ctx) {
                Ok(strct) => strct,
                Err(failure) => {
                    assert(parse_bags(d, p, env, models, i as int, before) == Err::<
                        (Seq<BagModel>, int),
                        Error,
                    >(failure.error));
                    assert(failing_bag(d, p, env, models, i as int) == i);
                    assert(failing_bag_start(d, p, env, models, i as int) == p);
                    return Err(failure.within(Place::Bag(i)));
                },
            };
            structs.push(strct);
            assert(bag_models(structs@) =~= before.push(strct@));
            i = i + 1;
        }
        let tag = match read_bytes(&mut cursor_uexp, 4) {
            Ok(tag) => tag,
            Err(err) => {
                return Err(Failure::at(err, Place::Trailer));
            },
        };
        if !bytes_eq(tag.as_slice(), header.summary.tag.as_slice()) {
            return Err(Failure::at(Error::BadTrailer, Place::Trailer));
        }
        Ok(AssetExports { structs })
    }

    /// Writes the body file against its header.
    pub fn write(&self, header: &AssetHeader, patterns: &StructPatterns) -> (r: Result<
        Vec<u8>,
        Failure,
    >)
        ensures
            match enc_body(self@, header@, patterns@) {
                Ok(bytes) => r is Ok && r->Ok_0@ == bytes,
                Err(e) => fails_with(r, e, body_write_trail(self@, header@, patterns@)),
            },
    {
        let mut out: Vec<u8> = Vec::new();
        let ctx = PropertyContext::new(
            &header.summary,
            &header.names,
            &header.imports,
            &header.exports,
            patterns,
        );
        let ghost env = env_of(header@, patterns@);
        assert(ctx@ == env);
        let mut i: usize = 0;
        while i < self.structs.len()
            invariant
                0 <= i <= self.structs@.len(),
                self@.len() == self.structs@.len(),
                ctx@ == env,
                env == env_of(header@, patterns@),
                enc_bags(self@, env, i as int) is Ok,
                out@ == enc_bags(self@, env, i as int)->Ok_0,
            decreases self.structs@.len() - i,
        {
            assert(self@[i as int] == self.structs@[i as int]@);
            match self.structs[i].serialize(&mut out, ctx) {
                Ok(()) => {},
                Err(failure) => {
                    proof {
                        lemma_enc_bags_fails(self@, env, i + 1, self.structs@.len() as int);
                        lemma_unwritten_bag(self@, env, i + 1, self.structs@.len() as int);
                    }
                    return Err(failure.within(Place::Bag(i)));
                },
            }
            i = i + 1;
        }
        write_bytes(&mut out, header.summary.tag.as_slice());
        Ok(out)
    }
}

/// Where two byte strings first differ, from `i` on: the first place at
/// which their bytes differ, or the length of the shorter one.
pub open spec fn first_difference(a: Seq<u8>, b: Seq<u8>, i: int) -> int
    decreases a.len() - i,
{
    if i < 0 || i >= a.len() || i >= b.len() || a[i] != b[i] {
        i
    } else {
        first_difference(a, b, i + 1)
    }
}

/// What comparing two byte strings comes to: nothing where they are the
/// same, else the place at which they first differ.
pub open spec fn comparison(read: Seq<u8>, written: Seq<u8>) -> Result<(), Error> {
    if read == written {
        Ok(())
    } else {
        Err(Error::RoundTripInequality { offset: first_difference(read, written, 0) as u64 })
    }
}

/// Compares what was written with what was read.
pub fn compare_bytes(read: &[u8], written: &[u8]) -> (r: Result<(), Error>)
    ensures
        r == comparison(read@, written@),
{
    let mut i: usize = 0;
    while i < read.len() && i < written.len()
        invariant
            0 <= i <= read@.len(),
            i <= written@.len(),
            read@.subrange(0, i as int) == written@.subrange(0, i as int),
            first_difference(read@, written@, 0) == first_difference(read@, written@, i as int),
        decreases read@.len() - i,
    {
        if read[i] != written[i] {
            assert(read@ != written@);
            return Err(Error::RoundTripInequality { offset: i as u64 });
        }
        assert(read@.subrange(0, i + 1) =~= read@.subrange(0, i as int).push(read@[i as int]));
        assert(written@.subrange(0, i + 1) =~= written@.subrange(0, i as int).push(
            written@[i as int],
        ));
        i = i + 1;
    }
    if read.len() != written.len() {
        return Err(Error::RoundTripInequality { offset: i as u64 });
    }
    assert(read@ =~= read@.subrange(0, i as int));
    assert(written@ =~= written@.subrange(0, i as int));
    Ok(())
}

/// What reading the two files of an asset, writing the asset again and
/// comparing comes to.
pub open spec fn round_trip_result(
    uasset: Seq<u8>,
    uexp: Seq<u8>,
    patterns: PatternsModel,
) -> Result<(), Error> {
    match parse_header(uasset) {
        Err(e) => Err(e),
        Ok(h) => match parse_body(uexp, h, patterns) {
            Err(e) => Err(e),
            Ok(bags) => if !header_fits(h) {
                Err(header_error(h))
            } else {
                match enc_body(bags, h, patterns) {
                    Err(e) => Err(e),
                    Ok(body) => match comparison(uasset, enc_header(h)) {
                        Err(e) => Err(e),
                        Ok(()) => comparison(uexp, body),
                    },
                }
            },
        },
    }
}

/// The parts of an asset that cannot be read, where there are such: the
/// file, then the part of that file.
pub open spec fn asset_trail(uasset: Seq<u8>, uexp: Seq<u8>, patterns: PatternsModel) -> Seq<
    Place,
> {
    match parse_header(uasset) {
        Err(_) => seq![Place::Header] + header_trail(uasset),
        Ok(h) => seq![Place::Body] + body_trail(uexp, h, patterns),
    }
}

/// The property bag of a body file that cannot be written, and the
/// part of it that cannot, where there is one.
pub open spec fn body_write_trail(bags: Seq<BagModel>, h: HeaderModel, patterns: PatternsModel) -> Seq<
    Place,
> {
    let env = env_of(h, patterns);
    let i = unwritten_bag(bags, env, bags.len() as int);
    seq![Place::Bag(i as usize)] + enc_bag_trail(bags[i], env)
}

/// The part of an asset that cannot be written, where there is one: the
/// file, then the section or the property bag.
pub open spec fn write_trail(bags: Seq<BagModel>, h: HeaderModel, patterns: PatternsModel) -> Seq<
    Place,
> {
    if !header_fits(h) {
        seq![Place::Header, unwritten_section(h)]
    } else {
        seq![Place::Body] + body_write_trail(bags, h, patterns)
    }
}

/// The part of an asset at which the round trip fails, where it fails:
/// the part that cannot be read, or the file that cannot be written or
/// that is written otherwise than it was read.
pub open spec fn round_trip_trail(uasset: Seq<u8>, uexp: Seq<u8>, patterns: PatternsModel) -> Seq<
    Place,
> {
    match parse_header(uasset) {
        Err(_) => asset_trail(uasset, uexp, patterns),
        Ok(h) => match parse_body(uexp, h, patterns) {
            Err(_) => asset_trail(uasset, uexp, patterns),
            Ok(bags) => if !header_fits(h) || enc_body(bags, h, patterns) is Err {
                write_trail(bags, h, patterns)
            } else if comparison(uasset, enc_header(h)) is Err {
                seq![Place::Header]
            } else {
                seq![Place::Body]
            },
        },
    }
}

impl Asset {
    pub fn new(header: AssetHeader, exports: AssetExports) -> (r: Self)
        ensures
            r.header == header,
            r.exports == exports,
    {
        Self { header, exports }
    }

    pub fn summary(&self) -> (r: &FileSummary)
        ensures
            *r == self.header.summary,
    {
        &self.header.summary
    }

    pub fn summary_mut(&mut self) -> (r: &mut FileSummary)
        ensures
            *r == old(self).header.summary,
            final(self).header.summary == *final(r),
            final(self).header.names == old(self).header.names,
            final(self).header.imports == old(self).header.imports,
            final(self).header.exports == old(self).header.exports,
            final(self).header.depends == old(self).header.depends,
            final(self).header.assets == old(self).header.assets,
            final(self).header.dependencies == old(self).header.dependencies,
            final(self).exports == old(self).exports,
    {
        &mut self.header.summary
    }

    pub fn names(&self) -> (r: &NameMap)
        ensures
            *r == self.header.names,
    {
        &self.header.names
    }

    pub fn names_mut(&mut self) -> (r: &mut NameMap)
        ensures
            *r == old(self).header.names,
            final(self).header.names == *final(r),
            final(self).header.summary == old(self).header.summary,
            final(self).header.imports == old(self).header.imports,
            final(self).header.exports == old(self).header.exports,
            final(self).header.depends == old(self).header.depends,
            final(self).header.assets == old(self).header.assets,
            final(self).header.dependencies == old(self).header.dependencies,
            final(self).exports == old(self).exports,
    {
        &mut self.header.names
    }

    pub fn imports(&self) -> (r: &Imports)
        ensures
            *r == self.header.imports,
    {
        &self.header.imports
    }

    pub fn imports_mut(&mut self) -> (r: &mut Imports)
        ensures
            *r == old(self).header.imports,
            final(self).header.imports == *final(r),
            final(self).header.summary == old(self).header.summary,
            final(self).header.names == old(self).header.names,
            final(self).header.exports == old(self).header.exports,
            final(self).header.depends == old(self).header.depends,
            final(self).header.assets == old(self).header.assets,
            final(self).header.dependencies == old(self).header.dependencies,
            final(self).exports == old(self).exports,
    {
        &mut self.header.imports
    }

    pub fn exports(&self) -> (r: &Exports)
        ensures
            *r == self.header.exports,
    {
        &self.header.exports
    }

    pub fn exports_mut(&mut self) -> (r: &mut Exports)
        ensures
            *r == old(self).header.exports,
            final(self).header.exports == *final(r),
            final(self).header.summary == old(self).header.summary,
            final(self).header.names == old(self).header.names,
            final(self).header.imports == old(self).header.imports,
            final(self).header.depends == old(self).header.depends,
            final(self).header.assets == old(self).header.assets,
            final(self).header.dependencies == old(self).header.dependencies,
            final(self).exports == old(self).exports,
    {
        &mut self.header.exports
    }

    pub fn assets(&self) -> (r: &AssetRegistry)
        ensures
            *r == self.header.assets,
    {
        &self.header.assets
    }

    pub fn assets_mut(&mut self) -> (r: &mut AssetRegistry)
        ensures
            *r == old(self).header.assets,
            final(self).header.assets == *final(r),
            final(self).header.summary == old(self).header.summary,
            final(self).header.names == old(self).header.names,
            final(self).header.imports == old(self).header.imports,
            final(self).header.exports == old(self).header.exports,
            final(self).header.depends == old(self).header.depends,
            final(self).header.dependencies == old(self).header.dependencies,
            final(self).exports == old(self).exports,
    {
        &mut self.header.assets
    }

    pub fn deps(&self) -> (r: &PreloadDependencies)
        ensures
            *r == self.header.dependencies,
    {
        &self.header.dependencies
    }

    pub fn deps_mut(&mut self) -> (r: &mut PreloadDependencies)
        ensures
            *r == old(self).header.dependencies,
            final(self).header.dependencies == *final(r),
            final(self).header.summary == old(self).header.summary,
            final(self).header.names == old(self).header.names,
            final(self).header.imports == old(self).header.imports,
            final(self).header.exports == old(self).header.exports,
            final(self).header.depends == old(self).header.depends,
            final(self).header.assets == old(self).header.assets,
            final(self).exports == old(self).exports,
    {
        &mut self.header.dependencies
    }

    pub fn structs(&self) -> (r: &Vec<Properties>)
        ensures
            *r == self.exports.structs,
    {
        &self.exports.structs
    }

    pub fn structs_mut(&mut self) -> (r: &mut Vec<Properties>)
        ensures
            *r == old(self).exports.structs,
            final(self).exports.structs == *final(r),
            final(self).header == old(self).header,
    {
        &mut self.exports.structs
    }

    /// Reads an asset from the bytes of its two files. A failure names
    /// the file and the part of it that could not be read.
    pub fn read(uasset: Vec<u8>, uexp: Vec<u8>, patterns: &StructPatterns) -> (r: Result<
        Self,
        Failure,
    >)
        ensures
            match parse_header(uasset@) {
                Err(e) => fails_with(r, e, asset_trail(uasset@, uexp@, patterns@)),
                Ok(h) => match parse_body(uexp@, h, patterns@) {
                    Err(e) => fails_with(r, e, asset_trail(uasset@, uexp@, patterns@)),
                    Ok(bags) => r is Ok && r->Ok_0.header@ == h && r->Ok_0.exports@ == bags,
                },
            },
    {
        let header = match AssetHeader::read(uasset) {
            Ok(header) => header,
            Err(failure) => {
                let failure = failure.within(Place::Header);
                assert(failure.trail@ =~= asset_trail(uasset@, uexp@, patterns@));
                return Err(failure);
            },
        };
        let exports = match AssetExports::read(&header, uexp, patterns) {
            Ok(exports) => exports,
            Err(failure) => {
                let failure = failure.within(Place::Body);
                assert(failure.trail@ =~= asset_trail(uasset@, uexp@, patterns@));
                return Err(failure);
            },
        };
        Ok(Self { header, exports })
    }

    /// Writes the bytes of the two files of the asset. Where the asset
    /// is one that reads back, reading what was written gives the asset.
    /// A failure names the file and the section or the property bag that
    /// could not be written.
    pub fn write(&self, patterns: &StructPatterns) -> (r: Result<(Vec<u8>, Vec<u8>), Failure>)
        ensures
            match r {
                Ok((uasset, uexp)) => {
                    &&& header_fits(self.header@)
                    &&& uasset@ == enc_header(self.header@)
                    &&& enc_body(self.exports@, self.header@, patterns@) == Ok::<Seq<u8>, Error>(
                        uexp@,
                    )
                    &&& crate::asset::round_trip::asset_reads_back(
                        self.header@,
                        self.exports@,
                        patterns@,
                    ) ==> parse_header(uasset@) == Ok::<HeaderModel, Error>(self.header@)
                        && parse_body(uexp@, self.header@, patterns@) == Ok::<
                        Seq<BagModel>,
                        Error,
                    >(self.exports@)
                },
                Err(f) => {
                    &&& f.trail@ == write_trail(self.exports@, self.header@, patterns@)
                    &&& if !header_fits(self.header@) {
                        f.error == header_error(self.header@)
                    } else {
                        enc_body(self.exports@, self.header@, patterns@) == Err::<Seq<u8>, Error>(
                            f.error,
                        )
                    }
                },
            },
    {
        let uasset = match self.header.write() {
            Ok(uasset) => uasset,
            Err(failure) => {
                let failure = failure.within(Place::Header);
                assert(failure.trail@ =~= write_trail(self.exports@, self.header@, patterns@));
                return Err(failure);
            },
        };
        let uexp = match self.exports.write(&self.header, patterns) {
            Ok(uexp) => uexp,
            Err(failure) => {
                return Err(failure.within(Place::Body));
            },
        };
        proof {
            if crate::asset::round_trip::asset_reads_back(self.header@, self.exports@, patterns@) {
                crate::asset::round_trip::lemma_asset_round_trip(
                    self.header@,
                    self.exports@,
                    patterns@,
                );
            }
        }
        Ok((uasset, uexp))
    }

    /// Reads an asset, writes it again and compares: the round trip
    /// fails at the first place where what was written differs from what
    /// was read. A failure names the part of the asset at which it came up.
    pub fn test_rw(uasset: Vec<u8>, uexp: Vec<u8>, patterns: &StructPatterns) -> (r: Result<
        (),
        Failure,
    >)
        ensures
            match round_trip_result(uasset@, uexp@, patterns@) {
                Ok(()) => r is Ok,
                Err(e) => fails_with(r, e, round_trip_trail(uasset@, uexp@, patterns@)),
            },
    {
        let uasset_in = uasset.clone();
        let uexp_in = uexp.clone();
        let asset = Self::read(uasset_in, uexp_in, patterns)?;
        let (uasset_out, uexp_out) = asset.write(patterns)?;
        match compare_bytes(uasset.as_slice(), uasset_out.as_slice()) {
            Ok(()) => {},
            Err(err) => {
                return Err(Failure::at(err, Place::Header));
            },
        }
        match compare_bytes(uexp.as_slice(), uexp_out.as_slice()) {
            Ok(()) => {},
            Err(err) => {
                return Err(Failure::at(err, Place::Body));
            },
        }
        Ok(())
    }
}

} // verus!
