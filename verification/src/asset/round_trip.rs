use vstd::prelude::*;
use vstd::utf8::encode_utf8;
use crate::asset::enc_bags;
use crate::asset::enc_header;
use crate::asset::file_summary::enc_generation;
use crate::asset::file_summary::enc_generation_records;
use crate::asset::file_summary::enc_generations;
use crate::asset::file_summary::enc_summary;
use crate::asset::file_summary::enc_summary_head;
use crate::asset::file_summary::enc_summary_mid;
use crate::asset::file_summary::enc_summary_tail;
use crate::asset::file_summary::generations_in;
use crate::asset::file_summary::parse_generations;
use crate::asset::file_summary::parse_summary;
use crate::asset::file_summary::summary_fits;
use crate::asset::file_summary::summary_of;
use crate::asset::file_summary::Generation;
use crate::asset::file_summary::SummaryModel;
use crate::asset::header_fits;
use crate::asset::layout::lemma_summary_head_fields;
use crate::asset::layout::lemma_summary_mid_fields;
use crate::asset::layout::lemma_summary_tail_fields;
use crate::asset::name_map::names_size;
use crate::asset::depends::parse_region;
use crate::asset::exports::parse_export_table;
use crate::asset::imports::parse_import_table;
use crate::asset::name_map::parse_name_map;
use crate::asset::offsets::asset_registry_offset_of;
use crate::asset::offsets::depends_offset_of;
use crate::asset::offsets::export_offset_of;
use crate::asset::offsets::header_size_of;
use crate::asset::offsets::import_offset_of;
use crate::asset::offsets::name_offset_of;
use crate::asset::offsets::offsets_consistent;
use crate::asset::offsets::preload_offset_of;
use crate::asset::preload_dependencies::parse_preload_dependencies;
use crate::asset::parse_header;
use crate::util::enc_u32;
use crate::util::span;
use crate::util::u32_at;
use crate::asset::exports::enc_export;
use crate::asset::exports::enc_export_head;
use crate::asset::exports::enc_export_tail;
use crate::asset::exports::enc_exports;
use crate::asset::exports::export_of;
use crate::asset::exports::exports_fit;
use crate::asset::exports::parse_export;
use crate::asset::exports::parse_exports;
use crate::asset::exports::placed;
use crate::asset::imports::enc_import;
use crate::asset::imports::enc_imports;
use crate::asset::imports::import_fits;
use crate::asset::imports::imports_fit;
use crate::asset::imports::parse_import;
use crate::asset::imports::parse_imports;
use crate::asset::imports::Import;
use crate::asset::layout::lemma_export_head_fields;
use crate::asset::layout::lemma_export_tail_fields;
use crate::asset::name_map::enc_name;
use crate::asset::name_map::enc_name_variant;
use crate::asset::name_map::enc_names;
use crate::asset::name_map::lemma_name_variant_reads_back;
use crate::asset::name_map::name_fits;
use crate::asset::name_map::name_size;
use crate::asset::name_map::name_variant_fits;
use crate::asset::name_map::names_fit;
use crate::asset::name_map::parse_name;
use crate::asset::name_map::parse_names;
use crate::asset::name_map::NameModel;
use crate::asset::preload_dependencies::all_encodable;
use crate::asset::preload_dependencies::enc_references;
use crate::asset::preload_dependencies::parse_references;
use crate::asset::reference::enc_reference;
use crate::asset::reference::encodable;
use crate::asset::reference::lemma_reference_reads_back;
use crate::asset::reference::Reference;
use crate::util::enc_string;
use crate::util::enc_u16;
use crate::asset::enc_body;
use crate::asset::env_of;
use crate::asset::exports::ExportModel;
use crate::asset::offsets::bags_consistent;
use crate::asset::offsets::bags_size;
use crate::asset::parse_bags;
use crate::asset::parse_body;
use crate::asset::property::bag::bag_size;
use crate::asset::property::bag::enc_bag;
use crate::asset::property::bag::BagModel;
use crate::asset::property::context::Env;
use crate::asset::property::encode::enc_property;
use crate::asset::property::laws::lemma_bag_len;
use crate::asset::property::laws::property_guids_sized;
use crate::asset::property::round_trip::bag_reads_back;
use crate::asset::property::round_trip::lemma_bag_reads_back;
use crate::asset::property::round_trip::lemma_properties_parts;
use crate::asset::property::round_trip::lemma_property_guids;
use crate::asset::property::struct_pattern::PatternsModel;
use crate::asset::HeaderModel;
use crate::error::Error;
use crate::util::concat_all;
use crate::util::lemma_bytes_read_back;
use crate::util::lemma_lies_at_split;
use crate::util::lemma_part_lies_at;
use crate::util::lies_at;

verus! {

/* What was written reads back: the body file */

/// The bytes of each property bag of a body file.
pub open spec fn bag_parts(bags: Seq<BagModel>, env: Env) -> Seq<Seq<u8>> {
    Seq::new(bags.len(), |i: int| enc_bag(bags[i], env)->Ok_0)
}

/// A property bag that can be written and reads back takes the bytes
/// that are computed for it.
pub proof fn lemma_bag_size(b: BagModel, env: Env)
    requires
        enc_bag(b, env) is Ok,
        bag_reads_back(b, env),
    ensures
        enc_bag(b, env)->Ok_0.len() == bag_size(b),
{
    lemma_properties_parts(b.properties, env, b.properties.len() as int);
    assert forall|i: int| 0 <= i < b.properties.len() implies property_guids_sized(
        #[trigger] b.properties[i],
    ) by {
        assert(enc_property(b.properties[i], env) is Ok);
        lemma_property_guids(b.properties[i], env);
    }
    lemma_bag_len(b, env);
}

/// The property bags of a body file are written one after the other,
/// and take the bytes that are computed for them.
pub proof fn lemma_bags_parts(bags: Seq<BagModel>, env: Env, n: int)
    requires
        0 <= n <= bags.len(),
        enc_bags(bags, env, n) is Ok,
        forall|i: int| 0 <= i < bags.len() ==> bag_reads_back(#[trigger] bags[i], env),
    ensures
        forall|i: int| 0 <= i < n ==> (#[trigger] enc_bag(bags[i], env)) is Ok,
        enc_bags(bags, env, n)->Ok_0 == concat_all(bag_parts(bags, env), n),
        forall|k: int|
            0 <= k <= n ==> (#[trigger] concat_all(bag_parts(bags, env), k)).len() == bags_size(
                bags,
                k,
            ),
    decreases n,
{
    if n > 0 {
        assert(enc_bags(bags, env, n - 1) is Ok);
        lemma_bags_parts(bags, env, n - 1);
        assert(bag_parts(bags, env)[n - 1] == enc_bag(bags[n - 1], env)->Ok_0);
        lemma_bag_size(bags[n - 1], env);
    }
}

/// The property bags of a body file that were written read back: those
/// from the `k`-th on, behind the first `k`.
pub proof fn lemma_bags_read_back(
    d: Seq<u8>,
    bags: Seq<BagModel>,
    exports: Seq<ExportModel>,
    env: Env,
    k: int,
)
    requires
        0 <= k <= bags.len(),
        bags.len() == exports.len(),
        enc_bags(bags, env, bags.len() as int) is Ok,
        forall|i: int| 0 <= i < bags.len() ==> bag_reads_back(#[trigger] bags[i], env),
        forall|i: int|
            0 <= i < exports.len() ==> (#[trigger] exports[i]).serial_size == bag_size(bags[i])
                && exports[i].export_file_offset == bags_size(bags, i),
        lies_at(d, 0, concat_all(bag_parts(bags, env), bags.len() as int)),
        d.len() <= usize::MAX,
    ensures
        parse_bags(d, bags_size(bags, k) as int, env, exports, k, bags.take(k)) == Ok::<
            (Seq<BagModel>, int),
            Error,
        >((bags, bags_size(bags, bags.len() as int) as int)),
    decreases bags.len() - k,
{
    let parts = bag_parts(bags, env);
    let n = bags.len() as int;
    lemma_bags_parts(bags, env, n);
    if k < n {
        assert(concat_all(parts, k).len() == bags_size(bags, k));
        assert(concat_all(parts, k + 1).len() == bags_size(bags, k + 1));
        assert(concat_all(parts, n).len() == bags_size(bags, n));
        lemma_part_lies_at(d, 0, parts, n, k);
        assert(enc_bag(bags[k], env) is Ok);
        assert(parts[k] == enc_bag(bags[k], env)->Ok_0);
        lemma_bag_size(bags[k], env);
        lemma_bag_reads_back(
            d,
            bags_size(bags, k) as int,
            d.len() as int,
            bags[k],
            env,
            exports[k].export_file_offset,
            exports[k].serial_size,
        );
        lemma_bags_read_back(d, bags, exports, env, k + 1);
        assert(bags.take(k).push(bags[k]) =~= bags.take(k + 1));
    } else {
        assert(bags.take(k) =~= bags);
    }
}

/// A body file that was written reads back: where each export has the
/// place and the size of its property bag, and each bag reads back,
/// reading what was written gives the bags that were written.
pub proof fn lemma_body_reads_back(h: HeaderModel, bags: Seq<BagModel>, patterns: PatternsModel)
    requires
        enc_body(bags, h, patterns) is Ok,
        bags_consistent(h, bags),
        forall|i: int|
            0 <= i < bags.len() ==> bag_reads_back(#[trigger] bags[i], env_of(h, patterns)),
        h.summary.tag.len() == 4,
        enc_body(bags, h, patterns)->Ok_0.len() <= usize::MAX,
    ensures
        parse_body(enc_body(bags, h, patterns)->Ok_0, h, patterns) == Ok::<Seq<BagModel>, Error>(
            bags,
        ),
{
    let env = env_of(h, patterns);
    let d = enc_body(bags, h, patterns)->Ok_0;
    let n = bags.len() as int;
    let all = enc_bags(bags, env, n)->Ok_0;
    lemma_bags_parts(bags, env, n);
    assert(concat_all(bag_parts(bags, env), n).len() == bags_size(bags, n));
    assert(d == all + h.summary.tag);
    assert(d.subrange(0, d.len() as int) =~= d);
    lemma_lies_at_split(d, 0, all, h.summary.tag);
    lemma_bags_read_back(d, bags, h.exports, env, 0);
    assert(bags.take(0) =~= Seq::<BagModel>::empty());
    lemma_bytes_read_back(d, all.len() as int, d.len() as int, h.summary.tag);
}

/* What was written reads back: the tables of the header file */

/// The bytes of each name of a table.
pub open spec fn name_parts(names: Seq<NameModel>) -> Seq<Seq<u8>> {
    Seq::new(names.len(), |i: int| enc_name(names[i]))
}

/// The bytes of each import of a table.
pub open spec fn import_parts(imports: Seq<Import>) -> Seq<Seq<u8>> {
    Seq::new(imports.len(), |i: int| enc_import(imports[i]))
}

/// The bytes of each export of a table.
pub open spec fn export_parts(exports: Seq<ExportModel>) -> Seq<Seq<u8>> {
    Seq::new(exports.len(), |i: int| enc_export(exports[i]))
}

/// The bytes of each reference of a list.
pub open spec fn reference_parts(
    refs: Seq<Reference>,
    imports: Seq<Import>,
    exports: Seq<ExportModel>,
) -> Seq<Seq<u8>> {
    Seq::new(refs.len(), |i: int| enc_reference(refs[i], imports, exports))
}

/// The names of a table are written one after the other.
pub proof fn lemma_names_parts(names: Seq<NameModel>, n: int)
    requires
        0 <= n <= names.len(),
    ensures
        enc_names(names, n) == concat_all(name_parts(names), n),
    decreases n,
{
    if n > 0 {
        lemma_names_parts(names, n - 1);
    }
}

/// The imports of a table are written one after the other, 28 bytes each.
pub proof fn lemma_imports_parts(imports: Seq<Import>, n: int)
    requires
        0 <= n <= imports.len(),
    ensures
        enc_imports(imports, n) == concat_all(import_parts(imports), n),
        concat_all(import_parts(imports), n).len() == 28 * n,
    decreases n,
{
    if n > 0 {
        lemma_imports_parts(imports, n - 1);
        lemma_import_len(imports[n - 1]);
    }
}

/// The exports of a table are written one after the other, 104 bytes each.
pub proof fn lemma_exports_parts(exports: Seq<ExportModel>, n: int)
    requires
        0 <= n <= exports.len(),
        forall|i: int| 0 <= i < exports.len() ==> (#[trigger] exports[i]).package_guid.len() == 16,
    ensures
        enc_exports(exports, n) == concat_all(export_parts(exports), n),
        concat_all(export_parts(exports), n).len() == 104 * n,
    decreases n,
{
    if n > 0 {
        lemma_exports_parts(exports, n - 1);
        lemma_export_len(exports[n - 1]);
    }
}

/// The references of a list are written one after the other, 4 bytes each.
pub proof fn lemma_references_parts(
    refs: Seq<Reference>,
    imports: Seq<Import>,
    exports: Seq<ExportModel>,
    n: int,
)
    requires
        0 <= n <= refs.len(),
    ensures
        enc_references(refs, imports, exports, n) == concat_all(
            reference_parts(refs, imports, exports),
            n,
        ),
        concat_all(reference_parts(refs, imports, exports), n).len() == 4 * n,
    decreases n,
{
    crate::util::lemma_le_round_trip();
    if n > 0 {
        lemma_references_parts(refs, imports, exports, n - 1);
    }
}

/// An import takes 28 bytes.
pub proof fn lemma_import_len(i: Import)
    ensures
        enc_import(i).len() == 28,
{
    crate::util::lemma_le_round_trip();
}

/// An export takes 104 bytes.
pub proof fn lemma_export_len(x: ExportModel)
    requires
        x.package_guid.len() == 16,
    ensures
        enc_export(x).len() == 104,
{
    crate::util::lemma_le_round_trip();
    lemma_export_head_fields(x);
    lemma_export_tail_fields(x);
}

/// A name takes the bytes that are computed for it.
pub proof fn lemma_name_len(n: NameModel)
    ensures
        enc_name(n).len() == name_size(n),
{
    crate::util::lemma_le_round_trip();
}

/// A name that was written reads back, without its index.
pub proof fn lemma_name_reads_back(d: Seq<u8>, p: int, e: int, n: NameModel)
    requires
        name_fits(n),
        lies_at(d, p, enc_name(n)),
        p + enc_name(n).len() <= e,
    ensures
        parse_name(d, p, e) == Ok::<(NameModel, int), Error>(
            (
                NameModel {
                    index: 0,
                    name: n.name,
                    non_case_preserving_hash: n.non_case_preserving_hash,
                    case_preserving_hash: n.case_preserving_hash,
                },
                p + enc_name(n).len(),
            ),
        ),
{
    crate::util::lemma_le_round_trip();
    let text = enc_string(n.name);
    let h1 = enc_u16(n.non_case_preserving_hash);
    let h2 = enc_u16(n.case_preserving_hash);
    lemma_lies_at_split(d, p, text + h1, h2);
    lemma_lies_at_split(d, p, text, h1);
    crate::util::lemma_string_reads_back(d, p, e, n.name);
    crate::util::lemma_u16_reads_back(d, p + text.len(), e, n.non_case_preserving_hash);
    crate::util::lemma_u16_reads_back(d, p + text.len() + 2, e, n.case_preserving_hash);
}

/// The names of a table that were written read back, where each name
/// holds its place as its index: those from the `k`-th on, behind the
/// first `k`.
pub proof fn lemma_names_read_back(d: Seq<u8>, p: int, e: int, names: Seq<NameModel>, k: int)
    requires
        0 <= k <= names.len(),
        names_fit(names),
        forall|i: int| 0 <= i < names.len() ==> (#[trigger] names[i]).index == i as u32,
        lies_at(d, p, concat_all(name_parts(names), names.len() as int)),
        p + concat_all(name_parts(names), names.len() as int).len() <= e,
    ensures
        parse_names(
            d,
            p + concat_all(name_parts(names), k).len(),
            e,
            (names.len() - k) as nat,
            names.take(k),
        ) == Ok::<(Seq<NameModel>, int), Error>(
            (names, p + concat_all(name_parts(names), names.len() as int).len()),
        ),
    decreases names.len() - k,
{
    let parts = name_parts(names);
    let n = names.len() as int;
    if k < n {
        lemma_part_lies_at(d, p, parts, n, k);
        assert(parts[k] == enc_name(names[k]));
        assert(name_fits(names[k]));
        lemma_name_reads_back(d, p + concat_all(parts, k).len(), e, names[k]);
        lemma_names_read_back(d, p, e, names, k + 1);
        assert(names.take(k).push(names[k]) =~= names.take(k + 1));
        assert(names[k].index == names.take(k).len() as u32);
    } else {
        assert(names.take(k) =~= names);
    }
}

/// An import that was written reads back.
pub proof fn lemma_import_reads_back(d: Seq<u8>, p: int, e: int, i: Import, names: int)
    requires
        import_fits(i, names),
        lies_at(d, p, enc_import(i)),
        p + 28 <= e,
    ensures
        parse_import(d, p, e, names) == Ok::<(Import, int), Error>((i, p + 28)),
{
    crate::util::lemma_le_round_trip();
    let a = enc_name_variant(i.class_package);
    let b = enc_name_variant(i.class);
    let c = crate::util::enc_i32(i.outer_index);
    let n = enc_name_variant(i.name);
    lemma_lies_at_split(d, p, a + b + c, n);
    lemma_lies_at_split(d, p, a + b, c);
    lemma_lies_at_split(d, p, a, b);
    lemma_name_variant_reads_back(d, p, e, i.class_package, names);
    lemma_name_variant_reads_back(d, p + 8, e, i.class, names);
    crate::util::lemma_i32_reads_back(d, p + 16, e, i.outer_index);
    lemma_name_variant_reads_back(d, p + 20, e, i.name, names);
}

/// The imports of a table that were written read back: those from the
/// `k`-th on, behind the first `k`.
pub proof fn lemma_imports_read_back(
    d: Seq<u8>,
    p: int,
    e: int,
    imports: Seq<Import>,
    names: int,
    k: int,
)
    requires
        0 <= k <= imports.len(),
        imports_fit(imports, names),
        lies_at(d, p, concat_all(import_parts(imports), imports.len() as int)),
        p + 28 * imports.len() <= e,
    ensures
        parse_imports(d, p + 28 * k, e, names, (imports.len() - k) as nat, imports.take(k)) == Ok::<
            (Seq<Import>, int),
            Error,
        >((imports, p + 28 * imports.len())),
    decreases imports.len() - k,
{
    let parts = import_parts(imports);
    let n = imports.len() as int;
    lemma_imports_parts(imports, k);
    if k < n {
        lemma_imports_parts(imports, n);
        lemma_part_lies_at(d, p, parts, n, k);
        assert(parts[k] == enc_import(imports[k]));
        assert(import_fits(imports[k], names));
        lemma_import_reads_back(d, p + 28 * k, e, imports[k], names);
        lemma_imports_read_back(d, p, e, imports, names, k + 1);
        assert(imports.take(k).push(imports[k]) =~= imports.take(k + 1));
    } else {
        assert(imports.take(k) =~= imports);
    }
}

/// An export that was written reads back. Its place in the body file
/// is not written, and reads as 0.
pub proof fn lemma_export_reads_back(d: Seq<u8>, p: int, e: int, x: ExportModel, names: int)
    requires
        name_variant_fits(x.object_name, names),
        x.package_guid.len() == 16,
        lies_at(d, p, enc_export(x)),
        p + 104 <= e,
    ensures
        parse_export(d, p, e, names) == Ok::<(ExportModel, int), Error>((placed(x, 0), p + 104)),
{
    lemma_export_head_fields(x);
    lemma_export_tail_fields(x);
    let head = enc_export_head(x);
    let name = enc_name_variant(x.object_name);
    let tail = enc_export_tail(x);
    crate::asset::property::laws::lemma_name_variant_len(x.object_name);
    lemma_lies_at_split(d, p, head + name, tail);
    lemma_lies_at_split(d, p, head, name);
    lemma_bytes_read_back(d, p, e, head);
    lemma_name_variant_reads_back(d, p + 16, e, x.object_name, names);
    lemma_bytes_read_back(d, p + 24, e, tail);
    assert(export_of(head, x.object_name, tail, 0) == placed(x, 0));
}

/// The sum of the sizes of the first `n` exports.
pub open spec fn sizes_sum(exports: Seq<ExportModel>, n: int) -> int
    decreases n,
{
    if n <= 0 {
        0
    } else {
        sizes_sum(exports, n - 1) + exports[n - 1].serial_size
    }
}

/// The exports of a table that were written read back, where each
/// export lies in the body file behind the ones before it: those from
/// the `k`-th on, behind the first `k`.
pub proof fn lemma_exports_read_back(
    d: Seq<u8>,
    p: int,
    e: int,
    exports: Seq<ExportModel>,
    names: int,
    k: int,
)
    requires
        0 <= k <= exports.len(),
        exports_fit(exports, names),
        forall|i: int| 0 <= i < exports.len() ==> (#[trigger] exports[i]).package_guid.len() == 16,
        forall|i: int|
            0 <= i < exports.len() ==> (#[trigger] exports[i]).export_file_offset == sizes_sum(
                exports,
                i,
            ),
        lies_at(d, p, concat_all(export_parts(exports), exports.len() as int)),
        p + 104 * exports.len() <= e,
    ensures
        parse_exports(
            d,
            p + 104 * k,
            e,
            names,
            (exports.len() - k) as nat,
            exports.take(k),
            sizes_sum(exports, k),
        ) == Ok::<(Seq<ExportModel>, int), Error>((exports, p + 104 * exports.len())),
    decreases exports.len() - k,
{
    let parts = export_parts(exports);
    let n = exports.len() as int;
    lemma_exports_parts(exports, k);
    if k < n {
        lemma_exports_parts(exports, n);
        lemma_part_lies_at(d, p, parts, n, k);
        assert(parts[k] == enc_export(exports[k]));
        assert(name_variant_fits(exports[k].object_name, names));
        lemma_export_reads_back(d, p + 104 * k, e, exports[k], names);
        lemma_exports_read_back(d, p, e, exports, names, k + 1);
        assert(exports[k].export_file_offset == sizes_sum(exports, k));
        assert(placed(placed(exports[k], 0), sizes_sum(exports, k) as u64) == exports[k]);
        assert(exports.take(k).push(exports[k]) =~= exports.take(k + 1));
    } else {
        assert(exports.take(k) =~= exports);
    }
}

/// The references of a list that were written read back: those from
/// the `k`-th on, behind the first `k`.
pub proof fn lemma_references_read_back(
    d: Seq<u8>,
    p: int,
    e: int,
    refs: Seq<Reference>,
    imports: Seq<Import>,
    exports: Seq<ExportModel>,
    k: int,
)
    requires
        0 <= k <= refs.len(),
        all_encodable(refs, imports, exports),
        lies_at(d, p, concat_all(reference_parts(refs, imports, exports), refs.len() as int)),
        p + 4 * refs.len() <= e,
    ensures
        parse_references(
            d,
            p + 4 * k,
            e,
            imports,
            exports,
            (refs.len() - k) as nat,
            refs.take(k),
        ) == Ok::<(Seq<Reference>, int), Error>((refs, p + 4 * refs.len())),
    decreases refs.len() - k,
{
    let parts = reference_parts(refs, imports, exports);
    let n = refs.len() as int;
    lemma_references_parts(refs, imports, exports, k);
    if k < n {
        lemma_references_parts(refs, imports, exports, n);
        lemma_part_lies_at(d, p, parts, n, k);
        assert(parts[k] == enc_reference(refs[k], imports, exports));
        assert(encodable(refs[k], imports, exports));
        lemma_reference_reads_back(d, p + 4 * k, e, refs[k], imports, exports);
        lemma_references_read_back(d, p, e, refs, imports, exports, k + 1);
        assert(refs.take(k).push(refs[k]) =~= refs.take(k + 1));
    } else {
        assert(refs.take(k) =~= refs);
    }
}

/* What was written reads back: the summary */

/// Whether the byte strings of a summary have the lengths that their
/// fields have.
pub open spec fn summary_shaped(s: SummaryModel) -> bool {
    &&& s.tag.len() == 4
    &&& s.custom_version.len() == 12
    &&& s.guid.len() == 16
    &&& s.saved_by_engine_version.len() == 16
    &&& s.compatible_with_engine_version.len() == 16
}

/// Where the records of the first `n` generations lie.
pub proof fn lemma_generation_records(gens: Seq<Generation>, n: int)
    requires
        0 <= n <= gens.len(),
    ensures
        enc_generation_records(gens, n).len() == 8 * n,
        forall|i: int|
            0 <= i < n ==> u32_at(enc_generation_records(gens, n), #[trigger] (8 * i))
                == gens[i].export_count && u32_at(enc_generation_records(gens, n), 8 * i + 4)
                == gens[i].name_count,
    decreases n,
{
    crate::util::lemma_le_round_trip();
    if n > 0 {
        lemma_generation_records(gens, n - 1);
        let before = enc_generation_records(gens, n - 1);
        let g = gens[n - 1];
        let all = enc_generation_records(gens, n);
        assert(all.subrange(0, all.len() as int) =~= all);
        lemma_lies_at_split(all, 0, before, enc_generation(g));
        lemma_lies_at_split(all, 8 * (n - 1), enc_u32(g.export_count), enc_u32(g.name_count));
        crate::util::lemma_u32_reads_back(all, 8 * (n - 1), 8 * n, g.export_count);
        crate::util::lemma_u32_reads_back(all, 8 * (n - 1) + 4, 8 * n, g.name_count);
        assert forall|i: int| 0 <= i < n implies u32_at(all, #[trigger] (8 * i))
            == gens[i].export_count && u32_at(all, 8 * i + 4) == gens[i].name_count by {
            if i < n - 1 {
                crate::util::lemma_u32_within(all, 0, before, 8 * i);
                crate::util::lemma_u32_within(all, 0, before, 8 * i + 4);
            }
        }
    }
}

/// A list of generations that was written reads back.
pub proof fn lemma_generations_read_back(d: Seq<u8>, p: int, e: int, gens: Seq<Generation>)
    requires
        gens.len() <= u32::MAX,
        lies_at(d, p, enc_generations(gens)),
        p + 4 + 8 * gens.len() <= e,
    ensures
        parse_generations(d, p, e) == Ok::<(Seq<Generation>, int), Error>(
            (gens, p + 4 + 8 * gens.len()),
        ),
        enc_generations(gens).len() == 4 + 8 * gens.len(),
{
    crate::util::lemma_le_round_trip();
    let n = gens.len() as int;
    let records = enc_generation_records(gens, n);
    lemma_generation_records(gens, n);
    lemma_lies_at_split(d, p, enc_u32(n as u32), records);
    crate::util::lemma_u32_reads_back(d, p, e, n as u32);
    lemma_bytes_read_back(d, p + 4, e, records);
    let found = generations_in(span(d, p + 4, 8 * n), n);
    assert forall|i: int| 0 <= i < n implies found[i] == gens[i] by {
        assert(u32_at(records, 8 * i) == gens[i].export_count);
    }
    assert(found =~= gens);
}

/// A summary takes 180 bytes, its folder name with the terminator, and
/// 8 bytes for each generation.
pub proof fn lemma_summary_len(s: SummaryModel)
    requires
        summary_shaped(s),
    ensures
        enc_summary(s).len() == 180 + encode_utf8(s.folder_name).len() + 1 + 8
            * s.generations.len(),
{
    crate::util::lemma_le_round_trip();
    lemma_summary_head_fields(s);
    lemma_summary_mid_fields(s);
    lemma_summary_tail_fields(s);
    lemma_generation_records(s.generations, s.generations.len() as int);
}

/// A summary that was written reads back.
pub proof fn lemma_summary_reads_back(d: Seq<u8>, p: int, e: int, s: SummaryModel)
    requires
        summary_fits(s),
        summary_shaped(s),
        lies_at(d, p, enc_summary(s)),
        p + enc_summary(s).len() <= e,
    ensures
        parse_summary(d, p, e) == Ok::<(SummaryModel, int), Error>((s, p + enc_summary(s).len())),
{
    lemma_summary_len(s);
    lemma_summary_head_fields(s);
    lemma_summary_mid_fields(s);
    lemma_summary_tail_fields(s);
    let head = enc_summary_head(s);
    let folder = enc_string(s.folder_name);
    let mid = enc_summary_mid(s);
    let gens = enc_generations(s.generations);
    let tail = enc_summary_tail(s);
    lemma_lies_at_split(d, p, head + folder + mid + gens, tail);
    lemma_lies_at_split(d, p, head + folder + mid, gens);
    lemma_lies_at_split(d, p, head + folder, mid);
    lemma_lies_at_split(d, p, head, folder);
    lemma_bytes_read_back(d, p, e, head);
    crate::util::lemma_string_reads_back(d, p + 28, e, s.folder_name);
    let q = p + 28 + folder.len();
    lemma_bytes_read_back(d, q, e, mid);
    lemma_generations_read_back(d, q + 72, e, s.generations);
    let t = q + 72 + gens.len();
    lemma_bytes_read_back(d, t, e, tail);
    assert(summary_of(head, s.folder_name, mid, s.generations, tail) == s);
}

/* What was written reads back: the header file */

/// Whether a header is one that reading finds again: it can be written;
/// its offsets and counts are what its tables say; it has one
/// generation, as the size of a summary takes for granted; each name
/// holds its place as its index; each export lies in the body file
/// behind the ones before it; and its byte strings have the lengths of
/// their fields.
pub open spec fn header_reads_back(h: HeaderModel) -> bool {
    &&& header_fits(h)
    &&& offsets_consistent(h)
    &&& h.summary.generations.len() == 1
    &&& summary_shaped(h.summary)
    &&& forall|i: int| 0 <= i < h.names.len() ==> (#[trigger] h.names[i]).index == i as u32
    &&& forall|i: int| 0 <= i < h.exports.len() ==> (#[trigger] h.exports[i]).package_guid.len() == 16
    &&& forall|i: int|
        0 <= i < h.exports.len() ==> (#[trigger] h.exports[i]).export_file_offset == sizes_sum(
            h.exports,
            i,
        )
}

/// The names of a table take the bytes that are computed for them.
pub proof fn lemma_names_len(names: Seq<NameModel>, n: int)
    requires
        0 <= n <= names.len(),
    ensures
        concat_all(name_parts(names), n).len() == names_size(names, n),
    decreases n,
{
    if n > 0 {
        lemma_names_len(names, n - 1);
        lemma_name_len(names[n - 1]);
    }
}

/// Where the sections of a header file that was written lie: each
/// where the summary says it starts.
pub proof fn lemma_header_sections(h: HeaderModel)
    requires
        header_reads_back(h),
    ensures
        enc_header(h).len() == header_size_of(h),
        lies_at(enc_header(h), 0, enc_summary(h.summary)),
        enc_summary(h.summary).len() == name_offset_of(h),
        lies_at(
            enc_header(h),
            name_offset_of(h),
            concat_all(name_parts(h.names), h.names.len() as int),
        ),
        concat_all(name_parts(h.names), h.names.len() as int).len() == names_size(
            h.names,
            h.names.len() as int,
        ),
        lies_at(
            enc_header(h),
            import_offset_of(h),
            concat_all(import_parts(h.imports), h.imports.len() as int),
        ),
        lies_at(
            enc_header(h),
            export_offset_of(h),
            concat_all(export_parts(h.exports), h.exports.len() as int),
        ),
        lies_at(enc_header(h), depends_offset_of(h), h.depends),
        lies_at(enc_header(h), asset_registry_offset_of(h), h.assets),
        lies_at(
            enc_header(h),
            preload_offset_of(h),
            concat_all(
                reference_parts(h.dependencies, h.imports, h.exports),
                h.dependencies.len() as int,
            ),
        ),
{
    let d = enc_header(h);
    let e = d.len() as int;
    let summary = enc_summary(h.summary);
    let names = enc_names(h.names, h.names.len() as int);
    let imports = enc_imports(h.imports, h.imports.len() as int);
    let exports = enc_exports(h.exports, h.exports.len() as int);
    let refs = enc_references(h.dependencies, h.imports, h.exports, h.dependencies.len() as int);
    lemma_summary_len(h.summary);
    lemma_names_parts(h.names, h.names.len() as int);
    lemma_names_len(h.names, h.names.len() as int);
    lemma_imports_parts(h.imports, h.imports.len() as int);
    lemma_exports_parts(h.exports, h.exports.len() as int);
    lemma_references_parts(h.dependencies, h.imports, h.exports, h.dependencies.len() as int);
    assert(d.subrange(0, e) =~= d);
    lemma_lies_at_split(d, 0, summary + names + imports + exports + h.depends + h.assets, refs);
    lemma_lies_at_split(d, 0, summary + names + imports + exports + h.depends, h.assets);
    lemma_lies_at_split(d, 0, summary + names + imports + exports, h.depends);
    lemma_lies_at_split(d, 0, summary + names + imports, exports);
    lemma_lies_at_split(d, 0, summary + names, imports);
    lemma_lies_at_split(d, 0, summary, names);
}

/// The first four sections of a header file that was written read back.
pub proof fn lemma_header_tables_read_back(h: HeaderModel)
    requires
        header_reads_back(h),
    ensures
        parse_summary(enc_header(h), 0, enc_header(h).len() as int) == Ok::<
            (SummaryModel, int),
            Error,
        >((h.summary, name_offset_of(h))),
        parse_name_map(
            enc_header(h),
            name_offset_of(h),
            enc_header(h).len() as int,
            h.summary.name_offset,
            h.summary.name_count,
        ) == Ok::<(Seq<NameModel>, int), Error>((h.names, import_offset_of(h))),
        parse_import_table(
            enc_header(h),
            import_offset_of(h),
            enc_header(h).len() as int,
            h.names.len() as int,
            h.summary.import_offset,
            h.summary.import_count,
        ) == Ok::<(Seq<Import>, int), Error>((h.imports, export_offset_of(h))),
        parse_export_table(
            enc_header(h),
            export_offset_of(h),
            enc_header(h).len() as int,
            h.names.len() as int,
            h.summary.export_offset,
            h.summary.export_count,
        ) == Ok::<(Seq<ExportModel>, int), Error>((h.exports, depends_offset_of(h))),
{
    let d = enc_header(h);
    let e = d.len() as int;
    lemma_header_sections(h);
    lemma_summary_reads_back(d, 0, e, h.summary);
    lemma_names_read_back(d, name_offset_of(h), e, h.names, 0);
    assert(h.names.take(0) =~= Seq::<NameModel>::empty());
    lemma_imports_read_back(d, import_offset_of(h), e, h.imports, h.names.len() as int, 0);
    assert(h.imports.take(0) =~= Seq::<Import>::empty());
    lemma_exports_read_back(d, export_offset_of(h), e, h.exports, h.names.len() as int, 0);
    assert(h.exports.take(0) =~= Seq::<ExportModel>::empty());
}

/// The last three sections of a header file that was written read back.
pub proof fn lemma_header_rest_reads_back(h: HeaderModel)
    requires
        header_reads_back(h),
    ensures
        parse_region(
            enc_header(h),
            depends_offset_of(h),
            enc_header(h).len() as int,
            h.summary.depends_offset,
            h.summary.asset_registry_data_offset,
        ) == Ok::<(Seq<u8>, int), Error>((h.depends, asset_registry_offset_of(h))),
        parse_region(
            enc_header(h),
            asset_registry_offset_of(h),
            enc_header(h).len() as int,
            h.summary.asset_registry_data_offset,
            h.summary.preload_dependency_offset,
        ) == Ok::<(Seq<u8>, int), Error>((h.assets, preload_offset_of(h))),
        parse_preload_dependencies(
            enc_header(h),
            preload_offset_of(h),
            enc_header(h).len() as int,
            h.imports,
            h.exports,
            h.summary.preload_dependency_offset,
            h.summary.preload_dependency_count,
        ) is Ok,
        parse_preload_dependencies(
            enc_header(h),
            preload_offset_of(h),
            enc_header(h).len() as int,
            h.imports,
            h.exports,
            h.summary.preload_dependency_offset,
            h.summary.preload_dependency_count,
        )->Ok_0.0 == h.dependencies,
{
    let d = enc_header(h);
    let e = d.len() as int;
    lemma_header_sections(h);
    lemma_bytes_read_back(d, depends_offset_of(h), e, h.depends);
    lemma_bytes_read_back(d, asset_registry_offset_of(h), e, h.assets);
    lemma_references_read_back(d, preload_offset_of(h), e, h.dependencies, h.imports, h.exports, 0);
    assert(h.dependencies.take(0) =~= Seq::<Reference>::empty());
}

/// A header file that was written reads back: reading what was written
/// for a header that reads back gives that header.
pub proof fn lemma_header_reads_back(h: HeaderModel)
    requires
        header_reads_back(h),
    ensures
        parse_header(enc_header(h)) == Ok::<HeaderModel, Error>(h),
        enc_header(h).len() == h.summary.total_header_size,
{
    lemma_header_sections(h);
    lemma_header_tables_read_back(h);
    lemma_header_rest_reads_back(h);
}

/// Where each export has the place and the size of its property bag,
/// each export lies in the body file behind the ones before it.
pub proof fn lemma_placed_by_bags(h: HeaderModel, bags: Seq<BagModel>, n: int)
    requires
        bags_consistent(h, bags),
        0 <= n <= h.exports.len(),
    ensures
        sizes_sum(h.exports, n) == bags_size(bags, n),
        n < h.exports.len() ==> h.exports[n].export_file_offset == sizes_sum(h.exports, n),
    decreases n,
{
    if n > 0 {
        lemma_placed_by_bags(h, bags, n - 1);
        assert(h.exports[n - 1].serial_size == bag_size(bags[n - 1]));
    }
    if n < h.exports.len() {
        assert(h.exports[n].export_file_offset == bags_size(bags, n));
    }
}

/* What was written reads back: the asset */

/// Whether an asset is one that reading finds again: its header reads
/// back, each export has the place and the size of its property bag,
/// each property bag reads back, and its files are of sizes that a
/// machine can hold.
pub open spec fn asset_reads_back(
    h: HeaderModel,
    bags: Seq<BagModel>,
    patterns: PatternsModel,
) -> bool {
    &&& header_reads_back(h)
    &&& bags_consistent(h, bags)
    &&& enc_body(bags, h, patterns) is Ok
    &&& enc_body(bags, h, patterns)->Ok_0.len() <= usize::MAX
    &&& forall|i: int|
        0 <= i < bags.len() ==> bag_reads_back(#[trigger] bags[i], env_of(h, patterns))
}

/// The round trip of an asset: the two files that are written for an
/// asset that reads back are read as that asset, and are what is written
/// for what was read.
pub proof fn lemma_asset_round_trip(h: HeaderModel, bags: Seq<BagModel>, patterns: PatternsModel)
    requires
        asset_reads_back(h, bags, patterns),
    ensures
        parse_header(enc_header(h)) == Ok::<HeaderModel, Error>(h),
        parse_body(enc_body(bags, h, patterns)->Ok_0, h, patterns) == Ok::<Seq<BagModel>, Error>(
            bags,
        ),
        enc_header(parse_header(enc_header(h))->Ok_0) == enc_header(h),
        enc_body(
            parse_body(enc_body(bags, h, patterns)->Ok_0, h, patterns)->Ok_0,
            parse_header(enc_header(h))->Ok_0,
            patterns,
        ) == enc_body(bags, h, patterns),
{
    lemma_header_reads_back(h);
    lemma_body_reads_back(h, bags, patterns);
}

} // verus!
