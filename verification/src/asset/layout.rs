use vstd::prelude::*;
use crate::asset::exports::enc_export_dependencies;
use crate::asset::exports::enc_export_filters;
use crate::asset::exports::enc_export_head;
use crate::asset::exports::enc_export_package;
use crate::asset::exports::enc_export_serial;
use crate::asset::exports::enc_export_tail;
use crate::asset::exports::ExportModel;
use crate::asset::file_summary::enc_summary_head;
use crate::asset::file_summary::enc_summary_mid;
use crate::asset::file_summary::enc_summary_names;
use crate::asset::file_summary::enc_summary_offsets;
use crate::asset::file_summary::enc_summary_references;
use crate::asset::file_summary::enc_summary_tables;
use crate::asset::file_summary::enc_summary_tail;
use crate::asset::file_summary::enc_summary_versions;
use crate::asset::file_summary::SummaryModel;
use crate::util::bool_at;
use crate::util::enc_bool;
use crate::util::enc_i32;
use crate::util::enc_i64;
use crate::util::enc_u32;
use crate::util::enc_u64;
use crate::util::i32_at;
use crate::util::i64_at;
use crate::util::lemma_bool_reads_back;
use crate::util::lemma_bytes_read_back;
use crate::util::lemma_i32_reads_back;
use crate::util::lemma_i64_reads_back;
use crate::util::lemma_le_round_trip;
use crate::util::lemma_lies_at_split;
use crate::util::lemma_subrange_within;
use crate::util::lemma_u32_reads_back;
use crate::util::lemma_u32_within;
use crate::util::lemma_u64_reads_back;
use crate::util::lemma_u64_within;
use crate::util::span;
use crate::util::u32_at;
use crate::util::u64_at;

verus! {

/* Where the fields of the fixed parts of the header file lie */

/// Where the fields of the first 16 bytes of an export lie.
pub proof fn lemma_export_head_fields(x: ExportModel)
    ensures
        enc_export_head(x).len() == 16,
        u32_at(enc_export_head(x), 0) == x.class,
        i32_at(enc_export_head(x), 4) == x.super_index,
        u32_at(enc_export_head(x), 8) == x.template,
        i32_at(enc_export_head(x), 12) == x.outer,
{
    lemma_le_round_trip();
    let t = enc_export_head(x);
    assert(t.subrange(0, t.len() as int) =~= t);
    lemma_lies_at_split(
        t,
        0,
        enc_u32(x.class) + enc_i32(x.super_index) + enc_u32(x.template),
        enc_i32(x.outer),
    );
    lemma_lies_at_split(t, 0, enc_u32(x.class) + enc_i32(x.super_index), enc_u32(x.template));
    lemma_lies_at_split(t, 0, enc_u32(x.class), enc_i32(x.super_index));
    lemma_u32_reads_back(t, 0, 16, x.class);
    lemma_i32_reads_back(t, 4, 16, x.super_index);
    lemma_u32_reads_back(t, 8, 16, x.template);
    lemma_i32_reads_back(t, 12, 16, x.outer);
}

/// Where the fields that place an export lie.
pub proof fn lemma_export_serial_fields(x: ExportModel)
    ensures
        enc_export_serial(x).len() == 16,
        u32_at(enc_export_serial(x), 0) == x.object_flags,
        u64_at(enc_export_serial(x), 4) == x.serial_size,
        u32_at(enc_export_serial(x), 12) == x.serial_offset,
{
    lemma_le_round_trip();
    let t = enc_export_serial(x);
    assert(t.subrange(0, t.len() as int) =~= t);
    lemma_lies_at_split(
        t,
        0,
        enc_u32(x.object_flags) + enc_u64(x.serial_size),
        enc_u32(x.serial_offset),
    );
    lemma_lies_at_split(t, 0, enc_u32(x.object_flags), enc_u64(x.serial_size));
    lemma_u32_reads_back(t, 0, 16, x.object_flags);
    lemma_u64_reads_back(t, 4, 16, x.serial_size);
    lemma_u32_reads_back(t, 12, 16, x.serial_offset);
}

/// Where the four filters of an export lie.
pub proof fn lemma_export_filters_fields(x: ExportModel)
    ensures
        enc_export_filters(x).len() == 16,
        bool_at(enc_export_filters(x), 0) == x.forced_export,
        bool_at(enc_export_filters(x), 4) == x.not_for_client,
        bool_at(enc_export_filters(x), 8) == x.not_for_server,
        bool_at(enc_export_filters(x), 12) == x.was_filtered,
{
    lemma_le_round_trip();
    let t = enc_export_filters(x);
    assert(t.subrange(0, t.len() as int) =~= t);
    lemma_lies_at_split(
        t,
        0,
        enc_bool(x.forced_export) + enc_bool(x.not_for_client) + enc_bool(x.not_for_server),
        enc_bool(x.was_filtered),
    );
    lemma_lies_at_split(
        t,
        0,
        enc_bool(x.forced_export) + enc_bool(x.not_for_client),
        enc_bool(x.not_for_server),
    );
    lemma_lies_at_split(t, 0, enc_bool(x.forced_export), enc_bool(x.not_for_client));
    lemma_bool_reads_back(t, 0, 16, x.forced_export);
    lemma_bool_reads_back(t, 4, 16, x.not_for_client);
    lemma_bool_reads_back(t, 8, 16, x.not_for_server);
    lemma_bool_reads_back(t, 12, 16, x.was_filtered);
}

/// Where the fields of the package of an export lie.
pub proof fn lemma_export_package_fields(x: ExportModel)
    requires
        x.package_guid.len() == 16,
    ensures
        enc_export_package(x).len() == 28,
        enc_export_package(x).subrange(0, 16) == x.package_guid,
        u32_at(enc_export_package(x), 16) == x.package_flags,
        bool_at(enc_export_package(x), 20) == x.not_always_loaded_for_editor_game,
        bool_at(enc_export_package(x), 24) == x.is_asset,
{
    lemma_le_round_trip();
    let t = enc_export_package(x);
    assert(t.subrange(0, t.len() as int) =~= t);
    lemma_lies_at_split(
        t,
        0,
        x.package_guid + enc_u32(x.package_flags)
            + enc_bool(x.not_always_loaded_for_editor_game),
        enc_bool(x.is_asset),
    );
    lemma_lies_at_split(
        t,
        0,
        x.package_guid + enc_u32(x.package_flags),
        enc_bool(x.not_always_loaded_for_editor_game),
    );
    lemma_lies_at_split(t, 0, x.package_guid, enc_u32(x.package_flags));
    lemma_bytes_read_back(t, 0, 28, x.package_guid);
    assert(span(t, 0, 16) == t.subrange(0, 16));
    lemma_u32_reads_back(t, 16, 28, x.package_flags);
    lemma_bool_reads_back(t, 20, 28, x.not_always_loaded_for_editor_game);
    lemma_bool_reads_back(t, 24, 28, x.is_asset);
}

/// Where the dependency counters of an export lie.
pub proof fn lemma_export_dependencies_fields(x: ExportModel)
    ensures
        enc_export_dependencies(x).len() == 20,
        u32_at(enc_export_dependencies(x), 0) == x.first_export_dependency,
        u32_at(enc_export_dependencies(x), 4) == x.serialization_before_serialization_dependencies,
        u32_at(enc_export_dependencies(x), 8) == x.create_before_serialization_dependencies,
        u32_at(enc_export_dependencies(x), 12) == x.serialization_before_create_dependencies,
        u32_at(enc_export_dependencies(x), 16) == x.create_before_create_dependencies,
{
    lemma_le_round_trip();
    let t = enc_export_dependencies(x);
    assert(t.subrange(0, t.len() as int) =~= t);
    lemma_lies_at_split(
        t,
        0,
        enc_u32(x.first_export_dependency)
            + enc_u32(x.serialization_before_serialization_dependencies)
            + enc_u32(x.create_before_serialization_dependencies)
            + enc_u32(x.serialization_before_create_dependencies),
        enc_u32(x.create_before_create_dependencies),
    );
    lemma_lies_at_split(
        t,
        0,
        enc_u32(x.first_export_dependency)
            + enc_u32(x.serialization_before_serialization_dependencies)
            + enc_u32(x.create_before_serialization_dependencies),
        enc_u32(x.serialization_before_create_dependencies),
    );
    lemma_lies_at_split(
        t,
        0,
        enc_u32(x.first_export_dependency)
            + enc_u32(x.serialization_before_serialization_dependencies),
        enc_u32(x.create_before_serialization_dependencies),
    );
    lemma_lies_at_split(
        t,
        0,
        enc_u32(x.first_export_dependency),
        enc_u32(x.serialization_before_serialization_dependencies),
    );
    lemma_u32_reads_back(t, 0, 20, x.first_export_dependency);
    lemma_u32_reads_back(t, 4, 20, x.serialization_before_serialization_dependencies);
    lemma_u32_reads_back(t, 8, 20, x.create_before_serialization_dependencies);
    lemma_u32_reads_back(t, 12, 20, x.serialization_before_create_dependencies);
    lemma_u32_reads_back(t, 16, 20, x.create_before_create_dependencies);
}

/// Where the fields of the last 80 bytes of an export lie.
pub proof fn lemma_export_tail_fields(x: ExportModel)
    requires
        x.package_guid.len() == 16,
    ensures
        enc_export_tail(x).len() == 80,
        u32_at(enc_export_tail(x), 0) == x.object_flags,
        u64_at(enc_export_tail(x), 4) == x.serial_size,
        u32_at(enc_export_tail(x), 12) == x.serial_offset,
        bool_at(enc_export_tail(x), 16) == x.forced_export,
        bool_at(enc_export_tail(x), 20) == x.not_for_client,
        bool_at(enc_export_tail(x), 24) == x.not_for_server,
        bool_at(enc_export_tail(x), 28) == x.was_filtered,
        enc_export_tail(x).subrange(32, 48) == x.package_guid,
        u32_at(enc_export_tail(x), 48) == x.package_flags,
        bool_at(enc_export_tail(x), 52) == x.not_always_loaded_for_editor_game,
        bool_at(enc_export_tail(x), 56) == x.is_asset,
        u32_at(enc_export_tail(x), 60) == x.first_export_dependency,
        u32_at(enc_export_tail(x), 64) == x.serialization_before_serialization_dependencies,
        u32_at(enc_export_tail(x), 68) == x.create_before_serialization_dependencies,
        u32_at(enc_export_tail(x), 72) == x.serialization_before_create_dependencies,
        u32_at(enc_export_tail(x), 76) == x.create_before_create_dependencies,
{
    let t = enc_export_tail(x);
    let g0 = enc_export_serial(x);
    lemma_export_serial_fields(x);
    let g1 = enc_export_filters(x);
    lemma_export_filters_fields(x);
    let g2 = enc_export_package(x);
    lemma_export_package_fields(x);
    let g3 = enc_export_dependencies(x);
    lemma_export_dependencies_fields(x);
    assert(t.subrange(0, t.len() as int) =~= t);
    lemma_lies_at_split(t, 0, g0 + g1 + g2, g3);
    lemma_lies_at_split(t, 0, g0 + g1, g2);
    lemma_lies_at_split(t, 0, g0, g1);
    lemma_u32_within(t, 0, g0, 0);
    lemma_u64_within(t, 0, g0, 4);
    lemma_u32_within(t, 0, g0, 12);
    lemma_u32_within(t, 16, g1, 0);
    lemma_u32_within(t, 16, g1, 4);
    lemma_u32_within(t, 16, g1, 8);
    lemma_u32_within(t, 16, g1, 12);
    lemma_subrange_within(t, 32, g2, 0, 16);
    lemma_u32_within(t, 32, g2, 16);
    lemma_u32_within(t, 32, g2, 20);
    lemma_u32_within(t, 32, g2, 24);
    lemma_u32_within(t, 60, g3, 0);
    lemma_u32_within(t, 60, g3, 4);
    lemma_u32_within(t, 60, g3, 8);
    lemma_u32_within(t, 60, g3, 12);
    lemma_u32_within(t, 60, g3, 16);
}

/// Where the fields of the first 28 bytes of a summary lie.
pub proof fn lemma_summary_head_fields(s: SummaryModel)
    requires
        s.tag.len() == 4,
        s.custom_version.len() == 12,
    ensures
        enc_summary_head(s).len() == 28,
        enc_summary_head(s).subrange(0, 4) == s.tag,
        u32_at(enc_summary_head(s), 4) == s.file_version_ue4,
        u32_at(enc_summary_head(s), 8) == s.file_version_license_ue4,
        enc_summary_head(s).subrange(12, 24) == s.custom_version,
        u32_at(enc_summary_head(s), 24) == s.total_header_size,
{
    lemma_le_round_trip();
    let t = enc_summary_head(s);
    assert(t.subrange(0, t.len() as int) =~= t);
    lemma_lies_at_split(
        t,
        0,
        s.tag + enc_u32(s.file_version_ue4) + enc_u32(s.file_version_license_ue4)
            + s.custom_version,
        enc_u32(s.total_header_size),
    );
    lemma_lies_at_split(
        t,
        0,
        s.tag + enc_u32(s.file_version_ue4) + enc_u32(s.file_version_license_ue4),
        s.custom_version,
    );
    lemma_lies_at_split(
        t,
        0,
        s.tag + enc_u32(s.file_version_ue4),
        enc_u32(s.file_version_license_ue4),
    );
    lemma_lies_at_split(t, 0, s.tag, enc_u32(s.file_version_ue4));
    lemma_bytes_read_back(t, 0, 28, s.tag);
    assert(span(t, 0, 4) == t.subrange(0, 4));
    lemma_u32_reads_back(t, 4, 28, s.file_version_ue4);
    lemma_u32_reads_back(t, 8, 28, s.file_version_license_ue4);
    lemma_bytes_read_back(t, 12, 28, s.custom_version);
    assert(span(t, 12, 12) == t.subrange(12, 24));
    lemma_u32_reads_back(t, 24, 28, s.total_header_size);
}

/// Where the fields of a summary about names lie.
pub proof fn lemma_summary_names_fields(s: SummaryModel)
    ensures
        enc_summary_names(s).len() == 20,
        u32_at(enc_summary_names(s), 0) == s.package_flags,
        u32_at(enc_summary_names(s), 4) == s.name_count,
        u32_at(enc_summary_names(s), 8) == s.name_offset,
        u32_at(enc_summary_names(s), 12) == s.gatherable_text_data_count,
        u32_at(enc_summary_names(s), 16) == s.gatherable_text_data_offset,
{
    lemma_le_round_trip();
    let t = enc_summary_names(s);
    assert(t.subrange(0, t.len() as int) =~= t);
    lemma_lies_at_split(
        t,
        0,
        enc_u32(s.package_flags) + enc_u32(s.name_count) + enc_u32(s.name_offset)
            + enc_u32(s.gatherable_text_data_count),
        enc_u32(s.gatherable_text_data_offset),
    );
    lemma_lies_at_split(
        t,
        0,
        enc_u32(s.package_flags) + enc_u32(s.name_count) + enc_u32(s.name_offset),
        enc_u32(s.gatherable_text_data_count),
    );
    lemma_lies_at_split(
        t,
        0,
        enc_u32(s.package_flags) + enc_u32(s.name_count),
        enc_u32(s.name_offset),
    );
    lemma_lies_at_split(t, 0, enc_u32(s.package_flags), enc_u32(s.name_count));
    lemma_u32_reads_back(t, 0, 20, s.package_flags);
    lemma_u32_reads_back(t, 4, 20, s.name_count);
    lemma_u32_reads_back(t, 8, 20, s.name_offset);
    lemma_u32_reads_back(t, 12, 20, s.gatherable_text_data_count);
    lemma_u32_reads_back(t, 16, 20, s.gatherable_text_data_offset);
}

/// Where the fields of a summary about imports and exports lie.
pub proof fn lemma_summary_tables_fields(s: SummaryModel)
    ensures
        enc_summary_tables(s).len() == 20,
        u32_at(enc_summary_tables(s), 0) == s.export_count,
        u32_at(enc_summary_tables(s), 4) == s.export_offset,
        u32_at(enc_summary_tables(s), 8) == s.import_count,
        u32_at(enc_summary_tables(s), 12) == s.import_offset,
        u32_at(enc_summary_tables(s), 16) == s.depends_offset,
{
    lemma_le_round_trip();
    let t = enc_summary_tables(s);
    assert(t.subrange(0, t.len() as int) =~= t);
    lemma_lies_at_split(
        t,
        0,
        enc_u32(s.export_count) + enc_u32(s.export_offset) + enc_u32(s.import_count)
            + enc_u32(s.import_offset),
        enc_u32(s.depends_offset),
    );
    lemma_lies_at_split(
        t,
        0,
        enc_u32(s.export_count) + enc_u32(s.export_offset) + enc_u32(s.import_count),
        enc_u32(s.import_offset),
    );
    lemma_lies_at_split(
        t,
        0,
        enc_u32(s.export_count) + enc_u32(s.export_offset),
        enc_u32(s.import_count),
    );
    lemma_lies_at_split(t, 0, enc_u32(s.export_count), enc_u32(s.export_offset));
    lemma_u32_reads_back(t, 0, 20, s.export_count);
    lemma_u32_reads_back(t, 4, 20, s.export_offset);
    lemma_u32_reads_back(t, 8, 20, s.import_count);
    lemma_u32_reads_back(t, 12, 20, s.import_offset);
    lemma_u32_reads_back(t, 16, 20, s.depends_offset);
}

/// Where the fields of a summary about references lie.
pub proof fn lemma_summary_references_fields(s: SummaryModel)
    requires
        s.guid.len() == 16,
    ensures
        enc_summary_references(s).len() == 32,
        u32_at(enc_summary_references(s), 0) == s.soft_package_references_count,
        u32_at(enc_summary_references(s), 4) == s.soft_package_references_offset,
        u32_at(enc_summary_references(s), 8) == s.searchable_names_offset,
        u32_at(enc_summary_references(s), 12) == s.thumbnail_table_offset,
        enc_summary_references(s).subrange(16, 32) == s.guid,
{
    lemma_le_round_trip();
    let t = enc_summary_references(s);
    assert(t.subrange(0, t.len() as int) =~= t);
    lemma_lies_at_split(
        t,
        0,
        enc_u32(s.soft_package_references_count) + enc_u32(s.soft_package_references_offset)
            + enc_u32(s.searchable_names_offset) + enc_u32(s.thumbnail_table_offset),
        s.guid,
    );
    lemma_lies_at_split(
        t,
        0,
        enc_u32(s.soft_package_references_count) + enc_u32(s.soft_package_references_offset)
            + enc_u32(s.searchable_names_offset),
        enc_u32(s.thumbnail_table_offset),
    );
    lemma_lies_at_split(
        t,
        0,
        enc_u32(s.soft_package_references_count) + enc_u32(s.soft_package_references_offset),
        enc_u32(s.searchable_names_offset),
    );
    lemma_lies_at_split(
        t,
        0,
        enc_u32(s.soft_package_references_count),
        enc_u32(s.soft_package_references_offset),
    );
    lemma_u32_reads_back(t, 0, 32, s.soft_package_references_count);
    lemma_u32_reads_back(t, 4, 32, s.soft_package_references_offset);
    lemma_u32_reads_back(t, 8, 32, s.searchable_names_offset);
    lemma_u32_reads_back(t, 12, 32, s.thumbnail_table_offset);
    lemma_bytes_read_back(t, 16, 32, s.guid);
    assert(span(t, 16, 16) == t.subrange(16, 32));
}

/// Where the fields of a summary about versions lie.
pub proof fn lemma_summary_versions_fields(s: SummaryModel)
    requires
        s.saved_by_engine_version.len() == 16,
        s.compatible_with_engine_version.len() == 16,
    ensures
        enc_summary_versions(s).len() == 44,
        enc_summary_versions(s).subrange(0, 16) == s.saved_by_engine_version,
        enc_summary_versions(s).subrange(16, 32) == s.compatible_with_engine_version,
        u32_at(enc_summary_versions(s), 32) == s.compression_flags,
        i64_at(enc_summary_versions(s), 36) == s.package_source,
{
    lemma_le_round_trip();
    let t = enc_summary_versions(s);
    assert(t.subrange(0, t.len() as int) =~= t);
    lemma_lies_at_split(
        t,
        0,
        s.saved_by_engine_version + s.compatible_with_engine_version
            + enc_u32(s.compression_flags),
        enc_i64(s.package_source),
    );
    lemma_lies_at_split(
        t,
        0,
        s.saved_by_engine_version + s.compatible_with_engine_version,
        enc_u32(s.compression_flags),
    );
    lemma_lies_at_split(t, 0, s.saved_by_engine_version, s.compatible_with_engine_version);
    lemma_bytes_read_back(t, 0, 44, s.saved_by_engine_version);
    assert(span(t, 0, 16) == t.subrange(0, 16));
    lemma_bytes_read_back(t, 16, 44, s.compatible_with_engine_version);
    assert(span(t, 16, 16) == t.subrange(16, 32));
    lemma_u32_reads_back(t, 32, 44, s.compression_flags);
    lemma_i64_reads_back(t, 36, 44, s.package_source);
}

/// Where the last offsets of a summary lie.
pub proof fn lemma_summary_offsets_fields(s: SummaryModel)
    ensures
        enc_summary_offsets(s).len() == 28,
        u32_at(enc_summary_offsets(s), 0) == s.asset_registry_data_offset,
        u32_at(enc_summary_offsets(s), 4) == s.bulk_data_start_offset,
        u32_at(enc_summary_offsets(s), 8) == s.world_tile_info_data_offset,
        u64_at(enc_summary_offsets(s), 12) == s.chunk_ids,
        u32_at(enc_summary_offsets(s), 20) == s.preload_dependency_count,
        u32_at(enc_summary_offsets(s), 24) == s.preload_dependency_offset,
{
    lemma_le_round_trip();
    let t = enc_summary_offsets(s);
    assert(t.subrange(0, t.len() as int) =~= t);
    lemma_lies_at_split(
        t,
        0,
        enc_u32(s.asset_registry_data_offset) + enc_u32(s.bulk_data_start_offset)
            + enc_u32(s.world_tile_info_data_offset) + enc_u64(s.chunk_ids)
            + enc_u32(s.preload_dependency_count),
        enc_u32(s.preload_dependency_offset),
    );
    lemma_lies_at_split(
        t,
        0,
        enc_u32(s.asset_registry_data_offset) + enc_u32(s.bulk_data_start_offset)
            + enc_u32(s.world_tile_info_data_offset) + enc_u64(s.chunk_ids),
        enc_u32(s.preload_dependency_count),
    );
    lemma_lies_at_split(
        t,
        0,
        enc_u32(s.asset_registry_data_offset) + enc_u32(s.bulk_data_start_offset)
            + enc_u32(s.world_tile_info_data_offset),
        enc_u64(s.chunk_ids),
    );
    lemma_lies_at_split(
        t,
        0,
        enc_u32(s.asset_registry_data_offset) + enc_u32(s.bulk_data_start_offset),
        enc_u32(s.world_tile_info_data_offset),
    );
    lemma_lies_at_split(
        t,
        0,
        enc_u32(s.asset_registry_data_offset),
        enc_u32(s.bulk_data_start_offset),
    );
    lemma_u32_reads_back(t, 0, 28, s.asset_registry_data_offset);
    lemma_u32_reads_back(t, 4, 28, s.bulk_data_start_offset);
    lemma_u32_reads_back(t, 8, 28, s.world_tile_info_data_offset);
    lemma_u64_reads_back(t, 12, 28, s.chunk_ids);
    lemma_u32_reads_back(t, 20, 28, s.preload_dependency_count);
    lemma_u32_reads_back(t, 24, 28, s.preload_dependency_offset);
}

/// Where the fields of the 72 bytes behind the folder name of a summary lie.
pub proof fn lemma_summary_mid_fields(s: SummaryModel)
    requires
        s.guid.len() == 16,
    ensures
        enc_summary_mid(s).len() == 72,
        u32_at(enc_summary_mid(s), 0) == s.package_flags,
        u32_at(enc_summary_mid(s), 4) == s.name_count,
        u32_at(enc_summary_mid(s), 8) == s.name_offset,
        u32_at(enc_summary_mid(s), 12) == s.gatherable_text_data_count,
        u32_at(enc_summary_mid(s), 16) == s.gatherable_text_data_offset,
        u32_at(enc_summary_mid(s), 20) == s.export_count,
        u32_at(enc_summary_mid(s), 24) == s.export_offset,
        u32_at(enc_summary_mid(s), 28) == s.import_count,
        u32_at(enc_summary_mid(s), 32) == s.import_offset,
        u32_at(enc_summary_mid(s), 36) == s.depends_offset,
        u32_at(enc_summary_mid(s), 40) == s.soft_package_references_count,
        u32_at(enc_summary_mid(s), 44) == s.soft_package_references_offset,
        u32_at(enc_summary_mid(s), 48) == s.searchable_names_offset,
        u32_at(enc_summary_mid(s), 52) == s.thumbnail_table_offset,
        enc_summary_mid(s).subrange(56, 72) == s.guid,
{
    let t = enc_summary_mid(s);
    let g0 = enc_summary_names(s);
    lemma_summary_names_fields(s);
    let g1 = enc_summary_tables(s);
    lemma_summary_tables_fields(s);
    let g2 = enc_summary_references(s);
    lemma_summary_references_fields(s);
    assert(t.subrange(0, t.len() as int) =~= t);
    lemma_lies_at_split(t, 0, g0 + g1, g2);
    lemma_lies_at_split(t, 0, g0, g1);
    lemma_u32_within(t, 0, g0, 0);
    lemma_u32_within(t, 0, g0, 4);
    lemma_u32_within(t, 0, g0, 8);
    lemma_u32_within(t, 0, g0, 12);
    lemma_u32_within(t, 0, g0, 16);
    lemma_u32_within(t, 20, g1, 0);
    lemma_u32_within(t, 20, g1, 4);
    lemma_u32_within(t, 20, g1, 8);
    lemma_u32_within(t, 20, g1, 12);
    lemma_u32_within(t, 20, g1, 16);
    lemma_u32_within(t, 40, g2, 0);
    lemma_u32_within(t, 40, g2, 4);
    lemma_u32_within(t, 40, g2, 8);
    lemma_u32_within(t, 40, g2, 12);
    lemma_subrange_within(t, 40, g2, 16, 32);
}

/// Where the fields of the last 72 bytes of a summary lie.
pub proof fn lemma_summary_tail_fields(s: SummaryModel)
    requires
        s.saved_by_engine_version.len() == 16,
        s.compatible_with_engine_version.len() == 16,
    ensures
        enc_summary_tail(s).len() == 72,
        enc_summary_tail(s).subrange(0, 16) == s.saved_by_engine_version,
        enc_summary_tail(s).subrange(16, 32) == s.compatible_with_engine_version,
        u32_at(enc_summary_tail(s), 32) == s.compression_flags,
        i64_at(enc_summary_tail(s), 36) == s.package_source,
        u32_at(enc_summary_tail(s), 44) == s.asset_registry_data_offset,
        u32_at(enc_summary_tail(s), 48) == s.bulk_data_start_offset,
        u32_at(enc_summary_tail(s), 52) == s.world_tile_info_data_offset,
        u64_at(enc_summary_tail(s), 56) == s.chunk_ids,
        u32_at(enc_summary_tail(s), 64) == s.preload_dependency_count,
        u32_at(enc_summary_tail(s), 68) == s.preload_dependency_offset,
{
    let t = enc_summary_tail(s);
    let g0 = enc_summary_versions(s);
    lemma_summary_versions_fields(s);
    let g1 = enc_summary_offsets(s);
    lemma_summary_offsets_fields(s);
    assert(t.subrange(0, t.len() as int) =~= t);
    lemma_lies_at_split(t, 0, g0, g1);
    lemma_subrange_within(t, 0, g0, 0, 16);
    lemma_subrange_within(t, 0, g0, 16, 32);
    lemma_u32_within(t, 0, g0, 32);
    lemma_u64_within(t, 0, g0, 36);
    lemma_u32_within(t, 44, g1, 0);
    lemma_u32_within(t, 44, g1, 4);
    lemma_u32_within(t, 44, g1, 8);
    lemma_u64_within(t, 44, g1, 12);
    lemma_u32_within(t, 44, g1, 20);
    lemma_u32_within(t, 44, g1, 24);
}

} // verus!
