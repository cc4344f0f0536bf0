use vstd::prelude::*;
use crate::asset::exports::ExportModel;
use crate::asset::exports::Exports;
use crate::asset::file_summary::FileSummary;
use crate::asset::imports::Import;
use crate::asset::imports::Imports;
use crate::asset::name_map::NameMap;
use crate::asset::name_map::NameModel;
use crate::asset::property::struct_pattern::PatternsModel;
use crate::asset::property::struct_pattern::StructPatterns;

verus! {

/// What the property codec resolves against: the tables of the header
/// file and the struct patterns.
#[derive(Clone, Copy)]
pub struct PropertyContext<'a> {
    pub summary: &'a FileSummary,
    pub names: &'a NameMap,
    pub imports: &'a Imports,
    pub exports: &'a Exports,
    pub patterns: &'a StructPatterns,
}

/// A [`PropertyContext`] as plain values.
pub struct Env {
    pub names: Seq<NameModel>,
    pub imports: Seq<Import>,
    pub exports: Seq<ExportModel>,
    pub patterns: PatternsModel,
}

impl<'a> View for PropertyContext<'a> {
    type V = Env;

    open spec fn view(&self) -> Env {
        Env {
            names: self.names@,
            imports: self.imports@,
            exports: self.exports@,
            patterns: self.patterns@,
        }
    }
}

impl<'a> PropertyContext<'a> {
    pub fn new(
        summary: &'a FileSummary,
        names: &'a NameMap,
        imports: &'a Imports,
        exports: &'a Exports,
        patterns: &'a StructPatterns,
    ) -> (r: Self)
        ensures
            r.summary == summary,
            r.names == names,
            r.imports == imports,
            r.exports == exports,
            r.patterns == patterns,
    {
        Self { summary, names, imports, exports, patterns }
    }
}

} // verus!
