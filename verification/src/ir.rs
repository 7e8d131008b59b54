//! The analysis model: files, units, dependencies and diagnostics of a
//! repository.
use vstd::prelude::*;

use crate::text::{copy_string, copy_strings, views};

verus! {

#[derive(Debug, Clone, PartialEq, Eq, Default)]
pub struct RepositoryAnalysis {
    pub metadata: Metadata,
    pub summary: AnalysisSummary,
    pub files: Vec<FileRecord>,
    pub units: Vec<Unit>,
    pub dependencies: Vec<Dependency>,
    pub component_dependencies: Vec<ComponentDependency>,
    pub diagnostics: Vec<ParseDiagnostic>,
}

#[derive(Debug, Clone, PartialEq, Eq, Default)]
pub struct Metadata {
    pub name: String,
    pub description: String,
}

#[derive(Debug, Clone, PartialEq, Eq, Default)]
pub struct AnalysisSummary {
    pub total_files: usize,
}

#[derive(Debug, Clone, PartialEq, Eq, PartialOrd, Ord, Default)]
pub struct FileRecord {
    pub relative_path: String,
    pub extension: String,
    pub lines_of_code: usize,
    pub components: Vec<String>,
    pub concerns: Vec<String>,
    pub units_count: usize,
    pub units_mc_cabe_index_sum: usize,
    pub lines_of_code_in_units: usize,
}

#[derive(Debug, Clone, PartialEq, Eq, Default)]
pub struct Unit {
    pub id: String,
    pub kind: String,
    pub name: String,
    pub short_name: String,
    pub long_name: String,
    pub relative_file_name: String,
    pub file_lines_count: usize,
    pub components: Vec<String>,
    pub start_line: usize,
    pub end_line: usize,
    pub lines_of_code: usize,
    pub mc_cabe_index: usize,
    pub number_of_parameters: usize,
    pub number_of_literals: usize,
    pub number_of_statements: usize,
    pub number_of_expressions: usize,
}

#[derive(Debug, Clone, PartialEq, Eq, Default)]
pub struct Dependency {
    pub from: String,
    pub to: String,
    pub kind: String,
    pub from_anchor: DependencyAnchor,
    pub to_anchor: DependencyAnchor,
    pub from_files: Vec<SourceFileDependency>,
}

#[derive(Debug, Clone, PartialEq, Eq, Default)]
pub struct DependencyAnchor {
    pub anchor: String,
    pub code_fragment: String,
    pub dependency_patterns: Vec<String>,
    pub files: Vec<FileRecord>,
}

#[derive(Debug, Clone, PartialEq, Eq, Default)]
pub struct SourceFileDependency {
    pub file: FileRecord,
    pub code_fragment: String,
}

#[derive(Debug, Clone, PartialEq, Eq, Default)]
pub struct ComponentDependency {
    pub decomposition: String,
    pub from_component: String,
    pub loc_from: usize,
    pub evidence: Vec<DependencyEvidence>,
    pub to_component: String,
    pub count: usize,
}

#[derive(Debug, Clone, PartialEq, Eq, Default)]
pub struct DependencyEvidence {
    pub path_from: String,
    pub evidence: String,
}

#[derive(Debug, Clone, PartialEq, Eq, Default)]
pub struct ParseDiagnostic {
    pub message: String,
    pub relative_path: String,
    pub severity: DiagnosticSeverity,
}

#[derive(Debug, Clone, Copy, PartialEq, Eq, Default)]
pub enum DiagnosticSeverity {
    Info,
    #[default]
    Warning,
    Error,
}

impl RepositoryAnalysis {
    /// An analysis of the given files alone: the summary counts them, and
    /// units, dependencies and diagnostics are empty.
    pub fn with_files(metadata: Metadata, files: Vec<FileRecord>) -> (r: Self)
        ensures
            r.metadata == metadata,
            r.files == files,
            r.summary.total_files == files@.len(),
            r.units@.len() == 0,
            r.dependencies@.len() == 0,
            r.component_dependencies@.len() == 0,
            r.diagnostics@.len() == 0,
    {
        let total_files = files.len();
        RepositoryAnalysis {
            summary: AnalysisSummary { total_files },
            metadata,
            files,
            units: Vec::new(),
            dependencies: Vec::new(),
            component_dependencies: Vec::new(),
            diagnostics: Vec::new(),
        }
    }
}

/// The values a file record holds.
pub struct FileRecordView {
    pub relative_path: Seq<char>,
    pub extension: Seq<char>,
    pub lines_of_code: nat,
    pub components: Seq<Seq<char>>,
    pub concerns: Seq<Seq<char>>,
    pub units_count: nat,
    pub units_mc_cabe_index_sum: nat,
    pub lines_of_code_in_units: nat,
}

impl View for FileRecord {
    type V = FileRecordView;

    open spec fn view(&self) -> FileRecordView {
        FileRecordView {
            relative_path: self.relative_path@,
            extension: self.extension@,
            lines_of_code: self.lines_of_code as nat,
            components: views(self.components@),
            concerns: views(self.concerns@),
            units_count: self.units_count as nat,
            units_mc_cabe_index_sum: self.units_mc_cabe_index_sum as nat,
            lines_of_code_in_units: self.lines_of_code_in_units as nat,
        }
    }
}

/// The values of a sequence of file records.
pub open spec fn record_views(s: Seq<FileRecord>) -> Seq<FileRecordView> {
    s.map_values(|f: FileRecord| f@)
}

/// A copy of a file record with every field equal.
pub fn copy_file_record(f: &FileRecord) -> (r: FileRecord)
    ensures
        r@ == f@,
{
    let r = FileRecord {
        relative_path: copy_string(&f.relative_path),
        extension: copy_string(&f.extension),
        lines_of_code: f.lines_of_code,
        components: copy_strings(&f.components),
        concerns: copy_strings(&f.concerns),
        units_count: f.units_count,
        units_mc_cabe_index_sum: f.units_mc_cabe_index_sum,
        lines_of_code_in_units: f.lines_of_code_in_units,
    };
    proof {
        assert(views(r.components@) =~= views(f.components@));
        assert(views(r.concerns@) =~= views(f.concerns@));
    }
    r
}

/// A copy of a sequence of file records.
pub fn copy_file_records(v: &Vec<FileRecord>) -> (r: Vec<FileRecord>)
    ensures
        record_views(r@) == record_views(v@),
{
    let mut r: Vec<FileRecord> = Vec::new();
    let mut i: usize = 0;
    while i < v.len()
        invariant
            i <= v@.len(),
            record_views(r@) =~= record_views(v@.take(i as int)),
        decreases v@.len() - i,
    {
        let ghost before = r@;
        let c = copy_file_record(&v[i]);
        r.push(c);
        proof {
            assert(v@.take(i + 1) =~= v@.take(i as int).push(v@[i as int]));
            assert(record_views(r@) =~= record_views(before).push(c@));
            assert(record_views(v@.take(i + 1)) =~= record_views(v@.take(i as int)).push(v@[i as int]@));
        }
        i += 1;
    }
    proof {
        assert(v@.take(v@.len() as int) =~= v@);
    }
    r
}

/// The values a dependency anchor holds.
pub open spec fn anchor_view(a: DependencyAnchor) -> (Seq<char>, Seq<char>, Seq<Seq<char>>, Seq<FileRecordView>) {
    (a.anchor@, a.code_fragment@, views(a.dependency_patterns@), record_views(a.files@))
}

/// The values a file-level dependency holds: the file and the line that
/// shows it.
pub open spec fn evidence_views(s: Seq<SourceFileDependency>) -> Seq<(FileRecordView, Seq<char>)> {
    s.map_values(|d: SourceFileDependency| (d.file@, d.code_fragment@))
}

/// A copy of a dependency anchor.
pub fn copy_anchor(a: &DependencyAnchor) -> (r: DependencyAnchor)
    ensures
        anchor_view(r) == anchor_view(*a),
{
    let patterns = copy_strings(&a.dependency_patterns);
    let files = copy_file_records(&a.files);
    proof {
        assert(views(patterns@) =~= views(a.dependency_patterns@));
    }
    DependencyAnchor {
        anchor: copy_string(&a.anchor),
        code_fragment: copy_string(&a.code_fragment),
        dependency_patterns: patterns,
        files,
    }
}

} // verus!
