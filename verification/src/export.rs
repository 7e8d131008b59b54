//! The records the exporter writes: per-file summaries, units and
//! dependencies, restricted to the files of a scope.
use vstd::prelude::*;

use crate::ir::{
    anchor_view, copy_file_record, evidence_views, record_views, Dependency, DependencyAnchor, FileRecord,
    FileRecordView, SourceFileDependency, Unit,
};
use crate::pathset::{str_eq, PathSet};
use crate::scopes::{context_keys, context_position, contexts_wf, FileContext};
use crate::text::{copy_string, copy_strings, lemma_text_lt_irreflexive, views};

verus! {

// ---------------------------------------------------------------------------
// Units as values
// ---------------------------------------------------------------------------

/// The values a unit holds.
pub struct UnitView {
    pub id: Seq<char>,
    pub kind: Seq<char>,
    pub name: Seq<char>,
    pub short_name: Seq<char>,
    pub long_name: Seq<char>,
    pub relative_file_name: Seq<char>,
    pub file_lines_count: nat,
    pub components: Seq<Seq<char>>,
    pub start_line: nat,
    pub end_line: nat,
    pub lines_of_code: nat,
    pub mc_cabe_index: nat,
    pub number_of_parameters: nat,
    pub number_of_literals: nat,
    pub number_of_statements: nat,
    pub number_of_expressions: nat,
}

impl View for Unit {
    type V = UnitView;

    open spec fn view(&self) -> UnitView {
        UnitView {
            id: self.id@,
            kind: self.kind@,
            name: self.name@,
            short_name: self.short_name@,
            long_name: self.long_name@,
            relative_file_name: self.relative_file_name@,
            file_lines_count: self.file_lines_count as nat,
            components: views(self.components@),
            start_line: self.start_line as nat,
            end_line: self.end_line as nat,
            lines_of_code: self.lines_of_code as nat,
            mc_cabe_index: self.mc_cabe_index as nat,
            number_of_parameters: self.number_of_parameters as nat,
            number_of_literals: self.number_of_literals as nat,
            number_of_statements: self.number_of_statements as nat,
            number_of_expressions: self.number_of_expressions as nat,
        }
    }
}

/// The values of a sequence of units.
pub open spec fn unit_views(s: Seq<Unit>) -> Seq<UnitView> {
    s.map_values(|u: Unit| u@)
}

/// A copy of a unit.
pub fn copy_unit(u: &Unit) -> (r: Unit)
    ensures
        r@ == u@,
{
    let components = copy_strings(&u.components);
    Unit {
        id: copy_string(&u.id),
        kind: copy_string(&u.kind),
        name: copy_string(&u.name),
        short_name: copy_string(&u.short_name),
        long_name: copy_string(&u.long_name),
        relative_file_name: copy_string(&u.relative_file_name),
        file_lines_count: u.file_lines_count,
        components,
        start_line: u.start_line,
        end_line: u.end_line,
        lines_of_code: u.lines_of_code,
        mc_cabe_index: u.mc_cabe_index,
        number_of_parameters: u.number_of_parameters,
        number_of_literals: u.number_of_literals,
        number_of_statements: u.number_of_statements,
        number_of_expressions: u.number_of_expressions,
    }
}

// ---------------------------------------------------------------------------
// Looking up file contexts
// ---------------------------------------------------------------------------

/// The context of the file at `path`, if there is one.
pub open spec fn context_of(contexts: Seq<FileContext>, path: Seq<char>) -> Option<FileContext> {
    if context_keys(contexts).contains(path) {
        Some(contexts[context_keys(contexts).index_of(path)])
    } else {
        None
    }
}

/// Paths of well-formed contexts are distinct.
pub proof fn lemma_context_keys_distinct(contexts: Seq<FileContext>, i: int, j: int)
    requires
        contexts_wf(contexts),
        0 <= i < contexts.len(),
        0 <= j < contexts.len(),
        context_keys(contexts)[i] == context_keys(contexts)[j],
    ensures
        i == j,
{
    let keys = context_keys(contexts);
    if i < j {
        assert(crate::text::text_lt(keys[i], keys[j]));
        lemma_text_lt_irreflexive(keys[i]);
    } else if j < i {
        assert(crate::text::text_lt(keys[j], keys[i]));
        lemma_text_lt_irreflexive(keys[i]);
    }
}

/// Position of the context of `path`.
pub fn find_context(contexts: &Vec<FileContext>, path: &str) -> (r: Option<usize>)
    requires
        contexts_wf(contexts@),
    ensures
        match r {
            Some(k) => k < contexts@.len() && context_of(contexts@, path@) == Some(contexts@[k as int]),
            None => context_of(contexts@, path@) is None,
        },
{
    let (pos, found) = context_position(contexts, path);
    if found {
        proof {
            let keys = context_keys(contexts@);
            let k = keys.index_of(path@);
            lemma_context_keys_distinct(contexts@, k, pos as int);
        }
        Some(pos)
    } else {
        None
    }
}

/// The contexts of the selected files, in the order of `files`, skipping
/// files without a context.
pub open spec fn selected_contexts(files: Seq<FileRecord>, contexts: Seq<FileContext>, selected: PathSet) -> Seq<
    FileContext,
>
    decreases files.len(),
{
    if files.len() == 0 {
        Seq::empty()
    } else {
        let prev = selected_contexts(files.drop_last(), contexts, selected);
        let p = files.last().relative_path@;
        if selected.has(p) && context_of(contexts, p) is Some {
            prev.push(context_of(contexts, p).unwrap())
        } else {
            prev
        }
    }
}

/// The records of the selected contexts.
pub open spec fn selected_records(files: Seq<FileRecord>, contexts: Seq<FileContext>, selected: PathSet) -> Seq<
    FileRecordView,
> {
    selected_contexts(files, contexts, selected).map_values(|c: FileContext| c.file@)
}

proof fn lemma_selected_step(files: Seq<FileRecord>, contexts: Seq<FileContext>, selected: PathSet, i: int)
    requires
        0 <= i < files.len(),
    ensures
        selected_contexts(files.take(i + 1), contexts, selected) == ({
            let prev = selected_contexts(files.take(i), contexts, selected);
            let p = files[i].relative_path@;
            if selected.has(p) && context_of(contexts, p) is Some {
                prev.push(context_of(contexts, p).unwrap())
            } else {
                prev
            }
        }),
{
    assert(files.take(i + 1).drop_last() =~= files.take(i));
    assert(files.take(i + 1).last() == files[i]);
}

/// Positions of the contexts of the selected files, in file order.
fn selected_positions(files: &Vec<FileRecord>, contexts: &Vec<FileContext>, selected: &PathSet) -> (r: Vec<usize>)
    requires
        contexts_wf(contexts@),
        selected.wf(),
    ensures
        r@.len() == selected_contexts(files@, contexts@, *selected).len(),
        forall|k: int|
            0 <= k < r@.len() ==> r@[k] < contexts@.len() && contexts@[#[trigger] r@[k] as int]
                == selected_contexts(files@, contexts@, *selected)[k],
{
    let mut r: Vec<usize> = Vec::new();
    let mut i: usize = 0;
    while i < files.len()
        invariant
            i <= files@.len(),
            contexts_wf(contexts@),
            selected.wf(),
            r@.len() == selected_contexts(files@.take(i as int), contexts@, *selected).len(),
            forall|k: int|
                0 <= k < r@.len() ==> r@[k] < contexts@.len() && contexts@[#[trigger] r@[k] as int]
                    == selected_contexts(files@.take(i as int), contexts@, *selected)[k],
        decreases files@.len() - i,
    {
        proof {
            lemma_selected_step(files@, contexts@, *selected, i as int);
        }
        let path = files[i].relative_path.as_str();
        if selected.contains(path) {
            match find_context(contexts, path) {
                Some(pos) => {
                    r.push(pos);
                },
                None => {},
            }
        }
        i += 1;
    }
    proof {
        assert(files@.take(files@.len() as int) =~= files@);
    }
    r
}

/// The records of the selected files that have a context, taken from their
/// contexts, in the order of `files`.
pub fn selected_file_records(files: &Vec<FileRecord>, contexts: &Vec<FileContext>, selected: &PathSet) -> (r: Vec<
    FileRecord,
>)
    requires
        contexts_wf(contexts@),
        selected.wf(),
    ensures
        record_views(r@) == selected_records(files@, contexts@, *selected),
{
    let positions = selected_positions(files, contexts, selected);
    let ghost sel = selected_contexts(files@, contexts@, *selected);
    let mut r: Vec<FileRecord> = Vec::new();
    let mut k: usize = 0;
    while k < positions.len()
        invariant
            k <= positions@.len(),
            positions@.len() == sel.len(),
            forall|m: int|
                0 <= m < positions@.len() ==> positions@[m] < contexts@.len() && contexts@[#[trigger] positions@[m] as int]
                    == sel[m],
            record_views(r@) =~= sel.take(k as int).map_values(|c: FileContext| c.file@),
        decreases positions@.len() - k,
    {
        let ghost before = r@;
        let pos = positions[k];
        let copy = copy_file_record(&contexts[pos].file);
        r.push(copy);
        proof {
            assert(record_views(r@) =~= record_views(before).push(copy@));
            assert(sel.take(k + 1) =~= sel.take(k as int).push(sel[k as int]));
        }
        k += 1;
    }
    proof {
        assert(sel.take(sel.len() as int) =~= sel);
    }
    r
}

// ---------------------------------------------------------------------------
// Source file summaries
// ---------------------------------------------------------------------------

/// A file as listed in the scope file lists.
#[derive(Debug, Clone, PartialEq, Eq)]
pub struct SourceFileExport {
    pub relative_path: String,
    pub extension: String,
    pub lines_of_code: usize,
    pub units_count: usize,
    pub units_mc_cabe_index_sum: usize,
    pub lines_of_code_in_units: usize,
}

/// `e` lists the file `f`, with its unit metrics when `with_units` holds and
/// zeros otherwise.
pub open spec fn source_file_export_of(e: SourceFileExport, f: FileRecordView, with_units: bool) -> bool {
    &&& e.relative_path@ == f.relative_path
    &&& e.extension@ == f.extension
    &&& e.lines_of_code == f.lines_of_code
    &&& e.units_count == (if with_units { f.units_count } else { 0 })
    &&& e.units_mc_cabe_index_sum == (if with_units { f.units_mc_cabe_index_sum } else { 0 })
    &&& e.lines_of_code_in_units == (if with_units { f.lines_of_code_in_units } else { 0 })
}

/// The listing of the file of a context.
pub fn source_file_export_from_context(context: &FileContext, with_unit_metrics: bool) -> (r: SourceFileExport)
    ensures
        source_file_export_of(r, context.file@, with_unit_metrics),
{
    SourceFileExport {
        relative_path: copy_string(&context.file.relative_path),
        extension: copy_string(&context.file.extension),
        lines_of_code: context.file.lines_of_code,
        units_count: if with_unit_metrics {
            context.file.units_count
        } else {
            0
        },
        units_mc_cabe_index_sum: if with_unit_metrics {
            context.file.units_mc_cabe_index_sum
        } else {
            0
        },
        lines_of_code_in_units: if with_unit_metrics {
            context.file.lines_of_code_in_units
        } else {
            0
        },
    }
}

/// The listings of the selected files, in the order of `files`.
pub fn collect_source_files(
    files: &Vec<FileRecord>,
    contexts: &Vec<FileContext>,
    selected: &PathSet,
    with_unit_metrics: bool,
) -> (r: Vec<SourceFileExport>)
    requires
        contexts_wf(contexts@),
        selected.wf(),
    ensures
        r@.len() == selected_contexts(files@, contexts@, *selected).len(),
        forall|k: int|
            0 <= k < r@.len() ==> source_file_export_of(
                #[trigger] r@[k],
                selected_contexts(files@, contexts@, *selected)[k].file@,
                with_unit_metrics,
            ),
{
    let positions = selected_positions(files, contexts, selected);
    let ghost sel = selected_contexts(files@, contexts@, *selected);
    let mut r: Vec<SourceFileExport> = Vec::new();
    let mut k: usize = 0;
    while k < positions.len()
        invariant
            k <= positions@.len(),
            positions@.len() == sel.len(),
            forall|m: int|
                0 <= m < positions@.len() ==> positions@[m] < contexts@.len() && contexts@[#[trigger] positions@[m] as int]
                    == sel[m],
            r@.len() == k,
            forall|m: int| 0 <= m < k ==> source_file_export_of(#[trigger] r@[m], sel[m].file@, with_unit_metrics),
        decreases positions@.len() - k,
    {
        let pos = positions[k];
        r.push(source_file_export_from_context(&contexts[pos], with_unit_metrics));
        k += 1;
    }
    r
}


// ---------------------------------------------------------------------------
// Concern labels of files
// ---------------------------------------------------------------------------

/// The concern labels of one file.
#[derive(Debug, Clone, PartialEq, Eq)]
pub struct PathLabels {
    pub path: String,
    pub labels: Vec<String>,
}

/// The labels recorded for `p`: those of the last entry with that path, or
/// none.
pub open spec fn labels_of(entries: Seq<PathLabels>, p: Seq<char>) -> Seq<Seq<char>>
    decreases entries.len(),
{
    if entries.len() == 0 {
        Seq::empty()
    } else if entries.last().path@ == p {
        views(entries.last().labels@)
    } else {
        labels_of(entries.drop_last(), p)
    }
}

/// The labels recorded for `p`.
pub fn labels_for(entries: &Vec<PathLabels>, p: &str) -> (r: Vec<String>)
    ensures
        views(r@) == labels_of(entries@, p@),
{
    let mut i: usize = entries.len();
    proof {
        assert(entries@.take(i as int) =~= entries@);
    }
    while i > 0
        invariant
            i <= entries@.len(),
            labels_of(entries@, p@) == labels_of(entries@.take(i as int), p@),
        decreases i,
    {
        proof {
            assert(entries@.take(i as int).drop_last() =~= entries@.take(i - 1));
            assert(entries@.take(i as int).last() == entries@[i - 1]);
        }
        if str_eq(entries[i - 1].path.as_str(), p) {
            return copy_strings(&entries[i - 1].labels);
        }
        i -= 1;
    }
    Vec::new()
}

/// A file with its components and concerns, as the file and dependency
/// exports list it.
#[derive(Debug, Clone, PartialEq, Eq)]
pub struct FileExportInfoExport {
    pub relative_path: String,
    pub extension: String,
    pub lines_of_code: usize,
    pub components: Vec<String>,
    pub concerns: Vec<String>,
}

/// `e` lists the file `f` with the concern labels `labels`.
pub open spec fn file_export_info_of(e: FileExportInfoExport, f: FileRecordView, labels: Seq<Seq<char>>) -> bool {
    &&& e.relative_path@ == f.relative_path
    &&& e.extension@ == f.extension
    &&& e.lines_of_code == f.lines_of_code
    &&& views(e.components@) == f.components
    &&& views(e.concerns@) == labels
}

/// The listing of a file, with the concern labels recorded for its path.
pub fn file_export_info_from_record(file: &FileRecord, concerns: &Vec<PathLabels>) -> (r: FileExportInfoExport)
    ensures
        file_export_info_of(r, file@, labels_of(concerns@, file.relative_path@)),
{
    let components = copy_strings(&file.components);
    FileExportInfoExport {
        relative_path: copy_string(&file.relative_path),
        extension: copy_string(&file.extension),
        lines_of_code: file.lines_of_code,
        components,
        concerns: labels_for(concerns, file.relative_path.as_str()),
    }
}

/// The listings, with concern labels, of the selected files, in the order
/// of `files`.
pub fn collect_file_export_infos(
    files: &Vec<FileRecord>,
    contexts: &Vec<FileContext>,
    selected: &PathSet,
    concerns: &Vec<PathLabels>,
) -> (r: Vec<FileExportInfoExport>)
    requires
        contexts_wf(contexts@),
        selected.wf(),
    ensures
        r@.len() == selected_contexts(files@, contexts@, *selected).len(),
        forall|k: int|
            0 <= k < r@.len() ==> {
                let f = selected_contexts(files@, contexts@, *selected)[k].file@;
                file_export_info_of(#[trigger] r@[k], f, labels_of(concerns@, f.relative_path))
            },
{
    let positions = selected_positions(files, contexts, selected);
    let ghost sel = selected_contexts(files@, contexts@, *selected);
    let mut r: Vec<FileExportInfoExport> = Vec::new();
    let mut k: usize = 0;
    while k < positions.len()
        invariant
            k <= positions@.len(),
            positions@.len() == sel.len(),
            forall|m: int|
                0 <= m < positions@.len() ==> positions@[m] < contexts@.len() && contexts@[#[trigger] positions@[m] as int]
                    == sel[m],
            r@.len() == k,
            forall|m: int|
                0 <= m < k ==> file_export_info_of(
                    #[trigger] r@[m],
                    sel[m].file@,
                    labels_of(concerns@, sel[m].file@.relative_path),
                ),
        decreases positions@.len() - k,
    {
        let pos = positions[k];
        r.push(file_export_info_from_record(&contexts[pos].file, concerns));
        k += 1;
    }
    r
}

// ---------------------------------------------------------------------------
// Units and dependencies
// ---------------------------------------------------------------------------

/// A unit as the unit export lists it.
#[derive(Debug, Clone, PartialEq, Eq)]
pub struct UnitExport {
    pub short_name: String,
    pub long_name: String,
    pub relative_file_name: String,
    pub file_lines_count: usize,
    pub components: Vec<String>,
    pub start_line: usize,
    pub end_line: usize,
    pub lines_of_code: usize,
    pub mc_cabe_index: usize,
    pub number_of_parameters: usize,
    pub number_of_literals: usize,
    pub number_of_statements: usize,
    pub number_of_expressions: usize,
}

/// `e` lists the unit `u`.
pub open spec fn unit_export_of(e: UnitExport, u: UnitView) -> bool {
    &&& e.short_name@ == u.short_name
    &&& e.long_name@ == u.long_name
    &&& e.relative_file_name@ == u.relative_file_name
    &&& e.file_lines_count == u.file_lines_count
    &&& views(e.components@) == u.components
    &&& e.start_line == u.start_line
    &&& e.end_line == u.end_line
    &&& e.lines_of_code == u.lines_of_code
    &&& e.mc_cabe_index == u.mc_cabe_index
    &&& e.number_of_parameters == u.number_of_parameters
    &&& e.number_of_literals == u.number_of_literals
    &&& e.number_of_statements == u.number_of_statements
    &&& e.number_of_expressions == u.number_of_expressions
}

/// The listing of one unit.
pub fn unit_export(u: &Unit) -> (r: UnitExport)
    ensures
        unit_export_of(r, u@),
{
    let components = copy_strings(&u.components);
    UnitExport {
        short_name: copy_string(&u.short_name),
        long_name: copy_string(&u.long_name),
        relative_file_name: copy_string(&u.relative_file_name),
        file_lines_count: u.file_lines_count,
        components,
        start_line: u.start_line,
        end_line: u.end_line,
        lines_of_code: u.lines_of_code,
        mc_cabe_index: u.mc_cabe_index,
        number_of_parameters: u.number_of_parameters,
        number_of_literals: u.number_of_literals,
        number_of_statements: u.number_of_statements,
        number_of_expressions: u.number_of_expressions,
    }
}

/// The listings of the units, in order.
pub fn export_units(units: &Vec<Unit>) -> (r: Vec<UnitExport>)
    ensures
        r@.len() == units@.len(),
        forall|k: int| 0 <= k < r@.len() ==> unit_export_of(#[trigger] r@[k], units@[k]@),
{
    let mut r: Vec<UnitExport> = Vec::new();
    let mut k: usize = 0;
    while k < units.len()
        invariant
            k <= units@.len(),
            r@.len() == k,
            forall|m: int| 0 <= m < k ==> unit_export_of(#[trigger] r@[m], units@[m]@),
        decreases units@.len() - k,
    {
        r.push(unit_export(&units[k]));
        k += 1;
    }
    r
}

/// A file of a dependency with the line that shows it.
#[derive(Debug, Clone, PartialEq, Eq)]
pub struct SourceFileDependencyExport {
    pub file: FileExportInfoExport,
    pub code_fragment: String,
}

/// One end of a dependency: a package anchor with its files.
#[derive(Debug, Clone, PartialEq, Eq)]
pub struct DependencyAnchorExport {
    pub anchor: String,
    pub code_fragment: String,
    pub dependency_patterns: Vec<String>,
    pub files: Vec<FileExportInfoExport>,
}

/// A dependency as the dependency export lists it.
#[derive(Debug, Clone, PartialEq, Eq)]
pub struct DependencyExport {
    pub from_files: Vec<SourceFileDependencyExport>,
    pub from: DependencyAnchorExport,
    pub to: DependencyAnchorExport,
}

/// `e` lists the anchor `a`, its files with their concern labels.
pub open spec fn anchor_export_of(e: DependencyAnchorExport, a: DependencyAnchor, concerns: Seq<PathLabels>) -> bool {
    &&& e.anchor@ == a.anchor@
    &&& e.code_fragment@ == a.code_fragment@
    &&& views(e.dependency_patterns@) == views(a.dependency_patterns@)
    &&& e.files@.len() == a.files@.len()
    &&& forall|k: int|
        0 <= k < e.files@.len() ==> file_export_info_of(
            #[trigger] e.files@[k],
            a.files@[k]@,
            labels_of(concerns, a.files@[k].relative_path@),
        )
}

/// `e` lists the dependency `d`.
pub open spec fn dependency_export_of(e: DependencyExport, d: Dependency, concerns: Seq<PathLabels>) -> bool {
    &&& e.from_files@.len() == d.from_files@.len()
    &&& forall|k: int|
        0 <= k < e.from_files@.len() ==> {
            let f = #[trigger] d.from_files@[k];
            file_export_info_of(e.from_files@[k].file, f.file@, labels_of(concerns, f.file.relative_path@))
                && e.from_files@[k].code_fragment@ == f.code_fragment@
        }
    &&& anchor_export_of(e.from, d.from_anchor, concerns)
    &&& anchor_export_of(e.to, d.to_anchor, concerns)
}

fn export_anchor(a: &DependencyAnchor, concerns: &Vec<PathLabels>) -> (r: DependencyAnchorExport)
    ensures
        anchor_export_of(r, *a, concerns@),
{
    let mut files: Vec<FileExportInfoExport> = Vec::new();
    let mut k: usize = 0;
    while k < a.files.len()
        invariant
            k <= a.files@.len(),
            files@.len() == k,
            forall|m: int|
                0 <= m < k ==> file_export_info_of(
                    #[trigger] files@[m],
                    a.files@[m]@,
                    labels_of(concerns@, a.files@[m].relative_path@),
                ),
        decreases a.files@.len() - k,
    {
        files.push(file_export_info_from_record(&a.files[k], concerns));
        k += 1;
    }
    let patterns = copy_strings(&a.dependency_patterns);
    DependencyAnchorExport {
        anchor: copy_string(&a.anchor),
        code_fragment: copy_string(&a.code_fragment),
        dependency_patterns: patterns,
        files,
    }
}

fn export_dependency(d: &Dependency, concerns: &Vec<PathLabels>) -> (r: DependencyExport)
    ensures
        dependency_export_of(r, *d, concerns@),
{
    let mut from_files: Vec<SourceFileDependencyExport> = Vec::new();
    let mut k: usize = 0;
    while k < d.from_files.len()
        invariant
            k <= d.from_files@.len(),
            from_files@.len() == k,
            forall|m: int|
                0 <= m < k ==> {
                    let f = #[trigger] d.from_files@[m];
                    file_export_info_of(from_files@[m].file, f.file@, labels_of(concerns@, f.file.relative_path@))
                        && from_files@[m].code_fragment@ == f.code_fragment@
                },
        decreases d.from_files@.len() - k,
    {
        let f = &d.from_files[k];
        from_files.push(
            SourceFileDependencyExport {
                file: file_export_info_from_record(&f.file, concerns),
                code_fragment: copy_string(&f.code_fragment),
            },
        );
        k += 1;
    }
    DependencyExport {
        from_files,
        from: export_anchor(&d.from_anchor, concerns),
        to: export_anchor(&d.to_anchor, concerns),
    }
}

/// The listings of the dependencies, in order, their files labelled with
/// their concerns.
pub fn export_dependencies(dependencies: &Vec<Dependency>, concerns: &Vec<PathLabels>) -> (r: Vec<DependencyExport>)
    ensures
        r@.len() == dependencies@.len(),
        forall|k: int| 0 <= k < r@.len() ==> dependency_export_of(#[trigger] r@[k], dependencies@[k], concerns@),
{
    let mut r: Vec<DependencyExport> = Vec::new();
    let mut k: usize = 0;
    while k < dependencies.len()
        invariant
            k <= dependencies@.len(),
            r@.len() == k,
            forall|m: int| 0 <= m < k ==> dependency_export_of(#[trigger] r@[m], dependencies@[m], concerns@),
        decreases dependencies@.len() - k,
    {
        r.push(export_dependency(&dependencies[k], concerns));
        k += 1;
    }
    r
}

// ---------------------------------------------------------------------------
// Restricting to a set of files
// ---------------------------------------------------------------------------

/// The units of the selected files, in order.
pub open spec fn units_in(units: Seq<Unit>, selected: PathSet) -> Seq<UnitView>
    decreases units.len(),
{
    if units.len() == 0 {
        Seq::empty()
    } else if selected.has(units.last().relative_file_name@) {
        units_in(units.drop_last(), selected).push(units.last()@)
    } else {
        units_in(units.drop_last(), selected)
    }
}

/// The units of the selected files.
pub fn filter_units(units: &Vec<Unit>, selected: &PathSet) -> (r: Vec<Unit>)
    requires
        selected.wf(),
    ensures
        unit_views(r@) == units_in(units@, *selected),
{
    let mut r: Vec<Unit> = Vec::new();
    let mut k: usize = 0;
    while k < units.len()
        invariant
            k <= units@.len(),
            selected.wf(),
            unit_views(r@) == units_in(units@.take(k as int), *selected),
        decreases units@.len() - k,
    {
        proof {
            assert(units@.take(k + 1).drop_last() =~= units@.take(k as int));
            assert(units@.take(k + 1).last() == units@[k as int]);
        }
        let ghost before = r@;
        if selected.contains(units[k].relative_file_name.as_str()) {
            let u = copy_unit(&units[k]);
            r.push(u);
            proof {
                assert(unit_views(r@) =~= unit_views(before).push(u@));
            }
        }
        k += 1;
    }
    proof {
        assert(units@.take(units@.len() as int) =~= units@);
    }
    r
}

/// The records of the selected files among `files`, in order.
pub open spec fn records_in(files: Seq<FileRecordView>, selected: PathSet) -> Seq<FileRecordView>
    decreases files.len(),
{
    if files.len() == 0 {
        Seq::empty()
    } else if selected.has(files.last().relative_path) {
        records_in(files.drop_last(), selected).push(files.last())
    } else {
        records_in(files.drop_last(), selected)
    }
}

/// The file-level dependencies of the selected files, in order.
pub open spec fn evidence_in(e: Seq<(FileRecordView, Seq<char>)>, selected: PathSet) -> Seq<(FileRecordView, Seq<char>)>
    decreases e.len(),
{
    if e.len() == 0 {
        Seq::empty()
    } else if selected.has(e.last().0.relative_path) {
        evidence_in(e.drop_last(), selected).push(e.last())
    } else {
        evidence_in(e.drop_last(), selected)
    }
}

/// The values a dependency holds.
pub struct DependencyView {
    pub from: Seq<char>,
    pub to: Seq<char>,
    pub kind: Seq<char>,
    pub from_anchor: (Seq<char>, Seq<char>, Seq<Seq<char>>, Seq<FileRecordView>),
    pub to_anchor: (Seq<char>, Seq<char>, Seq<Seq<char>>, Seq<FileRecordView>),
    pub from_files: Seq<(FileRecordView, Seq<char>)>,
}

pub open spec fn dependency_view(d: Dependency) -> DependencyView {
    DependencyView {
        from: d.from@,
        to: d.to@,
        kind: d.kind@,
        from_anchor: anchor_view(d.from_anchor),
        to_anchor: anchor_view(d.to_anchor),
        from_files: evidence_views(d.from_files@),
    }
}

/// A dependency restricted to the selected files: of its file-level
/// dependencies and of the files of its anchors only those of selected
/// files are kept.
pub open spec fn restricted(d: DependencyView, selected: PathSet) -> DependencyView {
    DependencyView {
        from_anchor: (d.from_anchor.0, d.from_anchor.1, d.from_anchor.2, records_in(d.from_anchor.3, selected)),
        to_anchor: (d.to_anchor.0, d.to_anchor.1, d.to_anchor.2, records_in(d.to_anchor.3, selected)),
        from_files: evidence_in(d.from_files, selected),
        ..d
    }
}

/// A restricted dependency still involves some file.
pub open spec fn involves_files(d: DependencyView) -> bool {
    d.from_files.len() > 0 || d.from_anchor.3.len() > 0 || d.to_anchor.3.len() > 0
}

/// The dependencies restricted to the selected files, dropping those left
/// without any file.
pub open spec fn dependencies_in(ds: Seq<Dependency>, selected: PathSet) -> Seq<DependencyView>
    decreases ds.len(),
{
    if ds.len() == 0 {
        Seq::empty()
    } else {
        let prev = dependencies_in(ds.drop_last(), selected);
        let d = restricted(dependency_view(ds.last()), selected);
        if involves_files(d) {
            prev.push(d)
        } else {
            prev
        }
    }
}

fn retain_records(files: &Vec<FileRecord>, selected: &PathSet) -> (r: Vec<FileRecord>)
    requires
        selected.wf(),
    ensures
        record_views(r@) == records_in(record_views(files@), *selected),
{
    let mut r: Vec<FileRecord> = Vec::new();
    let mut k: usize = 0;
    while k < files.len()
        invariant
            k <= files@.len(),
            selected.wf(),
            record_views(r@) == records_in(record_views(files@.take(k as int)), *selected),
        decreases files@.len() - k,
    {
        proof {
            assert(record_views(files@.take(k + 1)).drop_last() =~= record_views(files@.take(k as int)));
            assert(record_views(files@.take(k + 1)).last() == files@[k as int]@);
        }
        let ghost before = r@;
        if selected.contains(files[k].relative_path.as_str()) {
            let f = copy_file_record(&files[k]);
            r.push(f);
            proof {
                assert(record_views(r@) =~= record_views(before).push(f@));
            }
        }
        k += 1;
    }
    proof {
        assert(files@.take(files@.len() as int) =~= files@);
    }
    r
}

fn retain_evidence(from_files: &Vec<SourceFileDependency>, selected: &PathSet) -> (r: Vec<SourceFileDependency>)
    requires
        selected.wf(),
    ensures
        evidence_views(r@) == evidence_in(evidence_views(from_files@), *selected),
{
    let mut r: Vec<SourceFileDependency> = Vec::new();
    let mut k: usize = 0;
    while k < from_files.len()
        invariant
            k <= from_files@.len(),
            selected.wf(),
            evidence_views(r@) == evidence_in(evidence_views(from_files@.take(k as int)), *selected),
        decreases from_files@.len() - k,
    {
        proof {
            assert(evidence_views(from_files@.take(k + 1)).drop_last() =~= evidence_views(from_files@.take(k as int)));
            assert(evidence_views(from_files@.take(k + 1)).last() == (
            from_files@[k as int].file@,
            from_files@[k as int].code_fragment@,
            ));
        }
        let ghost before = r@;
        if selected.contains(from_files[k].file.relative_path.as_str()) {
            let e = SourceFileDependency {
                file: copy_file_record(&from_files[k].file),
                code_fragment: copy_string(&from_files[k].code_fragment),
            };
            r.push(e);
            proof {
                assert(evidence_views(r@) =~= evidence_views(before).push((e.file@, e.code_fragment@)));
            }
        }
        k += 1;
    }
    proof {
        assert(from_files@.take(from_files@.len() as int) =~= from_files@);
    }
    r
}

/// The dependencies restricted to the selected files; a dependency left
/// without any file is dropped.
pub fn filter_dependencies(dependencies: &Vec<Dependency>, selected: &PathSet) -> (r: Vec<Dependency>)
    requires
        selected.wf(),
    ensures
        r@.map_values(|d: Dependency| dependency_view(d)) == dependencies_in(dependencies@, *selected),
{
    let mut r: Vec<Dependency> = Vec::new();
    let mut k: usize = 0;
    while k < dependencies.len()
        invariant
            k <= dependencies@.len(),
            selected.wf(),
            r@.map_values(|d: Dependency| dependency_view(d)) == dependencies_in(
                dependencies@.take(k as int),
                *selected,
            ),
        decreases dependencies@.len() - k,
    {
        proof {
            assert(dependencies@.take(k + 1).drop_last() =~= dependencies@.take(k as int));
            assert(dependencies@.take(k + 1).last() == dependencies@[k as int]);
        }
        let d = &dependencies[k];
        let from_files = retain_evidence(&d.from_files, selected);
        let from_anchor_files = retain_records(&d.from_anchor.files, selected);
        let to_anchor_files = retain_records(&d.to_anchor.files, selected);
        if from_files.len() > 0 || from_anchor_files.len() > 0 || to_anchor_files.len() > 0 {
            let from_patterns = copy_strings(&d.from_anchor.dependency_patterns);
            let to_patterns = copy_strings(&d.to_anchor.dependency_patterns);
            let kept = Dependency {
                from: copy_string(&d.from),
                to: copy_string(&d.to),
                kind: copy_string(&d.kind),
                from_anchor: DependencyAnchor {
                    anchor: copy_string(&d.from_anchor.anchor),
                    code_fragment: copy_string(&d.from_anchor.code_fragment),
                    dependency_patterns: from_patterns,
                    files: from_anchor_files,
                },
                to_anchor: DependencyAnchor {
                    anchor: copy_string(&d.to_anchor.anchor),
                    code_fragment: copy_string(&d.to_anchor.code_fragment),
                    dependency_patterns: to_patterns,
                    files: to_anchor_files,
                },
                from_files,
            };
            let ghost before = r@;
            r.push(kept);
            proof {
                assert(dependency_view(kept) == restricted(dependency_view(*d), *selected));
                assert(r@.map_values(|d: Dependency| dependency_view(d)) =~= before.map_values(
                    |d: Dependency| dependency_view(d),
                ).push(dependency_view(kept)));
            }
        }
        k += 1;
    }
    proof {
        assert(dependencies@.take(dependencies@.len() as int) =~= dependencies@);
    }
    r
}

/// The label a file or unit carries for a component of a decomposition.
pub open spec fn component_label(decomposition: Seq<char>, component: Seq<char>) -> Seq<char> {
    decomposition + "::"@ + component
}

/// The label of `component` in `decomposition`.
fn make_component_label(decomposition: &str, component: &str) -> (r: String)
    ensures
        r@ == component_label(decomposition@, component@),
{
    let mut r = String::new();
    crate::text::push_str(&mut r, decomposition);
    crate::text::push_str(&mut r, "::");
    crate::text::push_str(&mut r, component);
    r
}

/// Whether the file belongs to `component` of `decomposition`.
pub fn file_has_component(file: &FileRecord, decomposition: &str, component: &str) -> (b: bool)
    ensures
        b == views(file.components@).contains(component_label(decomposition@, component@)),
{
    let label = make_component_label(decomposition, component);
    crate::text::contains_string(&file.components, &label)
}

/// Whether the unit belongs to `component` of `decomposition`.
pub fn unit_has_component(unit: &Unit, decomposition: &str, component: &str) -> (b: bool)
    ensures
        b == views(unit.components@).contains(component_label(decomposition@, component@)),
{
    let label = make_component_label(decomposition, component);
    crate::text::contains_string(&unit.components, &label)
}

} // verus!
