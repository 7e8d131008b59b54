//! Rankings and distributions of the main files and units: the longest
//! files and units, the most complex units, and risk distributions overall,
//! per extension and per component.
use vstd::prelude::*;

use crate::aspects::AspectAnalysisExport;
use crate::concerns::capped;
use crate::config::{SokratesConfig, ThresholdsConfig};
use crate::decompositions::LogicalDecompositionExport;
use crate::export::component_label;
use crate::scopes::{named_scope, scope_paths, ScopeFiles};
use crate::text::{lower, to_lower};
use crate::export::{
    context_of, copy_unit, file_has_component, find_context, selected_file_records, selected_records,
    source_file_export_from_context, source_file_export_of, unit_has_component, unit_views, SourceFileExport,
    UnitView,
};
use crate::ir::{copy_file_record, record_views, FileRecord, FileRecordView, Unit};
use crate::pathset::{str_eq, PathSet};
use crate::risk::{build_risk_distribution, distribution_of, thresholds_fit, RiskDistribution};
use crate::scopes::{contexts_wf, FileContext};
use crate::text::{copy_string, lemma_text_lt_irreflexive, str_lt, text_lt, views};

verus! {

// ---------------------------------------------------------------------------
// Ordering units
// ---------------------------------------------------------------------------

/// The measure units are ranked by: McCabe index or lines of code.
pub open spec fn unit_key(u: UnitView, by_complexity: bool) -> nat {
    if by_complexity {
        u.mc_cabe_index
    } else {
        u.lines_of_code
    }
}

/// `a` ranks before `b`: a larger measure, then an earlier file name, then
/// an earlier start line.
pub open spec fn unit_before(a: UnitView, b: UnitView, by_complexity: bool) -> bool {
    ||| unit_key(a, by_complexity) > unit_key(b, by_complexity)
    ||| unit_key(a, by_complexity) == unit_key(b, by_complexity) && text_lt(
        a.relative_file_name,
        b.relative_file_name,
    )
    ||| unit_key(a, by_complexity) == unit_key(b, by_complexity) && a.relative_file_name == b.relative_file_name
        && a.start_line < b.start_line
}

/// `sorted` with `u` placed after every unit that does not rank after it.
pub open spec fn insert_unit(sorted: Seq<UnitView>, u: UnitView, by_complexity: bool) -> Seq<UnitView>
    decreases sorted.len(),
{
    if sorted.len() == 0 {
        seq![u]
    } else if unit_before(u, sorted.last(), by_complexity) {
        insert_unit(sorted.drop_last(), u, by_complexity).push(sorted.last())
    } else {
        sorted.push(u)
    }
}

/// The units in rank order, units of equal rank keeping their order (a
/// stable sort).
pub open spec fn ranked_units(units: Seq<UnitView>, by_complexity: bool) -> Seq<UnitView>
    decreases units.len(),
{
    if units.len() == 0 {
        units
    } else {
        insert_unit(ranked_units(units.drop_last(), by_complexity), units.last(), by_complexity)
    }
}

proof fn lemma_insert_unit_at(sorted: Seq<UnitView>, u: UnitView, by_complexity: bool, pos: int)
    requires
        0 <= pos <= sorted.len(),
        forall|k: int| pos <= k < sorted.len() ==> unit_before(u, #[trigger] sorted[k], by_complexity),
        pos > 0 ==> !unit_before(u, sorted[pos - 1], by_complexity),
    ensures
        insert_unit(sorted, u, by_complexity) == sorted.take(pos).push(u) + sorted.skip(pos),
    decreases sorted.len(),
{
    if sorted.len() == 0 {
        assert(sorted.take(pos).push(u) + sorted.skip(pos) =~= seq![u]);
    } else if pos == sorted.len() {
        assert(sorted.take(pos).push(u) + sorted.skip(pos) =~= sorted.push(u));
    } else {
        lemma_insert_unit_at(sorted.drop_last(), u, by_complexity, pos);
        assert(sorted.drop_last().take(pos).push(u) + sorted.drop_last().skip(pos) + seq![sorted.last()]
            =~= sorted.take(pos).push(u) + sorted.skip(pos));
    }
}

/// Units in non-increasing order of the ranking measure.
spec fn keys_non_increasing(s: Seq<UnitView>, by_complexity: bool) -> bool {
    forall|i: int, j: int| 0 <= i < j < s.len() ==> unit_key(#[trigger] s[i], by_complexity) >= unit_key(#[trigger] s[j], by_complexity)
}

proof fn lemma_insert_unit_keeps_order(sorted: Seq<UnitView>, u: UnitView, by_complexity: bool)
    requires
        keys_non_increasing(sorted, by_complexity),
    ensures
        keys_non_increasing(insert_unit(sorted, u, by_complexity), by_complexity),
        insert_unit(sorted, u, by_complexity).to_multiset() == sorted.to_multiset().insert(u),
    decreases sorted.len(),
{
    broadcast use vstd::seq_lib::group_to_multiset_ensures;

    if sorted.len() == 0 {
        assert(seq![u] =~= Seq::<UnitView>::empty().push(u));
    } else {
        let rest = sorted.drop_last();
        let last = sorted.last();
        assert(sorted =~= rest.push(last));
        if unit_before(u, last, by_complexity) {
            assert(keys_non_increasing(rest, by_complexity)) by {
                assert forall|i: int, j: int| 0 <= i < j < rest.len() implies unit_key(#[trigger] rest[i], by_complexity)
                    >= unit_key(#[trigger] rest[j], by_complexity) by {
                    assert(rest[i] == sorted[i] && rest[j] == sorted[j]);
                }
            }
            lemma_insert_unit_keeps_order(rest, u, by_complexity);
            let ins = insert_unit(rest, u, by_complexity);
            assert forall|i: int, j: int| 0 <= i < j < ins.push(last).len() implies unit_key(
                #[trigger] ins.push(last)[i],
                by_complexity,
            ) >= unit_key(#[trigger] ins.push(last)[j], by_complexity) by {
                if j == ins.len() {
                    let x = ins[i];
                    assert(ins.to_multiset().count(x) > 0);
                    assert(rest.to_multiset().insert(u).count(x) > 0);
                    if x != u {
                        assert(rest.to_multiset().count(x) > 0);
                        assert(rest.contains(x));
                        let m = choose|m: int| 0 <= m < rest.len() && rest[m] == x;
                        assert(sorted[m] == x && sorted[sorted.len() - 1] == last);
                    }
                } else {
                    assert(ins.push(last)[i] == ins[i] && ins.push(last)[j] == ins[j]);
                }
            }
        } else {
            assert forall|i: int, j: int| 0 <= i < j < sorted.push(u).len() implies unit_key(
                #[trigger] sorted.push(u)[i],
                by_complexity,
            ) >= unit_key(#[trigger] sorted.push(u)[j], by_complexity) by {
                if j == sorted.len() {
                    assert(sorted[i] == sorted.push(u)[i]);
                    if i < sorted.len() - 1 {
                        assert(unit_key(sorted[i], by_complexity) >= unit_key(sorted[sorted.len() - 1], by_complexity));
                    }
                } else {
                    assert(sorted.push(u)[i] == sorted[i] && sorted.push(u)[j] == sorted[j]);
                }
            }
        }
    }
}

proof fn lemma_ranked_units_order(units: Seq<UnitView>, by_complexity: bool)
    ensures
        keys_non_increasing(ranked_units(units, by_complexity), by_complexity),
        ranked_units(units, by_complexity).to_multiset() == units.to_multiset(),
    decreases units.len(),
{
    broadcast use vstd::seq_lib::group_to_multiset_ensures;

    if units.len() > 0 {
        lemma_ranked_units_order(units.drop_last(), by_complexity);
        lemma_insert_unit_keeps_order(ranked_units(units.drop_last(), by_complexity), units.last(), by_complexity);
        assert(units =~= units.drop_last().push(units.last()));
    }
}

/// The ranked units are the given units, reordered. Ranked by complexity, a
/// unit with a larger McCabe index always comes before one with a smaller
/// index, whatever their lines of code; ranked by length, a longer unit
/// always comes before a shorter one.
pub proof fn lemma_ranked_units(units: Seq<UnitView>)
    ensures
        ranked_units(units, true).to_multiset() == units.to_multiset(),
        ranked_units(units, false).to_multiset() == units.to_multiset(),
        forall|i: int, j: int|
            0 <= i < ranked_units(units, true).len() && 0 <= j < ranked_units(units, true).len()
                && (#[trigger] ranked_units(units, true)[i]).mc_cabe_index > (#[trigger] ranked_units(
                units,
                true,
            )[j]).mc_cabe_index ==> i < j,
        forall|i: int, j: int|
            0 <= i < ranked_units(units, false).len() && 0 <= j < ranked_units(units, false).len()
                && (#[trigger] ranked_units(units, false)[i]).lines_of_code > (#[trigger] ranked_units(
                units,
                false,
            )[j]).lines_of_code ==> i < j,
{
    lemma_ranked_units_order(units, true);
    lemma_ranked_units_order(units, false);
    let rc = ranked_units(units, true);
    let rl = ranked_units(units, false);
    assert forall|i: int, j: int|
        0 <= i < rc.len() && 0 <= j < rc.len() && (#[trigger] rc[i]).mc_cabe_index > (#[trigger] rc[j]).mc_cabe_index
            implies i < j by {
        if j < i {
            assert(unit_key(rc[j], true) >= unit_key(rc[i], true));
        }
    }
    assert forall|i: int, j: int|
        0 <= i < rl.len() && 0 <= j < rl.len() && (#[trigger] rl[i]).lines_of_code > (#[trigger] rl[j]).lines_of_code
            implies i < j by {
        if j < i {
            assert(unit_key(rl[j], false) >= unit_key(rl[i], false));
        }
    }
}

/// Whether `a` ranks before `b`.
fn unit_ranks_before(a: &Unit, b: &Unit, by_complexity: bool) -> (r: bool)
    ensures
        r == unit_before(a@, b@, by_complexity),
{
    let ka = if by_complexity {
        a.mc_cabe_index
    } else {
        a.lines_of_code
    };
    let kb = if by_complexity {
        b.mc_cabe_index
    } else {
        b.lines_of_code
    };
    if ka != kb {
        return ka > kb;
    }
    if str_lt(a.relative_file_name.as_str(), b.relative_file_name.as_str()) {
        return true;
    }
    str_eq(a.relative_file_name.as_str(), b.relative_file_name.as_str()) && a.start_line < b.start_line
}

fn ordered_units(units: &Vec<Unit>, by_complexity: bool) -> (r: Vec<Unit>)
    ensures
        unit_views(r@) == ranked_units(unit_views(units@), by_complexity),
{
    let ghost uv = unit_views(units@);
    let mut r: Vec<Unit> = Vec::new();
    let mut i: usize = 0;
    while i < units.len()
        invariant
            i <= units@.len(),
            uv == unit_views(units@),
            unit_views(r@) == ranked_units(uv.take(i as int), by_complexity),
        decreases units@.len() - i,
    {
        proof {
            assert(uv.take(i + 1).drop_last() =~= uv.take(i as int));
            assert(uv.take(i + 1).last() == units@[i as int]@);
        }
        let u = copy_unit(&units[i]);
        let mut pos = r.len();
        while pos > 0 && unit_ranks_before(&u, &r[pos - 1], by_complexity)
            invariant
                pos <= r@.len(),
                forall|k: int| pos <= k < r@.len() ==> unit_before(u@, #[trigger] unit_views(r@)[k], by_complexity),
            decreases pos,
        {
            pos -= 1;
        }
        proof {
            lemma_insert_unit_at(unit_views(r@), u@, by_complexity, pos as int);
        }
        let ghost before = unit_views(r@);
        r.insert(pos, u);
        proof {
            assert(unit_views(r@) =~= before.take(pos as int).push(u@) + before.skip(pos as int));
        }
        i += 1;
    }
    proof {
        assert(uv.take(units@.len() as int) =~= uv);
    }
    r
}

/// The units from the longest down (then by file name and start line).
pub fn ordered_units_by_length(units: &Vec<Unit>) -> (r: Vec<Unit>)
    ensures
        unit_views(r@) == ranked_units(unit_views(units@), false),
{
    ordered_units(units, false)
}

/// The units from the most complex down (then by file name and start line).
pub fn ordered_units_by_complexity(units: &Vec<Unit>) -> (r: Vec<Unit>)
    ensures
        unit_views(r@) == ranked_units(unit_views(units@), true),
{
    ordered_units(units, true)
}

// ---------------------------------------------------------------------------
// Ordering files
// ---------------------------------------------------------------------------

/// The measure files are ranked by: units or lines of code.
pub open spec fn file_key(f: FileRecordView, by_units: bool) -> nat {
    if by_units {
        f.units_count
    } else {
        f.lines_of_code
    }
}

/// `a` ranks before `b`: a larger measure, then an earlier path.
pub open spec fn file_before(a: FileRecordView, b: FileRecordView, by_units: bool) -> bool {
    file_key(a, by_units) > file_key(b, by_units) || (file_key(a, by_units) == file_key(b, by_units) && text_lt(
        a.relative_path,
        b.relative_path,
    ))
}

/// `sorted` with `f` placed after every file that does not rank after it.
pub open spec fn insert_file(sorted: Seq<FileRecordView>, f: FileRecordView, by_units: bool) -> Seq<FileRecordView>
    decreases sorted.len(),
{
    if sorted.len() == 0 {
        seq![f]
    } else if file_before(f, sorted.last(), by_units) {
        insert_file(sorted.drop_last(), f, by_units).push(sorted.last())
    } else {
        sorted.push(f)
    }
}

/// The files in rank order (a stable sort).
pub open spec fn ranked_files(fs: Seq<FileRecordView>, by_units: bool) -> Seq<FileRecordView>
    decreases fs.len(),
{
    if fs.len() == 0 {
        fs
    } else {
        insert_file(ranked_files(fs.drop_last(), by_units), fs.last(), by_units)
    }
}

proof fn lemma_insert_file_at(sorted: Seq<FileRecordView>, f: FileRecordView, by_units: bool, pos: int)
    requires
        0 <= pos <= sorted.len(),
        forall|k: int| pos <= k < sorted.len() ==> file_before(f, #[trigger] sorted[k], by_units),
        pos > 0 ==> !file_before(f, sorted[pos - 1], by_units),
    ensures
        insert_file(sorted, f, by_units) == sorted.take(pos).push(f) + sorted.skip(pos),
    decreases sorted.len(),
{
    if sorted.len() == 0 {
        assert(sorted.take(pos).push(f) + sorted.skip(pos) =~= seq![f]);
    } else if pos == sorted.len() {
        assert(sorted.take(pos).push(f) + sorted.skip(pos) =~= sorted.push(f));
    } else {
        lemma_insert_file_at(sorted.drop_last(), f, by_units, pos);
        assert(sorted.drop_last().take(pos).push(f) + sorted.drop_last().skip(pos) + seq![sorted.last()]
            =~= sorted.take(pos).push(f) + sorted.skip(pos));
    }
}

fn file_ranks_before(a: &FileRecord, b: &FileRecord, by_units: bool) -> (r: bool)
    ensures
        r == file_before(a@, b@, by_units),
{
    let ka = if by_units {
        a.units_count
    } else {
        a.lines_of_code
    };
    let kb = if by_units {
        b.units_count
    } else {
        b.lines_of_code
    };
    if ka != kb {
        return ka > kb;
    }
    str_lt(a.relative_path.as_str(), b.relative_path.as_str())
}

/// The files in rank order.
fn ordered_files(files: &Vec<FileRecord>, by_units: bool) -> (r: Vec<FileRecord>)
    ensures
        record_views(r@) == ranked_files(record_views(files@), by_units),
{
    let ghost fv = record_views(files@);
    let mut r: Vec<FileRecord> = Vec::new();
    let mut i: usize = 0;
    while i < files.len()
        invariant
            i <= files@.len(),
            fv == record_views(files@),
            record_views(r@) == ranked_files(fv.take(i as int), by_units),
        decreases files@.len() - i,
    {
        proof {
            assert(fv.take(i + 1).drop_last() =~= fv.take(i as int));
            assert(fv.take(i + 1).last() == files@[i as int]@);
        }
        let f = copy_file_record(&files[i]);
        let mut pos = r.len();
        while pos > 0 && file_ranks_before(&f, &r[pos - 1], by_units)
            invariant
                pos <= r@.len(),
                forall|k: int| pos <= k < r@.len() ==> file_before(f@, #[trigger] record_views(r@)[k], by_units),
            decreases pos,
        {
            pos -= 1;
        }
        proof {
            lemma_insert_file_at(record_views(r@), f@, by_units, pos as int);
        }
        let ghost before = record_views(r@);
        r.insert(pos, f);
        proof {
            assert(record_views(r@) =~= before.take(pos as int).push(f@) + before.skip(pos as int));
        }
        i += 1;
    }
    proof {
        assert(fv.take(files@.len() as int) =~= fv);
    }
    r
}

// ---------------------------------------------------------------------------
// Unit listings
// ---------------------------------------------------------------------------

/// A unit with its file, as the rankings list it.
#[derive(Debug, Clone, PartialEq, Eq)]
pub struct UnitAnalysisExport {
    pub short_name: String,
    pub long_name: String,
    pub source_file: SourceFileExport,
    pub start_line: usize,
    pub end_line: usize,
    pub lines_of_code: usize,
    pub mc_cabe_index: usize,
    pub number_of_parameters: usize,
    pub number_of_literals: usize,
    pub number_of_statements: usize,
    pub number_of_expressions: usize,
}

/// `e` lists the unit `u`: its file from its context when it has one, or
/// else by name with the unit's file length and no metrics.
pub open spec fn unit_analysis_of(e: UnitAnalysisExport, u: UnitView, contexts: Seq<FileContext>) -> bool {
    &&& e.short_name@ == u.short_name
    &&& e.long_name@ == u.long_name
    &&& match context_of(contexts, u.relative_file_name) {
        Some(c) => source_file_export_of(e.source_file, c.file@, true),
        None => {
            &&& e.source_file.relative_path@ == u.relative_file_name
            &&& e.source_file.extension@.len() == 0
            &&& e.source_file.lines_of_code == u.file_lines_count
            &&& e.source_file.units_count == 0
            &&& e.source_file.units_mc_cabe_index_sum == 0
            &&& e.source_file.lines_of_code_in_units == 0
        },
    }
    &&& e.start_line == u.start_line
    &&& e.end_line == u.end_line
    &&& e.lines_of_code == u.lines_of_code
    &&& e.mc_cabe_index == u.mc_cabe_index
    &&& e.number_of_parameters == u.number_of_parameters
    &&& e.number_of_literals == u.number_of_literals
    &&& e.number_of_statements == u.number_of_statements
    &&& e.number_of_expressions == u.number_of_expressions
}

/// The listing of a unit with its file.
pub fn build_unit_analysis_export(unit: &Unit, contexts: &Vec<FileContext>) -> (r: UnitAnalysisExport)
    requires
        contexts_wf(contexts@),
    ensures
        unit_analysis_of(r, unit@, contexts@),
{
    let source_file = match find_context(contexts, unit.relative_file_name.as_str()) {
        Some(pos) => source_file_export_from_context(&contexts[pos], true),
        None => SourceFileExport {
            relative_path: copy_string(&unit.relative_file_name),
            extension: String::new(),
            lines_of_code: unit.file_lines_count,
            units_count: 0,
            units_mc_cabe_index_sum: 0,
            lines_of_code_in_units: 0,
        },
    };
    UnitAnalysisExport {
        short_name: copy_string(&unit.short_name),
        long_name: copy_string(&unit.long_name),
        source_file,
        start_line: unit.start_line,
        end_line: unit.end_line,
        lines_of_code: unit.lines_of_code,
        mc_cabe_index: unit.mc_cabe_index,
        number_of_parameters: unit.number_of_parameters,
        number_of_literals: unit.number_of_literals,
        number_of_statements: unit.number_of_statements,
        number_of_expressions: unit.number_of_expressions,
    }
}


// ---------------------------------------------------------------------------
// File size distributions
// ---------------------------------------------------------------------------

/// Each file as a pair of its lines of code, measured and weighed.
pub open spec fn size_pairs(fs: Seq<FileRecordView>) -> Seq<(usize, usize)> {
    fs.map_values(|f: FileRecordView| (f.lines_of_code as usize, f.lines_of_code as usize))
}

/// The distinct extensions (as written) of the files, in order of first
/// file.
pub open spec fn extensions_in_order(fs: Seq<FileRecordView>) -> Seq<Seq<char>>
    decreases fs.len(),
{
    if fs.len() == 0 {
        Seq::empty()
    } else {
        let prev = extensions_in_order(fs.drop_last());
        if prev.contains(fs.last().extension) {
            prev
        } else {
            prev.push(fs.last().extension)
        }
    }
}

/// The files with extension `e` (as written), in order.
pub open spec fn files_with_extension(fs: Seq<FileRecordView>, e: Seq<char>) -> Seq<FileRecordView>
    decreases fs.len(),
{
    if fs.len() == 0 {
        Seq::empty()
    } else if fs.last().extension == e {
        files_with_extension(fs.drop_last(), e).push(fs.last())
    } else {
        files_with_extension(fs.drop_last(), e)
    }
}

/// The files labelled with component `c` of decomposition `d`, in order.
pub open spec fn files_in_component(fs: Seq<FileRecordView>, d: Seq<char>, c: Seq<char>) -> Seq<FileRecordView>
    decreases fs.len(),
{
    if fs.len() == 0 {
        Seq::empty()
    } else if fs.last().components.contains(component_label(d, c)) {
        files_in_component(fs.drop_last(), d, c).push(fs.last())
    } else {
        files_in_component(fs.drop_last(), d, c)
    }
}

/// The files with at least one unit, in order.
pub open spec fn files_with_units(fs: Seq<FileRecordView>) -> Seq<FileRecordView>
    decreases fs.len(),
{
    if fs.len() == 0 {
        Seq::empty()
    } else if fs.last().units_count > 0 {
        files_with_units(fs.drop_last()).push(fs.last())
    } else {
        files_with_units(fs.drop_last())
    }
}

/// The records that the contexts give for the files' paths, skipping paths
/// without a context.
pub open spec fn context_records(fs: Seq<FileRecordView>, contexts: Seq<FileContext>) -> Seq<FileRecordView>
    decreases fs.len(),
{
    if fs.len() == 0 {
        Seq::empty()
    } else {
        let prev = context_records(fs.drop_last(), contexts);
        match context_of(contexts, fs.last().relative_path) {
            Some(c) => prev.push(c.file@),
            None => prev,
        }
    }
}

fn size_pairs_of(files: &Vec<FileRecord>) -> (r: Vec<(usize, usize)>)
    ensures
        r@ == size_pairs(record_views(files@)),
{
    let mut r: Vec<(usize, usize)> = Vec::new();
    let mut i: usize = 0;
    while i < files.len()
        invariant
            i <= files@.len(),
            r@ =~= size_pairs(record_views(files@.take(i as int))),
        decreases files@.len() - i,
    {
        proof {
            assert(record_views(files@.take(i + 1)) =~= record_views(files@.take(i as int)).push(files@[i as int]@));
        }
        r.push((files[i].lines_of_code, files[i].lines_of_code));
        i += 1;
    }
    proof {
        assert(files@.take(files@.len() as int) =~= files@);
    }
    r
}

/// The file size distributions, one per extension (as written) in order of
/// first file.
pub fn build_file_size_distributions_per_extension(files: &Vec<FileRecord>, thresholds: &ThresholdsConfig) -> (r: Vec<
    RiskDistribution,
>)
    requires
        thresholds_fit(*thresholds),
    ensures
        r@.len() == extensions_in_order(record_views(files@)).len(),
        forall|k: int|
            0 <= k < r@.len() ==> {
                let e = extensions_in_order(record_views(files@))[k];
                distribution_of(
                    #[trigger] r@[k],
                    e,
                    *thresholds,
                    size_pairs(files_with_extension(record_views(files@), e)),
                )
            },
{
    let ghost fs = record_views(files@);
    let mut extensions: Vec<String> = Vec::new();
    let mut i: usize = 0;
    while i < files.len()
        invariant
            i <= files@.len(),
            fs == record_views(files@),
            views(extensions@) == extensions_in_order(fs.take(i as int)),
        decreases files@.len() - i,
    {
        proof {
            assert(fs.take(i + 1).drop_last() =~= fs.take(i as int));
            assert(fs.take(i + 1).last() == files@[i as int]@);
        }
        if !crate::text::contains_string(&extensions, &files[i].extension) {
            let ghost before = views(extensions@);
            extensions.push(files[i].extension.clone());
            proof {
                assert(views(extensions@) =~= before.push(files@[i as int].extension@));
            }
        }
        i += 1;
    }
    proof {
        assert(fs.take(files@.len() as int) =~= fs);
    }
    let mut r: Vec<RiskDistribution> = Vec::new();
    let mut k: usize = 0;
    while k < extensions.len()
        invariant
            k <= extensions@.len(),
            fs == record_views(files@),
            thresholds_fit(*thresholds),
            views(extensions@) == extensions_in_order(fs),
            r@.len() == k,
            forall|m: int|
                0 <= m < k ==> distribution_of(
                    #[trigger] r@[m],
                    extensions_in_order(fs)[m],
                    *thresholds,
                    size_pairs(files_with_extension(fs, extensions_in_order(fs)[m])),
                ),
        decreases extensions@.len() - k,
    {
        let e = &extensions[k];
        proof {
            assert(views(extensions@)[k as int] == e@);
        }
        let mut selected: Vec<FileRecord> = Vec::new();
        let mut j: usize = 0;
        while j < files.len()
            invariant
                j <= files@.len(),
                fs == record_views(files@),
                record_views(selected@) == files_with_extension(fs.take(j as int), e@),
            decreases files@.len() - j,
        {
            proof {
                assert(fs.take(j + 1).drop_last() =~= fs.take(j as int));
                assert(fs.take(j + 1).last() == files@[j as int]@);
            }
            if str_eq(files[j].extension.as_str(), e.as_str()) {
                let ghost before = record_views(selected@);
                let c = copy_file_record(&files[j]);
                selected.push(c);
                proof {
                    assert(record_views(selected@) =~= before.push(c@));
                }
            }
            j += 1;
        }
        proof {
            assert(fs.take(files@.len() as int) =~= fs);
        }
        let pairs = size_pairs_of(&selected);
        r.push(build_risk_distribution(e.as_str(), thresholds, &pairs));
        k += 1;
    }
    r
}

/// The files labelled with a component, in order.
fn component_files(files: &Vec<FileRecord>, decomposition: &str, component: &str) -> (r: Vec<FileRecord>)
    ensures
        record_views(r@) == files_in_component(record_views(files@), decomposition@, component@),
{
    let ghost fs = record_views(files@);
    let mut r: Vec<FileRecord> = Vec::new();
    let mut j: usize = 0;
    while j < files.len()
        invariant
            j <= files@.len(),
            fs == record_views(files@),
            record_views(r@) == files_in_component(fs.take(j as int), decomposition@, component@),
        decreases files@.len() - j,
    {
        proof {
            assert(fs.take(j + 1).drop_last() =~= fs.take(j as int));
            assert(fs.take(j + 1).last() == files@[j as int]@);
        }
        if file_has_component(&files[j], decomposition, component) {
            let ghost before = record_views(r@);
            let c = copy_file_record(&files[j]);
            r.push(c);
            proof {
                assert(record_views(r@) =~= before.push(c@));
            }
        }
        j += 1;
    }
    proof {
        assert(fs.take(files@.len() as int) =~= fs);
    }
    r
}

/// Longest entries kept in the file rankings.
pub const TOP_FILES: usize = 50;

/// The file size distributions of the components of a decomposition.
#[derive(Debug, Clone, PartialEq, Eq)]
pub struct FileSizeDistributionPerLogicalDecompositionExport {
    pub name: String,
    pub file_size_distribution_per_component: Vec<RiskDistribution>,
}

/// The analysis of the main files.
#[derive(Debug, Clone, PartialEq, Eq)]
pub struct FilesAnalysisResultsExport {
    pub overall_file_size_distribution: RiskDistribution,
    pub file_size_distribution_per_extension: Vec<RiskDistribution>,
    pub file_size_distribution_per_logical_decomposition: Vec<FileSizeDistributionPerLogicalDecompositionExport>,
    pub longest_files: Vec<SourceFileExport>,
    pub files_with_most_units: Vec<SourceFileExport>,
}

/// `s` lists the files `fs`, with unit metrics.
pub open spec fn listing_of(s: Seq<SourceFileExport>, fs: Seq<FileRecordView>) -> bool {
    &&& s.len() == fs.len()
    &&& forall|k: int| 0 <= k < s.len() ==> source_file_export_of(#[trigger] s[k], fs[k], true)
}

/// The first `n` of a sequence (all of it when shorter).
pub open spec fn first_n<A>(s: Seq<A>, n: nat) -> Seq<A> {
    if n < s.len() {
        s.take(n as int)
    } else {
        s
    }
}

/// `r` analyses the main files `main` with thresholds `t`: the overall
/// size distribution, one per extension, one per component of each
/// decomposition, the longest files, and the files with the most units.
pub open spec fn files_analysis_of(
    r: FilesAnalysisResultsExport,
    main: Seq<FileRecordView>,
    contexts: Seq<FileContext>,
    t: ThresholdsConfig,
    decompositions: Seq<LogicalDecompositionExport>,
) -> bool {
    &&& distribution_of(r.overall_file_size_distribution, Seq::empty(), t, size_pairs(main))
    &&& r.file_size_distribution_per_extension@.len() == extensions_in_order(main).len()
    &&& forall|k: int|
        0 <= k < r.file_size_distribution_per_extension@.len() ==> distribution_of(
            #[trigger] r.file_size_distribution_per_extension@[k],
            extensions_in_order(main)[k],
            t,
            size_pairs(files_with_extension(main, extensions_in_order(main)[k])),
        )
    &&& r.file_size_distribution_per_logical_decomposition@.len() == decompositions.len()
    &&& forall|k: int|
        0 <= k < decompositions.len() ==> {
            let e = #[trigger] r.file_size_distribution_per_logical_decomposition@[k];
            let d = decompositions[k];
            &&& e.name@ == d.key@
            &&& e.file_size_distribution_per_component@.len() == d.components@.len()
            &&& forall|c: int|
                0 <= c < d.components@.len() ==> distribution_of(
                    #[trigger] e.file_size_distribution_per_component@[c],
                    d.components@[c].name@,
                    t,
                    size_pairs(files_in_component(main, d.key@, d.components@[c].name@)),
                )
        }
    &&& listing_of(r.longest_files@, context_records(first_n(ranked_files(main, false), TOP_FILES as nat), contexts))
    &&& listing_of(
        r.files_with_most_units@,
        context_records(first_n(ranked_files(files_with_units(main), true), TOP_FILES as nat), contexts),
    )
}

/// The listings of the files (with unit metrics), from their contexts.
fn list_files(files: &Vec<FileRecord>, contexts: &Vec<FileContext>, limit: usize) -> (r: Vec<SourceFileExport>)
    requires
        contexts_wf(contexts@),
    ensures
        listing_of(r@, context_records(first_n(record_views(files@), limit as nat), contexts@)),
{
    let n = if limit < files.len() {
        limit
    } else {
        files.len()
    };
    let ghost fs = first_n(record_views(files@), limit as nat);
    proof {
        assert(fs.len() == n);
    }
    let mut r: Vec<SourceFileExport> = Vec::new();
    let ghost mut listed: Seq<FileRecordView> = Seq::empty();
    let mut i: usize = 0;
    while i < n
        invariant
            i <= n,
            n == fs.len(),
            n <= files@.len(),
            fs == first_n(record_views(files@), limit as nat),
            contexts_wf(contexts@),
            listed == context_records(fs.take(i as int), contexts@),
            listing_of(r@, listed),
        decreases n - i,
    {
        proof {
            assert(fs.take(i + 1).drop_last() =~= fs.take(i as int));
            assert(fs.take(i + 1).last() == fs[i as int]);
            assert(fs[i as int] == files@[i as int]@);
        }
        match find_context(contexts, files[i].relative_path.as_str()) {
            Some(pos) => {
                r.push(source_file_export_from_context(&contexts[pos], true));
                proof {
                    listed = listed.push(contexts@[pos as int].file@);
                }
            },
            None => {},
        }
        i += 1;
    }
    proof {
        assert(fs.take(n as int) =~= fs);
    }
    r
}

/// The analysis of the main files: size distributions overall, per
/// extension and per component, the longest files and the files with the
/// most units (at most fifty of each).
pub fn build_files_analysis_results(
    files: &Vec<FileRecord>,
    contexts: &Vec<FileContext>,
    main_paths: &PathSet,
    config: &SokratesConfig,
    logical_decompositions: &Vec<LogicalDecompositionExport>,
) -> (r: FilesAnalysisResultsExport)
    requires
        contexts_wf(contexts@),
        main_paths.wf(),
        thresholds_fit(config.analysis.file_size_thresholds),
    ensures
        files_analysis_of(
            r,
            selected_records(files@, contexts@, *main_paths),
            contexts@,
            config.analysis.file_size_thresholds,
            logical_decompositions@,
        ),
{
    let thresholds = &config.analysis.file_size_thresholds;
    let main_files = selected_file_records(files, contexts, main_paths);
    let ghost main = record_views(main_files@);
    let overall_pairs = size_pairs_of(&main_files);
    let overall = build_risk_distribution("", thresholds, &overall_pairs);
    proof {
        reveal_strlit("");
        assert(overall.key@ =~= Seq::<char>::empty());
    }
    let per_extension = build_file_size_distributions_per_extension(&main_files, thresholds);
    let mut per_decomposition: Vec<FileSizeDistributionPerLogicalDecompositionExport> = Vec::new();
    let mut k: usize = 0;
    while k < logical_decompositions.len()
        invariant
            k <= logical_decompositions@.len(),
            main == record_views(main_files@),
            thresholds_fit(*thresholds),
            per_decomposition@.len() == k,
            forall|m: int|
                0 <= m < k ==> {
                    let e = #[trigger] per_decomposition@[m];
                    let d = logical_decompositions@[m];
                    &&& e.name@ == d.key@
                    &&& e.file_size_distribution_per_component@.len() == d.components@.len()
                    &&& forall|c: int|
                        0 <= c < d.components@.len() ==> distribution_of(
                            #[trigger] e.file_size_distribution_per_component@[c],
                            d.components@[c].name@,
                            *thresholds,
                            size_pairs(files_in_component(main, d.key@, d.components@[c].name@)),
                        )
                },
        decreases logical_decompositions@.len() - k,
    {
        let d = &logical_decompositions[k];
        let mut per_component: Vec<RiskDistribution> = Vec::new();
        let mut c: usize = 0;
        while c < d.components.len()
            invariant
                c <= d.components@.len(),
                main == record_views(main_files@),
                thresholds_fit(*thresholds),
                per_component@.len() == c,
                forall|m: int|
                    0 <= m < c ==> distribution_of(
                        #[trigger] per_component@[m],
                        d.components@[m].name@,
                        *thresholds,
                        size_pairs(files_in_component(main, d.key@, d.components@[m].name@)),
                    ),
            decreases d.components@.len() - c,
        {
            let name = d.components[c].name.as_str();
            let selected = component_files(&main_files, d.key.as_str(), name);
            let pairs = size_pairs_of(&selected);
            per_component.push(build_risk_distribution(name, thresholds, &pairs));
            c += 1;
        }
        per_decomposition.push(
            FileSizeDistributionPerLogicalDecompositionExport {
                name: copy_string(&d.key),
                file_size_distribution_per_component: per_component,
            },
        );
        k += 1;
    }
    let longest = ordered_files(&main_files, false);
    let mut with_units: Vec<FileRecord> = Vec::new();
    let mut j: usize = 0;
    while j < main_files.len()
        invariant
            j <= main_files@.len(),
            main == record_views(main_files@),
            record_views(with_units@) == files_with_units(main.take(j as int)),
        decreases main_files@.len() - j,
    {
        proof {
            assert(main.take(j + 1).drop_last() =~= main.take(j as int));
            assert(main.take(j + 1).last() == main_files@[j as int]@);
        }
        if main_files[j].units_count > 0 {
            let ghost before = record_views(with_units@);
            let c = copy_file_record(&main_files[j]);
            with_units.push(c);
            proof {
                assert(record_views(with_units@) =~= before.push(c@));
            }
        }
        j += 1;
    }
    proof {
        assert(main.take(main_files@.len() as int) =~= main);
    }
    let most_units = ordered_files(&with_units, true);
    FilesAnalysisResultsExport {
        overall_file_size_distribution: overall,
        file_size_distribution_per_extension: per_extension,
        file_size_distribution_per_logical_decomposition: per_decomposition,
        longest_files: list_files(&longest, contexts, TOP_FILES),
        files_with_most_units: list_files(&most_units, contexts, TOP_FILES),
    }
}


// ---------------------------------------------------------------------------
// Unit distributions
// ---------------------------------------------------------------------------

/// What a unit distribution measures.
#[derive(Debug, Clone, Copy, PartialEq, Eq, Structural)]
pub enum UnitDistributionKind {
    /// Lines of code.
    Size,
    /// McCabe index, weighed by lines of code.
    ConditionalComplexity,
}

pub open spec fn by_complexity(kind: UnitDistributionKind) -> bool {
    kind == UnitDistributionKind::ConditionalComplexity
}

/// Each unit as a pair of its measure and its lines of code.
pub open spec fn unit_pairs(us: Seq<UnitView>, kind: UnitDistributionKind) -> Seq<(usize, usize)> {
    us.map_values(|u: UnitView| (unit_key(u, by_complexity(kind)) as usize, u.lines_of_code as usize))
}

/// Summed lines of code of the units.
pub open spec fn unit_lines(us: Seq<UnitView>) -> nat
    decreases us.len(),
{
    if us.len() == 0 {
        0
    } else {
        unit_lines(us.drop_last()) + us.last().lines_of_code
    }
}

/// The extension of a unit's file, from its context (empty without one).
pub open spec fn unit_extension(u: UnitView, contexts: Seq<FileContext>) -> Seq<char> {
    match context_of(contexts, u.relative_file_name) {
        Some(c) => c.file.extension@,
        None => Seq::empty(),
    }
}

/// The distinct extensions of the units' files, in order of first unit.
pub open spec fn unit_extensions(us: Seq<UnitView>, contexts: Seq<FileContext>) -> Seq<Seq<char>>
    decreases us.len(),
{
    if us.len() == 0 {
        Seq::empty()
    } else {
        let prev = unit_extensions(us.drop_last(), contexts);
        let e = unit_extension(us.last(), contexts);
        if prev.contains(e) {
            prev
        } else {
            prev.push(e)
        }
    }
}

/// The units whose file has a context with extension `e`, ignoring ASCII
/// case, in order.
pub open spec fn units_with_extension(us: Seq<UnitView>, contexts: Seq<FileContext>, e: Seq<char>) -> Seq<UnitView>
    decreases us.len(),
{
    if us.len() == 0 {
        Seq::empty()
    } else {
        let prev = units_with_extension(us.drop_last(), contexts, e);
        match context_of(contexts, us.last().relative_file_name) {
            Some(c) => if lower(c.file.extension@) == lower(e) {
                prev.push(us.last())
            } else {
                prev
            },
            None => prev,
        }
    }
}

/// The units in scope labelled with component `c` of decomposition `d`, in
/// order.
pub open spec fn units_in_component(us: Seq<UnitView>, scope: PathSet, d: Seq<char>, c: Seq<char>) -> Seq<UnitView>
    decreases us.len(),
{
    if us.len() == 0 {
        Seq::empty()
    } else if scope.has(us.last().relative_file_name) && us.last().components.contains(component_label(d, c)) {
        units_in_component(us.drop_last(), scope, d, c).push(us.last())
    } else {
        units_in_component(us.drop_last(), scope, d, c)
    }
}

fn unit_pairs_of(units: &Vec<Unit>, kind: UnitDistributionKind) -> (r: Vec<(usize, usize)>)
    ensures
        r@ == unit_pairs(unit_views(units@), kind),
{
    let mut r: Vec<(usize, usize)> = Vec::new();
    let mut i: usize = 0;
    while i < units.len()
        invariant
            i <= units@.len(),
            r@ =~= unit_pairs(unit_views(units@.take(i as int)), kind),
        decreases units@.len() - i,
    {
        proof {
            assert(unit_views(units@.take(i + 1)) =~= unit_views(units@.take(i as int)).push(units@[i as int]@));
        }
        let measure = match kind {
            UnitDistributionKind::Size => units[i].lines_of_code,
            UnitDistributionKind::ConditionalComplexity => units[i].mc_cabe_index,
        };
        r.push((measure, units[i].lines_of_code));
        i += 1;
    }
    proof {
        assert(units@.take(units@.len() as int) =~= units@);
    }
    r
}

fn unit_extension_of(unit: &Unit, contexts: &Vec<FileContext>) -> (r: String)
    requires
        contexts_wf(contexts@),
    ensures
        r@ == unit_extension(unit@, contexts@),
{
    match find_context(contexts, unit.relative_file_name.as_str()) {
        Some(pos) => copy_string(&contexts[pos].file.extension),
        None => String::new(),
    }
}

/// The unit distributions per extension of the units' files, in order of
/// first unit.
pub fn build_unit_distributions_per_extension(
    units: &Vec<Unit>,
    contexts: &Vec<FileContext>,
    thresholds: &ThresholdsConfig,
    kind: UnitDistributionKind,
) -> (r: Vec<RiskDistribution>)
    requires
        contexts_wf(contexts@),
        thresholds_fit(*thresholds),
    ensures
        r@.len() == unit_extensions(unit_views(units@), contexts@).len(),
        forall|k: int|
            0 <= k < r@.len() ==> {
                let e = unit_extensions(unit_views(units@), contexts@)[k];
                distribution_of(
                    #[trigger] r@[k],
                    e,
                    *thresholds,
                    unit_pairs(units_with_extension(unit_views(units@), contexts@, e), kind),
                )
            },
{
    let ghost us = unit_views(units@);
    let mut extensions: Vec<String> = Vec::new();
    let mut i: usize = 0;
    while i < units.len()
        invariant
            i <= units@.len(),
            us == unit_views(units@),
            contexts_wf(contexts@),
            views(extensions@) == unit_extensions(us.take(i as int), contexts@),
        decreases units@.len() - i,
    {
        proof {
            assert(us.take(i + 1).drop_last() =~= us.take(i as int));
            assert(us.take(i + 1).last() == units@[i as int]@);
        }
        let e = unit_extension_of(&units[i], contexts);
        if !crate::text::contains_string(&extensions, &e) {
            let ghost before = views(extensions@);
            extensions.push(e);
            proof {
                assert(views(extensions@) =~= before.push(e@));
            }
        }
        i += 1;
    }
    proof {
        assert(us.take(units@.len() as int) =~= us);
    }
    let mut r: Vec<RiskDistribution> = Vec::new();
    let mut k: usize = 0;
    while k < extensions.len()
        invariant
            k <= extensions@.len(),
            us == unit_views(units@),
            contexts_wf(contexts@),
            thresholds_fit(*thresholds),
            views(extensions@) == unit_extensions(us, contexts@),
            r@.len() == k,
            forall|m: int|
                0 <= m < k ==> distribution_of(
                    #[trigger] r@[m],
                    unit_extensions(us, contexts@)[m],
                    *thresholds,
                    unit_pairs(units_with_extension(us, contexts@, unit_extensions(us, contexts@)[m]), kind),
                ),
        decreases extensions@.len() - k,
    {
        let e = &extensions[k];
        proof {
            assert(views(extensions@)[k as int] == e@);
        }
        let e_lower = to_lower(e.as_str());
        let mut selected: Vec<Unit> = Vec::new();
        let mut j: usize = 0;
        while j < units.len()
            invariant
                j <= units@.len(),
                us == unit_views(units@),
                contexts_wf(contexts@),
                e_lower@ == lower(e@),
                unit_views(selected@) == units_with_extension(us.take(j as int), contexts@, e@),
            decreases units@.len() - j,
        {
            proof {
                assert(us.take(j + 1).drop_last() =~= us.take(j as int));
                assert(us.take(j + 1).last() == units@[j as int]@);
            }
            match find_context(contexts, units[j].relative_file_name.as_str()) {
                Some(pos) => {
                    let ext_lower = to_lower(contexts[pos].file.extension.as_str());
                    if str_eq(ext_lower.as_str(), e_lower.as_str()) {
                        let ghost before = unit_views(selected@);
                        let u = copy_unit(&units[j]);
                        selected.push(u);
                        proof {
                            assert(unit_views(selected@) =~= before.push(u@));
                        }
                    }
                },
                None => {},
            }
            j += 1;
        }
        proof {
            assert(us.take(units@.len() as int) =~= us);
        }
        let pairs = unit_pairs_of(&selected, kind);
        r.push(build_risk_distribution(e.as_str(), thresholds, &pairs));
        k += 1;
    }
    r
}

/// `r` holds, per decomposition, the unit distributions of its components
/// over the decomposition's scope.
pub open spec fn unit_component_distributions_of(
    r: Seq<Vec<RiskDistribution>>,
    us: Seq<UnitView>,
    scopes: ScopeFiles,
    t: ThresholdsConfig,
    decompositions: Seq<LogicalDecompositionExport>,
    kind: UnitDistributionKind,
) -> bool {
    &&& r.len() == decompositions.len()
    &&& forall|k: int|
        0 <= k < r.len() ==> {
            let d = decompositions[k];
            let scope = named_scope(scopes, d.logical_decomposition.scope@);
            &&& (#[trigger] r[k])@.len() == d.components@.len()
            &&& forall|c: int|
                0 <= c < d.components@.len() ==> distribution_of(
                    #[trigger] r[k]@[c],
                    d.components@[c].name@,
                    t,
                    unit_pairs(units_in_component(us, scope, d.key@, d.components@[c].name@), kind),
                )
        }
}

/// Per decomposition, the unit distributions of its components.
pub fn build_unit_distributions_per_component(
    units: &Vec<Unit>,
    scopes: &ScopeFiles,
    thresholds: &ThresholdsConfig,
    logical_decompositions: &Vec<LogicalDecompositionExport>,
    kind: UnitDistributionKind,
) -> (r: Vec<Vec<RiskDistribution>>)
    requires
        scopes.wf(),
        thresholds_fit(*thresholds),
    ensures
        unit_component_distributions_of(r@, unit_views(units@), *scopes, *thresholds, logical_decompositions@, kind),
{
    let ghost us = unit_views(units@);
    let mut r: Vec<Vec<RiskDistribution>> = Vec::new();
    let mut k: usize = 0;
    while k < logical_decompositions.len()
        invariant
            k <= logical_decompositions@.len(),
            us == unit_views(units@),
            scopes.wf(),
            thresholds_fit(*thresholds),
            unit_component_distributions_of(r@, us, *scopes, *thresholds, logical_decompositions@.take(k as int), kind),
        decreases logical_decompositions@.len() - k,
    {
        let d = &logical_decompositions[k];
        let scope = scope_paths(scopes, d.logical_decomposition.scope.as_str());
        let mut per_component: Vec<RiskDistribution> = Vec::new();
        let mut c: usize = 0;
        while c < d.components.len()
            invariant
                c <= d.components@.len(),
                us == unit_views(units@),
                scope.wf(),
                thresholds_fit(*thresholds),
                per_component@.len() == c,
                forall|m: int|
                    0 <= m < c ==> distribution_of(
                        #[trigger] per_component@[m],
                        d.components@[m].name@,
                        *thresholds,
                        unit_pairs(units_in_component(us, *scope, d.key@, d.components@[m].name@), kind),
                    ),
            decreases d.components@.len() - c,
        {
            let name = d.components[c].name.as_str();
            let mut selected: Vec<Unit> = Vec::new();
            let mut j: usize = 0;
            while j < units.len()
                invariant
                    j <= units@.len(),
                    us == unit_views(units@),
                    scope.wf(),
                    unit_views(selected@) == units_in_component(us.take(j as int), *scope, d.key@, name@),
                decreases units@.len() - j,
            {
                proof {
                    assert(us.take(j + 1).drop_last() =~= us.take(j as int));
                    assert(us.take(j + 1).last() == units@[j as int]@);
                }
                if scope.contains(units[j].relative_file_name.as_str()) && unit_has_component(
                    &units[j],
                    d.key.as_str(),
                    name,
                ) {
                    let ghost before = unit_views(selected@);
                    let u = copy_unit(&units[j]);
                    selected.push(u);
                    proof {
                        assert(unit_views(selected@) =~= before.push(u@));
                    }
                }
                j += 1;
            }
            proof {
                assert(us.take(units@.len() as int) =~= us);
            }
            let pairs = unit_pairs_of(&selected, kind);
            per_component.push(build_risk_distribution(name, thresholds, &pairs));
            c += 1;
        }
        let ghost prev = r@;
        r.push(per_component);
        proof {
            let ds = logical_decompositions@.take(k + 1);
            assert(ds.take(k as int) =~= logical_decompositions@.take(k as int));
            assert forall|m: int| 0 <= m < r@.len() implies {
                let d = ds[m];
                let sc = named_scope(*scopes, d.logical_decomposition.scope@);
                &&& (#[trigger] r@[m])@.len() == d.components@.len()
                &&& forall|c: int|
                    0 <= c < d.components@.len() ==> distribution_of(
                        #[trigger] r@[m]@[c],
                        d.components@[c].name@,
                        *thresholds,
                        unit_pairs(units_in_component(us, sc, d.key@, d.components@[c].name@), kind),
                    )
            } by {
                if m < k {
                    assert(r@[m] == prev[m]);
                    assert(ds[m] == logical_decompositions@.take(k as int)[m]);
                }
            }
        }
        k += 1;
    }
    proof {
        assert(logical_decompositions@.take(logical_decompositions@.len() as int) =~= logical_decompositions@);
    }
    r
}

/// The analysis of the main units.
#[derive(Debug, Clone, PartialEq, Eq)]
pub struct UnitsAnalysisResultsExport {
    pub total_number_of_units: usize,
    pub lines_of_code_in_units: usize,
    pub unit_size_risk_distribution: RiskDistribution,
    pub conditional_complexity_risk_distribution: RiskDistribution,
    pub unit_size_risk_distribution_per_extension: Vec<RiskDistribution>,
    pub unit_size_risk_distribution_per_component: Vec<Vec<RiskDistribution>>,
    pub longest_units: Vec<UnitAnalysisExport>,
    pub conditional_complexity_risk_distribution_per_extension: Vec<RiskDistribution>,
    pub conditional_complexity_risk_distribution_per_component: Vec<Vec<RiskDistribution>>,
    pub most_complex_units: Vec<UnitAnalysisExport>,
}

/// `s` lists the units `us` with their files.
pub open spec fn unit_listing_of(s: Seq<UnitAnalysisExport>, us: Seq<UnitView>, contexts: Seq<FileContext>) -> bool {
    &&& s.len() == us.len()
    &&& forall|k: int| 0 <= k < s.len() ==> unit_analysis_of(#[trigger] s[k], us[k], contexts)
}

fn list_units(units: &Vec<Unit>, contexts: &Vec<FileContext>, limit: usize) -> (r: Vec<UnitAnalysisExport>)
    requires
        contexts_wf(contexts@),
    ensures
        unit_listing_of(r@, first_n(unit_views(units@), limit as nat), contexts@),
{
    let n = if limit < units.len() {
        limit
    } else {
        units.len()
    };
    let mut r: Vec<UnitAnalysisExport> = Vec::new();
    let mut i: usize = 0;
    while i < n
        invariant
            i <= n,
            n <= units@.len(),
            n == first_n(unit_views(units@), limit as nat).len(),
            contexts_wf(contexts@),
            r@.len() == i,
            forall|k: int| 0 <= k < i ==> unit_analysis_of(#[trigger] r@[k], units@[k]@, contexts@),
        decreases n - i,
    {
        r.push(build_unit_analysis_export(&units[i], contexts));
        i += 1;
    }
    proof {
        assert forall|k: int| 0 <= k < r@.len() implies unit_analysis_of(
            #[trigger] r@[k],
            first_n(unit_views(units@), limit as nat)[k],
            contexts@,
        ) by {
            assert(first_n(unit_views(units@), limit as nat)[k] == units@[k]@);
        }
    }
    r
}

/// `r` analyses the main units `us`.
pub open spec fn units_analysis_of(
    r: UnitsAnalysisResultsExport,
    us: Seq<UnitView>,
    contexts: Seq<FileContext>,
    scopes: ScopeFiles,
    config: SokratesConfig,
    decompositions: Seq<LogicalDecompositionExport>,
) -> bool {
    let size = config.analysis.unit_size_thresholds;
    let complexity = config.analysis.conditional_complexity_thresholds;
    let top = config.analysis.max_top_list_size as nat;
    &&& r.total_number_of_units == us.len()
    &&& r.lines_of_code_in_units == capped(unit_lines(us))
    &&& distribution_of(r.unit_size_risk_distribution, Seq::empty(), size, unit_pairs(us, UnitDistributionKind::Size))
    &&& distribution_of(
        r.conditional_complexity_risk_distribution,
        Seq::empty(),
        complexity,
        unit_pairs(us, UnitDistributionKind::ConditionalComplexity),
    )
    &&& r.unit_size_risk_distribution_per_extension@.len() == unit_extensions(us, contexts).len()
    &&& forall|k: int|
        0 <= k < r.unit_size_risk_distribution_per_extension@.len() ==> distribution_of(
            #[trigger] r.unit_size_risk_distribution_per_extension@[k],
            unit_extensions(us, contexts)[k],
            size,
            unit_pairs(units_with_extension(us, contexts, unit_extensions(us, contexts)[k]), UnitDistributionKind::Size),
        )
    &&& r.conditional_complexity_risk_distribution_per_extension@.len() == unit_extensions(us, contexts).len()
    &&& forall|k: int|
        0 <= k < r.conditional_complexity_risk_distribution_per_extension@.len() ==> distribution_of(
            #[trigger] r.conditional_complexity_risk_distribution_per_extension@[k],
            unit_extensions(us, contexts)[k],
            complexity,
            unit_pairs(
                units_with_extension(us, contexts, unit_extensions(us, contexts)[k]),
                UnitDistributionKind::ConditionalComplexity,
            ),
        )
    &&& unit_component_distributions_of(
        r.unit_size_risk_distribution_per_component@,
        us,
        scopes,
        size,
        decompositions,
        UnitDistributionKind::Size,
    )
    &&& unit_component_distributions_of(
        r.conditional_complexity_risk_distribution_per_component@,
        us,
        scopes,
        complexity,
        decompositions,
        UnitDistributionKind::ConditionalComplexity,
    )
    &&& unit_listing_of(r.longest_units@, first_n(ranked_units(us, false), top), contexts)
    &&& unit_listing_of(r.most_complex_units@, first_n(ranked_units(us, true), top), contexts)
}

/// The analysis of the main units: their number and lines, size and
/// complexity distributions overall, per extension and per component, and
/// the longest and most complex units (as many as the configured top list
/// size).
pub fn build_units_analysis_results(
    _files: &Vec<FileRecord>,
    contexts: &Vec<FileContext>,
    scopes: &ScopeFiles,
    config: &SokratesConfig,
    logical_decompositions: &Vec<LogicalDecompositionExport>,
    main_units: &Vec<Unit>,
) -> (r: UnitsAnalysisResultsExport)
    requires
        contexts_wf(contexts@),
        scopes.wf(),
        thresholds_fit(config.analysis.unit_size_thresholds),
        thresholds_fit(config.analysis.conditional_complexity_thresholds),
    ensures
        units_analysis_of(r, unit_views(main_units@), contexts@, *scopes, *config, logical_decompositions@),
{
    let ghost us = unit_views(main_units@);
    let size = &config.analysis.unit_size_thresholds;
    let complexity = &config.analysis.conditional_complexity_thresholds;
    let mut lines: usize = 0;
    let mut i: usize = 0;
    while i < main_units.len()
        invariant
            i <= main_units@.len(),
            us == unit_views(main_units@),
            lines == capped(unit_lines(us.take(i as int))),
        decreases main_units@.len() - i,
    {
        proof {
            assert(us.take(i + 1).drop_last() =~= us.take(i as int));
            assert(us.take(i + 1).last() == main_units@[i as int]@);
        }
        lines = lines.saturating_add(main_units[i].lines_of_code);
        i += 1;
    }
    proof {
        assert(us.take(main_units@.len() as int) =~= us);
    }
    let size_pairs = unit_pairs_of(main_units, UnitDistributionKind::Size);
    let complexity_pairs = unit_pairs_of(main_units, UnitDistributionKind::ConditionalComplexity);
    let size_distribution = build_risk_distribution("", size, &size_pairs);
    let complexity_distribution = build_risk_distribution("", complexity, &complexity_pairs);
    proof {
        reveal_strlit("");
        assert(size_distribution.key@ =~= Seq::<char>::empty());
        assert(complexity_distribution.key@ =~= Seq::<char>::empty());
    }
    let size_per_extension = build_unit_distributions_per_extension(main_units, contexts, size, UnitDistributionKind::Size);
    let size_per_component = build_unit_distributions_per_component(
        main_units,
        scopes,
        size,
        logical_decompositions,
        UnitDistributionKind::Size,
    );
    let complexity_per_extension = build_unit_distributions_per_extension(
        main_units,
        contexts,
        complexity,
        UnitDistributionKind::ConditionalComplexity,
    );
    let complexity_per_component = build_unit_distributions_per_component(
        main_units,
        scopes,
        complexity,
        logical_decompositions,
        UnitDistributionKind::ConditionalComplexity,
    );
    let by_length = ordered_units_by_length(main_units);
    let by_complexity = ordered_units_by_complexity(main_units);
    let top = config.analysis.max_top_list_size;
    UnitsAnalysisResultsExport {
        total_number_of_units: main_units.len(),
        lines_of_code_in_units: lines,
        unit_size_risk_distribution: size_distribution,
        conditional_complexity_risk_distribution: complexity_distribution,
        unit_size_risk_distribution_per_extension: size_per_extension,
        unit_size_risk_distribution_per_component: size_per_component,
        longest_units: list_units(&by_length, contexts, top),
        conditional_complexity_risk_distribution_per_extension: complexity_per_extension,
        conditional_complexity_risk_distribution_per_component: complexity_per_component,
        most_complex_units: list_units(&by_complexity, contexts, top),
    }
}

} // verus!
