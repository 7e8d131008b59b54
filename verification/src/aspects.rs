//! Aspect summaries: number of files, lines of code, and the same per file
//! extension, for scopes, concerns and components.
use vstd::prelude::*;

use crate::concerns::capped;
use crate::components::{component_in, component_names, component_set, split_label_once};
use crate::concerns::{ConcernGroupMatch, ConcernMatch};
use crate::export::{context_of, find_context, records_in, selected_file_records, selected_records};
use crate::ir::{copy_file_record, record_views, FileRecord, FileRecordView};
use crate::scopes::{contexts_wf, FileContext};
use crate::pathset::{str_eq, strictly_sorted, PathSet};
use crate::text::{copy_string, lemma_text_lt_irreflexive, lower, push_str, text_lt, to_lower, views};

verus! {

/// A named number, as the exports list metrics per extension, component or
/// concern.
#[derive(Debug, Clone, PartialEq, Eq)]
pub struct NumericMetricExport {
    pub name: String,
    pub value: usize,
    pub description: Vec<String>,
}

/// What a metric per extension measures.
#[derive(Debug, Clone, Copy, PartialEq, Eq, Structural)]
pub enum ExtensionMeasure {
    /// The number of files.
    FileCount,
    /// The summed lines of code.
    LinesOfCode,
}

/// The extension a file is grouped by: its extension in lower case.
pub open spec fn ext_key(f: FileRecordView) -> Seq<char> {
    lower(f.extension)
}

/// Number of files with extension `e`.
pub open spec fn ext_files(fs: Seq<FileRecordView>, e: Seq<char>) -> nat
    decreases fs.len(),
{
    if fs.len() == 0 {
        0
    } else {
        ext_files(fs.drop_last(), e) + if ext_key(fs.last()) == e {
            1nat
        } else {
            0nat
        }
    }
}

/// Summed lines of code of the files with extension `e`.
pub open spec fn ext_lines(fs: Seq<FileRecordView>, e: Seq<char>) -> nat
    decreases fs.len(),
{
    if fs.len() == 0 {
        0
    } else {
        ext_lines(fs.drop_last(), e) + if ext_key(fs.last()) == e {
            fs.last().lines_of_code
        } else {
            0nat
        }
    }
}

/// The measure of the files with extension `e`; lines capped at
/// `usize::MAX`.
pub open spec fn measured(fs: Seq<FileRecordView>, e: Seq<char>, m: ExtensionMeasure) -> nat {
    match m {
        ExtensionMeasure::FileCount => ext_files(fs, e),
        ExtensionMeasure::LinesOfCode => capped(ext_lines(fs, e)),
    }
}

/// The name of the metric of extension `e`.
pub open spec fn extension_label(e: Seq<char>) -> Seq<char> {
    "  *."@ + e
}

/// Some file has extension `e`.
pub open spec fn has_ext(fs: Seq<FileRecordView>, e: Seq<char>) -> bool {
    exists|k: int| 0 <= k < fs.len() && ext_key(#[trigger] fs[k]) == e
}

/// `r` holds one metric per extension of the files, named by
/// `extension_label`, ordered by decreasing value and then by extension.
pub open spec fn extension_metrics_of(r: Seq<NumericMetricExport>, fs: Seq<FileRecordView>, m: ExtensionMeasure) -> bool {
    exists|es: Seq<Seq<char>>|
        {
            &&& es.len() == r.len()
            &&& forall|k: int|
                0 <= k < r.len() ==> (#[trigger] r[k]).name@ == extension_label(es[k]) && r[k].value == measured(
                    fs,
                    es[k],
                    m,
                ) && r[k].description@.len() == 0 && has_ext(fs, es[k])
            &&& forall|e: Seq<char>| has_ext(fs, e) ==> #[trigger] es.contains(e)
            &&& forall|i: int, j: int| 0 <= i < j < es.len() ==> #[trigger] es[i] != #[trigger] es[j]
            &&& forall|i: int, j: int|
                0 <= i < j < r.len() ==> (#[trigger] r[i]).value > (#[trigger] r[j]).value || (r[i].value
                    == r[j].value && text_lt(es[i], es[j]))
        }
}

/// The extensions of the files, in order.
fn extension_set(files: &Vec<FileRecord>) -> (r: PathSet)
    ensures
        r.wf(),
        forall|e: Seq<char>| #[trigger] r.has(e) <==> has_ext(record_views(files@), e),
{
    let ghost fs = record_views(files@);
    let mut r = PathSet::new();
    let mut i: usize = 0;
    while i < files.len()
        invariant
            i <= files@.len(),
            fs == record_views(files@),
            r.wf(),
            forall|e: Seq<char>| #[trigger] r.has(e) <==> has_ext(fs.take(i as int), e),
        decreases files@.len() - i,
    {
        let e = to_lower(files[i].extension.as_str());
        let ghost before = r.members().to_set();
        let ghost old_r = r;
        r.insert(e.as_str());
        proof {
            assert forall|x: Seq<char>| #[trigger] r.has(x) <==> has_ext(fs.take(i + 1), x) by {
                assert(r.members().to_set().contains(x) == r.has(x));
                assert(old_r.has(x) == has_ext(fs.take(i as int), x));
                assert(before.contains(x) == old_r.has(x));
                if has_ext(fs.take(i + 1), x) {
                    let k = choose|k: int| 0 <= k < i + 1 && ext_key(#[trigger] fs.take(i + 1)[k]) == x;
                    if k < i {
                        assert(fs.take(i as int)[k] == fs.take(i + 1)[k]);
                    }
                }
                if has_ext(fs.take(i as int), x) {
                    let k = choose|k: int| 0 <= k < i && ext_key(#[trigger] fs.take(i as int)[k]) == x;
                    assert(fs.take(i + 1)[k] == fs.take(i as int)[k]);
                }
                if x == e@ {
                    assert(ext_key(fs.take(i + 1)[i as int]) == x);
                }
            }
        }
        i += 1;
    }
    proof {
        assert(fs.take(files@.len() as int) =~= fs);
    }
    r
}

/// The measure of the files with extension `e`.
fn measure_extension(files: &Vec<FileRecord>, e: &str, m: ExtensionMeasure) -> (n: usize)
    ensures
        n == measured(record_views(files@), e@, m),
{
    let ghost fs = record_views(files@);
    let mut count: usize = 0;
    let mut lines: usize = 0;
    let mut i: usize = 0;
    while i < files.len()
        invariant
            i <= files@.len(),
            fs == record_views(files@),
            count == ext_files(fs.take(i as int), e@),
            count <= i,
            lines == capped(ext_lines(fs.take(i as int), e@)),
        decreases files@.len() - i,
    {
        proof {
            assert(fs.take(i + 1).drop_last() =~= fs.take(i as int));
            assert(fs.take(i + 1).last() == files@[i as int]@);
        }
        let key = to_lower(files[i].extension.as_str());
        if crate::pathset::str_eq(key.as_str(), e) {
            count += 1;
            lines = lines.saturating_add(files[i].lines_of_code);
        }
        i += 1;
    }
    proof {
        assert(fs.take(files@.len() as int) =~= fs);
    }
    match m {
        ExtensionMeasure::FileCount => count,
        ExtensionMeasure::LinesOfCode => lines,
    }
}

/// One metric per extension of the files (compared in lower case), named
/// `  *.` and the extension, valued by `measure`, ordered by decreasing
/// value and then by extension.
pub fn extension_metrics(files: &Vec<FileRecord>, measure: ExtensionMeasure) -> (r: Vec<NumericMetricExport>)
    ensures
        extension_metrics_of(r@, record_views(files@), measure),
{
    let ghost fs = record_views(files@);
    let exts = extension_set(files);
    let ghost keys = exts.members();
    let mut r: Vec<NumericMetricExport> = Vec::new();
    let ghost mut es: Seq<Seq<char>> = Seq::empty();
    let mut k: usize = 0;
    while k < exts.items.len()
        invariant
            k <= keys.len(),
            keys == exts.members(),
            exts.wf(),
            fs == record_views(files@),
            forall|e: Seq<char>| #[trigger] exts.has(e) <==> has_ext(fs, e),
            es.len() == r@.len(),
            es.len() == k,
            es.to_set() == keys.take(k as int).to_set(),
            forall|m: int|
                0 <= m < r@.len() ==> (#[trigger] r@[m]).name@ == extension_label(es[m]) && r@[m].value == measured(
                    fs,
                    es[m],
                    measure,
                ) && r@[m].description@.len() == 0 && has_ext(fs, es[m]),
            forall|i: int, j: int| 0 <= i < j < es.len() ==> #[trigger] es[i] != #[trigger] es[j],
            forall|i: int, j: int|
                0 <= i < j < r@.len() ==> (#[trigger] r@[i]).value > (#[trigger] r@[j]).value || (r@[i].value
                    == r@[j].value && text_lt(es[i], es[j])),
        decreases keys.len() - k,
    {
        let e = exts.items[k].as_str();
        proof {
            assert(keys[k as int] == e@);
            assert(exts.has(e@));
            assert forall|m: int| 0 <= m < es.len() implies text_lt(#[trigger] es[m], e@) by {
                assert(es.to_set().contains(es[m]));
                assert(keys.take(k as int).to_set().contains(es[m]));
                let j = choose|j: int| 0 <= j < k && keys.take(k as int)[j] == es[m];
                assert(keys[j] == es[m]);
            }
        }
        let value = measure_extension(files, e, measure);
        let mut name = String::new();
        push_str(&mut name, "  *.");
        push_str(&mut name, e);
        let metric = NumericMetricExport { name, value, description: Vec::new() };
        let mut p: usize = 0;
        while p < r.len() && r[p].value >= value
            invariant
                p <= r@.len(),
                forall|m: int| 0 <= m < p ==> (#[trigger] r@[m]).value >= value,
            decreases r@.len() - p,
        {
            p += 1;
        }
        proof {
            assert(p < r@.len() ==> r@[p as int].value < value);
            assert forall|m: int| p <= m < r@.len() implies (#[trigger] r@[m]).value < value by {
                if m > p {
                    assert(r@[p as int].value > r@[m].value || (r@[p as int].value == r@[m].value && text_lt(
                        es[p as int],
                        es[m],
                    )));
                }
            }
        }
        let ghost prev_r = r@;
        let ghost prev_es = es;
        r.insert(p, metric);
        proof {
            es = es.insert(p as int, e@);
            assert(es.to_set() =~= keys.take(k + 1).to_set()) by {
                assert(keys.take(k + 1) =~= keys.take(k as int).push(e@));
                keys.take(k as int).lemma_push_to_set_commute(e@);
                assert forall|x: Seq<char>| es.to_set().contains(x) <==> prev_es.to_set().insert(e@).contains(x) by {
                    if es.to_set().contains(x) {
                        let j = choose|j: int| 0 <= j < es.len() && es[j] == x;
                        if j < p {
                            assert(prev_es[j] == x);
                        } else if j > p {
                            assert(prev_es[j - 1] == x);
                        }
                    }
                    if x == e@ {
                        assert(es[p as int] == x);
                    }
                    if prev_es.to_set().contains(x) && x != e@ {
                        let j = choose|j: int| 0 <= j < prev_es.len() && prev_es[j] == x;
                        if j < p {
                            assert(es[j] == x);
                        } else {
                            assert(es[j + 1] == x);
                        }
                    }
                }
            }
            assert forall|i: int, j: int| 0 <= i < j < es.len() implies #[trigger] es[i] != #[trigger] es[j] by {
                if i == p {
                    lemma_text_lt_irreflexive(e@);
                    assert(text_lt(prev_es[j - 1], e@));
                } else if j == p {
                    lemma_text_lt_irreflexive(e@);
                    assert(text_lt(prev_es[i], e@));
                } else {
                    let pi = if i < p { i } else { i - 1 };
                    let pj = if j < p { j } else { j - 1 };
                    assert(prev_es[pi] != prev_es[pj]);
                }
            }
            assert forall|i: int, j: int|
                0 <= i < j < r@.len() implies (#[trigger] r@[i]).value > (#[trigger] r@[j]).value || (r@[i].value
                == r@[j].value && text_lt(es[i], es[j])) by {
                if i == p {
                    assert(r@[j] == prev_r[j - 1]);
                } else if j == p {
                    assert(r@[i] == prev_r[i]);
                    assert(text_lt(prev_es[i], e@));
                } else {
                    let pi = if i < p { i } else { i - 1 };
                    let pj = if j < p { j } else { j - 1 };
                    assert(r@[i] == prev_r[pi]);
                    assert(r@[j] == prev_r[pj]);
                    assert(es[i] == prev_es[pi]);
                    assert(es[j] == prev_es[pj]);
                }
            }
            assert forall|m: int|
                0 <= m < r@.len() implies (#[trigger] r@[m]).name@ == extension_label(es[m]) && r@[m].value == measured(
                    fs,
                    es[m],
                    measure,
                ) && r@[m].description@.len() == 0 && has_ext(fs, es[m]) by {
                if m < p {
                    assert(r@[m] == prev_r[m]);
                } else if m > p {
                    assert(r@[m] == prev_r[m - 1]);
                }
            }
        }
        k += 1;
    }
    proof {
        assert(keys.take(keys.len() as int) =~= keys);
        assert forall|e: Seq<char>| has_ext(fs, e) implies #[trigger] es.contains(e) by {
            assert(exts.has(e));
            assert(keys.to_set().contains(e));
            assert(es.to_set().contains(e));
        }
    }
    r
}


// ---------------------------------------------------------------------------
// Aspect summaries
// ---------------------------------------------------------------------------

/// Summed lines of code.
pub open spec fn total_lines(fs: Seq<FileRecordView>) -> nat
    decreases fs.len(),
{
    if fs.len() == 0 {
        0
    } else {
        total_lines(fs.drop_last()) + fs.last().lines_of_code
    }
}

/// Summed lines of code of the files, capped at `usize::MAX`.
pub fn sum_lines(files: &Vec<FileRecord>) -> (n: usize)
    ensures
        n == capped(total_lines(record_views(files@))),
{
    let ghost fs = record_views(files@);
    let mut n: usize = 0;
    let mut i: usize = 0;
    while i < files.len()
        invariant
            i <= files@.len(),
            fs == record_views(files@),
            n == capped(total_lines(fs.take(i as int))),
        decreases files@.len() - i,
    {
        proof {
            assert(fs.take(i + 1).drop_last() =~= fs.take(i as int));
            assert(fs.take(i + 1).last() == files@[i as int]@);
        }
        n = n.saturating_add(files[i].lines_of_code);
        i += 1;
    }
    proof {
        assert(fs.take(files@.len() as int) =~= fs);
    }
    n
}

/// The summary of a scope or concern.
#[derive(Debug, Clone, PartialEq, Eq)]
pub struct AnalysisAspectExport {
    pub name: Option<String>,
    pub files_count: usize,
    pub lines_of_code: usize,
    pub number_of_regex_line_matches: usize,
    pub file_count_per_extension: Vec<NumericMetricExport>,
    pub lines_of_code_per_extension: Vec<NumericMetricExport>,
}

/// The measures of `a` are those of the files `fs`.
pub open spec fn aspect_measures_of(
    files_count: usize,
    lines_of_code: usize,
    file_count_per_extension: Seq<NumericMetricExport>,
    lines_of_code_per_extension: Seq<NumericMetricExport>,
    fs: Seq<FileRecordView>,
) -> bool {
    &&& files_count == fs.len()
    &&& lines_of_code == capped(total_lines(fs))
    &&& extension_metrics_of(file_count_per_extension, fs, ExtensionMeasure::FileCount)
    &&& extension_metrics_of(lines_of_code_per_extension, fs, ExtensionMeasure::LinesOfCode)
}

/// `a` summarises the files `fs` under `name`, with `matches` matched lines.
pub open spec fn aspect_result_of(a: AnalysisAspectExport, fs: Seq<FileRecordView>, name: Option<String>, matches: nat) -> bool {
    &&& a.name == name
    &&& a.number_of_regex_line_matches == matches
    &&& aspect_measures_of(
        a.files_count,
        a.lines_of_code,
        a.file_count_per_extension@,
        a.lines_of_code_per_extension@,
        fs,
    )
}

fn summarise(records: &Vec<FileRecord>, name: Option<String>, matches: usize) -> (r: AnalysisAspectExport)
    ensures
        aspect_result_of(r, record_views(records@), name, matches as nat),
{
    AnalysisAspectExport {
        name,
        files_count: records.len(),
        lines_of_code: sum_lines(records),
        number_of_regex_line_matches: matches,
        file_count_per_extension: extension_metrics(records, ExtensionMeasure::FileCount),
        lines_of_code_per_extension: extension_metrics(records, ExtensionMeasure::LinesOfCode),
    }
}

/// The summary of the selected files (those with a context, as their
/// contexts record them).
pub fn build_aspect_analysis_result(
    files: &Vec<FileRecord>,
    contexts: &Vec<FileContext>,
    selected: &PathSet,
    name: Option<String>,
    number_of_regex_line_matches: usize,
) -> (r: AnalysisAspectExport)
    requires
        contexts_wf(contexts@),
        selected.wf(),
    ensures
        aspect_result_of(r, selected_records(files@, contexts@, *selected), name, number_of_regex_line_matches as nat),
{
    let records = selected_file_records(files, contexts, selected);
    summarise(&records, name, number_of_regex_line_matches)
}

/// The summary of the files a concern claims, as the analysis records them.
pub fn build_aspect_analysis_result_from_paths(files: &Vec<FileRecord>, concern: &ConcernMatch) -> (r:
    AnalysisAspectExport)
    requires
        concern.paths.wf(),
    ensures
        aspect_result_of(
            r,
            records_in(record_views(files@), concern.paths),
            Some(concern.name),
            concern.number_of_regex_line_matches as nat,
        ),
{
    let ghost fs = record_views(files@);
    let mut records: Vec<FileRecord> = Vec::new();
    let mut i: usize = 0;
    while i < files.len()
        invariant
            i <= files@.len(),
            fs == record_views(files@),
            concern.paths.wf(),
            record_views(records@) == records_in(fs.take(i as int), concern.paths),
        decreases files@.len() - i,
    {
        proof {
            assert(fs.take(i + 1).drop_last() =~= fs.take(i as int));
            assert(fs.take(i + 1).last() == files@[i as int]@);
        }
        let ghost before = records@;
        if concern.paths.contains(files[i].relative_path.as_str()) {
            let f = copy_file_record(&files[i]);
            records.push(f);
            proof {
                assert(record_views(records@) =~= record_views(before).push(f@));
            }
        }
        i += 1;
    }
    proof {
        assert(fs.take(files@.len() as int) =~= fs);
    }
    summarise(&records, Some(concern.name.clone()), concern.number_of_regex_line_matches)
}

/// The largest number of files among the aspects (0 for none).
pub open spec fn max_files(aspects: Seq<AnalysisAspectExport>) -> nat
    decreases aspects.len(),
{
    if aspects.len() == 0 {
        0
    } else {
        let m = max_files(aspects.drop_last());
        if aspects.last().files_count > m {
            aspects.last().files_count as nat
        } else {
            m
        }
    }
}

/// The most lines of code among the aspects (0 for none).
pub open spec fn max_lines(aspects: Seq<AnalysisAspectExport>) -> nat
    decreases aspects.len(),
{
    if aspects.len() == 0 {
        0
    } else {
        let m = max_lines(aspects.drop_last());
        if aspects.last().lines_of_code > m {
            aspects.last().lines_of_code as nat
        } else {
            m
        }
    }
}

/// The largest number of files of the aspects.
pub fn max_aspect_file_count(aspects: &[AnalysisAspectExport]) -> (r: usize)
    ensures
        r == max_files(aspects@),
{
    let mut m: usize = 0;
    let mut i: usize = 0;
    while i < aspects.len()
        invariant
            i <= aspects@.len(),
            m == max_files(aspects@.take(i as int)),
        decreases aspects@.len() - i,
    {
        proof {
            assert(aspects@.take(i + 1).drop_last() =~= aspects@.take(i as int));
            assert(aspects@.take(i + 1).last() == aspects@[i as int]);
        }
        if aspects[i].files_count > m {
            m = aspects[i].files_count;
        }
        i += 1;
    }
    proof {
        assert(aspects@.take(aspects@.len() as int) =~= aspects@);
    }
    m
}

/// The most lines of code of the aspects.
pub fn max_aspect_lines_of_code(aspects: &[AnalysisAspectExport]) -> (r: usize)
    ensures
        r == max_lines(aspects@),
{
    let mut m: usize = 0;
    let mut i: usize = 0;
    while i < aspects.len()
        invariant
            i <= aspects@.len(),
            m == max_lines(aspects@.take(i as int)),
        decreases aspects@.len() - i,
    {
        proof {
            assert(aspects@.take(i + 1).drop_last() =~= aspects@.take(i as int));
            assert(aspects@.take(i + 1).last() == aspects@[i as int]);
        }
        if aspects[i].lines_of_code > m {
            m = aspects[i].lines_of_code;
        }
        i += 1;
    }
    proof {
        assert(aspects@.take(aspects@.len() as int) =~= aspects@);
    }
    m
}

// ---------------------------------------------------------------------------
// Concern summaries
// ---------------------------------------------------------------------------

/// The summaries of the concerns of one group.
#[derive(Debug, Clone, PartialEq, Eq)]
pub struct ConcernsGroupExport {
    pub key: String,
    pub concerns: Vec<AnalysisAspectExport>,
    pub lines_of_code_per_concern: Vec<NumericMetricExport>,
    pub file_count_per_concern: Vec<NumericMetricExport>,
}

/// `e` summarises the concern group `g`: each concern over the files it
/// claims, and its lines and files as named metrics.
pub open spec fn concerns_export_of(e: ConcernsGroupExport, g: ConcernGroupMatch, files: Seq<FileRecord>, contexts: Seq<FileContext>) -> bool {
    &&& e.key@ == g.key@
    &&& e.concerns@.len() == g.concerns@.len()
    &&& e.lines_of_code_per_concern@.len() == g.concerns@.len()
    &&& e.file_count_per_concern@.len() == g.concerns@.len()
    &&& forall|k: int|
        0 <= k < e.concerns@.len() ==> {
            let c = #[trigger] g.concerns@[k];
            &&& aspect_result_of(
                e.concerns@[k],
                selected_records(files, contexts, c.paths),
                Some(c.name),
                c.number_of_regex_line_matches as nat,
            )
            &&& e.lines_of_code_per_concern@[k].name@ == c.name@
            &&& e.lines_of_code_per_concern@[k].value == e.concerns@[k].lines_of_code
            &&& e.lines_of_code_per_concern@[k].description@.len() == 0
            &&& e.file_count_per_concern@[k].name@ == c.name@
            &&& e.file_count_per_concern@[k].value == e.concerns@[k].files_count
            &&& e.file_count_per_concern@[k].description@.len() == 0
        }
}

/// The summaries of the concern groups, in order.
pub fn export_concerns_analysis(files: &Vec<FileRecord>, contexts: &Vec<FileContext>, groups: &Vec<ConcernGroupMatch>) -> (r:
    Vec<ConcernsGroupExport>)
    requires
        contexts_wf(contexts@),
        crate::concerns::groups_wf(groups@),
    ensures
        r@.len() == groups@.len(),
        forall|k: int| 0 <= k < r@.len() ==> concerns_export_of(#[trigger] r@[k], groups@[k], files@, contexts@),
{
    let mut r: Vec<ConcernsGroupExport> = Vec::new();
    let mut g: usize = 0;
    while g < groups.len()
        invariant
            g <= groups@.len(),
            contexts_wf(contexts@),
            crate::concerns::groups_wf(groups@),
            r@.len() == g,
            forall|k: int| 0 <= k < g ==> concerns_export_of(#[trigger] r@[k], groups@[k], files@, contexts@),
        decreases groups@.len() - g,
    {
        let group = &groups[g];
        let mut concerns: Vec<AnalysisAspectExport> = Vec::new();
        let mut lines: Vec<NumericMetricExport> = Vec::new();
        let mut counts: Vec<NumericMetricExport> = Vec::new();
        let mut c: usize = 0;
        while c < group.concerns.len()
            invariant
                c <= group.concerns@.len(),
                g < groups@.len(),
                *group == groups@[g as int],
                contexts_wf(contexts@),
                crate::concerns::groups_wf(groups@),
                concerns@.len() == c,
                lines@.len() == c,
                counts@.len() == c,
                forall|k: int|
                    0 <= k < c ==> {
                        let m = #[trigger] group.concerns@[k];
                        &&& aspect_result_of(
                            concerns@[k],
                            selected_records(files@, contexts@, m.paths),
                            Some(m.name),
                            m.number_of_regex_line_matches as nat,
                        )
                        &&& lines@[k].name@ == m.name@
                        &&& lines@[k].value == concerns@[k].lines_of_code
                        &&& lines@[k].description@.len() == 0
                        &&& counts@[k].name@ == m.name@
                        &&& counts@[k].value == concerns@[k].files_count
                        &&& counts@[k].description@.len() == 0
                    },
            decreases group.concerns@.len() - c,
        {
            let concern = &group.concerns[c];
            proof {
                assert(groups@[g as int].concerns@[c as int].paths.wf());
            }
            let a = build_aspect_analysis_result(
                files,
                contexts,
                &concern.paths,
                Some(concern.name.clone()),
                concern.number_of_regex_line_matches,
            );
            lines.push(NumericMetricExport { name: copy_string(&concern.name), value: a.lines_of_code, description: Vec::new() });
            counts.push(NumericMetricExport { name: copy_string(&concern.name), value: a.files_count, description: Vec::new() });
            concerns.push(a);
            c += 1;
        }
        r.push(
            ConcernsGroupExport {
                key: copy_string(&group.key),
                concerns,
                lines_of_code_per_concern: lines,
                file_count_per_concern: counts,
            },
        );
        g += 1;
    }
    r
}


// ---------------------------------------------------------------------------
// Component summaries
// ---------------------------------------------------------------------------

/// The summary of one component of a logical decomposition.
#[derive(Debug, Clone, PartialEq, Eq)]
pub struct AspectAnalysisExport {
    pub name: String,
    pub files_count: usize,
    pub lines_of_code: usize,
    pub number_of_regex_line_matches: usize,
    pub file_count_per_extension: Vec<NumericMetricExport>,
    pub lines_of_code_per_extension: Vec<NumericMetricExport>,
}

/// The component labels of the files in scope, in order.
pub open spec fn scope_labels(files: Seq<FileRecord>, scope: PathSet) -> Seq<Seq<char>>
    decreases files.len(),
{
    if files.len() == 0 {
        Seq::empty()
    } else if scope.has(files.last().relative_path@) {
        scope_labels(files.drop_last(), scope) + views(files.last().components@)
    } else {
        scope_labels(files.drop_last(), scope)
    }
}

/// Number of the labels that name component `n` of decomposition `d`.
pub open spec fn label_hits(labels: Seq<Seq<char>>, d: Seq<char>, n: Seq<char>) -> nat
    decreases labels.len(),
{
    if labels.len() == 0 {
        0
    } else {
        label_hits(labels.drop_last(), d, n) + if component_in(labels.last(), d) == Some(n) {
            1nat
        } else {
            0nat
        }
    }
}

/// A file as its context records it, or as given when it has no context.
pub open spec fn record_for(f: FileRecord, contexts: Seq<FileContext>) -> FileRecordView {
    match context_of(contexts, f.relative_path@) {
        Some(c) => c.file@,
        None => f@,
    }
}

/// The files of component `n`, in order, each once per label naming it.
pub open spec fn component_records(
    files: Seq<FileRecord>,
    contexts: Seq<FileContext>,
    scope: PathSet,
    d: Seq<char>,
    n: Seq<char>,
) -> Seq<FileRecordView>
    decreases files.len(),
{
    if files.len() == 0 {
        Seq::empty()
    } else {
        let prev = component_records(files.drop_last(), contexts, scope, d, n);
        let f = files.last();
        if scope.has(f.relative_path@) {
            prev + Seq::new(label_hits(views(f.components@), d, n), |i: int| record_for(f, contexts))
        } else {
            prev
        }
    }
}

/// The component labels of the files in scope.
fn collect_scope_labels(files: &Vec<FileRecord>, scope: &PathSet) -> (r: Vec<String>)
    requires
        scope.wf(),
    ensures
        views(r@) == scope_labels(files@, *scope),
{
    let mut r: Vec<String> = Vec::new();
    let mut i: usize = 0;
    while i < files.len()
        invariant
            i <= files@.len(),
            scope.wf(),
            views(r@) == scope_labels(files@.take(i as int), *scope),
        decreases files@.len() - i,
    {
        proof {
            assert(files@.take(i + 1).drop_last() =~= files@.take(i as int));
            assert(files@.take(i + 1).last() == files@[i as int]);
        }
        if scope.contains(files[i].relative_path.as_str()) {
            let labels = &files[i].components;
            let ghost start = views(r@);
            let mut j: usize = 0;
            while j < labels.len()
                invariant
                    j <= labels@.len(),
                    views(r@) == start + views(labels@.take(j as int)),
                decreases labels@.len() - j,
            {
                let ghost before = views(r@);
                r.push(labels[j].clone());
                proof {
                    assert(views(r@) =~= before.push(labels@[j as int]@));
                    assert(views(labels@.take(j + 1)) =~= views(labels@.take(j as int)).push(labels@[j as int]@));
                }
                j += 1;
            }
            proof {
                assert(labels@.take(labels@.len() as int) =~= labels@);
            }
        }
        i += 1;
    }
    proof {
        assert(files@.take(files@.len() as int) =~= files@);
    }
    r
}

/// The files of component `name` of `decomposition`.
fn component_file_records(
    files: &Vec<FileRecord>,
    contexts: &Vec<FileContext>,
    scope: &PathSet,
    decomposition: &str,
    name: &str,
) -> (r: Vec<FileRecord>)
    requires
        contexts_wf(contexts@),
        scope.wf(),
    ensures
        record_views(r@) == component_records(files@, contexts@, *scope, decomposition@, name@),
{
    let mut r: Vec<FileRecord> = Vec::new();
    let mut i: usize = 0;
    while i < files.len()
        invariant
            i <= files@.len(),
            contexts_wf(contexts@),
            scope.wf(),
            record_views(r@) == component_records(files@.take(i as int), contexts@, *scope, decomposition@, name@),
        decreases files@.len() - i,
    {
        proof {
            assert(files@.take(i + 1).drop_last() =~= files@.take(i as int));
            assert(files@.take(i + 1).last() == files@[i as int]);
        }
        let file = &files[i];
        if scope.contains(file.relative_path.as_str()) {
            let record = match find_context(contexts, file.relative_path.as_str()) {
                Some(pos) => copy_file_record(&contexts[pos].file),
                None => copy_file_record(file),
            };
            proof {
                assert(record@ == record_for(*file, contexts@));
            }
            let labels = &file.components;
            let ghost start = record_views(r@);
            let mut j: usize = 0;
            while j < labels.len()
                invariant
                    j <= labels@.len(),
                    record@ == record_for(*file, contexts@),
                    record_views(r@) == start + Seq::new(
                        label_hits(views(labels@.take(j as int)), decomposition@, name@),
                        |m: int| record_for(*file, contexts@),
                    ),
                decreases labels@.len() - j,
            {
                proof {
                    assert(views(labels@.take(j + 1)).drop_last() =~= views(labels@.take(j as int)));
                    assert(views(labels@.take(j + 1)).last() == labels@[j as int]@);
                }
                let ghost before = record_views(r@);
                match split_label_once(labels[j].as_str()) {
                    Some((d, n)) => {
                        if str_eq(d.as_str(), decomposition) && str_eq(n.as_str(), name) {
                            let c = copy_file_record(&record);
                            r.push(c);
                            proof {
                                assert(record_views(r@) =~= before.push(c@));
                            }
                        }
                    },
                    None => {},
                }
                proof {
                    let h0 = label_hits(views(labels@.take(j as int)), decomposition@, name@);
                    let h1 = label_hits(views(labels@.take(j + 1)), decomposition@, name@);
                    assert(record_views(r@) =~= start + Seq::new(h1, |m: int| record_for(*file, contexts@)));
                }
                j += 1;
            }
            proof {
                assert(labels@.take(labels@.len() as int) =~= labels@);
            }
        }
        i += 1;
    }
    proof {
        assert(files@.take(files@.len() as int) =~= files@);
    }
    r
}

/// `a` summarises component `n`.
pub open spec fn component_stats_of(
    a: AspectAnalysisExport,
    files: Seq<FileRecord>,
    contexts: Seq<FileContext>,
    scope: PathSet,
    d: Seq<char>,
    n: Seq<char>,
) -> bool {
    &&& a.name@ == n
    &&& a.number_of_regex_line_matches == 0
    &&& aspect_measures_of(
        a.files_count,
        a.lines_of_code,
        a.file_count_per_extension@,
        a.lines_of_code_per_extension@,
        component_records(files, contexts, scope, d, n),
    )
}

/// The summaries of the components of `decomposition` that the files in
/// scope are labelled with, in component name order.
pub fn build_component_stats(
    files: &Vec<FileRecord>,
    contexts: &Vec<FileContext>,
    scope: &PathSet,
    decomposition: &str,
) -> (r: Vec<AspectAnalysisExport>)
    requires
        contexts_wf(contexts@),
        scope.wf(),
    ensures
        exists|ns: Seq<Seq<char>>|
            {
                &&& strictly_sorted(ns)
                &&& ns.to_set() == component_set(scope_labels(files@, *scope), decomposition@)
                &&& ns.len() == r@.len()
                &&& forall|k: int|
                    0 <= k < r@.len() ==> component_stats_of(
                        #[trigger] r@[k],
                        files@,
                        contexts@,
                        *scope,
                        decomposition@,
                        ns[k],
                    )
            },
{
    let labels = collect_scope_labels(files, scope);
    let names = component_names(&labels, decomposition);
    let ghost ns = names.members();
    let mut r: Vec<AspectAnalysisExport> = Vec::new();
    let mut k: usize = 0;
    while k < names.items.len()
        invariant
            k <= ns.len(),
            ns == names.members(),
            contexts_wf(contexts@),
            scope.wf(),
            r@.len() == k,
            forall|m: int|
                0 <= m < k ==> component_stats_of(#[trigger] r@[m], files@, contexts@, *scope, decomposition@, ns[m]),
        decreases ns.len() - k,
    {
        let name = &names.items[k];
        let records = component_file_records(files, contexts, scope, decomposition, name.as_str());
        r.push(
            AspectAnalysisExport {
                name: copy_string(name),
                files_count: records.len(),
                lines_of_code: sum_lines(&records),
                number_of_regex_line_matches: 0,
                file_count_per_extension: extension_metrics(&records, ExtensionMeasure::FileCount),
                lines_of_code_per_extension: extension_metrics(&records, ExtensionMeasure::LinesOfCode),
            },
        );
        k += 1;
    }
    r
}

} // verus!
