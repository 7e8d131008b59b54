//! The analysis results bundle and the textual summary of an analysis.
use vstd::prelude::*;

use crate::aspects::{
    aspect_result_of, build_aspect_analysis_result, build_aspect_analysis_result_from_paths, AnalysisAspectExport,
    ConcernsGroupExport, NumericMetricExport,
};
use crate::concerns::{groups_wf, ConcernGroupMatch};
use crate::config::{uses_built_in_dependency_finders, SokratesConfig};
use crate::decompositions::{finder_flags, LogicalDecompositionExport};
use crate::duplication::{build_duplication_analysis_results, DuplicationAnalysisResultsExport, DuplicationMetric};
use crate::export::{records_in, selected_records, unit_views};
use crate::ir::{record_views, Dependency, FileRecord, Unit};
use crate::java::join;
use crate::metrics::{build_metrics_list, value_named, MetricEntry};
use crate::ranking::{
    build_files_analysis_results, build_units_analysis_results, FilesAnalysisResultsExport, UnitsAnalysisResultsExport,
};
use crate::risk::{risk_distribution_value_text, thresholds_fit, thresholds_ok, value_text, RiskDistribution};
use crate::scopes::{contexts_wf, FileContext, ScopeFiles};
use crate::text::{decimal, push_decimal, push_str};

verus! {

// ---------------------------------------------------------------------------
// The bundle
// ---------------------------------------------------------------------------

/// The results the exports and reports are made from.
#[derive(Debug, Clone)]
pub struct AnalysisResultsBundle {
    pub main_aspect: AnalysisAspectExport,
    pub test_aspect: AnalysisAspectExport,
    pub generated_aspect: AnalysisAspectExport,
    pub build_and_deploy_aspect: AnalysisAspectExport,
    pub other_aspect: AnalysisAspectExport,
    pub files_analysis: FilesAnalysisResultsExport,
    pub units_analysis: UnitsAnalysisResultsExport,
    pub duplication_analysis: DuplicationAnalysisResultsExport,
    pub metrics: Vec<MetricEntry>,
}

/// The configured thresholds leave room for their labels.
pub open spec fn config_thresholds_fit(config: SokratesConfig) -> bool {
    &&& thresholds_fit(config.analysis.file_size_thresholds)
    &&& thresholds_fit(config.analysis.unit_size_thresholds)
    &&& thresholds_fit(config.analysis.conditional_complexity_thresholds)
}

/// Whether the configured file size, unit size and complexity thresholds
/// leave room for their labels.
pub fn config_thresholds_ok(config: &SokratesConfig) -> (b: bool)
    ensures
        b == config_thresholds_fit(*config),
{
    thresholds_ok(&config.analysis.file_size_thresholds) && thresholds_ok(&config.analysis.unit_size_thresholds)
        && thresholds_ok(&config.analysis.conditional_complexity_thresholds)
}

/// The results bundle: the five scope summaries, the file, unit and
/// duplication analyses, and the metrics list made from them.
#[verifier::rlimit(100)]
#[verifier::spinoff_prover]
pub fn build_analysis_results_bundle(
    files: &Vec<FileRecord>,
    contexts: &Vec<FileContext>,
    scopes: &ScopeFiles,
    config: &SokratesConfig,
    main_units: &Vec<Unit>,
    main_dependencies: &Vec<Dependency>,
    concerns_analysis: &Vec<ConcernsGroupExport>,
    logical_decompositions: &Vec<LogicalDecompositionExport>,
    total_analysis_time_ms: u64,
) -> (r: AnalysisResultsBundle)
    requires
        contexts_wf(contexts@),
        scopes.wf(),
        config_thresholds_fit(*config),
    ensures
        aspect_result_of(r.main_aspect, selected_records(files@, contexts@, scopes.main), None, 0),
        aspect_result_of(r.test_aspect, selected_records(files@, contexts@, scopes.test), None, 0),
        aspect_result_of(r.generated_aspect, selected_records(files@, contexts@, scopes.generated), None, 0),
        aspect_result_of(r.build_and_deploy_aspect, selected_records(files@, contexts@, scopes.build_and_deployment), None, 0),
        aspect_result_of(r.other_aspect, selected_records(files@, contexts@, scopes.other), None, 0),
        crate::ranking::files_analysis_of(
            r.files_analysis,
            selected_records(files@, contexts@, scopes.main),
            contexts@,
            config.analysis.file_size_thresholds,
            logical_decompositions@,
        ),
        crate::ranking::units_analysis_of(
            r.units_analysis,
            unit_views(main_units@),
            contexts@,
            *scopes,
            *config,
            logical_decompositions@,
        ),
        crate::duplication::duplication_skipped(*config, r.main_aspect.lines_of_code as nat)
            ==> crate::duplication::plain_metric(r.duplication_analysis.overall_duplication, "system"@, 0)
            && r.duplication_analysis.duplication_per_component@.len() == 0,
        !crate::duplication::duplication_skipped(*config, r.main_aspect.lines_of_code as nat) ==> {
            let main = selected_records(files@, contexts@, scopes.main);
            crate::duplication::plain_metric(
                r.duplication_analysis.overall_duplication,
                "system"@,
                crate::concerns::capped(crate::duplication::cleaned_total(main, contexts@)),
            ) && r.duplication_analysis.duplication_per_component@.len() == logical_decompositions@.len()
        },
        crate::metrics::metrics_list_of(
            r.metrics@,
            files@.len(),
            r.main_aspect,
            r.test_aspect,
            r.generated_aspect,
            r.build_and_deploy_aspect,
            r.other_aspect,
            concerns_analysis@,
            logical_decompositions@,
            r.files_analysis,
            r.units_analysis,
            r.duplication_analysis,
            main_dependencies@.len(),
            total_analysis_time_ms,
        ),
{
    let main_aspect = build_aspect_analysis_result(files, contexts, &scopes.main, None, 0);
    let test_aspect = build_aspect_analysis_result(files, contexts, &scopes.test, None, 0);
    let generated_aspect = build_aspect_analysis_result(files, contexts, &scopes.generated, None, 0);
    let build_and_deploy_aspect = build_aspect_analysis_result(files, contexts, &scopes.build_and_deployment, None, 0);
    let other_aspect = build_aspect_analysis_result(files, contexts, &scopes.other, None, 0);
    let files_analysis = build_files_analysis_results(files, contexts, &scopes.main, config, logical_decompositions);
    let units_analysis = build_units_analysis_results(files, contexts, scopes, config, logical_decompositions, main_units);
    let duplication_analysis = build_duplication_analysis_results(
        files,
        contexts,
        scopes,
        config,
        logical_decompositions,
        main_aspect.lines_of_code,
    );
    let metrics = build_metrics_list(
        files,
        &main_aspect,
        &test_aspect,
        &generated_aspect,
        &build_and_deploy_aspect,
        &other_aspect,
        concerns_analysis,
        logical_decompositions,
        &files_analysis,
        &units_analysis,
        &duplication_analysis,
        main_dependencies,
        total_analysis_time_ms,
    );
    AnalysisResultsBundle {
        main_aspect,
        test_aspect,
        generated_aspect,
        build_and_deploy_aspect,
        other_aspect,
        files_analysis,
        units_analysis,
        duplication_analysis,
        metrics,
    }
}

// ---------------------------------------------------------------------------
// Summary lines
// ---------------------------------------------------------------------------

/// The lines per extension of an aspect summary.
pub open spec fn extension_lines(counts: Seq<NumericMetricExport>, lines: Seq<NumericMetricExport>) -> Seq<Seq<char>>
    decreases counts.len(),
{
    if counts.len() == 0 {
        Seq::empty()
    } else {
        let m = counts.last();
        extension_lines(counts.drop_last(), lines).push(
            m.name@ + ": "@ + decimal(m.value as nat) + " files, ("@ + decimal(value_named(lines, m.name@)) + " lines of code)"@,
        )
    }
}

/// The summary lines of an aspect: its files and lines, then per extension.
pub open spec fn aspect_lines(
    name: Seq<char>,
    files_count: usize,
    lines_of_code: usize,
    counts: Seq<NumericMetricExport>,
    lines: Seq<NumericMetricExport>,
) -> Seq<Seq<char>> {
    seq![
        decimal(files_count as nat) + " are in the "@ + name + "'s scope  ("@ + decimal(lines_of_code as nat)
            + " lines of code)"@,
    ] + extension_lines(counts, lines)
}

/// Appends the summary lines of an aspect.
pub fn append_aspect_summary(lines: &mut Vec<String>, name: &str, aspect: &AnalysisAspectExport)
    ensures
        crate::text::views(final(lines)@) == crate::text::views(old(lines)@) + aspect_lines(
            name@,
            aspect.files_count,
            aspect.lines_of_code,
            aspect.file_count_per_extension@,
            aspect.lines_of_code_per_extension@,
        ),
{
    append_summary_measures(
        lines,
        name,
        aspect.files_count,
        aspect.lines_of_code,
        &aspect.file_count_per_extension,
        &aspect.lines_of_code_per_extension,
    );
}

fn append_summary_measures(
    lines: &mut Vec<String>,
    name: &str,
    files_count: usize,
    lines_of_code: usize,
    counts: &Vec<NumericMetricExport>,
    per_extension: &Vec<NumericMetricExport>,
)
    ensures
        crate::text::views(final(lines)@) == crate::text::views(old(lines)@) + aspect_lines(
            name@,
            files_count,
            lines_of_code,
            counts@,
            per_extension@,
        ),
{
    let ghost start = crate::text::views(lines@);
    let mut first = String::new();
    push_decimal(&mut first, files_count);
    push_str(&mut first, " are in the ");
    push_str(&mut first, name);
    push_str(&mut first, "'s scope  (");
    push_decimal(&mut first, lines_of_code);
    push_str(&mut first, " lines of code)");
    lines.push(first);
    proof {
        assert(crate::text::views(lines@) =~= start.push(first@));
    }
    let ghost base = start.push(first@);
    let mut k: usize = 0;
    while k < counts.len()
        invariant
            k <= counts@.len(),
            crate::text::views(lines@) == base + extension_lines(counts@.take(k as int), per_extension@),
        decreases counts@.len() - k,
    {
        proof {
            assert(counts@.take(k + 1).drop_last() =~= counts@.take(k as int));
            assert(counts@.take(k + 1).last() == counts@[k as int]);
        }
        let m = &counts[k];
        let loc = crate::metrics::find_value(per_extension, m.name.as_str());
        let mut line = String::new();
        push_str(&mut line, m.name.as_str());
        push_str(&mut line, ": ");
        push_decimal(&mut line, m.value);
        push_str(&mut line, " files, (");
        push_decimal(&mut line, loc);
        push_str(&mut line, " lines of code)");
        let ghost before = crate::text::views(lines@);
        lines.push(line);
        proof {
            assert(crate::text::views(lines@) =~= before.push(line@));
            assert(base + extension_lines(counts@.take(k + 1), per_extension@) =~= before.push(line@));
        }
        k += 1;
    }
    proof {
        assert(counts@.take(counts@.len() as int) =~= counts@);
        assert(base + extension_lines(counts@, per_extension@) =~= start + aspect_lines(
            name@,
            files_count,
            lines_of_code,
            counts@,
            per_extension@,
        ));
    }
}

/// The anchor dependency links a decomposition counts: all of them, unless
/// its dependency finder settings turn the built-in finders off.
pub fn dependency_links_count(logical_decomposition: &LogicalDecompositionExport, main_dependencies: &Vec<Dependency>) -> (r:
    usize)
    ensures
        r == (if crate::config::built_in_finders_on(logical_decomposition.logical_decomposition) {
            main_dependencies@.len()
        } else {
            0
        }),
{
    if uses_built_in_dependency_finders(&logical_decomposition.logical_decomposition) {
        main_dependencies.len()
    } else {
        0
    }
}


// ---------------------------------------------------------------------------
// The textual summary
// ---------------------------------------------------------------------------

/// The summary lines of the decompositions: their components, then their
/// dependencies (anchor links counted unless the decomposition's flag turns
/// the built-in finders off).
pub open spec fn decomposition_summary(ds: Seq<LogicalDecompositionExport>, flags: Seq<bool>, links: nat) -> Seq<Seq<char>>
    decreases ds.len(),
{
    if ds.len() == 0 {
        Seq::empty()
    } else {
        let d = ds.last();
        decomposition_summary(ds.drop_last(), flags.drop_last(), links) + component_summary(d.key@, d.components@)
            + seq![
            "  - \""@ + d.key@ + "\", found "@ + decimal(
                if flags.last() {
                    links
                } else {
                    0
                },
            ) + " dependencies ("@ + decimal(d.component_dependencies@.len()) + " component dependencies)"@,
        ]
    }
}

/// The summary lines of the components of a decomposition.
pub open spec fn component_summary(key: Seq<char>, cs: Seq<crate::aspects::AspectAnalysisExport>) -> Seq<Seq<char>>
    decreases cs.len(),
{
    if cs.len() == 0 {
        Seq::empty()
    } else {
        let c = cs.last();
        component_summary(key, cs.drop_last()) + aspect_lines(
            "DECOMPOSITION_"@ + key + "\\"@ + c.name@,
            c.files_count,
            c.lines_of_code,
            c.file_count_per_extension@,
            c.lines_of_code_per_extension@,
        )
    }
}

/// The summary lines of the concerns of one group, from their summaries.
pub open spec fn concern_summary(key: Seq<char>, cs: Seq<crate::concerns::ConcernMatch>, aspects: Seq<AnalysisAspectExport>) -> Seq<Seq<char>>
    decreases cs.len(),
{
    if cs.len() == 0 || aspects.len() == 0 {
        Seq::empty()
    } else {
        let a = aspects.last();
        concern_summary(key, cs.drop_last(), aspects.drop_last()) + aspect_lines(
            "CONCERN_"@ + key + "\\"@ + cs.last().name@,
            a.files_count,
            a.lines_of_code,
            a.file_count_per_extension@,
            a.lines_of_code_per_extension@,
        )
    }
}

/// The summary lines of the concern groups.
pub open spec fn concern_groups_summary(gs: Seq<ConcernGroupMatch>, aspects: Seq<Seq<AnalysisAspectExport>>) -> Seq<Seq<char>>
    decreases gs.len(),
{
    if gs.len() == 0 || aspects.len() == 0 {
        Seq::empty()
    } else {
        concern_groups_summary(gs.drop_last(), aspects.drop_last()) + concern_summary(
            gs.last().key@,
            gs.last().concerns@,
            aspects.last(),
        )
    }
}

/// `aspects` summarise the files each concern claims.
pub open spec fn concern_aspects_of(aspects: Seq<Seq<AnalysisAspectExport>>, gs: Seq<ConcernGroupMatch>, files: Seq<FileRecord>) -> bool {
    &&& aspects.len() == gs.len()
    &&& forall|g: int|
        0 <= g < gs.len() ==> (#[trigger] aspects[g]).len() == gs[g].concerns@.len() && forall|c: int|
            0 <= c < gs[g].concerns@.len() ==> aspect_result_of(
                #[trigger] aspects[g][c],
                records_in(record_views(files), gs[g].concerns@[c].paths),
                Some(gs[g].concerns@[c].name),
                gs[g].concerns@[c].number_of_regex_line_matches as nat,
            )
}

/// The value text line of each distribution, as `start`, key, `end`.
pub open spec fn distribution_lines(ds: Seq<RiskDistribution>, start: Seq<char>, end: Seq<char>) -> Seq<Seq<char>>
    decreases ds.len(),
{
    if ds.len() == 0 {
        Seq::empty()
    } else {
        distribution_lines(ds.drop_last(), start, end).push(start + ds.last().key@ + end + value_text(ds.last()))
    }
}

/// The value text lines of groups of distributions.
pub open spec fn distribution_group_lines(gs: Seq<Vec<RiskDistribution>>, start: Seq<char>, end: Seq<char>) -> Seq<Seq<char>>
    decreases gs.len(),
{
    if gs.len() == 0 {
        Seq::empty()
    } else {
        distribution_group_lines(gs.drop_last(), start, end) + distribution_lines(gs.last()@, start, end)
    }
}

/// The summary lines of the units.
pub open spec fn unit_summary(u: UnitsAnalysisResultsExport) -> Seq<Seq<char>> {
    seq![
        "Analysing units..."@,
        "Basic unit metrics..."@,
        "  - found "@ + decimal(u.total_number_of_units as nat) + " units ("@ + decimal(u.lines_of_code_in_units as nat)
            + " lines of code in units)"@,
        "Unit size "@ + value_text(u.unit_size_risk_distribution),
        "Unit size per component:"@,
    ] + distribution_group_lines(u.unit_size_risk_distribution_per_component@, "Unit Size Component "@, ": "@) + seq![
        "Unit size per extension:"@,
    ] + distribution_lines(u.unit_size_risk_distribution_per_extension@, "Unit Size Extension "@, ": "@) + seq![
        "Conditional complexity: "@ + value_text(u.conditional_complexity_risk_distribution),
        "Conditional complexity per component:"@,
    ] + distribution_group_lines(
        u.conditional_complexity_risk_distribution_per_component@,
        "Conditional Complexity Component "@,
        " "@,
    ) + seq!["Conditional complexity per extension:"@] + distribution_lines(
        u.conditional_complexity_risk_distribution_per_extension@,
        "Conditional Complexity Component "@,
        ": "@,
    )
}

/// The lines of the components of a decomposition with measured lines.
pub open spec fn component_duplication_lines(cs: Seq<DuplicationMetric>) -> Seq<Seq<char>>
    decreases cs.len(),
{
    if cs.len() == 0 {
        Seq::empty()
    } else {
        let c = cs.last();
        component_duplication_lines(cs.drop_last()) + if c.cleaned_lines_of_code > 0 || c.duplicated_lines_of_code > 0 {
            seq![
                "     - \""@ + c.key@ + "\": "@ + decimal(c.duplicated_lines_of_code as nat)
                    + " duplicated lines vs. "@ + decimal(c.cleaned_lines_of_code as nat) + " total lines"@,
            ]
        } else {
            Seq::empty()
        }
    }
}

/// The per-component duplication lines, pairing decompositions with their
/// component measures (as far as both go).
pub open spec fn duplication_component_lines(ds: Seq<LogicalDecompositionExport>, gs: Seq<Vec<DuplicationMetric>>, n: int) -> Seq<Seq<char>>
    decreases n,
{
    if n <= 0 {
        Seq::empty()
    } else {
        duplication_component_lines(ds, gs, n - 1) + seq!["  - per component:"@ + ds[n - 1].key@]
            + component_duplication_lines(gs[n - 1]@)
    }
}

/// The smaller of two lengths.
pub open spec fn shorter(a: nat, b: nat) -> nat {
    if a < b {
        a
    } else {
        b
    }
}

/// The lines of the textual summary.
pub open spec fn summary_lines(
    files_count: nat,
    b: AnalysisResultsBundle,
    ds: Seq<LogicalDecompositionExport>,
    flags: Seq<bool>,
    links: nat,
    gs: Seq<ConcernGroupMatch>,
    aspects: Seq<Seq<AnalysisAspectExport>>,
    duration: Seq<char>,
) -> Seq<Seq<char>> {
    let o = b.duplication_analysis.overall_duplication;
    let main = b.main_aspect;
    let test = b.test_aspect;
    let generated = b.generated_aspect;
    let build = b.build_and_deploy_aspect;
    let other = b.other_aspect;
    seq!["Start of analysis"@, "Found "@ + decimal(files_count) + " files"@] + aspect_lines(
        "main"@,
        main.files_count,
        main.lines_of_code,
        main.file_count_per_extension@,
        main.lines_of_code_per_extension@,
    ) + aspect_lines(
        "test"@,
        test.files_count,
        test.lines_of_code,
        test.file_count_per_extension@,
        test.lines_of_code_per_extension@,
    ) + aspect_lines(
        "generated"@,
        generated.files_count,
        generated.lines_of_code,
        generated.file_count_per_extension@,
        generated.lines_of_code_per_extension@,
    ) + aspect_lines(
        "build and deployment"@,
        build.files_count,
        build.lines_of_code,
        build.file_count_per_extension@,
        build.lines_of_code_per_extension@,
    ) + aspect_lines(
        "other"@,
        other.files_count,
        other.lines_of_code,
        other.file_count_per_extension@,
        other.lines_of_code_per_extension@,
    ) + seq!["Excluded from analyses 0 files"@, "Analysing dependencies..."@] + decomposition_summary(ds, flags, links)
        + concern_groups_summary(gs, aspects) + unit_summary(b.units_analysis) + seq![
        "Analysing duplication..."@,
        "  - found "@ + decimal(o.number_of_duplicates as nat) + " duplicates ("@ + decimal(
            o.duplicated_lines_of_code as nat,
        ) + " duplicated lines vs. "@ + decimal(o.cleaned_lines_of_code as nat) + " cleaned lines) in "@ + decimal(
            o.number_of_files_with_duplicates as nat,
        ) + " files"@,
    ] + duplication_component_lines(
        ds,
        b.duplication_analysis.duplication_per_component@,
        shorter(ds.len(), b.duplication_analysis.duplication_per_component@.len()) as int,
    ) + seq!["  - per extension:"@, "Total analysis time: "@ + duration + "s"@, Seq::empty()]
}

fn push_line(lines: &mut Vec<String>, line: String)
    ensures
        crate::text::views(final(lines)@) == crate::text::views(old(lines)@).push(line@),
{
    lines.push(line);
    proof {
        assert(crate::text::views(final(lines)@) =~= crate::text::views(old(lines)@).push(line@));
    }
}

fn push_fixed(lines: &mut Vec<String>, line: &str)
    ensures
        crate::text::views(final(lines)@) == crate::text::views(old(lines)@).push(line@),
{
    push_line(lines, line.to_owned());
}

fn append_decomposition_summary(
    lines: &mut Vec<String>,
    ds: &Vec<LogicalDecompositionExport>,
    main_dependencies: &Vec<Dependency>,
) -> (flags: Ghost<Seq<bool>>)
    ensures
        flags@ == finder_flags(ds@),
        crate::text::views(final(lines)@) == crate::text::views(old(lines)@) + decomposition_summary(
            ds@,
            flags@,
            main_dependencies@.len(),
        ),
{
    let ghost start = crate::text::views(lines@);
    let ghost mut flags: Seq<bool> = Seq::empty();
    let mut k: usize = 0;
    while k < ds.len()
        invariant
            k <= ds@.len(),
            flags == finder_flags(ds@.take(k as int)),
            crate::text::views(lines@) == start + decomposition_summary(
                ds@.take(k as int),
                flags,
                main_dependencies@.len(),
            ),
        decreases ds@.len() - k,
    {
        let d = &ds[k];
        let ghost pre = crate::text::views(lines@);
        let mut c: usize = 0;
        while c < d.components.len()
            invariant
                c <= d.components@.len(),
                crate::text::views(lines@) == pre + component_summary(d.key@, d.components@.take(c as int)),
            decreases d.components@.len() - c,
        {
            proof {
                assert(d.components@.take(c + 1).drop_last() =~= d.components@.take(c as int));
                assert(d.components@.take(c + 1).last() == d.components@[c as int]);
            }
            let comp = &d.components[c];
            let mut name = String::new();
            push_str(&mut name, "DECOMPOSITION_");
            push_str(&mut name, d.key.as_str());
            push_str(&mut name, "\\");
            push_str(&mut name, comp.name.as_str());
            let ghost before = crate::text::views(lines@);
            append_summary_measures(
                lines,
                name.as_str(),
                comp.files_count,
                comp.lines_of_code,
                &comp.file_count_per_extension,
                &comp.lines_of_code_per_extension,
            );
            proof {
                assert(name@ =~= "DECOMPOSITION_"@ + d.key@ + "\\"@ + comp.name@);
                assert(before + aspect_lines(
                    name@,
                    comp.files_count,
                    comp.lines_of_code,
                    comp.file_count_per_extension@,
                    comp.lines_of_code_per_extension@,
                ) =~= pre + component_summary(d.key@, d.components@.take(c + 1)));
            }
            c += 1;
        }
        proof {
            assert(d.components@.take(d.components@.len() as int) =~= d.components@);
        }
        let uses = uses_built_in_dependency_finders(&d.logical_decomposition);
        let links = if uses {
            main_dependencies.len()
        } else {
            0
        };
        let mut line = String::new();
        push_str(&mut line, "  - \"");
        push_str(&mut line, d.key.as_str());
        push_str(&mut line, "\", found ");
        push_decimal(&mut line, links);
        push_str(&mut line, " dependencies (");
        push_decimal(&mut line, d.component_dependencies.len());
        push_str(&mut line, " component dependencies)");
        let ghost before = crate::text::views(lines@);
        push_line(lines, line);
        proof {
            let nf = flags.push(uses);
            assert(nf =~= finder_flags(ds@.take(k + 1)));
            assert(ds@.take(k + 1).drop_last() =~= ds@.take(k as int));
            assert(ds@.take(k + 1).last() == ds@[k as int]);
            assert(nf.drop_last() =~= flags);
            assert(before.push(line@) =~= start + decomposition_summary(ds@.take(k + 1), nf, main_dependencies@.len()));
            flags = nf;
        }
        k += 1;
    }
    proof {
        assert(ds@.take(ds@.len() as int) =~= ds@);
    }
    Ghost(flags)
}

fn append_concern_summary(lines: &mut Vec<String>, files: &Vec<FileRecord>, groups: &Vec<ConcernGroupMatch>) -> (aspects: Ghost<
    Seq<Seq<AnalysisAspectExport>>,
>)
    requires
        groups_wf(groups@),
    ensures
        concern_aspects_of(aspects@, groups@, files@),
        crate::text::views(final(lines)@) == crate::text::views(old(lines)@) + concern_groups_summary(groups@, aspects@),
{
    let ghost start = crate::text::views(lines@);
    let ghost mut aspects: Seq<Seq<AnalysisAspectExport>> = Seq::empty();
    let mut g: usize = 0;
    while g < groups.len()
        invariant
            g <= groups@.len(),
            groups_wf(groups@),
            concern_aspects_of(aspects, groups@.take(g as int), files@),
            crate::text::views(lines@) == start + concern_groups_summary(groups@.take(g as int), aspects),
        decreases groups@.len() - g,
    {
        let group = &groups[g];
        let ghost pre = crate::text::views(lines@);
        let ghost mut these: Seq<AnalysisAspectExport> = Seq::empty();
        let mut c: usize = 0;
        while c < group.concerns.len()
            invariant
                c <= group.concerns@.len(),
                g < groups@.len(),
                *group == groups@[g as int],
                groups_wf(groups@),
                these.len() == c,
                forall|m: int|
                    0 <= m < c ==> aspect_result_of(
                        #[trigger] these[m],
                        records_in(record_views(files@), group.concerns@[m].paths),
                        Some(group.concerns@[m].name),
                        group.concerns@[m].number_of_regex_line_matches as nat,
                    ),
                crate::text::views(lines@) == pre + concern_summary(group.key@, group.concerns@.take(c as int), these),
            decreases group.concerns@.len() - c,
        {
            let concern = &group.concerns[c];
            proof {
                assert(groups@[g as int].concerns@[c as int].paths.wf());
            }
            let aspect = build_aspect_analysis_result_from_paths(files, concern);
            let mut name = String::new();
            push_str(&mut name, "CONCERN_");
            push_str(&mut name, group.key.as_str());
            push_str(&mut name, "\\");
            push_str(&mut name, concern.name.as_str());
            let ghost before = crate::text::views(lines@);
            append_aspect_summary(lines, name.as_str(), &aspect);
            proof {
                let nt = these.push(aspect);
                assert(group.concerns@.take(c + 1).drop_last() =~= group.concerns@.take(c as int));
                assert(group.concerns@.take(c + 1).last() == group.concerns@[c as int]);
                assert(nt.drop_last() =~= these);
                assert(name@ =~= "CONCERN_"@ + group.key@ + "\\"@ + concern.name@);
                assert(before + aspect_lines(
                    name@,
                    aspect.files_count,
                    aspect.lines_of_code,
                    aspect.file_count_per_extension@,
                    aspect.lines_of_code_per_extension@,
                ) =~= pre + concern_summary(group.key@, group.concerns@.take(c + 1), nt));
                these = nt;
            }
            c += 1;
        }
        proof {
            assert(group.concerns@.take(group.concerns@.len() as int) =~= group.concerns@);
            let na = aspects.push(these);
            assert(groups@.take(g + 1).drop_last() =~= groups@.take(g as int));
            assert(groups@.take(g + 1).last() == groups@[g as int]);
            assert(na.drop_last() =~= aspects);
            assert(crate::text::views(lines@) =~= start + concern_groups_summary(groups@.take(g + 1), na));
            assert forall|x: int|
                0 <= x < g + 1 implies (#[trigger] na[x]).len() == groups@.take(g + 1)[x].concerns@.len()
                    && forall|c: int|
                    0 <= c < groups@.take(g + 1)[x].concerns@.len() ==> aspect_result_of(
                        #[trigger] na[x][c],
                        records_in(record_views(files@), groups@.take(g + 1)[x].concerns@[c].paths),
                        Some(groups@.take(g + 1)[x].concerns@[c].name),
                        groups@.take(g + 1)[x].concerns@[c].number_of_regex_line_matches as nat,
                    ) by {
                if x < g {
                    assert(na[x] == aspects[x]);
                    assert(groups@.take(g + 1)[x] == groups@.take(g as int)[x]);
                }
            }
            aspects = na;
        }
        g += 1;
    }
    proof {
        assert(groups@.take(groups@.len() as int) =~= groups@);
    }
    Ghost(aspects)
}

fn append_distribution_lines(lines: &mut Vec<String>, ds: &Vec<RiskDistribution>, start: &str, end: &str)
    ensures
        crate::text::views(final(lines)@) == crate::text::views(old(lines)@) + distribution_lines(ds@, start@, end@),
{
    let ghost first = crate::text::views(lines@);
    let mut k: usize = 0;
    while k < ds.len()
        invariant
            k <= ds@.len(),
            crate::text::views(lines@) == first + distribution_lines(ds@.take(k as int), start@, end@),
        decreases ds@.len() - k,
    {
        proof {
            assert(ds@.take(k + 1).drop_last() =~= ds@.take(k as int));
            assert(ds@.take(k + 1).last() == ds@[k as int]);
        }
        let mut line = String::new();
        push_str(&mut line, start);
        push_str(&mut line, ds[k].key.as_str());
        push_str(&mut line, end);
        let text = risk_distribution_value_text(&ds[k]);
        push_str(&mut line, text.as_str());
        let ghost before = crate::text::views(lines@);
        push_line(lines, line);
        proof {
            assert(before.push(line@) =~= first + distribution_lines(ds@.take(k + 1), start@, end@));
        }
        k += 1;
    }
    proof {
        assert(ds@.take(ds@.len() as int) =~= ds@);
    }
}

fn append_distribution_groups(lines: &mut Vec<String>, gs: &Vec<Vec<RiskDistribution>>, start: &str, end: &str)
    ensures
        crate::text::views(final(lines)@) == crate::text::views(old(lines)@) + distribution_group_lines(gs@, start@, end@),
{
    let ghost first = crate::text::views(lines@);
    let mut k: usize = 0;
    while k < gs.len()
        invariant
            k <= gs@.len(),
            crate::text::views(lines@) == first + distribution_group_lines(gs@.take(k as int), start@, end@),
        decreases gs@.len() - k,
    {
        proof {
            assert(gs@.take(k + 1).drop_last() =~= gs@.take(k as int));
            assert(gs@.take(k + 1).last() == gs@[k as int]);
        }
        let ghost before = crate::text::views(lines@);
        append_distribution_lines(lines, &gs[k], start, end);
        proof {
            assert(before + distribution_lines(gs@[k as int]@, start@, end@) =~= first + distribution_group_lines(
                gs@.take(k + 1),
                start@,
                end@,
            ));
        }
        k += 1;
    }
    proof {
        assert(gs@.take(gs@.len() as int) =~= gs@);
    }
}

fn labelled_value(label: &str, d: &RiskDistribution) -> (r: String)
    ensures
        r@ == label@ + value_text(*d),
{
    let mut line = String::new();
    push_str(&mut line, label);
    let text = risk_distribution_value_text(d);
    push_str(&mut line, text.as_str());
    line
}

#[verifier::rlimit(60)]
fn append_unit_summary(lines: &mut Vec<String>, u: &UnitsAnalysisResultsExport)
    ensures
        crate::text::views(final(lines)@) == crate::text::views(old(lines)@) + unit_summary(*u),
{
    let ghost first = crate::text::views(lines@);
    push_fixed(lines, "Analysing units...");
    push_fixed(lines, "Basic unit metrics...");
    let mut line = String::new();
    push_str(&mut line, "  - found ");
    push_decimal(&mut line, u.total_number_of_units);
    push_str(&mut line, " units (");
    push_decimal(&mut line, u.lines_of_code_in_units);
    push_str(&mut line, " lines of code in units)");
    push_line(lines, line);
    push_line(lines, labelled_value("Unit size ", &u.unit_size_risk_distribution));
    push_fixed(lines, "Unit size per component:");
    let ghost a = crate::text::views(lines@);
    append_distribution_groups(lines, &u.unit_size_risk_distribution_per_component, "Unit Size Component ", ": ");
    push_fixed(lines, "Unit size per extension:");
    let ghost b = crate::text::views(lines@);
    append_distribution_lines(lines, &u.unit_size_risk_distribution_per_extension, "Unit Size Extension ", ": ");
    let ghost c = crate::text::views(lines@);
    push_line(lines, labelled_value("Conditional complexity: ", &u.conditional_complexity_risk_distribution));
    push_fixed(lines, "Conditional complexity per component:");
    let ghost d = crate::text::views(lines@);
    append_distribution_groups(
        lines,
        &u.conditional_complexity_risk_distribution_per_component,
        "Conditional Complexity Component ",
        " ",
    );
    push_fixed(lines, "Conditional complexity per extension:");
    let ghost e = crate::text::views(lines@);
    append_distribution_lines(
        lines,
        &u.conditional_complexity_risk_distribution_per_extension,
        "Conditional Complexity Component ",
        ": ",
    );
    proof {
        assert(crate::text::views(lines@) =~= first + unit_summary(*u));
    }
}

fn append_duplication_summary(lines: &mut Vec<String>, ds: &Vec<LogicalDecompositionExport>, d: &DuplicationAnalysisResultsExport)
    ensures
        crate::text::views(final(lines)@) == crate::text::views(old(lines)@) + duplication_component_lines(
            ds@,
            d.duplication_per_component@,
            shorter(ds@.len(), d.duplication_per_component@.len()) as int,
        ),
{
    let ghost first = crate::text::views(lines@);
    let gs = &d.duplication_per_component;
    let n = if ds.len() < gs.len() {
        ds.len()
    } else {
        gs.len()
    };
    let mut k: usize = 0;
    while k < n
        invariant
            k <= n,
            n <= ds@.len(),
            n <= gs@.len(),
            crate::text::views(lines@) == first + duplication_component_lines(ds@, gs@, k as int),
        decreases n - k,
    {
        let mut line = String::new();
        push_str(&mut line, "  - per component:");
        push_str(&mut line, ds[k].key.as_str());
        push_line(lines, line);
        let ghost pre = crate::text::views(lines@);
        let cs = &gs[k];
        let mut c: usize = 0;
        while c < cs.len()
            invariant
                c <= cs@.len(),
                crate::text::views(lines@) == pre + component_duplication_lines(cs@.take(c as int)),
            decreases cs@.len() - c,
        {
            proof {
                assert(cs@.take(c + 1).drop_last() =~= cs@.take(c as int));
                assert(cs@.take(c + 1).last() == cs@[c as int]);
            }
            let m = &cs[c];
            let ghost before = crate::text::views(lines@);
            if m.cleaned_lines_of_code > 0 || m.duplicated_lines_of_code > 0 {
                let mut line = String::new();
                push_str(&mut line, "     - \"");
                push_str(&mut line, m.key.as_str());
                push_str(&mut line, "\": ");
                push_decimal(&mut line, m.duplicated_lines_of_code);
                push_str(&mut line, " duplicated lines vs. ");
                push_decimal(&mut line, m.cleaned_lines_of_code);
                push_str(&mut line, " total lines");
                push_line(lines, line);
                proof {
                    assert(before.push(line@) =~= pre + component_duplication_lines(cs@.take(c + 1)));
                }
            } else {
                proof {
                    assert(before =~= pre + component_duplication_lines(cs@.take(c + 1)));
                }
            }
            c += 1;
        }
        proof {
            assert(cs@.take(cs@.len() as int) =~= cs@);
            assert(crate::text::views(lines@) =~= first + duplication_component_lines(ds@, gs@, k + 1));
        }
        k += 1;
    }
}

/// `r` is the textual summary.
pub open spec fn summary_of(
    r: Seq<char>,
    files: Seq<FileRecord>,
    b: AnalysisResultsBundle,
    ds: Seq<LogicalDecompositionExport>,
    gs: Seq<ConcernGroupMatch>,
    links: nat,
    duration: Seq<char>,
) -> bool {
    exists|aspects: Seq<Seq<AnalysisAspectExport>>|
        {
            &&& concern_aspects_of(aspects, gs, files)
            &&& r == join(summary_lines(files.len(), b, ds, finder_flags(ds), links, gs, aspects, duration), seq!['\n'])
        }
}

/// The textual summary of an analysis, line by line: scopes, dependencies,
/// concerns, units and duplication, ending with the analysis time given as
/// `duration_text` (seconds) and a line break.
#[verifier::rlimit(80)]
pub fn build_textual_summary(
    files: &Vec<FileRecord>,
    bundle: &AnalysisResultsBundle,
    logical_decompositions: &Vec<LogicalDecompositionExport>,
    concern_groups: &Vec<ConcernGroupMatch>,
    main_dependencies: &Vec<Dependency>,
    duration_text: &str,
) -> (r: String)
    requires
        groups_wf(concern_groups@),
    ensures
        summary_of(
            r@,
            files@,
            *bundle,
            logical_decompositions@,
            concern_groups@,
            main_dependencies@.len(),
            duration_text@,
        ),
{
    let mut lines: Vec<String> = Vec::new();
    push_fixed(&mut lines, "Start of analysis");
    let mut found = String::new();
    push_str(&mut found, "Found ");
    push_decimal(&mut found, files.len());
    push_str(&mut found, " files");
    push_line(&mut lines, found);
    append_aspect_summary(&mut lines, "main", &bundle.main_aspect);
    append_aspect_summary(&mut lines, "test", &bundle.test_aspect);
    append_aspect_summary(&mut lines, "generated", &bundle.generated_aspect);
    append_aspect_summary(&mut lines, "build and deployment", &bundle.build_and_deploy_aspect);
    append_aspect_summary(&mut lines, "other", &bundle.other_aspect);
    push_fixed(&mut lines, "Excluded from analyses 0 files");
    push_fixed(&mut lines, "Analysing dependencies...");
    let ghost a = crate::text::views(lines@);
    let flags = append_decomposition_summary(&mut lines, logical_decompositions, main_dependencies);
    let ghost b = crate::text::views(lines@);
    let aspects = append_concern_summary(&mut lines, files, concern_groups);
    let ghost c = crate::text::views(lines@);
    append_unit_summary(&mut lines, &bundle.units_analysis);
    let ghost d = crate::text::views(lines@);
    push_fixed(&mut lines, "Analysing duplication...");
    let o = &bundle.duplication_analysis.overall_duplication;
    let mut line = String::new();
    push_str(&mut line, "  - found ");
    push_decimal(&mut line, o.number_of_duplicates);
    push_str(&mut line, " duplicates (");
    push_decimal(&mut line, o.duplicated_lines_of_code);
    push_str(&mut line, " duplicated lines vs. ");
    push_decimal(&mut line, o.cleaned_lines_of_code);
    push_str(&mut line, " cleaned lines) in ");
    push_decimal(&mut line, o.number_of_files_with_duplicates);
    push_str(&mut line, " files");
    push_line(&mut lines, line);
    let ghost e = crate::text::views(lines@);
    append_duplication_summary(&mut lines, logical_decompositions, &bundle.duplication_analysis);
    let ghost f = crate::text::views(lines@);
    push_fixed(&mut lines, "  - per extension:");
    let mut total = String::new();
    push_str(&mut total, "Total analysis time: ");
    push_str(&mut total, duration_text);
    push_str(&mut total, "s");
    push_line(&mut lines, total);
    push_line(&mut lines, String::new());
    proof {
        assert(crate::text::views(lines@) =~= summary_lines(
            files@.len(),
            *bundle,
            logical_decompositions@,
            flags@,
            main_dependencies@.len(),
            concern_groups@,
            aspects@,
            duration_text@,
        ));
    }
    let r = crate::duplication::join_lines(&lines);
    r
}

} // verus!
