//! The metrics list: every measure of the analysis under an identifier,
//! with its value and an optional description.
use vstd::prelude::*;

use crate::aspects::{AnalysisAspectExport, AspectAnalysisExport, ConcernsGroupExport, NumericMetricExport};
use crate::concerns::capped;
use crate::config::uses_built_in_dependency_finders;
use crate::decompositions::{cyclic_component_dependency_places, finder_flags, reversed_pairs, LogicalDecompositionExport};
use crate::duplication::{DuplicationAnalysisResultsExport, DuplicationMetric};
use crate::ir::{Dependency, FileRecord};
use crate::names::{
    extension_metric_suffix, file_system_safe, metric_id, metric_identifier, safe_metric_prefix, without_colons,
    without_star_dots,
};
use crate::pathset::str_eq;
use crate::pattern::{full_match, matches_entire};
use crate::ranking::{FilesAnalysisResultsExport, UnitsAnalysisResultsExport};
use crate::risk::RiskDistribution;
use crate::text::{decimal, push_decimal, push_str, to_upper, trim, upper};

verus! {

/// The value of a metric.
#[derive(Debug, Clone, Copy, PartialEq, Eq, Structural)]
pub enum MetricValue {
    /// A count or a number of lines.
    Count(usize),
    /// A duration in milliseconds.
    Millis(u64),
    /// The percentage that `part` is of `whole`, 0 when `whole` is 0.
    Share { part: usize, whole: usize },
    /// The percentage that `numerator` is of `denominator`, undefined (NaN)
    /// when `denominator` is 0.
    Percentage { numerator: usize, denominator: usize },
    /// Test lines as a percentage of main lines, rounded to two decimals, 0
    /// when there are no main lines.
    TestRatio { test: usize, main: usize },
}

/// A metric of the analysis.
#[derive(Debug, Clone, PartialEq, Eq)]
pub struct MetricEntry {
    pub id: String,
    pub value: MetricValue,
    pub description: Option<String>,
}

/// A metric as named in the analysis, before its name becomes an
/// identifier.
pub type MetricSpec = (Seq<char>, MetricValue, Option<Seq<char>>);

/// `e` is the metric `m`: its identifier made from the name.
pub open spec fn entry_of(e: MetricEntry, m: MetricSpec) -> bool {
    &&& e.id@ == metric_identifier(m.0)
    &&& e.value == m.1
    &&& match m.2 {
        Some(d) => e.description matches Some(x) && x@ == d,
        None => e.description is None,
    }
}

/// `r` lists the metrics `ms`, in order.
pub open spec fn entries_of(r: Seq<MetricEntry>, ms: Seq<MetricSpec>) -> bool {
    &&& r.len() == ms.len()
    &&& forall|k: int| 0 <= k < r.len() ==> entry_of(#[trigger] r[k], ms[k])
}

/// A metric entry, its name made an identifier.
pub fn metric_entry(id: &str, value: MetricValue, description: Option<&str>) -> (r: MetricEntry)
    ensures
        entry_of(
            r,
            (
                id@,
                value,
                match description {
                    Some(d) => Some(d@),
                    None => None,
                },
            ),
        ),
{
    MetricEntry {
        id: metric_id(id),
        value,
        description: match description {
            Some(d) => Some(d.to_owned()),
            None => None,
        },
    }
}

fn push_metric(metrics: &mut Vec<MetricEntry>, id: &str, value: MetricValue, description: Option<&str>)
    ensures
        final(metrics)@.len() == old(metrics)@.len() + 1,
        final(metrics)@.take(old(metrics)@.len() as int) == old(metrics)@,
        entry_of(
            final(metrics)@.last(),
            (
                id@,
                value,
                match description {
                    Some(d) => Some(d@),
                    None => None,
                },
            ),
        ),
{
    let e = metric_entry(id, value, description);
    metrics.push(e);
    proof {
        assert(final(metrics)@.take(old(metrics)@.len() as int) =~= old(metrics)@);
    }
}

/// Appending entries of `more` to entries of `ms` gives entries of both.
proof fn lemma_entries_extend(r: Seq<MetricEntry>, ms: Seq<MetricSpec>, n: int, more: MetricSpec)
    requires
        n == r.len() - 1,
        entries_of(r.take(n), ms),
        entry_of(r.last(), more),
        r.len() >= 1,
    ensures
        entries_of(r, ms.push(more)),
{
    assert forall|k: int| 0 <= k < r.len() implies entry_of(#[trigger] r[k], ms.push(more)[k]) by {
        if k < n {
            assert(r.take(n)[k] == r[k]);
        }
    }
}

// ---------------------------------------------------------------------------
// Aspect metrics
// ---------------------------------------------------------------------------

/// The value of the metric named `name` (0 when there is none).
pub open spec fn value_named(ms: Seq<NumericMetricExport>, name: Seq<char>) -> nat
    decreases ms.len(),
{
    if ms.len() == 0 {
        0
    } else if ms[0].name@ == name {
        ms[0].value as nat
    } else {
        value_named(ms.skip(1), name)
    }
}

pub(crate) fn find_value(ms: &Vec<NumericMetricExport>, name: &str) -> (r: usize)
    ensures
        r == value_named(ms@, name@),
{
    let mut k: usize = 0;
    proof {
        assert(ms@.skip(0) =~= ms@);
    }
    while k < ms.len()
        invariant
            k <= ms@.len(),
            value_named(ms@, name@) == value_named(ms@.skip(k as int), name@),
        decreases ms@.len() - k,
    {
        proof {
            assert(ms@.skip(k as int)[0] == ms@[k as int]);
            assert(ms@.skip(k as int).skip(1) =~= ms@.skip(k + 1));
        }
        if str_eq(ms[k].name.as_str(), name) {
            return ms[k].value;
        }
        k += 1;
    }
    0
}

/// The suffix of a per-extension metric name.
pub open spec fn ext_suffix(name: Seq<char>) -> Seq<char> {
    upper(trim(without_star_dots(name)))
}

/// The per-extension metrics of an aspect named `name`, from the `k`-th
/// extension on.
pub open spec fn extension_specs(name: Seq<char>, counts: Seq<NumericMetricExport>, lines: Seq<NumericMetricExport>) -> Seq<MetricSpec>
    decreases counts.len(),
{
    if counts.len() == 0 {
        Seq::empty()
    } else {
        let m = counts.last();
        extension_specs(name, counts.drop_last(), lines) + seq![
            ("NUMBER_OF_FILES_"@ + name + "_EXT_"@ + ext_suffix(m.name@), MetricValue::Count(m.value), None),
            (
                "LINES_OF_CODE_"@ + name + "_EXT_"@ + ext_suffix(m.name@),
                MetricValue::Count(value_named(lines, m.name@) as usize),
                None,
            ),
        ]
    }
}

/// The metrics of an aspect: its files and lines, then per extension.
pub open spec fn aspect_specs(
    name: Seq<char>,
    files_count: usize,
    lines_of_code: usize,
    counts: Seq<NumericMetricExport>,
    lines: Seq<NumericMetricExport>,
) -> Seq<MetricSpec> {
    seq![
        ("NUMBER_OF_FILES_"@ + name, MetricValue::Count(files_count), None),
        ("LINES_OF_CODE_"@ + name, MetricValue::Count(lines_of_code), None),
    ] + extension_specs(name, counts, lines)
}

fn append_aspect_measures(
    metrics: &mut Vec<MetricEntry>,
    name: &str,
    files_count: usize,
    lines_of_code: usize,
    counts: &Vec<NumericMetricExport>,
    lines: &Vec<NumericMetricExport>,
    Ghost(ms): Ghost<Seq<MetricSpec>>,
)
    requires
        entries_of(old(metrics)@, ms),
    ensures
        entries_of(final(metrics)@, ms + aspect_specs(name@, files_count, lines_of_code, counts@, lines@)),
{
    let mut id = String::new();
    push_str(&mut id, "NUMBER_OF_FILES_");
    push_str(&mut id, name);
    let ghost n0 = metrics@.len() as int;
    push_metric(metrics, id.as_str(), MetricValue::Count(files_count), None);
    proof {
        lemma_entries_extend(metrics@, ms, n0, ("NUMBER_OF_FILES_"@ + name@, MetricValue::Count(files_count), None));
    }
    let ghost ms1 = ms.push(("NUMBER_OF_FILES_"@ + name@, MetricValue::Count(files_count), None));
    let mut id = String::new();
    push_str(&mut id, "LINES_OF_CODE_");
    push_str(&mut id, name);
    let ghost n1 = metrics@.len() as int;
    push_metric(metrics, id.as_str(), MetricValue::Count(lines_of_code), None);
    proof {
        lemma_entries_extend(metrics@, ms1, n1, ("LINES_OF_CODE_"@ + name@, MetricValue::Count(lines_of_code), None));
    }
    let ghost base = ms1.push(("LINES_OF_CODE_"@ + name@, MetricValue::Count(lines_of_code), None));
    let mut k: usize = 0;
    while k < counts.len()
        invariant
            k <= counts@.len(),
            entries_of(metrics@, base + extension_specs(name@, counts@.take(k as int), lines@)),
        decreases counts@.len() - k,
    {
        proof {
            assert(counts@.take(k + 1).drop_last() =~= counts@.take(k as int));
            assert(counts@.take(k + 1).last() == counts@[k as int]);
        }
        let m = &counts[k];
        let suffix = extension_metric_suffix(m.name.as_str());
        let ghost pre = base + extension_specs(name@, counts@.take(k as int), lines@);
        let mut id = String::new();
        push_str(&mut id, "NUMBER_OF_FILES_");
        push_str(&mut id, name);
        push_str(&mut id, "_EXT_");
        push_str(&mut id, suffix.as_str());
        let ghost s1 = ("NUMBER_OF_FILES_"@ + name@ + "_EXT_"@ + ext_suffix(m.name@), MetricValue::Count(m.value), None);
        let ghost na = metrics@.len() as int;
        push_metric(metrics, id.as_str(), MetricValue::Count(m.value), None);
        proof {
            assert(id@ =~= s1.0);
            lemma_entries_extend(metrics@, pre, na, s1);
        }
        let loc = find_value(lines, m.name.as_str());
        let mut id = String::new();
        push_str(&mut id, "LINES_OF_CODE_");
        push_str(&mut id, name);
        push_str(&mut id, "_EXT_");
        push_str(&mut id, suffix.as_str());
        let ghost s2 = (
            "LINES_OF_CODE_"@ + name@ + "_EXT_"@ + ext_suffix(m.name@),
            MetricValue::Count(value_named(lines@, m.name@) as usize),
            None,
        );
        let ghost nb = metrics@.len() as int;
        push_metric(metrics, id.as_str(), MetricValue::Count(loc), None);
        proof {
            assert(id@ =~= s2.0);
            lemma_entries_extend(metrics@, pre.push(s1), nb, s2);
            assert(pre.push(s1).push(s2) =~= base + extension_specs(name@, counts@.take(k + 1), lines@));
        }
        k += 1;
    }
    proof {
        assert(counts@.take(counts@.len() as int) =~= counts@);
        assert(base + extension_specs(name@, counts@, lines@) =~= ms + aspect_specs(
            name@,
            files_count,
            lines_of_code,
            counts@,
            lines@,
        ));
    }
}

/// Appends the metrics of a scope or concern named `name`.
fn append_named_aspect_metrics(
    metrics: &mut Vec<MetricEntry>,
    name: &str,
    aspect: &AnalysisAspectExport,
    Ghost(ms): Ghost<Seq<MetricSpec>>,
)
    requires
        entries_of(old(metrics)@, ms),
    ensures
        entries_of(
            final(metrics)@,
            ms + aspect_specs(
                name@,
                aspect.files_count,
                aspect.lines_of_code,
                aspect.file_count_per_extension@,
                aspect.lines_of_code_per_extension@,
            ),
        ),
{
    append_aspect_measures(
        metrics,
        name,
        aspect.files_count,
        aspect.lines_of_code,
        &aspect.file_count_per_extension,
        &aspect.lines_of_code_per_extension,
        Ghost(ms),
    );
}

/// Appends the metrics of a component, under `name`.
fn append_component_metrics(
    metrics: &mut Vec<MetricEntry>,
    name: &str,
    aspect: &AspectAnalysisExport,
    Ghost(ms): Ghost<Seq<MetricSpec>>,
)
    requires
        entries_of(old(metrics)@, ms),
    ensures
        entries_of(
            final(metrics)@,
            ms + aspect_specs(
                name@,
                aspect.files_count,
                aspect.lines_of_code,
                aspect.file_count_per_extension@,
                aspect.lines_of_code_per_extension@,
            ),
        ),
{
    append_aspect_measures(
        metrics,
        name,
        aspect.files_count,
        aspect.lines_of_code,
        &aspect.file_count_per_extension,
        &aspect.lines_of_code_per_extension,
        Ghost(ms),
    );
}

// ---------------------------------------------------------------------------
// Risk metrics
// ---------------------------------------------------------------------------

/// The identifier prefix of a display prefix.
pub open spec fn metric_prefix(display: Seq<char>) -> Seq<char> {
    upper(file_system_safe(without_colons(upper(display))))
}

/// The three metrics of one risk level.
pub open spec fn level_specs(prefix: Seq<char>, level: Seq<char>, value: usize, whole: usize, count: usize) -> Seq<MetricSpec> {
    seq![
        (prefix + "_"@ + level + "_RISK_LOC"@, MetricValue::Count(value), None),
        (prefix + "_"@ + level + "_RISK_PERCENTAGE"@, MetricValue::Share { part: value, whole }, None),
        (prefix + "_"@ + level + "_RISK_COUNT"@, MetricValue::Count(count), None),
    ]
}

/// The metrics of a risk distribution, level by level.
pub open spec fn risk_specs(display: Seq<char>, d: RiskDistribution) -> Seq<MetricSpec> {
    let p = metric_prefix(display);
    let w = d.total_value;
    level_specs(p, "NEGLIGIBLE"@, d.negligible_risk_value, w, d.negligible_risk_count) + level_specs(
        p,
        "LOW"@,
        d.low_risk_value,
        w,
        d.low_risk_count,
    ) + level_specs(p, "MEDIUM"@, d.medium_risk_value, w, d.medium_risk_count) + level_specs(
        p,
        "HIGH"@,
        d.high_risk_value,
        w,
        d.high_risk_count,
    ) + level_specs(p, "VERY_HIGH"@, d.very_high_risk_value, w, d.very_high_risk_count)
}

fn append_single_risk_metrics(
    metrics: &mut Vec<MetricEntry>,
    prefix: &str,
    category: &str,
    loc_value: usize,
    whole: usize,
    count: usize,
    Ghost(ms): Ghost<Seq<MetricSpec>>,
)
    requires
        entries_of(old(metrics)@, ms),
    ensures
        entries_of(final(metrics)@, ms + level_specs(prefix@, category@, loc_value, whole, count)),
{
    let ghost specs = level_specs(prefix@, category@, loc_value, whole, count);
    let mut id = String::new();
    push_str(&mut id, prefix);
    push_str(&mut id, "_");
    push_str(&mut id, category);
    push_str(&mut id, "_RISK_LOC");
    let ghost n0 = metrics@.len() as int;
    push_metric(metrics, id.as_str(), MetricValue::Count(loc_value), None);
    proof {
        assert(id@ =~= specs[0].0);
        lemma_entries_extend(metrics@, ms, n0, specs[0]);
    }
    let mut id = String::new();
    push_str(&mut id, prefix);
    push_str(&mut id, "_");
    push_str(&mut id, category);
    push_str(&mut id, "_RISK_PERCENTAGE");
    let ghost n1 = metrics@.len() as int;
    push_metric(metrics, id.as_str(), MetricValue::Share { part: loc_value, whole }, None);
    proof {
        assert(id@ =~= specs[1].0);
        lemma_entries_extend(metrics@, ms.push(specs[0]), n1, specs[1]);
    }
    let mut id = String::new();
    push_str(&mut id, prefix);
    push_str(&mut id, "_");
    push_str(&mut id, category);
    push_str(&mut id, "_RISK_COUNT");
    let ghost n2 = metrics@.len() as int;
    push_metric(metrics, id.as_str(), MetricValue::Count(count), None);
    proof {
        assert(id@ =~= specs[2].0);
        lemma_entries_extend(metrics@, ms.push(specs[0]).push(specs[1]), n2, specs[2]);
        assert(ms.push(specs[0]).push(specs[1]).push(specs[2]) =~= ms + specs);
    }
}

/// Appends the metrics of a risk distribution shown under `display_prefix`.
fn append_risk_metrics(
    metrics: &mut Vec<MetricEntry>,
    display_prefix: &str,
    distribution: &RiskDistribution,
    Ghost(ms): Ghost<Seq<MetricSpec>>,
)
    requires
        entries_of(old(metrics)@, ms),
    ensures
        entries_of(final(metrics)@, ms + risk_specs(display_prefix@, *distribution)),
{
    let p = safe_metric_prefix(display_prefix);
    let d = distribution;
    let w = d.total_value;
    let ghost pv = metric_prefix(display_prefix@);
    let ghost s0 = level_specs(pv, "NEGLIGIBLE"@, d.negligible_risk_value, w, d.negligible_risk_count);
    let ghost s1 = level_specs(pv, "LOW"@, d.low_risk_value, w, d.low_risk_count);
    let ghost s2 = level_specs(pv, "MEDIUM"@, d.medium_risk_value, w, d.medium_risk_count);
    let ghost s3 = level_specs(pv, "HIGH"@, d.high_risk_value, w, d.high_risk_count);
    let ghost s4 = level_specs(pv, "VERY_HIGH"@, d.very_high_risk_value, w, d.very_high_risk_count);
    append_single_risk_metrics(metrics, p.as_str(), "NEGLIGIBLE", d.negligible_risk_value, w, d.negligible_risk_count, Ghost(ms));
    append_single_risk_metrics(metrics, p.as_str(), "LOW", d.low_risk_value, w, d.low_risk_count, Ghost(ms + s0));
    append_single_risk_metrics(metrics, p.as_str(), "MEDIUM", d.medium_risk_value, w, d.medium_risk_count, Ghost(ms + s0 + s1));
    append_single_risk_metrics(metrics, p.as_str(), "HIGH", d.high_risk_value, w, d.high_risk_count, Ghost(ms + s0 + s1 + s2));
    append_single_risk_metrics(
        metrics,
        p.as_str(),
        "VERY_HIGH",
        d.very_high_risk_value,
        w,
        d.very_high_risk_count,
        Ghost(ms + s0 + s1 + s2 + s3),
    );
    proof {
        assert(ms + s0 + s1 + s2 + s3 + s4 =~= ms + risk_specs(display_prefix@, *distribution));
    }
}


/// The risk metrics of the distributions, each shown as `start`, its key
/// and `end`.
pub open spec fn risk_list_specs(ds: Seq<RiskDistribution>, start: Seq<char>, end: Seq<char>) -> Seq<MetricSpec>
    decreases ds.len(),
{
    if ds.len() == 0 {
        Seq::empty()
    } else {
        risk_list_specs(ds.drop_last(), start, end) + risk_specs(start + ds.last().key@ + end, ds.last())
    }
}

/// The risk metrics of groups of distributions, group by group.
pub open spec fn risk_group_specs(gs: Seq<Vec<RiskDistribution>>, start: Seq<char>, end: Seq<char>) -> Seq<MetricSpec>
    decreases gs.len(),
{
    if gs.len() == 0 {
        Seq::empty()
    } else {
        risk_group_specs(gs.drop_last(), start, end) + risk_list_specs(gs.last()@, start, end)
    }
}

fn append_risk_list(
    metrics: &mut Vec<MetricEntry>,
    ds: &Vec<RiskDistribution>,
    start: &str,
    end: &str,
    Ghost(ms): Ghost<Seq<MetricSpec>>,
)
    requires
        entries_of(old(metrics)@, ms),
    ensures
        entries_of(final(metrics)@, ms + risk_list_specs(ds@, start@, end@)),
{
    let mut k: usize = 0;
    while k < ds.len()
        invariant
            k <= ds@.len(),
            entries_of(metrics@, ms + risk_list_specs(ds@.take(k as int), start@, end@)),
        decreases ds@.len() - k,
    {
        proof {
            assert(ds@.take(k + 1).drop_last() =~= ds@.take(k as int));
            assert(ds@.take(k + 1).last() == ds@[k as int]);
        }
        let mut display = String::new();
        push_str(&mut display, start);
        push_str(&mut display, ds[k].key.as_str());
        push_str(&mut display, end);
        let ghost pre = ms + risk_list_specs(ds@.take(k as int), start@, end@);
        append_risk_metrics(metrics, display.as_str(), &ds[k], Ghost(pre));
        proof {
            assert(display@ =~= start@ + ds@[k as int].key@ + end@);
            assert(pre + risk_specs(display@, ds@[k as int]) =~= ms + risk_list_specs(ds@.take(k + 1), start@, end@));
        }
        k += 1;
    }
    proof {
        assert(ds@.take(ds@.len() as int) =~= ds@);
    }
}

fn append_risk_groups(
    metrics: &mut Vec<MetricEntry>,
    gs: &Vec<Vec<RiskDistribution>>,
    start: &str,
    end: &str,
    Ghost(ms): Ghost<Seq<MetricSpec>>,
)
    requires
        entries_of(old(metrics)@, ms),
    ensures
        entries_of(final(metrics)@, ms + risk_group_specs(gs@, start@, end@)),
{
    let mut k: usize = 0;
    while k < gs.len()
        invariant
            k <= gs@.len(),
            entries_of(metrics@, ms + risk_group_specs(gs@.take(k as int), start@, end@)),
        decreases gs@.len() - k,
    {
        proof {
            assert(gs@.take(k + 1).drop_last() =~= gs@.take(k as int));
            assert(gs@.take(k + 1).last() == gs@[k as int]);
        }
        let ghost pre = ms + risk_group_specs(gs@.take(k as int), start@, end@);
        append_risk_list(metrics, &gs[k], start, end, Ghost(pre));
        proof {
            assert(pre + risk_list_specs(gs@[k as int]@, start@, end@) =~= ms + risk_group_specs(
                gs@.take(k + 1),
                start@,
                end@,
            ));
        }
        k += 1;
    }
    proof {
        assert(gs@.take(gs@.len() as int) =~= gs@);
    }
}

/// A metric with a description.
pub open spec fn described(name: Seq<char>, v: MetricValue, d: Seq<char>) -> MetricSpec {
    (name, v, Some(d))
}

/// A metric without a description.
pub open spec fn plain(name: Seq<char>, v: MetricValue) -> MetricSpec {
    (name, v, None)
}

fn append_described(metrics: &mut Vec<MetricEntry>, id: &str, value: MetricValue, description: &str, Ghost(ms): Ghost<Seq<MetricSpec>>)
    requires
        entries_of(old(metrics)@, ms),
    ensures
        entries_of(final(metrics)@, ms.push(described(id@, value, description@))),
{
    let ghost n = metrics@.len() as int;
    push_metric(metrics, id, value, Some(description));
    proof {
        lemma_entries_extend(metrics@, ms, n, described(id@, value, description@));
    }
}

fn append_plain(metrics: &mut Vec<MetricEntry>, id: &str, value: MetricValue, Ghost(ms): Ghost<Seq<MetricSpec>>)
    requires
        entries_of(old(metrics)@, ms),
    ensures
        entries_of(final(metrics)@, ms.push(plain(id@, value))),
{
    let ghost n = metrics@.len() as int;
    push_metric(metrics, id, value, None);
    proof {
        lemma_entries_extend(metrics@, ms, n, plain(id@, value));
    }
}

// ---------------------------------------------------------------------------
// File size and duplication metrics
// ---------------------------------------------------------------------------

/// The file size metrics of a distribution: counts then lines per level,
/// described by the level's range of lines.
pub open spec fn file_size_specs(d: RiskDistribution) -> Seq<MetricSpec> {
    let neg = " files with "@ + decimal(d.low_risk_threshold as nat) + " or less lines of code"@;
    let low = " files with "@ + decimal(d.low_risk_threshold as nat) + " to "@ + decimal(d.medium_risk_threshold as nat)
        + " lines of code"@;
    let med = " files with "@ + decimal(d.medium_risk_threshold as nat) + " to "@ + decimal(d.high_risk_threshold as nat)
        + " lines of code"@;
    let high = " files with "@ + decimal(d.high_risk_threshold as nat) + " to "@ + decimal(
        d.very_high_risk_threshold as nat,
    ) + " lines of code"@;
    let vhigh = " files with more than "@ + decimal(d.very_high_risk_threshold as nat) + " lines of code"@;
    seq![
        described("NEGLIGIBLE_RISK_FILE_SIZE_COUNT"@, MetricValue::Count(d.negligible_risk_count), "Number of "@ + neg),
        described("LOW_RISK_FILE_SIZE_COUNT"@, MetricValue::Count(d.low_risk_count), "Number of "@ + low),
        described("MEDIUM_RISK_FILE_SIZE_COUNT"@, MetricValue::Count(d.medium_risk_count), "Number of "@ + med),
        described("HIGH_RISK_FILE_SIZE_COUNT"@, MetricValue::Count(d.high_risk_count), "Number of "@ + high),
        described("VERY_HIGH_RISK_FILE_SIZE_COUNT"@, MetricValue::Count(d.very_high_risk_count), "Number of "@ + vhigh),
        described("NEGLIGIBLE_RISK_FILE_SIZE_LOC"@, MetricValue::Count(d.negligible_risk_value), "Lines of code in "@ + neg),
        described("LOW_RISK_FILE_SIZE_LOC"@, MetricValue::Count(d.low_risk_value), "Lines of code in "@ + low),
        described("MEDIUM_RISK_FILE_SIZE_LOC"@, MetricValue::Count(d.medium_risk_value), "Lines of code in "@ + med),
        described("HIGH_RISK_FILE_SIZE_LOC"@, MetricValue::Count(d.high_risk_value), "Lines of code in "@ + high),
        described(
            "VERY_HIGH_RISK_FILE_SIZE_LOC"@,
            MetricValue::Count(d.very_high_risk_value),
            "Lines of code in "@ + vhigh,
        ),
    ]
}

fn range_description(from: usize, to: usize) -> (r: String)
    ensures
        r@ == " files with "@ + decimal(from as nat) + " to "@ + decimal(to as nat) + " lines of code"@,
{
    let mut r = String::new();
    push_str(&mut r, " files with ");
    push_decimal(&mut r, from);
    push_str(&mut r, " to ");
    push_decimal(&mut r, to);
    push_str(&mut r, " lines of code");
    r
}

fn prefixed(prefix: &str, text: &String) -> (r: String)
    ensures
        r@ == prefix@ + text@,
{
    let mut r = String::new();
    push_str(&mut r, prefix);
    push_str(&mut r, text.as_str());
    r
}

/// Appends the file size metrics of a distribution.
#[verifier::rlimit(50)]
fn append_file_size_metrics(metrics: &mut Vec<MetricEntry>, d: &RiskDistribution, Ghost(ms): Ghost<Seq<MetricSpec>>)
    requires
        entries_of(old(metrics)@, ms),
    ensures
        entries_of(final(metrics)@, ms + file_size_specs(*d)),
{
    let mut neg = String::new();
    push_str(&mut neg, " files with ");
    push_decimal(&mut neg, d.low_risk_threshold);
    push_str(&mut neg, " or less lines of code");
    let low = range_description(d.low_risk_threshold, d.medium_risk_threshold);
    let med = range_description(d.medium_risk_threshold, d.high_risk_threshold);
    let high = range_description(d.high_risk_threshold, d.very_high_risk_threshold);
    let mut vhigh = String::new();
    push_str(&mut vhigh, " files with more than ");
    push_decimal(&mut vhigh, d.very_high_risk_threshold);
    push_str(&mut vhigh, " lines of code");
    let ghost specs = file_size_specs(*d);
    proof {
        assert(neg@ =~= " files with "@ + decimal(d.low_risk_threshold as nat) + " or less lines of code"@);
        assert(vhigh@ =~= " files with more than "@ + decimal(d.very_high_risk_threshold as nat) + " lines of code"@);
    }
    let t = prefixed("Number of ", &neg);
    append_described(metrics, "NEGLIGIBLE_RISK_FILE_SIZE_COUNT", MetricValue::Count(d.negligible_risk_count), t.as_str(), Ghost(ms));
    let t = prefixed("Number of ", &low);
    append_described(metrics, "LOW_RISK_FILE_SIZE_COUNT", MetricValue::Count(d.low_risk_count), t.as_str(), Ghost(ms + specs.take(1)));
    proof { assert(ms + specs.take(1) =~= ms.push(specs[0])); }
    let t = prefixed("Number of ", &med);
    proof { assert(ms + specs.take(2) =~= (ms + specs.take(1)).push(specs[1])); }
    append_described(metrics, "MEDIUM_RISK_FILE_SIZE_COUNT", MetricValue::Count(d.medium_risk_count), t.as_str(), Ghost(ms + specs.take(2)));
    let t = prefixed("Number of ", &high);
    proof { assert(ms + specs.take(3) =~= (ms + specs.take(2)).push(specs[2])); }
    append_described(metrics, "HIGH_RISK_FILE_SIZE_COUNT", MetricValue::Count(d.high_risk_count), t.as_str(), Ghost(ms + specs.take(3)));
    let t = prefixed("Number of ", &vhigh);
    proof { assert(ms + specs.take(4) =~= (ms + specs.take(3)).push(specs[3])); }
    append_described(metrics, "VERY_HIGH_RISK_FILE_SIZE_COUNT", MetricValue::Count(d.very_high_risk_count), t.as_str(), Ghost(ms + specs.take(4)));
    let t = prefixed("Lines of code in ", &neg);
    proof { assert(ms + specs.take(5) =~= (ms + specs.take(4)).push(specs[4])); }
    append_described(metrics, "NEGLIGIBLE_RISK_FILE_SIZE_LOC", MetricValue::Count(d.negligible_risk_value), t.as_str(), Ghost(ms + specs.take(5)));
    let t = prefixed("Lines of code in ", &low);
    proof { assert(ms + specs.take(6) =~= (ms + specs.take(5)).push(specs[5])); }
    append_described(metrics, "LOW_RISK_FILE_SIZE_LOC", MetricValue::Count(d.low_risk_value), t.as_str(), Ghost(ms + specs.take(6)));
    let t = prefixed("Lines of code in ", &med);
    proof { assert(ms + specs.take(7) =~= (ms + specs.take(6)).push(specs[6])); }
    append_described(metrics, "MEDIUM_RISK_FILE_SIZE_LOC", MetricValue::Count(d.medium_risk_value), t.as_str(), Ghost(ms + specs.take(7)));
    let t = prefixed("Lines of code in ", &high);
    proof { assert(ms + specs.take(8) =~= (ms + specs.take(7)).push(specs[7])); }
    append_described(metrics, "HIGH_RISK_FILE_SIZE_LOC", MetricValue::Count(d.high_risk_value), t.as_str(), Ghost(ms + specs.take(8)));
    let t = prefixed("Lines of code in ", &vhigh);
    proof { assert(ms + specs.take(9) =~= (ms + specs.take(8)).push(specs[8])); }
    append_described(metrics, "VERY_HIGH_RISK_FILE_SIZE_LOC", MetricValue::Count(d.very_high_risk_value), t.as_str(), Ghost(ms + specs.take(9)));
    proof {
        assert((ms + specs.take(9)).push(specs[9]) =~= ms + specs);
    }
}

/// The duplication metrics of the components of one decomposition.
pub open spec fn component_duplication_specs(cs: Seq<DuplicationMetric>) -> Seq<MetricSpec>
    decreases cs.len(),
{
    if cs.len() == 0 {
        Seq::empty()
    } else {
        let c = cs.last();
        component_duplication_specs(cs.drop_last()) + seq![
            described(
                "DUPLICATION_NUMBER_OF_DUPLICATED_LINES_PRIMARY_"@ + c.key@,
                MetricValue::Count(c.duplicated_lines_of_code),
                "Number of duplicated lines"@,
            ),
            described(
                "DUPLICATION_NUMBER_OF_CLEANED_LINES_PRIMARY_"@ + c.key@,
                MetricValue::Count(c.duplicated_lines_of_code),
                "Number of lines after cleaning for duplication calculations"@,
            ),
            described(
                "DUPLICATION_PERCENTAGE_PRIMARY_"@ + c.key@,
                MetricValue::Percentage { numerator: c.duplicated_lines_of_code, denominator: c.duplicated_lines_of_code },
                "Duplication percentage"@,
            ),
        ]
    }
}

/// The duplication metrics of the components, decomposition by
/// decomposition.
pub open spec fn duplication_group_specs(gs: Seq<Vec<DuplicationMetric>>) -> Seq<MetricSpec>
    decreases gs.len(),
{
    if gs.len() == 0 {
        Seq::empty()
    } else {
        duplication_group_specs(gs.drop_last()) + component_duplication_specs(gs.last()@)
    }
}

/// The duplication metrics: overall, then per component.
pub open spec fn duplication_specs(d: DuplicationAnalysisResultsExport) -> Seq<MetricSpec> {
    let o = d.overall_duplication;
    seq![
        described("DUPLICATION_NUMBER_OF_DUPLICATES"@, MetricValue::Count(o.number_of_duplicates), "Number of duplicates"@),
        described(
            "DUPLICATION_NUMBER_OF_FILES_WITH_DUPLICATES"@,
            MetricValue::Count(o.number_of_files_with_duplicates),
            "Number of files with duplicates"@,
        ),
        described(
            "DUPLICATION_NUMBER_OF_DUPLICATED_LINES"@,
            MetricValue::Count(o.duplicated_lines_of_code),
            "Number of duplicated lines"@,
        ),
        described(
            "DUPLICATION_NUMBER_OF_CLEANED_LINES"@,
            MetricValue::Count(o.cleaned_lines_of_code),
            "Number of lines after cleaning for duplication calculations"@,
        ),
        described(
            "DUPLICATION_PERCENTAGE"@,
            MetricValue::Percentage { numerator: o.duplicated_lines_of_code, denominator: o.cleaned_lines_of_code },
            "Duplication percentage"@,
        ),
        described("UNIT_DUPLICATES_COUNT"@, MetricValue::Count(0), "Unit duplicates"@),
    ] + duplication_group_specs(d.duplication_per_component@)
}

fn append_component_duplication(metrics: &mut Vec<MetricEntry>, cs: &Vec<DuplicationMetric>, Ghost(ms): Ghost<Seq<MetricSpec>>)
    requires
        entries_of(old(metrics)@, ms),
    ensures
        entries_of(final(metrics)@, ms + component_duplication_specs(cs@)),
{
    let mut k: usize = 0;
    while k < cs.len()
        invariant
            k <= cs@.len(),
            entries_of(metrics@, ms + component_duplication_specs(cs@.take(k as int))),
        decreases cs@.len() - k,
    {
        proof {
            assert(cs@.take(k + 1).drop_last() =~= cs@.take(k as int));
            assert(cs@.take(k + 1).last() == cs@[k as int]);
        }
        let c = &cs[k];
        let ghost pre = ms + component_duplication_specs(cs@.take(k as int));
        let a = prefixed("DUPLICATION_NUMBER_OF_DUPLICATED_LINES_PRIMARY_", &c.key);
        append_described(metrics, a.as_str(), MetricValue::Count(c.duplicated_lines_of_code), "Number of duplicated lines", Ghost(pre));
        let ghost s1 = described(a@, MetricValue::Count(c.duplicated_lines_of_code), "Number of duplicated lines"@);
        let b = prefixed("DUPLICATION_NUMBER_OF_CLEANED_LINES_PRIMARY_", &c.key);
        append_described(
            metrics,
            b.as_str(),
            MetricValue::Count(c.duplicated_lines_of_code),
            "Number of lines after cleaning for duplication calculations",
            Ghost(pre.push(s1)),
        );
        let ghost s2 = described(
            b@,
            MetricValue::Count(c.duplicated_lines_of_code),
            "Number of lines after cleaning for duplication calculations"@,
        );
        let p = prefixed("DUPLICATION_PERCENTAGE_PRIMARY_", &c.key);
        let v = MetricValue::Percentage { numerator: c.duplicated_lines_of_code, denominator: c.duplicated_lines_of_code };
        append_described(metrics, p.as_str(), v, "Duplication percentage", Ghost(pre.push(s1).push(s2)));
        proof {
            assert(pre.push(s1).push(s2).push(described(p@, v, "Duplication percentage"@)) =~= ms
                + component_duplication_specs(cs@.take(k + 1)));
        }
        k += 1;
    }
    proof {
        assert(cs@.take(cs@.len() as int) =~= cs@);
    }
}

#[verifier::rlimit(50)]
fn append_duplication_metrics(
    metrics: &mut Vec<MetricEntry>,
    duplication_analysis: &DuplicationAnalysisResultsExport,
    Ghost(ms): Ghost<Seq<MetricSpec>>,
)
    requires
        entries_of(old(metrics)@, ms),
    ensures
        entries_of(final(metrics)@, ms + duplication_specs(*duplication_analysis)),
{
    let o = &duplication_analysis.overall_duplication;
    let ghost specs = duplication_specs(*duplication_analysis);
    append_described(metrics, "DUPLICATION_NUMBER_OF_DUPLICATES", MetricValue::Count(o.number_of_duplicates), "Number of duplicates", Ghost(ms));
    proof { assert(ms.push(specs[0]) =~= ms + specs.take(1)); }
    append_described(
        metrics,
        "DUPLICATION_NUMBER_OF_FILES_WITH_DUPLICATES",
        MetricValue::Count(o.number_of_files_with_duplicates),
        "Number of files with duplicates",
        Ghost(ms + specs.take(1)),
    );
    proof { assert((ms + specs.take(1)).push(specs[1]) =~= ms + specs.take(2)); }
    append_described(
        metrics,
        "DUPLICATION_NUMBER_OF_DUPLICATED_LINES",
        MetricValue::Count(o.duplicated_lines_of_code),
        "Number of duplicated lines",
        Ghost(ms + specs.take(2)),
    );
    proof { assert((ms + specs.take(2)).push(specs[2]) =~= ms + specs.take(3)); }
    append_described(
        metrics,
        "DUPLICATION_NUMBER_OF_CLEANED_LINES",
        MetricValue::Count(o.cleaned_lines_of_code),
        "Number of lines after cleaning for duplication calculations",
        Ghost(ms + specs.take(3)),
    );
    proof { assert((ms + specs.take(3)).push(specs[3]) =~= ms + specs.take(4)); }
    append_described(
        metrics,
        "DUPLICATION_PERCENTAGE",
        MetricValue::Percentage { numerator: o.duplicated_lines_of_code, denominator: o.cleaned_lines_of_code },
        "Duplication percentage",
        Ghost(ms + specs.take(4)),
    );
    proof { assert((ms + specs.take(4)).push(specs[4]) =~= ms + specs.take(5)); }
    append_described(metrics, "UNIT_DUPLICATES_COUNT", MetricValue::Count(0), "Unit duplicates", Ghost(ms + specs.take(5)));
    proof { assert((ms + specs.take(5)).push(specs[5]) =~= ms + specs.take(6)); }
    let groups = &duplication_analysis.duplication_per_component;
    let mut g: usize = 0;
    while g < groups.len()
        invariant
            g <= groups@.len(),
            specs == duplication_specs(*duplication_analysis),
            *groups == duplication_analysis.duplication_per_component,
            entries_of(metrics@, ms + specs.take(6) + duplication_group_specs(groups@.take(g as int))),
        decreases groups@.len() - g,
    {
        proof {
            assert(groups@.take(g + 1).drop_last() =~= groups@.take(g as int));
            assert(groups@.take(g + 1).last() == groups@[g as int]);
        }
        let ghost pre = ms + specs.take(6) + duplication_group_specs(groups@.take(g as int));
        append_component_duplication(metrics, &groups[g], Ghost(pre));
        proof {
            assert(pre + component_duplication_specs(groups@[g as int]@) =~= ms + specs.take(6)
                + duplication_group_specs(groups@.take(g + 1)));
        }
        g += 1;
    }
    proof {
        assert(groups@.take(groups@.len() as int) =~= groups@);
        assert(ms + specs.take(6) + duplication_group_specs(groups@) =~= ms + specs);
    }
}


// ---------------------------------------------------------------------------
// The whole list
// ---------------------------------------------------------------------------

/// The metrics of the components of a decomposition.
pub open spec fn component_metric_specs(key: Seq<char>, cs: Seq<AspectAnalysisExport>) -> Seq<MetricSpec>
    decreases cs.len(),
{
    if cs.len() == 0 {
        Seq::empty()
    } else {
        let c = cs.last();
        component_metric_specs(key, cs.drop_last()) + aspect_specs(
            "DECOMPOSITION_"@ + key + "_"@ + c.name@,
            c.files_count,
            c.lines_of_code,
            c.file_count_per_extension@,
            c.lines_of_code_per_extension@,
        )
    }
}

/// The metrics of the decompositions: their components, then their anchor
/// dependency links (none when the decomposition's flag turns the built-in
/// finders off), component dependencies and cyclic places.
pub open spec fn decomposition_specs(ds: Seq<LogicalDecompositionExport>, flags: Seq<bool>, links: nat) -> Seq<MetricSpec>
    decreases ds.len(),
{
    if ds.len() == 0 {
        Seq::empty()
    } else {
        let d = ds.last();
        let cds = d.component_dependencies@;
        decomposition_specs(ds.drop_last(), flags.drop_last(), links) + component_metric_specs(d.key@, d.components@)
            + seq![
            described(
                "NUMBER_OF_DEPENDENCY_LINKS_DECOMPOSITION_"@ + d.key@,
                MetricValue::Count(
                    if flags.last() {
                        links as usize
                    } else {
                        0
                    },
                ),
                "Number of anchor dependencies"@,
            ),
            plain("NUMBER_OF_DEPENDENCIES_DECOMPOSITION_"@ + d.key@, MetricValue::Count(cds.len() as usize)),
            plain(
                "NUMBER_OF_PLACES_WITH_CYCLIC_DEPENDENCIES_DECOMPOSITION_"@ + d.key@,
                MetricValue::Count((capped(reversed_pairs(cds, cds.len() as int)) / 2) as usize),
            ),
        ]
    }
}

/// A concern's name, or nothing.
pub open spec fn name_or_empty(n: Option<String>) -> Seq<char> {
    match n {
        Some(s) => s@,
        None => Seq::empty(),
    }
}

/// The metrics of the concerns of one group.
pub open spec fn concern_list_specs(key: Seq<char>, cs: Seq<AnalysisAspectExport>) -> Seq<MetricSpec>
    decreases cs.len(),
{
    if cs.len() == 0 {
        Seq::empty()
    } else {
        let c = cs.last();
        concern_list_specs(key, cs.drop_last()) + aspect_specs(
            "CONCERN_"@ + key + "_"@ + name_or_empty(c.name),
            c.files_count,
            c.lines_of_code,
            c.file_count_per_extension@,
            c.lines_of_code_per_extension@,
        )
    }
}

/// The metrics of the concerns, group by group.
pub open spec fn concern_specs(gs: Seq<ConcernsGroupExport>) -> Seq<MetricSpec>
    decreases gs.len(),
{
    if gs.len() == 0 {
        Seq::empty()
    } else {
        concern_specs(gs.drop_last()) + concern_list_specs(gs.last().key@, gs.last().concerns@)
    }
}

/// `a - b`, or 0 when `b` is larger.
pub open spec fn floor_sub(a: nat, b: nat) -> nat {
    if a >= b {
        (a - b) as nat
    } else {
        0
    }
}

/// The unit metrics: counts and lines, then size and complexity risk
/// overall, per component and per extension.
pub open spec fn unit_specs(main_lines: usize, u: UnitsAnalysisResultsExport) -> Seq<MetricSpec> {
    let cc = u.conditional_complexity_risk_distribution;
    seq![
        described("NUMBER_OF_UNITS"@, MetricValue::Count(u.total_number_of_units), "Number of units"@),
        described("LINES_OF_CODE_IN_UNITS"@, MetricValue::Count(u.lines_of_code_in_units), "Lines of code in units"@),
        described(
            "LINES_OF_CODE_OUTSIDE_UNITS"@,
            MetricValue::Count(floor_sub(main_lines as nat, u.lines_of_code_in_units as nat) as usize),
            "Lines of code in units"@,
        ),
    ] + risk_specs("Unit size "@, u.unit_size_risk_distribution) + risk_group_specs(
        u.unit_size_risk_distribution_per_component@,
        "Unit Size Component "@,
        ": "@,
    ) + risk_list_specs(u.unit_size_risk_distribution_per_extension@, "Unit Size Extension "@, ": "@) + risk_specs(
        "Conditional complexity: "@,
        cc,
    ) + seq![
        plain(
            "CONDITIONAL_COMPLEXITY_HIGH_PLUS_RISK_COUNT"@,
            MetricValue::Count(capped((cc.high_risk_count + cc.very_high_risk_count) as nat) as usize),
        ),
        plain(
            "CONDITIONAL_COMPLEXITY_HIGH_PLUS_RISK_LOC"@,
            MetricValue::Count(capped((cc.high_risk_value + cc.very_high_risk_value) as nat) as usize),
        ),
    ] + risk_group_specs(
        u.conditional_complexity_risk_distribution_per_component@,
        "Conditional Complexity Component "@,
        " "@,
    ) + risk_list_specs(
        u.conditional_complexity_risk_distribution_per_extension@,
        "Conditional Complexity Component "@,
        ": "@,
    )
}

/// The whole metrics list.
pub open spec fn all_metric_specs(
    files_count: nat,
    main: AnalysisAspectExport,
    test: AnalysisAspectExport,
    generated: AnalysisAspectExport,
    build: AnalysisAspectExport,
    other: AnalysisAspectExport,
    concerns: Seq<ConcernsGroupExport>,
    decompositions: Seq<LogicalDecompositionExport>,
    flags: Seq<bool>,
    files_analysis: FilesAnalysisResultsExport,
    units: UnitsAnalysisResultsExport,
    duplication: DuplicationAnalysisResultsExport,
    links: nat,
    millis: u64,
) -> Seq<MetricSpec> {
    seq![
        described(
            "TOTAL_NUMBER_OF_FILES"@,
            MetricValue::Count(files_count as usize),
            "Total number of files in the source folder"@,
        ),
    ] + aspect_specs(
        "MAIN"@,
        main.files_count,
        main.lines_of_code,
        main.file_count_per_extension@,
        main.lines_of_code_per_extension@,
    ) + aspect_specs(
        "TEST"@,
        test.files_count,
        test.lines_of_code,
        test.file_count_per_extension@,
        test.lines_of_code_per_extension@,
    ) + seq![
        described(
            "TEST_VS_MAIN_LINES_OF_CODE_PERCENTAGE"@,
            MetricValue::TestRatio { test: test.lines_of_code, main: main.lines_of_code },
            "Test / main code ratio"@,
        ),
    ] + aspect_specs(
        "GENERATED"@,
        generated.files_count,
        generated.lines_of_code,
        generated.file_count_per_extension@,
        generated.lines_of_code_per_extension@,
    ) + aspect_specs(
        "BUILD_AND_DEPLOYMENT"@,
        build.files_count,
        build.lines_of_code,
        build.file_count_per_extension@,
        build.lines_of_code_per_extension@,
    ) + aspect_specs(
        "OTHER"@,
        other.files_count,
        other.lines_of_code,
        other.file_count_per_extension@,
        other.lines_of_code_per_extension@,
    ) + decomposition_specs(decompositions, flags, links) + concern_specs(concerns) + file_size_specs(
        files_analysis.overall_file_size_distribution,
    ) + unit_specs(main.lines_of_code, units) + duplication_specs(duplication) + seq![
        described(
            "TOTAL_ANALYSIS_TIME_IN_MILLIS"@,
            MetricValue::Millis(millis),
            "Total analysis time in milliseconds"@,
        ),
    ]
}

/// `r` is the metrics list.
pub open spec fn metrics_list_of(
    r: Seq<MetricEntry>,
    files_count: nat,
    main: AnalysisAspectExport,
    test: AnalysisAspectExport,
    generated: AnalysisAspectExport,
    build: AnalysisAspectExport,
    other: AnalysisAspectExport,
    concerns: Seq<ConcernsGroupExport>,
    decompositions: Seq<LogicalDecompositionExport>,
    files_analysis: FilesAnalysisResultsExport,
    units: UnitsAnalysisResultsExport,
    duplication: DuplicationAnalysisResultsExport,
    links: nat,
    millis: u64,
) -> bool {
    entries_of(
        r,
        all_metric_specs(
            files_count,
            main,
            test,
            generated,
            build,
            other,
            concerns,
            decompositions,
            finder_flags(decompositions),
            files_analysis,
            units,
            duplication,
            links,
            millis,
        ),
    )
}

fn append_decompositions(
    metrics: &mut Vec<MetricEntry>,
    decompositions: &Vec<LogicalDecompositionExport>,
    links: usize,
    Ghost(ms): Ghost<Seq<MetricSpec>>,
) -> (flags: Ghost<Seq<bool>>)
    requires
        entries_of(old(metrics)@, ms),
    ensures
        flags@ == finder_flags(decompositions@),
        entries_of(final(metrics)@, ms + decomposition_specs(decompositions@, flags@, links as nat)),
{
    let ghost mut flags: Seq<bool> = Seq::empty();
    let mut k: usize = 0;
    while k < decompositions.len()
        invariant
            k <= decompositions@.len(),
            flags == finder_flags(decompositions@.take(k as int)),
            entries_of(metrics@, ms + decomposition_specs(decompositions@.take(k as int), flags, links as nat)),
        decreases decompositions@.len() - k,
    {
        let d = &decompositions[k];
        let ghost pre = ms + decomposition_specs(decompositions@.take(k as int), flags, links as nat);
        let mut c: usize = 0;
        while c < d.components.len()
            invariant
                c <= d.components@.len(),
                entries_of(metrics@, pre + component_metric_specs(d.key@, d.components@.take(c as int))),
            decreases d.components@.len() - c,
        {
            proof {
                assert(d.components@.take(c + 1).drop_last() =~= d.components@.take(c as int));
                assert(d.components@.take(c + 1).last() == d.components@[c as int]);
            }
            let mut name = String::new();
            push_str(&mut name, "DECOMPOSITION_");
            push_str(&mut name, d.key.as_str());
            push_str(&mut name, "_");
            push_str(&mut name, d.components[c].name.as_str());
            let ghost before = pre + component_metric_specs(d.key@, d.components@.take(c as int));
            append_component_metrics(metrics, name.as_str(), &d.components[c], Ghost(before));
            proof {
                assert(name@ =~= "DECOMPOSITION_"@ + d.key@ + "_"@ + d.components@[c as int].name@);
                assert(before + aspect_specs(
                    name@,
                    d.components@[c as int].files_count,
                    d.components@[c as int].lines_of_code,
                    d.components@[c as int].file_count_per_extension@,
                    d.components@[c as int].lines_of_code_per_extension@,
                ) =~= pre + component_metric_specs(d.key@, d.components@.take(c + 1)));
            }
            c += 1;
        }
        proof {
            assert(d.components@.take(d.components@.len() as int) =~= d.components@);
        }
        let ghost p1 = pre + component_metric_specs(d.key@, d.components@);
        let uses = uses_built_in_dependency_finders(&d.logical_decomposition);
        let value = if uses {
            links
        } else {
            0
        };
        let a = prefixed("NUMBER_OF_DEPENDENCY_LINKS_DECOMPOSITION_", &d.key);
        append_described(metrics, a.as_str(), MetricValue::Count(value), "Number of anchor dependencies", Ghost(p1));
        let ghost s1 = described(a@, MetricValue::Count(value), "Number of anchor dependencies"@);
        let b = prefixed("NUMBER_OF_DEPENDENCIES_DECOMPOSITION_", &d.key);
        append_plain(metrics, b.as_str(), MetricValue::Count(d.component_dependencies.len()), Ghost(p1.push(s1)));
        let ghost s2 = plain(b@, MetricValue::Count(d.component_dependencies.len()));
        let cyclic = cyclic_component_dependency_places(&d.component_dependencies);
        let cname = prefixed("NUMBER_OF_PLACES_WITH_CYCLIC_DEPENDENCIES_DECOMPOSITION_", &d.key);
        append_plain(metrics, cname.as_str(), MetricValue::Count(cyclic), Ghost(p1.push(s1).push(s2)));
        proof {
            let nf = flags.push(uses);
            assert(nf =~= finder_flags(decompositions@.take(k + 1)));
            assert(decompositions@.take(k + 1).drop_last() =~= decompositions@.take(k as int));
            assert(decompositions@.take(k + 1).last() == decompositions@[k as int]);
            assert(nf.drop_last() =~= flags);
            assert(p1.push(s1).push(s2).push(plain(cname@, MetricValue::Count(cyclic))) =~= ms + decomposition_specs(
                decompositions@.take(k + 1),
                nf,
                links as nat,
            ));
            flags = nf;
        }
        k += 1;
    }
    proof {
        assert(decompositions@.take(decompositions@.len() as int) =~= decompositions@);
    }
    Ghost(flags)
}

fn append_concerns(metrics: &mut Vec<MetricEntry>, groups: &Vec<ConcernsGroupExport>, Ghost(ms): Ghost<Seq<MetricSpec>>)
    requires
        entries_of(old(metrics)@, ms),
    ensures
        entries_of(final(metrics)@, ms + concern_specs(groups@)),
{
    let mut g: usize = 0;
    while g < groups.len()
        invariant
            g <= groups@.len(),
            entries_of(metrics@, ms + concern_specs(groups@.take(g as int))),
        decreases groups@.len() - g,
    {
        proof {
            assert(groups@.take(g + 1).drop_last() =~= groups@.take(g as int));
            assert(groups@.take(g + 1).last() == groups@[g as int]);
        }
        let group = &groups[g];
        let ghost pre = ms + concern_specs(groups@.take(g as int));
        let mut c: usize = 0;
        while c < group.concerns.len()
            invariant
                c <= group.concerns@.len(),
                entries_of(metrics@, pre + concern_list_specs(group.key@, group.concerns@.take(c as int))),
            decreases group.concerns@.len() - c,
        {
            proof {
                assert(group.concerns@.take(c + 1).drop_last() =~= group.concerns@.take(c as int));
                assert(group.concerns@.take(c + 1).last() == group.concerns@[c as int]);
            }
            let concern = &group.concerns[c];
            let mut name = String::new();
            push_str(&mut name, "CONCERN_");
            push_str(&mut name, group.key.as_str());
            push_str(&mut name, "_");
            match &concern.name {
                Some(n) => push_str(&mut name, n.as_str()),
                None => {},
            }
            proof {
                assert(name@ =~= "CONCERN_"@ + group.key@ + "_"@ + name_or_empty(concern.name));
            }
            let ghost before = pre + concern_list_specs(group.key@, group.concerns@.take(c as int));
            append_named_aspect_metrics(metrics, name.as_str(), concern, Ghost(before));
            proof {
                assert(before + aspect_specs(
                    name@,
                    concern.files_count,
                    concern.lines_of_code,
                    concern.file_count_per_extension@,
                    concern.lines_of_code_per_extension@,
                ) =~= pre + concern_list_specs(group.key@, group.concerns@.take(c + 1)));
            }
            c += 1;
        }
        proof {
            assert(group.concerns@.take(group.concerns@.len() as int) =~= group.concerns@);
        }
        g += 1;
    }
    proof {
        assert(groups@.take(groups@.len() as int) =~= groups@);
    }
}

#[verifier::rlimit(60)]
fn append_unit_metrics(
    metrics: &mut Vec<MetricEntry>,
    main_lines: usize,
    u: &UnitsAnalysisResultsExport,
    Ghost(ms): Ghost<Seq<MetricSpec>>,
)
    requires
        entries_of(old(metrics)@, ms),
    ensures
        entries_of(final(metrics)@, ms + unit_specs(main_lines, *u)),
{
    let ghost specs = unit_specs(main_lines, *u);
    append_described(metrics, "NUMBER_OF_UNITS", MetricValue::Count(u.total_number_of_units), "Number of units", Ghost(ms));
    let ghost m1 = ms.push(described("NUMBER_OF_UNITS"@, MetricValue::Count(u.total_number_of_units), "Number of units"@));
    append_described(
        metrics,
        "LINES_OF_CODE_IN_UNITS",
        MetricValue::Count(u.lines_of_code_in_units),
        "Lines of code in units",
        Ghost(m1),
    );
    let ghost m2 = m1.push(
        described("LINES_OF_CODE_IN_UNITS"@, MetricValue::Count(u.lines_of_code_in_units), "Lines of code in units"@),
    );
    let outside = if main_lines >= u.lines_of_code_in_units {
        main_lines - u.lines_of_code_in_units
    } else {
        0
    };
    append_described(metrics, "LINES_OF_CODE_OUTSIDE_UNITS", MetricValue::Count(outside), "Lines of code in units", Ghost(m2));
    let ghost m3 = m2.push(described("LINES_OF_CODE_OUTSIDE_UNITS"@, MetricValue::Count(outside), "Lines of code in units"@));
    append_risk_metrics(metrics, "Unit size ", &u.unit_size_risk_distribution, Ghost(m3));
    let ghost m4 = m3 + risk_specs("Unit size "@, u.unit_size_risk_distribution);
    append_risk_groups(metrics, &u.unit_size_risk_distribution_per_component, "Unit Size Component ", ": ", Ghost(m4));
    let ghost m5 = m4 + risk_group_specs(u.unit_size_risk_distribution_per_component@, "Unit Size Component "@, ": "@);
    append_risk_list(metrics, &u.unit_size_risk_distribution_per_extension, "Unit Size Extension ", ": ", Ghost(m5));
    let ghost m6 = m5 + risk_list_specs(u.unit_size_risk_distribution_per_extension@, "Unit Size Extension "@, ": "@);
    let cc = &u.conditional_complexity_risk_distribution;
    append_risk_metrics(metrics, "Conditional complexity: ", cc, Ghost(m6));
    let ghost m7 = m6 + risk_specs("Conditional complexity: "@, *cc);
    let count = cc.high_risk_count.saturating_add(cc.very_high_risk_count);
    append_plain(metrics, "CONDITIONAL_COMPLEXITY_HIGH_PLUS_RISK_COUNT", MetricValue::Count(count), Ghost(m7));
    let ghost m8 = m7.push(plain("CONDITIONAL_COMPLEXITY_HIGH_PLUS_RISK_COUNT"@, MetricValue::Count(count)));
    let loc = cc.high_risk_value.saturating_add(cc.very_high_risk_value);
    append_plain(metrics, "CONDITIONAL_COMPLEXITY_HIGH_PLUS_RISK_LOC", MetricValue::Count(loc), Ghost(m8));
    let ghost m9 = m8.push(plain("CONDITIONAL_COMPLEXITY_HIGH_PLUS_RISK_LOC"@, MetricValue::Count(loc)));
    append_risk_groups(
        metrics,
        &u.conditional_complexity_risk_distribution_per_component,
        "Conditional Complexity Component ",
        " ",
        Ghost(m9),
    );
    let ghost m10 = m9 + risk_group_specs(
        u.conditional_complexity_risk_distribution_per_component@,
        "Conditional Complexity Component "@,
        " "@,
    );
    append_risk_list(
        metrics,
        &u.conditional_complexity_risk_distribution_per_extension,
        "Conditional Complexity Component ",
        ": ",
        Ghost(m10),
    );
    proof {
        assert(m10 + risk_list_specs(
            u.conditional_complexity_risk_distribution_per_extension@,
            "Conditional Complexity Component "@,
            ": "@,
        ) =~= ms + specs);
    }
}

/// The metrics list of the analysis, in a fixed order: files, scopes,
/// decompositions, concerns, file sizes, units, duplication and analysis
/// time. Whether a decomposition counts its anchor dependency links is
/// read from its dependency finder settings.
#[verifier::rlimit(60)]
pub fn build_metrics_list(
    files: &Vec<FileRecord>,
    main_aspect: &AnalysisAspectExport,
    test_aspect: &AnalysisAspectExport,
    generated_aspect: &AnalysisAspectExport,
    build_and_deploy_aspect: &AnalysisAspectExport,
    other_aspect: &AnalysisAspectExport,
    concerns_analysis: &Vec<ConcernsGroupExport>,
    logical_decompositions: &Vec<LogicalDecompositionExport>,
    files_analysis: &FilesAnalysisResultsExport,
    units_analysis: &UnitsAnalysisResultsExport,
    duplication_analysis: &DuplicationAnalysisResultsExport,
    main_dependencies: &Vec<Dependency>,
    total_analysis_time_ms: u64,
) -> (r: Vec<MetricEntry>)
    ensures
        metrics_list_of(
            r@,
            files@.len(),
            *main_aspect,
            *test_aspect,
            *generated_aspect,
            *build_and_deploy_aspect,
            *other_aspect,
            concerns_analysis@,
            logical_decompositions@,
            *files_analysis,
            *units_analysis,
            *duplication_analysis,
            main_dependencies@.len(),
            total_analysis_time_ms,
        ),
{
    let mut metrics: Vec<MetricEntry> = Vec::new();
    let ghost m0: Seq<MetricSpec> = Seq::empty();
    append_described(
        &mut metrics,
        "TOTAL_NUMBER_OF_FILES",
        MetricValue::Count(files.len()),
        "Total number of files in the source folder",
        Ghost(m0),
    );
    let ghost m1 = m0.push(
        described("TOTAL_NUMBER_OF_FILES"@, MetricValue::Count(files.len()), "Total number of files in the source folder"@),
    );
    append_named_aspect_metrics(&mut metrics, "MAIN", main_aspect, Ghost(m1));
    let ghost m2 = m1 + aspect_specs(
        "MAIN"@,
        main_aspect.files_count,
        main_aspect.lines_of_code,
        main_aspect.file_count_per_extension@,
        main_aspect.lines_of_code_per_extension@,
    );
    append_named_aspect_metrics(&mut metrics, "TEST", test_aspect, Ghost(m2));
    let ghost m3 = m2 + aspect_specs(
        "TEST"@,
        test_aspect.files_count,
        test_aspect.lines_of_code,
        test_aspect.file_count_per_extension@,
        test_aspect.lines_of_code_per_extension@,
    );
    let ratio = MetricValue::TestRatio { test: test_aspect.lines_of_code, main: main_aspect.lines_of_code };
    append_described(&mut metrics, "TEST_VS_MAIN_LINES_OF_CODE_PERCENTAGE", ratio, "Test / main code ratio", Ghost(m3));
    let ghost m4 = m3.push(described("TEST_VS_MAIN_LINES_OF_CODE_PERCENTAGE"@, ratio, "Test / main code ratio"@));
    append_named_aspect_metrics(&mut metrics, "GENERATED", generated_aspect, Ghost(m4));
    let ghost m5 = m4 + aspect_specs(
        "GENERATED"@,
        generated_aspect.files_count,
        generated_aspect.lines_of_code,
        generated_aspect.file_count_per_extension@,
        generated_aspect.lines_of_code_per_extension@,
    );
    append_named_aspect_metrics(&mut metrics, "BUILD_AND_DEPLOYMENT", build_and_deploy_aspect, Ghost(m5));
    let ghost m6 = m5 + aspect_specs(
        "BUILD_AND_DEPLOYMENT"@,
        build_and_deploy_aspect.files_count,
        build_and_deploy_aspect.lines_of_code,
        build_and_deploy_aspect.file_count_per_extension@,
        build_and_deploy_aspect.lines_of_code_per_extension@,
    );
    append_named_aspect_metrics(&mut metrics, "OTHER", other_aspect, Ghost(m6));
    let ghost m7 = m6 + aspect_specs(
        "OTHER"@,
        other_aspect.files_count,
        other_aspect.lines_of_code,
        other_aspect.file_count_per_extension@,
        other_aspect.lines_of_code_per_extension@,
    );
    let flags = append_decompositions(&mut metrics, logical_decompositions, main_dependencies.len(), Ghost(m7));
    let ghost m8 = m7 + decomposition_specs(logical_decompositions@, flags@, main_dependencies@.len());
    append_concerns(&mut metrics, concerns_analysis, Ghost(m8));
    let ghost m9 = m8 + concern_specs(concerns_analysis@);
    append_file_size_metrics(&mut metrics, &files_analysis.overall_file_size_distribution, Ghost(m9));
    let ghost m10 = m9 + file_size_specs(files_analysis.overall_file_size_distribution);
    append_unit_metrics(&mut metrics, main_aspect.lines_of_code, units_analysis, Ghost(m10));
    let ghost m11 = m10 + unit_specs(main_aspect.lines_of_code, *units_analysis);
    append_duplication_metrics(&mut metrics, duplication_analysis, Ghost(m11));
    let ghost m12 = m11 + duplication_specs(*duplication_analysis);
    append_described(
        &mut metrics,
        "TOTAL_ANALYSIS_TIME_IN_MILLIS",
        MetricValue::Millis(total_analysis_time_ms),
        "Total analysis time in milliseconds",
        Ghost(m12),
    );
    proof {
        assert(m12.push(
            described(
                "TOTAL_ANALYSIS_TIME_IN_MILLIS"@,
                MetricValue::Millis(total_analysis_time_ms),
                "Total analysis time in milliseconds"@,
            ),
        ) =~= all_metric_specs(
            files@.len(),
            *main_aspect,
            *test_aspect,
            *generated_aspect,
            *build_and_deploy_aspect,
            *other_aspect,
            concerns_analysis@,
            logical_decompositions@,
            flags@,
            *files_analysis,
            *units_analysis,
            *duplication_analysis,
            main_dependencies@.len(),
            total_analysis_time_ms,
        ));
    }
    metrics
}

/// Whether a metric is listed in the trend report: its id is matched as a
/// whole by the inclusion pattern, when there is one, and not by the
/// exclusion pattern, when there is one.
pub open spec fn metric_listed(id: Seq<char>, wanted: Option<Seq<char>>, unwanted: Option<Seq<char>>) -> bool {
    &&& (wanted matches Some(p) ==> full_match(p, id))
    &&& !(unwanted matches Some(p) && full_match(p, id))
}

/// Whether `metric` is listed in the trend report.
pub fn should_include_metric(metric: &MetricEntry, include_regex: Option<&str>, exclude_regex: Option<&str>) -> (b:
    bool)
    ensures
        b == metric_listed(
            metric.id@,
            match include_regex {
                Some(p) => Some(p@),
                None => None,
            },
            match exclude_regex {
                Some(p) => Some(p@),
                None => None,
            },
        ),
{
    let wanted = match include_regex {
        Some(pattern) => matches_entire(pattern, metric.id.as_str()),
        None => true,
    };
    let unwanted = match exclude_regex {
        Some(pattern) => matches_entire(pattern, metric.id.as_str()),
        None => false,
    };
    wanted && !unwanted
}

/// The position of the metric a control checks: the last metric whose id
/// equals the control's metric name, both in upper case.
pub open spec fn control_metric_index(metrics: Seq<MetricEntry>, name: Seq<char>) -> Option<int>
    decreases metrics.len(),
{
    if metrics.len() == 0 {
        None
    } else if upper(metrics.last().id@) == upper(name) {
        Some(metrics.len() - 1)
    } else {
        control_metric_index(metrics.drop_last(), name)
    }
}

/// Finds the metric that a control names.
pub fn find_control_metric(metrics: &Vec<MetricEntry>, name: &str) -> (r: Option<usize>)
    ensures
        match r {
            Some(k) => control_metric_index(metrics@, name@) == Some(k as int),
            None => control_metric_index(metrics@, name@) is None,
        },
{
    let wanted = to_upper(name);
    let mut i: usize = metrics.len();
    proof {
        assert(metrics@.take(i as int) =~= metrics@);
    }
    while i > 0
        invariant
            i <= metrics@.len(),
            wanted@ == upper(name@),
            control_metric_index(metrics@, name@) == control_metric_index(metrics@.take(i as int), name@),
        decreases i,
    {
        proof {
            assert(metrics@.take(i as int).drop_last() =~= metrics@.take(i - 1));
            assert(metrics@.take(i as int).last() == metrics@[i - 1]);
        }
        let id = to_upper(metrics[i - 1].id.as_str());
        if str_eq(id.as_str(), wanted.as_str()) {
            return Some(i - 1);
        }
        i -= 1;
    }
    None
}

} // verus!
