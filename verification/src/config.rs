//! Analysis configuration: scopes, logical decompositions, concerns, goals,
//! thresholds and tag rules.
use vstd::prelude::*;

use crate::ir::Metadata;

verus! {

#[verifier::external_type_specification]
#[verifier::external_body]
pub struct ExJsonValue(serde_json::Value);

/// `serde_json::Value`'s `Clone`: a copy of a JSON value, of which nothing
/// is claimed.
pub assume_specification[ <serde_json::Value as core::clone::Clone>::clone ](
    value: &serde_json::Value,
) -> serde_json::Value;

/// What `serde_json::Value::get` returns for a string key: the member of
/// an object under that key, if the value is an object that has one.
pub uninterp spec fn json_member(value: serde_json::Value, key: Seq<char>) -> Option<serde_json::Value>;

/// What `serde_json::Value::as_bool` returns: the boolean a value holds, if
/// it is one.
pub uninterp spec fn json_boolean(value: serde_json::Value) -> Option<bool>;

/// `serde_json::Value::get` with a string key. The result is the named
/// `json_member` of the value and the key; what that member is, is not
/// visible to the proofs.
#[verifier::external_body]
fn json_get<'a>(value: &'a serde_json::Value, key: &str) -> (r: Option<&'a serde_json::Value>)
    ensures
        match r {
            Some(member) => json_member(*value, key@) == Some(*member),
            None => json_member(*value, key@) is None,
        },
{
    value.get(key)
}

/// `serde_json::Value::as_bool`. The result is the named `json_boolean` of
/// the value.
#[verifier::external_body]
fn json_as_bool(value: &serde_json::Value) -> (r: Option<bool>)
    ensures
        r == json_boolean(*value),
{
    value.as_bool()
}

/// The whole configuration of an analysis.
#[derive(Debug, Clone, Default)]
pub struct SokratesConfig {
    pub metadata: Metadata,
    pub src_root: String,
    pub extensions: Vec<String>,
    pub main: NamedSourceCodeAspectConfig,
    pub test: NamedSourceCodeAspectConfig,
    pub generated: NamedSourceCodeAspectConfig,
    pub build_and_deployment: NamedSourceCodeAspectConfig,
    pub other: NamedSourceCodeAspectConfig,
    pub logical_decompositions: Vec<LogicalDecompositionConfig>,
    pub concern_groups: Vec<ConcernGroupConfig>,
    pub goals_and_controls: Vec<MetricsWithGoalConfig>,
    pub analysis: AnalysisConfig,
    pub tag_rules: Vec<TagRuleConfig>,
}

/// A named group of files: listed explicitly or selected by filters.
#[derive(Debug, Clone, Default)]
pub struct NamedSourceCodeAspectConfig {
    pub name: String,
    pub source_file_filters: Vec<SourceFileFilterConfig>,
    pub files: Vec<String>,
}

/// A file filter: a path pattern and a content pattern, both matched as
/// whole text; an exception removes the files it matches.
#[derive(Debug, Clone, Default)]
pub struct SourceFileFilterConfig {
    pub path_pattern: String,
    pub content_pattern: String,
    pub exception: bool,
    pub note: String,
}

/// A logical decomposition of the code into components.
#[derive(Debug, Clone, Default)]
pub struct LogicalDecompositionConfig {
    pub name: String,
    pub scope: String,
    pub filters: Vec<SourceFileFilterConfig>,
    pub components_folder_depth: usize,
    pub min_components_count: usize,
    pub components: Vec<NamedSourceCodeAspectConfig>,
    pub meta_components: Vec<serde_json::Value>,
    pub groups: Vec<serde_json::Value>,
    pub include_remaining_files: bool,
    pub dependencies_finder: serde_json::Value,
    pub rendering_options: serde_json::Value,
    pub include_external_components: bool,
    pub dependency_link_threshold: usize,
    pub duplication_link_threshold: usize,
    pub temporal_link_threshold: usize,
    pub max_search_depth_lines: usize,
}

/// A group of concerns.
#[derive(Debug, Clone, Default)]
pub struct ConcernGroupConfig {
    pub name: String,
    pub concerns: Vec<ConcernConfig>,
    pub meta_concerns: Vec<serde_json::Value>,
}

/// A concern: files selected by name or by filters.
#[derive(Debug, Clone, Default)]
pub struct ConcernConfig {
    pub name: String,
    pub source_file_filters: Vec<SourceFileFilterConfig>,
    pub files: Vec<String>,
    pub text_operations: Vec<serde_json::Value>,
}

/// A goal with the metric controls that check it.
#[derive(Debug, Clone, Default)]
pub struct MetricsWithGoalConfig {
    pub goal: String,
    pub description: String,
    pub controls: Vec<MetricRangeControlConfig>,
}

/// A control: a metric and its desired range.
#[derive(Debug, Clone, Default)]
pub struct MetricRangeControlConfig {
    pub metric: String,
    pub description: String,
    pub desired_range: RangeConfig,
}

/// A desired range of a metric with a tolerance, as decimal texts.
#[derive(Debug, Clone)]
pub struct RangeConfig {
    pub min: String,
    pub max: String,
    pub tolerance: String,
}

impl Default for RangeConfig {
    /// No bounds and a tolerance of `0`.
    fn default() -> (r: Self)
        ensures
            r.min@.len() == 0,
            r.max@.len() == 0,
            r.tolerance@ == "0"@,
    {
        RangeConfig { min: String::new(), max: String::new(), tolerance: default_zero_string() }
    }
}

/// A tag given to files whose paths match its patterns and none of its
/// exclusion patterns.
#[derive(Debug, Clone, Default)]
pub struct TagRuleConfig {
    pub tag: String,
    pub color: String,
    pub path_patterns: Vec<String>,
    pub exclude_path_patterns: Vec<String>,
}

/// Analysis switches, limits and risk thresholds.
#[derive(Debug, Clone)]
pub struct AnalysisConfig {
    pub skip_duplication: bool,
    pub skip_correlations: bool,
    pub skip_dependencies: bool,
    pub save_source_files: bool,
    pub save_code_fragments: bool,
    pub max_file_size_bytes: usize,
    pub max_lines: usize,
    pub max_line_length: usize,
    pub max_temporal_dependencies_depth_days: usize,
    pub loc_duplication_threshold: usize,
    pub min_duplication_block_loc: usize,
    pub max_top_list_size: usize,
    pub analyzer_overrides: Vec<serde_json::Value>,
    pub file_size_thresholds: ThresholdsConfig,
    pub file_age_thresholds: ThresholdsConfig,
    pub file_update_frequency_thresholds: ThresholdsConfig,
    pub file_contributors_count_thresholds: ThresholdsConfig,
    pub unit_size_thresholds: ThresholdsConfig,
    pub conditional_complexity_thresholds: ThresholdsConfig,
    pub file_conditional_complexity_thresholds: ThresholdsConfig,
    pub commit_files_count_thresholds: ThresholdsConfig,
    pub custom_html_report_header_fragment: String,
    pub analyze_concern_overlaps: bool,
}

/// Four increasing thresholds that split values into five risk levels.
#[derive(Debug, Clone, Copy, Default, PartialEq, Eq, Structural)]
pub struct ThresholdsConfig {
    pub low: usize,
    pub medium: usize,
    pub high: usize,
    pub very_high: usize,
}

impl Default for AnalysisConfig {
    /// Everything analysed, source files and fragments saved, and the
    /// standard limits and thresholds.
    fn default() -> (r: Self)
        ensures
            !r.skip_duplication && !r.skip_correlations && !r.skip_dependencies,
            r.save_source_files && r.save_code_fragments,
            r.max_file_size_bytes == 1_000_000,
            r.max_lines == 10_000,
            r.max_line_length == 1_000,
            r.max_temporal_dependencies_depth_days == 365,
            r.loc_duplication_threshold == 10_000_000,
            r.min_duplication_block_loc == 6,
            r.max_top_list_size == 50,
            r.analyzer_overrides@.len() == 0,
            r.file_size_thresholds == (ThresholdsConfig { low: 100, medium: 200, high: 500, very_high: 1_000 }),
            r.file_age_thresholds == (ThresholdsConfig { low: 30, medium: 90, high: 180, very_high: 365 }),
            r.file_update_frequency_thresholds == (ThresholdsConfig { low: 5, medium: 20, high: 50, very_high: 100 }),
            r.file_contributors_count_thresholds == (ThresholdsConfig { low: 1, medium: 5, high: 10, very_high: 25 }),
            r.unit_size_thresholds == (ThresholdsConfig { low: 10, medium: 20, high: 50, very_high: 100 }),
            r.conditional_complexity_thresholds == (ThresholdsConfig { low: 5, medium: 10, high: 25, very_high: 50 }),
            r.file_conditional_complexity_thresholds == r.conditional_complexity_thresholds,
            r.commit_files_count_thresholds == (ThresholdsConfig { low: 5, medium: 20, high: 50, very_high: 100 }),
            r.custom_html_report_header_fragment@.len() == 0,
            !r.analyze_concern_overlaps,
    {
        AnalysisConfig {
            skip_duplication: false,
            skip_correlations: false,
            skip_dependencies: false,
            save_source_files: default_true(),
            save_code_fragments: default_true(),
            max_file_size_bytes: default_max_file_size_bytes(),
            max_lines: default_max_lines(),
            max_line_length: default_max_line_length(),
            max_temporal_dependencies_depth_days: default_max_temporal_dependencies_depth_days(),
            loc_duplication_threshold: default_loc_duplication_threshold(),
            min_duplication_block_loc: default_min_duplication_block_loc(),
            max_top_list_size: default_max_top_list_size(),
            analyzer_overrides: Vec::new(),
            file_size_thresholds: default_file_size_thresholds(),
            file_age_thresholds: default_file_age_thresholds(),
            file_update_frequency_thresholds: default_file_update_frequency_thresholds(),
            file_contributors_count_thresholds: default_file_contributors_count_thresholds(),
            unit_size_thresholds: default_unit_size_thresholds(),
            conditional_complexity_thresholds: default_conditional_complexity_thresholds(),
            file_conditional_complexity_thresholds: default_file_conditional_complexity_thresholds(),
            commit_files_count_thresholds: default_commit_files_count_thresholds(),
            custom_html_report_header_fragment: String::new(),
            analyze_concern_overlaps: false,
        }
    }
}

/// The scope a logical decomposition covers unless configured.
pub fn default_main_scope() -> (r: String)
    ensures
        r@ == "main"@,
{
    "main".to_owned()
}

pub fn default_true() -> (r: bool)
    ensures
        r,
{
    true
}

pub fn default_zero_string() -> (r: String)
    ensures
        r@ == "0"@,
{
    "0".to_owned()
}

pub fn default_max_file_size_bytes() -> (r: usize)
    ensures
        r == 1_000_000,
{
    1_000_000
}

pub fn default_max_lines() -> (r: usize)
    ensures
        r == 10_000,
{
    10_000
}

pub fn default_max_line_length() -> (r: usize)
    ensures
        r == 1_000,
{
    1_000
}

pub fn default_max_temporal_dependencies_depth_days() -> (r: usize)
    ensures
        r == 365,
{
    365
}

pub fn default_loc_duplication_threshold() -> (r: usize)
    ensures
        r == 10_000_000,
{
    10_000_000
}

pub fn default_min_duplication_block_loc() -> (r: usize)
    ensures
        r == 6,
{
    6
}

pub fn default_max_top_list_size() -> (r: usize)
    ensures
        r == 50,
{
    50
}

pub fn default_file_size_thresholds() -> (r: ThresholdsConfig)
    ensures
        r == (ThresholdsConfig { low: 100, medium: 200, high: 500, very_high: 1_000 }),
{
    ThresholdsConfig { low: 100, medium: 200, high: 500, very_high: 1_000 }
}

pub fn default_file_age_thresholds() -> (r: ThresholdsConfig)
    ensures
        r == (ThresholdsConfig { low: 30, medium: 90, high: 180, very_high: 365 }),
{
    ThresholdsConfig { low: 30, medium: 90, high: 180, very_high: 365 }
}

pub fn default_file_update_frequency_thresholds() -> (r: ThresholdsConfig)
    ensures
        r == (ThresholdsConfig { low: 5, medium: 20, high: 50, very_high: 100 }),
{
    ThresholdsConfig { low: 5, medium: 20, high: 50, very_high: 100 }
}

pub fn default_file_contributors_count_thresholds() -> (r: ThresholdsConfig)
    ensures
        r == (ThresholdsConfig { low: 1, medium: 5, high: 10, very_high: 25 }),
{
    ThresholdsConfig { low: 1, medium: 5, high: 10, very_high: 25 }
}

pub fn default_unit_size_thresholds() -> (r: ThresholdsConfig)
    ensures
        r == (ThresholdsConfig { low: 10, medium: 20, high: 50, very_high: 100 }),
{
    ThresholdsConfig { low: 10, medium: 20, high: 50, very_high: 100 }
}

pub fn default_conditional_complexity_thresholds() -> (r: ThresholdsConfig)
    ensures
        r == (ThresholdsConfig { low: 5, medium: 10, high: 25, very_high: 50 }),
{
    ThresholdsConfig { low: 5, medium: 10, high: 25, very_high: 50 }
}

/// File-level conditional complexity uses the unit-level thresholds.
pub fn default_file_conditional_complexity_thresholds() -> (r: ThresholdsConfig)
    ensures
        r == (ThresholdsConfig { low: 5, medium: 10, high: 25, very_high: 50 }),
{
    default_conditional_complexity_thresholds()
}

pub fn default_commit_files_count_thresholds() -> (r: ThresholdsConfig)
    ensures
        r == (ThresholdsConfig { low: 5, medium: 20, high: 50, very_high: 100 }),
{
    ThresholdsConfig { low: 5, medium: 20, high: 50, very_high: 100 }
}

pub fn default_dependency_link_threshold() -> (r: usize)
    ensures
        r == 1,
{
    1
}

pub fn default_duplication_link_threshold() -> (r: usize)
    ensures
        r == 50,
{
    50
}

pub fn default_temporal_link_threshold() -> (r: usize)
    ensures
        r == 1,
{
    1
}

pub fn default_max_search_depth_lines() -> (r: usize)
    ensures
        r == 200,
{
    200
}

/// Whether a decomposition's dependency finder settings leave the built-in
/// dependency finders on: `useBuiltInDependencyFinders` when it is a
/// boolean, on otherwise.
pub open spec fn built_in_finders_on(decomposition: LogicalDecompositionConfig) -> bool {
    match json_member(decomposition.dependencies_finder, "useBuiltInDependencyFinders"@) {
        Some(member) => match json_boolean(member) {
            Some(b) => b,
            None => true,
        },
        None => true,
    }
}

/// Whether a decomposition's dependency finder settings leave the built-in
/// dependency finders on (`useBuiltInDependencyFinders`, on unless set to
/// `false`).
pub fn uses_built_in_dependency_finders(decomposition: &LogicalDecompositionConfig) -> (r: bool)
    ensures
        r == built_in_finders_on(*decomposition),
{
    match json_get(&decomposition.dependencies_finder, "useBuiltInDependencyFinders") {
        Some(v) => match json_as_bool(v) {
            Some(b) => b,
            None => true,
        },
        None => true,
    }
}

} // verus!
