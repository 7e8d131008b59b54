//! Logical decompositions as exported: per decomposition its components
//! with their summaries, its component dependencies, and its configuration
//! with the components derived from folders when it asks for them.
use vstd::prelude::*;

use crate::aspects::{build_component_stats, component_stats_of, AspectAnalysisExport, NumericMetricExport, scope_labels};
use crate::components::component_set;
use crate::concerns::capped;
use crate::config::{LogicalDecompositionConfig, NamedSourceCodeAspectConfig, SokratesConfig, SourceFileFilterConfig};
use crate::folders::{
    chosen_depth, component_paths, folder_component_of, folder_search_ok, generate_folder_depth_components,
    search_defined, start_depth, MAX_COMPONENT_SEARCH_DEPTH,
};
use crate::ir::{ComponentDependency, DependencyEvidence, FileRecord};
use crate::pathset::{str_eq, strictly_sorted, PathSet};
use crate::scopes::{contexts_wf, named_scope, scope_paths, FileContext, ScopeFiles};
use crate::text::{copy_string, copy_strings, push_str, views};

verus! {

// ---------------------------------------------------------------------------
// Component dependencies as exported
// ---------------------------------------------------------------------------

/// A file that shows a component dependency, with the line that shows it.
#[derive(Debug, Clone, PartialEq, Eq)]
pub struct ComponentDependencyEvidenceExport {
    pub path_from: String,
    pub evidence: String,
}

/// A component dependency as the decomposition export lists it.
#[derive(Debug, Clone, PartialEq, Eq)]
pub struct ComponentDependencyExport {
    pub from_component: String,
    pub loc_from: usize,
    pub evidence: Vec<ComponentDependencyEvidenceExport>,
    pub to_component: String,
    pub count: usize,
    pub text: Option<String>,
    pub color: String,
    pub dependency_string: String,
}

/// `e` lists the component dependency `d`, named `from -> to`.
pub open spec fn component_dependency_export_of(e: ComponentDependencyExport, d: ComponentDependency) -> bool {
    &&& e.from_component@ == d.from_component@
    &&& e.loc_from == d.loc_from
    &&& e.evidence@.len() == d.evidence@.len()
    &&& forall|k: int|
        0 <= k < e.evidence@.len() ==> (#[trigger] e.evidence@[k]).path_from@ == d.evidence@[k].path_from@
            && e.evidence@[k].evidence@ == d.evidence@[k].evidence@
    &&& e.to_component@ == d.to_component@
    &&& e.count == d.count
    &&& e.text is None
    &&& e.color@.len() == 0
    &&& e.dependency_string@ == d.from_component@ + " -> "@ + d.to_component@
}

/// The listing of a component dependency.
pub fn export_component_dependency(dependency: &ComponentDependency) -> (r: ComponentDependencyExport)
    ensures
        component_dependency_export_of(r, *dependency),
{
    let mut evidence: Vec<ComponentDependencyEvidenceExport> = Vec::new();
    let mut k: usize = 0;
    while k < dependency.evidence.len()
        invariant
            k <= dependency.evidence@.len(),
            evidence@.len() == k,
            forall|m: int|
                0 <= m < k ==> (#[trigger] evidence@[m]).path_from@ == dependency.evidence@[m].path_from@
                    && evidence@[m].evidence@ == dependency.evidence@[m].evidence@,
        decreases dependency.evidence@.len() - k,
    {
        let e = &dependency.evidence[k];
        evidence.push(
            ComponentDependencyEvidenceExport { path_from: copy_string(&e.path_from), evidence: copy_string(&e.evidence) },
        );
        k += 1;
    }
    let mut dependency_string = String::new();
    push_str(&mut dependency_string, dependency.from_component.as_str());
    push_str(&mut dependency_string, " -> ");
    push_str(&mut dependency_string, dependency.to_component.as_str());
    ComponentDependencyExport {
        from_component: copy_string(&dependency.from_component),
        loc_from: dependency.loc_from,
        evidence,
        to_component: copy_string(&dependency.to_component),
        count: dependency.count,
        text: None,
        color: String::new(),
        dependency_string,
    }
}

/// `b` goes the other way of `a`.
pub open spec fn reverses(a: ComponentDependencyExport, b: ComponentDependencyExport) -> bool {
    a.from_component@ == b.to_component@ && a.to_component@ == b.from_component@
}

/// Number of the dependencies among the first `n`, other than the one at
/// `i`, that go the other way of it.
pub open spec fn reversals_of(ds: Seq<ComponentDependencyExport>, i: int, n: int) -> nat
    decreases n,
{
    if n <= 0 {
        0
    } else {
        reversals_of(ds, i, n - 1) + if n - 1 != i && reverses(ds[i], ds[n - 1]) {
            1nat
        } else {
            0nat
        }
    }
}

/// Number of ordered pairs of distinct dependencies, the first among the
/// first `n`, that go opposite ways.
pub open spec fn reversed_pairs(ds: Seq<ComponentDependencyExport>, n: int) -> nat
    decreases n,
{
    if n <= 0 {
        0
    } else {
        reversed_pairs(ds, n - 1) + reversals_of(ds, n - 1, ds.len() as int)
    }
}

/// Number of places with a cyclic dependency: pairs of dependencies that go
/// opposite ways, each pair counted once (the count of ordered pairs is
/// capped at `usize::MAX` before halving).
pub fn cyclic_component_dependency_places(dependencies: &Vec<ComponentDependencyExport>) -> (r: usize)
    ensures
        r == capped(reversed_pairs(dependencies@, dependencies@.len() as int)) / 2,
{
    let ghost ds = dependencies@;
    let mut count: usize = 0;
    let mut i: usize = 0;
    while i < dependencies.len()
        invariant
            i <= ds.len(),
            ds == dependencies@,
            count == capped(reversed_pairs(ds, i as int)),
        decreases ds.len() - i,
    {
        let mut j: usize = 0;
        let ghost base = reversed_pairs(ds, i as int);
        while j < dependencies.len()
            invariant
                j <= ds.len(),
                i < ds.len(),
                ds == dependencies@,
                base == reversed_pairs(ds, i as int),
                count == capped(base + reversals_of(ds, i as int, j as int)),
            decreases ds.len() - j,
        {
            if i != j && str_eq(dependencies[i].from_component.as_str(), dependencies[j].to_component.as_str())
                && str_eq(dependencies[i].to_component.as_str(), dependencies[j].from_component.as_str()) {
                count = count.saturating_add(1);
            }
            j += 1;
        }
        i += 1;
    }
    count / 2
}

// ---------------------------------------------------------------------------
// Configuration copies
// ---------------------------------------------------------------------------

/// The values a file filter holds.
pub open spec fn filter_view(f: SourceFileFilterConfig) -> (Seq<char>, Seq<char>, bool, Seq<char>) {
    (f.path_pattern@, f.content_pattern@, f.exception, f.note@)
}

/// The values of a sequence of filters.
pub open spec fn filter_views(fs: Seq<SourceFileFilterConfig>) -> Seq<(Seq<char>, Seq<char>, bool, Seq<char>)> {
    fs.map_values(|f: SourceFileFilterConfig| filter_view(f))
}

fn copy_filters(fs: &Vec<SourceFileFilterConfig>) -> (r: Vec<SourceFileFilterConfig>)
    ensures
        filter_views(r@) == filter_views(fs@),
{
    let mut r: Vec<SourceFileFilterConfig> = Vec::new();
    let mut k: usize = 0;
    while k < fs.len()
        invariant
            k <= fs@.len(),
            filter_views(r@) =~= filter_views(fs@.take(k as int)),
        decreases fs@.len() - k,
    {
        let f = &fs[k];
        let c = SourceFileFilterConfig {
            path_pattern: copy_string(&f.path_pattern),
            content_pattern: copy_string(&f.content_pattern),
            exception: f.exception,
            note: copy_string(&f.note),
        };
        let ghost before = r@;
        r.push(c);
        proof {
            assert(filter_views(r@) =~= filter_views(before).push(filter_view(c)));
            assert(fs@.take(k + 1) =~= fs@.take(k as int).push(fs@[k as int]));
        }
        k += 1;
    }
    proof {
        assert(fs@.take(fs@.len() as int) =~= fs@);
    }
    r
}

/// The values a named aspect holds.
pub open spec fn aspect_config_view(a: NamedSourceCodeAspectConfig) -> (Seq<char>, Seq<(Seq<char>, Seq<char>, bool, Seq<char>)>, Seq<Seq<char>>) {
    (a.name@, filter_views(a.source_file_filters@), views(a.files@))
}

/// The values of a sequence of named aspects.
pub open spec fn aspect_config_views(s: Seq<NamedSourceCodeAspectConfig>) -> Seq<(Seq<char>, Seq<(Seq<char>, Seq<char>, bool, Seq<char>)>, Seq<Seq<char>>)> {
    s.map_values(|a: NamedSourceCodeAspectConfig| aspect_config_view(a))
}

fn copy_aspect_configs(s: &Vec<NamedSourceCodeAspectConfig>) -> (r: Vec<NamedSourceCodeAspectConfig>)
    ensures
        aspect_config_views(r@) == aspect_config_views(s@),
{
    let mut r: Vec<NamedSourceCodeAspectConfig> = Vec::new();
    let mut k: usize = 0;
    while k < s.len()
        invariant
            k <= s@.len(),
            aspect_config_views(r@) =~= aspect_config_views(s@.take(k as int)),
        decreases s@.len() - k,
    {
        let a = &s[k];
        let files = copy_strings(&a.files);
        let c = NamedSourceCodeAspectConfig {
            name: copy_string(&a.name),
            source_file_filters: copy_filters(&a.source_file_filters),
            files,
        };
        let ghost before = r@;
        r.push(c);
        proof {
            assert(aspect_config_views(r@) =~= aspect_config_views(before).push(aspect_config_view(c)));
            assert(s@.take(k + 1) =~= s@.take(k as int).push(s@[k as int]));
        }
        k += 1;
    }
    proof {
        assert(s@.take(s@.len() as int) =~= s@);
    }
    r
}

// ---------------------------------------------------------------------------
// Decompositions
// ---------------------------------------------------------------------------

/// A logical decomposition as exported.
#[derive(Debug, Clone)]
pub struct LogicalDecompositionExport {
    pub key: String,
    pub components: Vec<AspectAnalysisExport>,
    pub component_dependencies: Vec<ComponentDependencyExport>,
    pub logical_decomposition: LogicalDecompositionConfig,
    pub lines_of_code_per_component: Vec<NumericMetricExport>,
    pub file_count_per_component: Vec<NumericMetricExport>,
}

/// For each decomposition, whether its built-in dependency finders are on.
pub open spec fn finder_flags(ds: Seq<LogicalDecompositionExport>) -> Seq<bool> {
    Seq::new(ds.len(), |i: int| crate::config::built_in_finders_on(ds[i].logical_decomposition))
}

/// The component dependencies of decomposition `d`, in order.
pub open spec fn dependencies_of_decomposition(ds: Seq<ComponentDependency>, d: Seq<char>) -> Seq<ComponentDependency>
    decreases ds.len(),
{
    if ds.len() == 0 {
        Seq::empty()
    } else if ds.last().decomposition@ == d {
        dependencies_of_decomposition(ds.drop_last(), d).push(ds.last())
    } else {
        dependencies_of_decomposition(ds.drop_last(), d)
    }
}

/// Every decomposition that derives components from folders has a defined
/// common folder at each depth its search visits.
pub open spec fn folder_searches_defined(files: Seq<FileRecord>, scopes: ScopeFiles, config: SokratesConfig) -> bool {
    forall|k: int|
        0 <= k < config.logical_decompositions@.len() && (#[trigger] config.logical_decompositions@[k]).components_folder_depth > 0
            ==> search_defined(
            files,
            named_scope(scopes, config.logical_decompositions@[k].scope@),
            config.logical_decompositions@[k].components_folder_depth as nat,
            config.logical_decompositions@[k].min_components_count as nat,
        )
}

/// Whether the folder search of every decomposition that asks for one has a
/// defined common folder at each depth it visits.
pub fn folder_searches_ok(files: &Vec<FileRecord>, scopes: &ScopeFiles, config: &SokratesConfig) -> (b: bool)
    requires
        scopes.wf(),
    ensures
        b == folder_searches_defined(files@, *scopes, *config),
{
    let mut k: usize = 0;
    while k < config.logical_decompositions.len()
        invariant
            k <= config.logical_decompositions@.len(),
            scopes.wf(),
            forall|j: int|
                0 <= j < k && (#[trigger] config.logical_decompositions@[j]).components_folder_depth > 0 ==> search_defined(
                    files@,
                    named_scope(*scopes, config.logical_decompositions@[j].scope@),
                    config.logical_decompositions@[j].components_folder_depth as nat,
                    config.logical_decompositions@[j].min_components_count as nat,
                ),
        decreases config.logical_decompositions@.len() - k,
    {
        let decomposition = &config.logical_decompositions[k];
        if decomposition.components_folder_depth > 0 {
            let scope = scope_paths(scopes, decomposition.scope.as_str());
            if !folder_search_ok(files, scope, decomposition.components_folder_depth, decomposition.min_components_count) {
                return false;
            }
        }
        k += 1;
    }
    true
}

/// `e` exports decomposition `d`: its component summaries over its scope,
/// its component dependencies, its configuration (with components from
/// folders when it asks for them) and per-component lines and files.
pub open spec fn decomposition_export_of(
    e: LogicalDecompositionExport,
    d: LogicalDecompositionConfig,
    root: Seq<char>,
    files: Seq<FileRecord>,
    contexts: Seq<FileContext>,
    scopes: ScopeFiles,
    deps: Seq<ComponentDependency>,
) -> bool {
    let scope = named_scope(scopes, d.scope@);
    let own = dependencies_of_decomposition(deps, d.name@);
    let l = e.logical_decomposition;
    &&& e.key@ == d.name@
    &&& exists|ns: Seq<Seq<char>>|
        {
            &&& strictly_sorted(ns)
            &&& ns.to_set() == component_set(scope_labels(files, scope), d.name@)
            &&& ns.len() == e.components@.len()
            &&& forall|k: int|
                0 <= k < e.components@.len() ==> component_stats_of(
                    #[trigger] e.components@[k],
                    files,
                    contexts,
                    scope,
                    d.name@,
                    ns[k],
                )
        }
    &&& e.component_dependencies@.len() == own.len()
    &&& forall|k: int|
        0 <= k < own.len() ==> component_dependency_export_of(#[trigger] e.component_dependencies@[k], own[k])
    &&& l.name@ == d.name@
    &&& l.scope@ == d.scope@
    &&& filter_views(l.filters@) == filter_views(d.filters@)
    &&& l.components_folder_depth == d.components_folder_depth
    &&& l.min_components_count == d.min_components_count
    &&& l.include_remaining_files == d.include_remaining_files
    &&& l.include_external_components == d.include_external_components
    &&& l.dependency_link_threshold == d.dependency_link_threshold
    &&& l.duplication_link_threshold == d.duplication_link_threshold
    &&& l.temporal_link_threshold == d.temporal_link_threshold
    &&& l.max_search_depth_lines == d.max_search_depth_lines
    &&& l.meta_components@.len() == d.meta_components@.len()
    &&& l.groups@.len() == d.groups@.len()
    &&& (if d.components_folder_depth > 0 {
        start_depth(d.components_folder_depth as nat) > MAX_COMPONENT_SEARCH_DEPTH ==> l.components@.len() == 0
    } else {
        aspect_config_views(l.components@) == aspect_config_views(d.components@)
    })
    &&& (d.components_folder_depth > 0 && start_depth(d.components_folder_depth as nat) <= MAX_COMPONENT_SEARCH_DEPTH
        ==> {
        let depth = chosen_depth(
            files,
            scope,
            start_depth(d.components_folder_depth as nat),
            d.min_components_count as nat,
        );
        let paths = component_paths(files, scope, depth);
        &&& l.components@.len() == paths.len()
        &&& forall|k: int| 0 <= k < paths.len() ==> folder_component_of(#[trigger] l.components@[k], root, paths, paths[k])
    })
    &&& e.lines_of_code_per_component@.len() == e.components@.len()
    &&& e.file_count_per_component@.len() == e.components@.len()
    &&& forall|k: int|
        0 <= k < e.components@.len() ==> {
            &&& (#[trigger] e.lines_of_code_per_component@[k]).name@ == e.components@[k].name@
            &&& e.lines_of_code_per_component@[k].value == e.components@[k].lines_of_code
            &&& e.lines_of_code_per_component@[k].description@.len() == 0
            &&& e.file_count_per_component@[k].name@ == e.components@[k].name@
            &&& e.file_count_per_component@[k].value == e.components@[k].files_count
            &&& e.file_count_per_component@[k].description@.len() == 0
        }
}

fn export_decomposition(
    root: &str,
    files: &Vec<FileRecord>,
    contexts: &Vec<FileContext>,
    scopes: &ScopeFiles,
    decomposition: &LogicalDecompositionConfig,
    component_dependencies: &Vec<ComponentDependency>,
) -> (r: LogicalDecompositionExport)
    requires
        contexts_wf(contexts@),
        scopes.wf(),
        decomposition.components_folder_depth > 0 ==> search_defined(
            files@,
            named_scope(*scopes, decomposition.scope@),
            decomposition.components_folder_depth as nat,
            decomposition.min_components_count as nat,
        ),
    ensures
        decomposition_export_of(r, *decomposition, root@, files@, contexts@, *scopes, component_dependencies@),
{
    let scope = scope_paths(scopes, decomposition.scope.as_str());
    let stats = build_component_stats(files, contexts, scope, decomposition.name.as_str());
    let components = if decomposition.components_folder_depth > 0 {
        generate_folder_depth_components(
            root,
            files,
            scope,
            decomposition.components_folder_depth,
            decomposition.min_components_count,
        )
    } else {
        copy_aspect_configs(&decomposition.components)
    };
    let mut own: Vec<ComponentDependencyExport> = Vec::new();
    let ghost ds = component_dependencies@;
    let mut k: usize = 0;
    while k < component_dependencies.len()
        invariant
            k <= ds.len(),
            ds == component_dependencies@,
            own@.len() == dependencies_of_decomposition(ds.take(k as int), decomposition.name@).len(),
            forall|m: int|
                0 <= m < own@.len() ==> component_dependency_export_of(
                    #[trigger] own@[m],
                    dependencies_of_decomposition(ds.take(k as int), decomposition.name@)[m],
                ),
        decreases ds.len() - k,
    {
        proof {
            assert(ds.take(k + 1).drop_last() =~= ds.take(k as int));
            assert(ds.take(k + 1).last() == ds[k as int]);
        }
        if str_eq(component_dependencies[k].decomposition.as_str(), decomposition.name.as_str()) {
            own.push(export_component_dependency(&component_dependencies[k]));
        }
        k += 1;
    }
    proof {
        assert(ds.take(ds.len() as int) =~= ds);
    }
    let mut lines: Vec<NumericMetricExport> = Vec::new();
    let mut counts: Vec<NumericMetricExport> = Vec::new();
    let mut c: usize = 0;
    while c < stats.len()
        invariant
            c <= stats@.len(),
            lines@.len() == c,
            counts@.len() == c,
            forall|m: int|
                0 <= m < c ==> {
                    &&& (#[trigger] lines@[m]).name@ == stats@[m].name@
                    &&& lines@[m].value == stats@[m].lines_of_code
                    &&& lines@[m].description@.len() == 0
                    &&& counts@[m].name@ == stats@[m].name@
                    &&& counts@[m].value == stats@[m].files_count
                    &&& counts@[m].description@.len() == 0
                },
        decreases stats@.len() - c,
    {
        lines.push(NumericMetricExport { name: copy_string(&stats[c].name), value: stats[c].lines_of_code, description: Vec::new() });
        counts.push(NumericMetricExport { name: copy_string(&stats[c].name), value: stats[c].files_count, description: Vec::new() });
        c += 1;
    }
    let logical_decomposition = LogicalDecompositionConfig {
        name: copy_string(&decomposition.name),
        scope: copy_string(&decomposition.scope),
        filters: copy_filters(&decomposition.filters),
        components_folder_depth: decomposition.components_folder_depth,
        min_components_count: decomposition.min_components_count,
        components,
        meta_components: decomposition.meta_components.clone(),
        groups: decomposition.groups.clone(),
        include_remaining_files: decomposition.include_remaining_files,
        dependencies_finder: decomposition.dependencies_finder.clone(),
        rendering_options: decomposition.rendering_options.clone(),
        include_external_components: decomposition.include_external_components,
        dependency_link_threshold: decomposition.dependency_link_threshold,
        duplication_link_threshold: decomposition.duplication_link_threshold,
        temporal_link_threshold: decomposition.temporal_link_threshold,
        max_search_depth_lines: decomposition.max_search_depth_lines,
    };
    LogicalDecompositionExport {
        key: copy_string(&decomposition.name),
        components: stats,
        component_dependencies: own,
        logical_decomposition,
        lines_of_code_per_component: lines,
        file_count_per_component: counts,
    }
}

/// The exports of the configured logical decompositions, in order.
pub fn export_logical_decompositions(
    root: &str,
    files: &Vec<FileRecord>,
    contexts: &Vec<FileContext>,
    scopes: &ScopeFiles,
    config: &SokratesConfig,
    component_dependencies: &Vec<ComponentDependency>,
) -> (r: Vec<LogicalDecompositionExport>)
    requires
        contexts_wf(contexts@),
        scopes.wf(),
        folder_searches_defined(files@, *scopes, *config),
    ensures
        r@.len() == config.logical_decompositions@.len(),
        forall|k: int|
            0 <= k < r@.len() ==> decomposition_export_of(
                #[trigger] r@[k],
                config.logical_decompositions@[k],
                root@,
                files@,
                contexts@,
                *scopes,
                component_dependencies@,
            ),
{
    let mut r: Vec<LogicalDecompositionExport> = Vec::new();
    let mut k: usize = 0;
    while k < config.logical_decompositions.len()
        invariant
            k <= config.logical_decompositions@.len(),
            contexts_wf(contexts@),
            scopes.wf(),
            folder_searches_defined(files@, *scopes, *config),
            r@.len() == k,
            forall|m: int|
                0 <= m < k ==> decomposition_export_of(
                    #[trigger] r@[m],
                    config.logical_decompositions@[m],
                    root@,
                    files@,
                    contexts@,
                    *scopes,
                    component_dependencies@,
                ),
        decreases config.logical_decompositions@.len() - k,
    {
        let d = &config.logical_decompositions[k];
        r.push(export_decomposition(root, files, contexts, scopes, d, component_dependencies));
        k += 1;
    }
    r
}

} // verus!
