//! Reference results of an earlier analysis, read back to compare against:
//! the aspect file lists, the dependency and file metric lists, and the
//! component dependencies of the logical decompositions.
use vstd::prelude::*;

use crate::components::triple_lt;
use crate::deps::pair_lt;
use crate::ir::Metadata;
use crate::pathset::{str_eq, PathSet};
use crate::text::{
    copy_string, lemma_text_lt_irreflexive, lemma_text_lt_transitive, lemma_text_lt_trichotomy, str_lt, text_lt, views,
};

verus! {

/// The analysis results of a reference run, as far as comparisons read them.
#[derive(Debug, Clone, PartialEq, Eq)]
pub struct JavaGoldenAnalysisResults {
    pub metadata: Metadata,
    pub main_aspect_analysis_results: JavaAspectAnalysisResults,
    pub test_aspect_analysis_results: JavaAspectAnalysisResults,
    pub generated_aspect_analysis_results: JavaAspectAnalysisResults,
    pub build_and_deploy_aspect_analysis_results: JavaAspectAnalysisResults,
    pub other_aspect_analysis_results: JavaAspectAnalysisResults,
}

impl JavaGoldenAnalysisResults {
    /// The name of the analysed project.
    pub fn display_name(&self) -> (r: &str)
        ensures
            r@ == self.metadata.name@,
    {
        self.metadata.name.as_str()
    }
}

/// The results for one aspect.
#[derive(Debug, Clone, PartialEq, Eq, Default)]
pub struct JavaAspectAnalysisResults {
    pub aspect: JavaAspect,
}

/// The files of an aspect.
#[derive(Debug, Clone, PartialEq, Eq, Default)]
pub struct JavaAspect {
    pub source_files: Vec<JavaSourceFile>,
}

/// A file of an aspect.
#[derive(Debug, Clone, PartialEq, Eq, PartialOrd, Ord)]
pub struct JavaSourceFile {
    pub relative_path: String,
}

/// A package dependency of the reference run.
#[derive(Debug, Clone, PartialEq, Eq, Default)]
pub struct JavaGoldenDependency {
    pub from_anchor: JavaGoldenDependencyAnchor,
    pub to_anchor: JavaGoldenDependencyAnchor,
    pub from_files: Vec<JavaGoldenSourceFileDependency>,
}

/// One end of a reference dependency.
#[derive(Debug, Clone, PartialEq, Eq, Default)]
pub struct JavaGoldenDependencyAnchor {
    pub anchor: String,
    pub code_fragment: String,
    pub dependency_patterns: Vec<String>,
    pub files: Vec<JavaGoldenFileRecord>,
}

/// A file that a reference dependency starts in.
#[derive(Debug, Clone, PartialEq, Eq, Default)]
pub struct JavaGoldenSourceFileDependency {
    pub file: JavaGoldenFileRecord,
    pub code_fragment: String,
}

/// The metrics of a file in the reference run.
#[derive(Debug, Clone, PartialEq, Eq, PartialOrd, Ord, Default)]
pub struct JavaGoldenFileRecord {
    pub relative_path: String,
    pub extension: String,
    pub lines_of_code: usize,
    pub components: Vec<String>,
    pub concerns: Vec<String>,
    pub units_count: usize,
    pub units_mc_cabe_index_sum: usize,
    pub lines_of_code_in_units: usize,
}

/// A component dependency of the reference run, with the decomposition it
/// belongs to.
#[derive(Debug, Clone, PartialEq, Eq, Default)]
pub struct JavaGoldenComponentDependency {
    pub decomposition: String,
    pub from_component: String,
    pub loc_from: usize,
    pub evidence: Vec<JavaGoldenDependencyEvidence>,
    pub to_component: String,
    pub count: usize,
}

/// A line of a file that makes a component dependency.
#[derive(Debug, Clone, PartialEq, Eq, Default)]
pub struct JavaGoldenDependencyEvidence {
    pub path_from: String,
    pub evidence: String,
}

/// A logical decomposition of the reference run and its component
/// dependencies, which do not name the decomposition themselves.
#[derive(Debug, Clone, PartialEq, Eq, Default)]
pub struct JavaGoldenLogicalDecomposition {
    pub key: String,
    pub component_dependencies: Vec<JavaGoldenComponentDependency>,
}

// ---------------------------------------------------------------------------
// The file inventory
// ---------------------------------------------------------------------------

/// Every path listed in any of the lists.
pub open spec fn all_listed(lists: Seq<Seq<Seq<char>>>) -> Set<Seq<char>>
    decreases lists.len(),
{
    if lists.len() == 0 {
        Set::empty()
    } else {
        all_listed(lists.drop_last()) + lists.last().to_set()
    }
}

/// The paths of each list, as text.
pub open spec fn list_views(lists: Seq<Vec<String>>) -> Seq<Seq<Seq<char>>> {
    lists.map_values(|l: Vec<String>| views(l@))
}

/// The paths of the aspect file lists, each once, in ascending order.
pub fn golden_inventory(lists: &Vec<Vec<String>>) -> (r: Vec<String>)
    ensures
        crate::pathset::strictly_sorted(views(r@)),
        views(r@).to_set() == all_listed(list_views(lists@)),
{
    let ghost ls = list_views(lists@);
    let mut set = PathSet::new();
    let mut i: usize = 0;
    while i < lists.len()
        invariant
            i <= lists@.len(),
            ls == list_views(lists@),
            set.wf(),
            set.members().to_set() == all_listed(ls.take(i as int)),
        decreases lists@.len() - i,
    {
        let list = &lists[i];
        let ghost lv = views(list@);
        let mut j: usize = 0;
        proof {
            assert(lv.take(0).to_set() =~= Set::<Seq<char>>::empty());
            assert(all_listed(ls.take(i as int)) + lv.take(0).to_set() =~= all_listed(ls.take(i as int)));
        }
        while j < list.len()
            invariant
                j <= list@.len(),
                lv == views(list@),
                set.wf(),
                set.members().to_set() == all_listed(ls.take(i as int)) + lv.take(j as int).to_set(),
            decreases list@.len() - j,
        {
            set.insert(list[j].as_str());
            proof {
                assert(lv.take(j + 1) =~= lv.take(j as int).push(list@[j as int]@));
                assert(lv.take(j + 1).to_set() =~= lv.take(j as int).to_set().insert(list@[j as int]@)) by {
                    vstd::seq_lib::lemma_seq_contains_after_push(lv.take(j as int), list@[j as int]@, list@[j as int]@);
                    assert forall|x: Seq<char>| #[trigger] lv.take(j + 1).to_set().contains(x) <==> lv.take(j as int).to_set().insert(list@[j as int]@).contains(x) by {
                        vstd::seq_lib::lemma_seq_contains_after_push(lv.take(j as int), list@[j as int]@, x);
                    }
                }
                assert(set.members().to_set() =~= all_listed(ls.take(i as int)) + lv.take(j + 1).to_set());
            }
            j += 1;
        }
        proof {
            assert(lv.take(list@.len() as int) =~= lv);
            assert(ls.take(i + 1).drop_last() =~= ls.take(i as int));
            assert(ls.take(i + 1).last() == lv);
        }
        i += 1;
    }
    proof {
        assert(ls.take(lists@.len() as int) =~= ls);
    }
    set.items
}

// ---------------------------------------------------------------------------
// Component dependencies
// ---------------------------------------------------------------------------

/// What comparisons read of a reference component dependency.
pub struct GoldenDependencyView {
    pub decomposition: Seq<char>,
    pub from_component: Seq<char>,
    pub to_component: Seq<char>,
    pub loc_from: nat,
    pub count: nat,
    pub evidence: Seq<(Seq<char>, Seq<char>)>,
}

/// The evidence lines as (path, line) pairs.
pub open spec fn evidence_views(e: Seq<JavaGoldenDependencyEvidence>) -> Seq<(Seq<char>, Seq<char>)> {
    e.map_values(|x: JavaGoldenDependencyEvidence| (x.path_from@, x.evidence@))
}

/// A dependency, placed in decomposition `key`.
pub open spec fn placed(d: JavaGoldenComponentDependency, key: Seq<char>) -> GoldenDependencyView {
    GoldenDependencyView {
        decomposition: key,
        from_component: d.from_component@,
        to_component: d.to_component@,
        loc_from: d.loc_from as nat,
        count: d.count as nat,
        evidence: evidence_views(d.evidence@),
    }
}

/// The view of a dependency as it stands.
pub open spec fn golden_view(d: JavaGoldenComponentDependency) -> GoldenDependencyView {
    placed(d, d.decomposition@)
}

/// The dependencies of one decomposition, each placed in it.
pub open spec fn placed_all(ds: Seq<JavaGoldenComponentDependency>, key: Seq<char>) -> Seq<GoldenDependencyView> {
    ds.map_values(|d: JavaGoldenComponentDependency| placed(d, key))
}

/// The dependencies of all decompositions, in decomposition order.
pub open spec fn flattened(decompositions: Seq<JavaGoldenLogicalDecomposition>) -> Seq<GoldenDependencyView>
    decreases decompositions.len(),
{
    if decompositions.len() == 0 {
        Seq::empty()
    } else {
        flattened(decompositions.drop_last()) + placed_all(
            decompositions.last().component_dependencies@,
            decompositions.last().key@,
        )
    }
}

/// `a` orders before `b` by decomposition, source and target.
pub open spec fn golden_before(a: GoldenDependencyView, b: GoldenDependencyView) -> bool {
    triple_lt(a.decomposition, a.from_component, a.to_component, b.decomposition, b.from_component, b.to_component)
}

/// `sorted` with `d` placed after every dependency that does not order after
/// it.
pub open spec fn insert_golden(sorted: Seq<GoldenDependencyView>, d: GoldenDependencyView) -> Seq<
    GoldenDependencyView,
>
    decreases sorted.len(),
{
    if sorted.len() == 0 {
        seq![d]
    } else if golden_before(d, sorted.last()) {
        insert_golden(sorted.drop_last(), d).push(sorted.last())
    } else {
        sorted.push(d)
    }
}

/// The dependencies ordered by decomposition, source and target; equal keys
/// keep their order (a stable sort).
pub open spec fn sorted_golden(ds: Seq<GoldenDependencyView>) -> Seq<GoldenDependencyView>
    decreases ds.len(),
{
    if ds.len() == 0 {
        ds
    } else {
        insert_golden(sorted_golden(ds.drop_last()), ds.last())
    }
}

proof fn lemma_insert_golden_at(sorted: Seq<GoldenDependencyView>, d: GoldenDependencyView, pos: int)
    requires
        0 <= pos <= sorted.len(),
        forall|k: int| pos <= k < sorted.len() ==> golden_before(d, #[trigger] sorted[k]),
        pos > 0 ==> !golden_before(d, sorted[pos - 1]),
    ensures
        insert_golden(sorted, d) == sorted.take(pos).push(d) + sorted.skip(pos),
    decreases sorted.len(),
{
    if sorted.len() == 0 {
        assert(sorted.take(pos).push(d) + sorted.skip(pos) =~= seq![d]);
    } else if pos == sorted.len() {
        assert(sorted.take(pos).push(d) + sorted.skip(pos) =~= sorted.push(d));
    } else {
        lemma_insert_golden_at(sorted.drop_last(), d, pos);
        assert(sorted.drop_last().take(pos).push(d) + sorted.drop_last().skip(pos) + seq![sorted.last()]
            =~= sorted.take(pos).push(d) + sorted.skip(pos));
    }
}

/// Two dependencies have the same decomposition, source and target.
pub open spec fn same_key(a: GoldenDependencyView, b: GoldenDependencyView) -> bool {
    a.decomposition == b.decomposition && a.from_component == b.from_component && a.to_component == b.to_component
}

proof fn lemma_golden_total(a: GoldenDependencyView, b: GoldenDependencyView)
    ensures
        golden_before(a, b) || same_key(a, b) || golden_before(b, a),
        !(golden_before(a, b) && golden_before(b, a)),
        same_key(a, b) ==> !golden_before(a, b),
{
    lemma_text_lt_trichotomy(a.decomposition, b.decomposition);
    lemma_text_lt_trichotomy(a.from_component, b.from_component);
    lemma_text_lt_trichotomy(a.to_component, b.to_component);
    lemma_text_lt_irreflexive(a.decomposition);
    lemma_text_lt_irreflexive(a.from_component);
    lemma_text_lt_irreflexive(a.to_component);
}

proof fn lemma_golden_transitive(a: GoldenDependencyView, b: GoldenDependencyView, c: GoldenDependencyView)
    requires
        golden_before(a, b),
        golden_before(b, c),
    ensures
        golden_before(a, c),
{
    if text_lt(a.decomposition, b.decomposition) && text_lt(b.decomposition, c.decomposition) {
        lemma_text_lt_transitive(a.decomposition, b.decomposition, c.decomposition);
    } else if a.decomposition == b.decomposition && b.decomposition == c.decomposition {
        if text_lt(a.from_component, b.from_component) && text_lt(b.from_component, c.from_component) {
            lemma_text_lt_transitive(a.from_component, b.from_component, c.from_component);
        } else if a.from_component == b.from_component && b.from_component == c.from_component {
            lemma_text_lt_transitive(a.to_component, b.to_component, c.to_component);
        }
    }
}

/// No dependency orders before one placed ahead of it.
pub open spec fn golden_ascending(s: Seq<GoldenDependencyView>) -> bool {
    forall|i: int, j: int| 0 <= i < j < s.len() ==> !golden_before(#[trigger] s[j], #[trigger] s[i])
}

proof fn lemma_not_before_chain(a: GoldenDependencyView, b: GoldenDependencyView, c: GoldenDependencyView)
    requires
        !golden_before(b, a),
        !golden_before(c, b),
    ensures
        !golden_before(c, a),
{
    lemma_golden_total(a, b);
    lemma_golden_total(b, c);
    lemma_golden_total(a, c);
    if golden_before(c, a) {
        if golden_before(a, b) {
            lemma_golden_transitive(c, a, b);
        }
    }
}

proof fn lemma_insert_golden(sorted: Seq<GoldenDependencyView>, d: GoldenDependencyView)
    requires
        golden_ascending(sorted),
    ensures
        golden_ascending(insert_golden(sorted, d)),
        insert_golden(sorted, d).to_multiset() == sorted.to_multiset().insert(d),
    decreases sorted.len(),
{
    broadcast use vstd::seq_lib::group_to_multiset_ensures;

    if sorted.len() == 0 {
        assert(seq![d] =~= Seq::<GoldenDependencyView>::empty().push(d));
    } else {
        let rest = sorted.drop_last();
        let last = sorted.last();
        assert(sorted =~= rest.push(last));
        if golden_before(d, last) {
            lemma_insert_golden(rest, d);
            let ins = insert_golden(rest, d);
            assert forall|i: int, j: int| 0 <= i < j < ins.push(last).len() implies !golden_before(
                #[trigger] ins.push(last)[j],
                #[trigger] ins.push(last)[i],
            ) by {
                if j == ins.len() {
                    let x = ins[i];
                    assert(ins.contains(x));
                    assert(ins.to_multiset().count(x) > 0);
                    if x == d {
                        lemma_golden_total(d, last);
                    } else {
                        assert(rest.to_multiset().count(x) > 0);
                        assert(rest.contains(x));
                        let k = choose|k: int| 0 <= k < rest.len() && rest[k] == x;
                        assert(sorted[k] == x);
                        assert(sorted[sorted.len() - 1] == last);
                    }
                } else {
                    assert(ins.push(last)[i] == ins[i]);
                    assert(ins.push(last)[j] == ins[j]);
                }
            }
        } else {
            assert forall|i: int, j: int| 0 <= i < j < sorted.push(d).len() implies !golden_before(
                #[trigger] sorted.push(d)[j],
                #[trigger] sorted.push(d)[i],
            ) by {
                if j == sorted.len() {
                    let x = sorted[i];
                    if i < sorted.len() - 1 {
                        assert(!golden_before(sorted[sorted.len() - 1], sorted[i]));
                        lemma_not_before_chain(x, last, d);
                    }
                } else {
                    assert(sorted.push(d)[i] == sorted[i]);
                    assert(sorted.push(d)[j] == sorted[j]);
                }
            }
        }
    }
}

proof fn lemma_sorted_golden(ds: Seq<GoldenDependencyView>)
    ensures
        golden_ascending(sorted_golden(ds)),
        sorted_golden(ds).to_multiset() == ds.to_multiset(),
    decreases ds.len(),
{
    broadcast use vstd::seq_lib::group_to_multiset_ensures;

    if ds.len() > 0 {
        lemma_sorted_golden(ds.drop_last());
        lemma_insert_golden(sorted_golden(ds.drop_last()), ds.last());
        assert(ds =~= ds.drop_last().push(ds.last()));
    }
}

/// The reference component dependencies come out ordered by decomposition,
/// source and target, and are exactly those of the decompositions, each
/// placed in its decomposition.
pub proof fn lemma_golden_dependencies_ordered(decompositions: Seq<JavaGoldenLogicalDecomposition>)
    ensures
        golden_ascending(sorted_golden(flattened(decompositions))),
        sorted_golden(flattened(decompositions)).to_multiset() == flattened(decompositions).to_multiset(),
{
    lemma_sorted_golden(flattened(decompositions));
}

/// Whether `a` orders before `b` by decomposition, source and target.
fn golden_lt(a: &JavaGoldenComponentDependency, b: &JavaGoldenComponentDependency) -> (r: bool)
    ensures
        r == golden_before(golden_view(*a), golden_view(*b)),
{
    if str_lt(a.decomposition.as_str(), b.decomposition.as_str()) {
        return true;
    }
    if !str_eq(a.decomposition.as_str(), b.decomposition.as_str()) {
        return false;
    }
    if str_lt(a.from_component.as_str(), b.from_component.as_str()) {
        return true;
    }
    if !str_eq(a.from_component.as_str(), b.from_component.as_str()) {
        return false;
    }
    str_lt(a.to_component.as_str(), b.to_component.as_str())
}

/// A copy of the evidence lines.
fn copy_evidence(e: &Vec<JavaGoldenDependencyEvidence>) -> (r: Vec<JavaGoldenDependencyEvidence>)
    ensures
        evidence_views(r@) == evidence_views(e@),
{
    let mut r: Vec<JavaGoldenDependencyEvidence> = Vec::new();
    let mut i: usize = 0;
    while i < e.len()
        invariant
            i <= e@.len(),
            r@.len() == i,
            evidence_views(r@) =~= evidence_views(e@.take(i as int)),
        decreases e@.len() - i,
    {
        r.push(
            JavaGoldenDependencyEvidence {
                path_from: copy_string(&e[i].path_from),
                evidence: copy_string(&e[i].evidence),
            },
        );
        proof {
            let ev = evidence_views(r@);
            let target = evidence_views(e@.take(i + 1));
            assert(ev.len() == target.len());
            assert forall|k: int| 0 <= k < ev.len() implies ev[k] == target[k] by {
                if k < i {
                    assert(ev[k] == evidence_views(e@.take(i as int))[k]);
                } else {
                    assert(r@[k] == r@.last());
                }
            }
            assert(ev =~= target);
        }
        i += 1;
    }
    proof {
        assert(e@.take(e@.len() as int) =~= e@);
    }
    r
}

/// The component dependencies of the reference decompositions, each named
/// with its decomposition, ordered by decomposition, source and target.
pub fn golden_component_dependencies(decompositions: &Vec<JavaGoldenLogicalDecomposition>) -> (r: Vec<
    JavaGoldenComponentDependency,
>)
    ensures
        r@.map_values(|d: JavaGoldenComponentDependency| golden_view(d)) == sorted_golden(flattened(decompositions@)),
{
    let ghost all = flattened(decompositions@);
    let mut sorted: Vec<JavaGoldenComponentDependency> = Vec::new();
    let ghost mut seen: int = 0;
    let mut i: usize = 0;
    while i < decompositions.len()
        invariant
            i <= decompositions@.len(),
            all == flattened(decompositions@),
            sorted@.map_values(|d: JavaGoldenComponentDependency| golden_view(d)) == sorted_golden(
                flattened(decompositions@.take(i as int)),
            ),
        decreases decompositions@.len() - i,
    {
        let decomposition = &decompositions[i];
        let ghost before_all = flattened(decompositions@.take(i as int));
        let ghost key = decomposition.key@;
        let ghost ds = decomposition.component_dependencies@;
        let mut j: usize = 0;
        proof {
            assert(before_all + placed_all(ds.take(0), key) =~= before_all);
        }
        while j < decomposition.component_dependencies.len()
            invariant
                j <= ds.len(),
                ds == decomposition.component_dependencies@,
                key == decomposition.key@,
                sorted@.map_values(|d: JavaGoldenComponentDependency| golden_view(d)) == sorted_golden(
                    before_all + placed_all(ds.take(j as int), key),
                ),
            decreases ds.len() - j,
        {
            let source = &decomposition.component_dependencies[j];
            let item = JavaGoldenComponentDependency {
                decomposition: copy_string(&decomposition.key),
                from_component: copy_string(&source.from_component),
                loc_from: source.loc_from,
                evidence: copy_evidence(&source.evidence),
                to_component: copy_string(&source.to_component),
                count: source.count,
            };
            proof {
                assert(golden_view(item) == placed(ds[j as int], key));
            }
            let ghost sv = sorted@.map_values(|d: JavaGoldenComponentDependency| golden_view(d));
            let mut pos = sorted.len();
            while pos > 0 && golden_lt(&item, &sorted[pos - 1])
                invariant
                    pos <= sorted@.len(),
                    sv == sorted@.map_values(|d: JavaGoldenComponentDependency| golden_view(d)),
                    forall|k: int| pos <= k < sorted@.len() ==> golden_before(golden_view(item), #[trigger] sv[k]),
                decreases pos,
            {
                pos -= 1;
            }
            proof {
                lemma_insert_golden_at(sv, golden_view(item), pos as int);
            }
            sorted.insert(pos, item);
            proof {
                let prefix = before_all + placed_all(ds.take(j as int), key);
                assert(before_all + placed_all(ds.take(j + 1), key) =~= prefix.push(placed(ds[j as int], key)));
                assert(prefix.push(placed(ds[j as int], key)).drop_last() =~= prefix);
                assert(sorted@.map_values(|d: JavaGoldenComponentDependency| golden_view(d)) =~= sv.take(pos as int).push(
                    golden_view(item),
                ) + sv.skip(pos as int));
            }
            j += 1;
        }
        proof {
            assert(ds.take(ds.len() as int) =~= ds);
            assert(decompositions@.take(i + 1).drop_last() =~= decompositions@.take(i as int));
            assert(decompositions@.take(i + 1).last() == decompositions@[i as int]);
        }
        i += 1;
    }
    proof {
        assert(decompositions@.take(decompositions@.len() as int) =~= decompositions@);
    }
    sorted
}

} // verus!
