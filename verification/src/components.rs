//! Component dependencies: package dependencies lifted to the components of
//! a logical decomposition (`decomposition::component` labels on files).
use vstd::prelude::*;

use crate::deps::pair_lt;
use crate::concerns::capped;
use crate::ir::{
    ComponentDependency, Dependency, DependencyEvidence, FileRecord, FileRecordView, record_views, SourceFileDependency,
};
use crate::java::{find, find_first, sub_chars};
use crate::pathset::{str_eq, strictly_sorted, PathSet};
use crate::text::{
    chars_of, copy_string, lemma_text_lt_irreflexive, lemma_text_lt_transitive,
    lemma_text_lt_trichotomy, str_lt, string_of, text_lt, views,
};

verus! {

/// `str::split_once("::")`: the text before and after the first `::`.
pub open spec fn split_label(c: Seq<char>) -> Option<(Seq<char>, Seq<char>)> {
    match find(c, "::"@) {
        Some(k) => Some((c.take(k), c.skip(k + 2))),
        None => None,
    }
}

/// The component a label names within decomposition `d`.
pub open spec fn component_in(c: Seq<char>, d: Seq<char>) -> Option<Seq<char>> {
    match split_label(c) {
        Some((dec, name)) => if dec == d {
            Some(name)
        } else {
            None
        },
        None => None,
    }
}

/// The names of the components of decomposition `d` among `labels`.
pub open spec fn component_set(labels: Seq<Seq<char>>, d: Seq<char>) -> Set<Seq<char>> {
    Set::new(
        |n: Seq<char>| exists|k: int| 0 <= k < labels.len() && component_in(#[trigger] labels[k], d) == Some(n),
    )
}

/// Splits a label at its first `::`.
pub fn split_label_once(c: &str) -> (r: Option<(String, String)>)
    ensures
        match r {
            Some((a, b)) => split_label(c@) == Some((a@, b@)),
            None => split_label(c@) is None,
        },
{
    let chars = chars_of(c);
    let total = chars.len();
    let sep = chars_of("::");
    proof {
        reveal_strlit("::");
    }
    match find_first(chars.as_slice(), sep.as_slice()) {
        Some(k) => {
            proof {
                assert(k + 2 <= total);
            }
            let before = sub_chars(chars.as_slice(), 0, k);
            let after = sub_chars(chars.as_slice(), k + 2, chars.len());
            proof {
                assert(before@ =~= chars@.take(k as int));
                assert(after@ =~= chars@.skip(k + 2));
            }
            Some((string_of(before.as_slice()), string_of(after.as_slice())))
        },
        None => None,
    }
}

/// The distinct component names that `labels` give within `decomposition`,
/// in order.
pub fn component_names(labels: &Vec<String>, decomposition: &str) -> (r: PathSet)
    ensures
        r.wf(),
        r.members().to_set() == component_set(views(labels@), decomposition@),
{
    let mut r = PathSet::new();
    let mut i: usize = 0;
    while i < labels.len()
        invariant
            i <= labels@.len(),
            r.wf(),
            r.members().to_set() == component_set(views(labels@.take(i as int)), decomposition@),
        decreases labels@.len() - i,
    {
        let ghost before = r.members().to_set();
        let ghost lv = views(labels@.take(i + 1));
        proof {
            assert(views(labels@.take(i + 1)) =~= views(labels@.take(i as int)).push(labels@[i as int]@));
        }
        match split_label_once(labels[i].as_str()) {
            Some((dec, name)) => {
                if str_eq(dec.as_str(), decomposition) {
                    r.insert(name.as_str());
                    proof {
                        assert forall|n: Seq<char>| #[trigger] component_set(lv, decomposition@).contains(n)
                            <==> before.insert(name@).contains(n) by {
                            if component_set(lv, decomposition@).contains(n) {
                                let k = choose|k: int| 0 <= k < lv.len() && component_in(#[trigger] lv[k], decomposition@) == Some(n);
                                if k < i {
                                    assert(views(labels@.take(i as int))[k] == lv[k]);
                                }
                            }
                            if before.contains(n) {
                                let k = choose|k: int| 0 <= k < views(labels@.take(i as int)).len() && component_in(#[trigger] views(labels@.take(i as int))[k], decomposition@) == Some(n);
                                assert(lv[k] == views(labels@.take(i as int))[k]);
                            }
                            if n == name@ {
                                assert(component_in(lv[i as int], decomposition@) == Some(n));
                            }
                        }
                        assert(component_set(lv, decomposition@) =~= before.insert(name@));
                    }
                } else {
                    proof {
                        assert forall|n: Seq<char>| #[trigger] component_set(lv, decomposition@).contains(n)
                            <==> before.contains(n) by {
                            if component_set(lv, decomposition@).contains(n) {
                                let k = choose|k: int| 0 <= k < lv.len() && component_in(#[trigger] lv[k], decomposition@) == Some(n);
                                if k < i {
                                    assert(views(labels@.take(i as int))[k] == lv[k]);
                                }
                            }
                            if before.contains(n) {
                                let k = choose|k: int| 0 <= k < views(labels@.take(i as int)).len() && component_in(#[trigger] views(labels@.take(i as int))[k], decomposition@) == Some(n);
                                assert(lv[k] == views(labels@.take(i as int))[k]);
                            }
                        }
                        assert(component_set(lv, decomposition@) =~= before);
                    }
                }
            },
            None => {
                proof {
                    assert forall|n: Seq<char>| #[trigger] component_set(lv, decomposition@).contains(n)
                        <==> before.contains(n) by {
                        if component_set(lv, decomposition@).contains(n) {
                            let k = choose|k: int| 0 <= k < lv.len() && component_in(#[trigger] lv[k], decomposition@) == Some(n);
                            if k < i {
                                assert(views(labels@.take(i as int))[k] == lv[k]);
                            }
                        }
                        if before.contains(n) {
                            let k = choose|k: int| 0 <= k < views(labels@.take(i as int)).len() && component_in(#[trigger] views(labels@.take(i as int))[k], decomposition@) == Some(n);
                            assert(lv[k] == views(labels@.take(i as int))[k]);
                        }
                    }
                    assert(component_set(lv, decomposition@) =~= before);
                }
            },
        }
        i += 1;
    }
    proof {
        assert(labels@.take(labels@.len() as int) =~= labels@);
    }
    r
}

/// Every component label of the files, in order.
pub open spec fn all_labels(files: Seq<FileRecordView>) -> Seq<Seq<char>>
    decreases files.len(),
{
    if files.len() == 0 {
        Seq::empty()
    } else {
        all_labels(files.drop_last()) + files.last().components
    }
}

fn collect_labels(files: &Vec<FileRecord>) -> (r: Vec<String>)
    ensures
        views(r@) == all_labels(record_views(files@)),
{
    let mut r: Vec<String> = Vec::new();
    let mut i: usize = 0;
    while i < files.len()
        invariant
            i <= files@.len(),
            views(r@) == all_labels(record_views(files@.take(i as int))),
        decreases files@.len() - i,
    {
        proof {
            assert(record_views(files@.take(i + 1)).drop_last() =~= record_views(files@.take(i as int)));
            assert(record_views(files@.take(i + 1)).last() == files@[i as int]@);
        }
        let mut k: usize = 0;
        let ghost base = views(r@);
        while k < files[i].components.len()
            invariant
                i < files@.len(),
                k <= files@[i as int].components@.len(),
                views(r@) == base + views(files@[i as int].components@.take(k as int)),
            decreases files@[i as int].components@.len() - k,
        {
            let ghost before = r@;
            r.push(copy_string(&files[i].components[k]));
            proof {
                assert(views(r@) =~= views(before).push(files@[i as int].components@[k as int]@));
                assert(views(files@[i as int].components@.take(k + 1)) =~= views(files@[i as int].components@.take(k as int)).push(files@[i as int].components@[k as int]@));
                assert(views(r@) =~= base + views(files@[i as int].components@.take(k + 1)));
            }
            k += 1;
        }
        proof {
            assert(files@[i as int].components@.take(files@[i as int].components@.len() as int) =~= files@[i as int].components@);
        }
        i += 1;
    }
    proof {
        assert(files@.take(files@.len() as int) =~= files@);
    }
    r
}

/// The depending files of a dependency, each with the dependency.
pub open spec fn file_links(dep: Dependency) -> Seq<(Dependency, SourceFileDependency)> {
    dep.from_files@.map_values(|f: SourceFileDependency| (dep, f))
}

/// The depending files of all dependencies, in order.
pub open spec fn all_file_links(deps: Seq<Dependency>) -> Seq<(Dependency, SourceFileDependency)>
    decreases deps.len(),
{
    if deps.len() == 0 {
        Seq::empty()
    } else {
        all_file_links(deps.drop_last()) + file_links(deps.last())
    }
}

/// The components of decomposition `d` that the files of a dependency's
/// target package belong to.
pub open spec fn target_components(dep: Dependency, d: Seq<char>) -> Set<Seq<char>> {
    component_set(all_labels(record_views(dep.to_anchor.files@)), d)
}

/// The components of decomposition `d` that a depending file belongs to.
pub open spec fn source_components(f: SourceFileDependency, d: Seq<char>) -> Set<Seq<char>> {
    component_set(views(f.file.components@), d)
}

/// The depending file of `x` links to component `t`: `t` holds a file of the
/// target package, and the depending file belongs to some component and to
/// none of the target's.
pub open spec fn links_to(x: (Dependency, SourceFileDependency), d: Seq<char>, t: Seq<char>) -> bool {
    &&& target_components(x.0, d).contains(t)
    &&& exists|c: Seq<char>| #[trigger] source_components(x.1, d).contains(c)
    &&& forall|c: Seq<char>| #[trigger] source_components(x.1, d).contains(c) ==> !target_components(x.0, d).contains(c)
}

/// Some file of `q` with path `path` links to component `t`.
pub open spec fn linked_before(q: Seq<(Dependency, SourceFileDependency)>, path: Seq<char>, d: Seq<char>, t: Seq<char>) -> bool
    decreases q.len(),
{
    q.len() > 0 && (linked_before(q.drop_last(), path, d, t) || (q.last().1.file.relative_path@ == path && links_to(
        q.last(),
        d,
        t,
    )))
}

/// The depending file of `x`, following those of `q`, counts for a
/// dependency of `s` on `t`: it belongs to `s`, links to `t`, and no earlier
/// file with its path linked to `t`.
pub open spec fn counted(
    q: Seq<(Dependency, SourceFileDependency)>,
    x: (Dependency, SourceFileDependency),
    d: Seq<char>,
    s: Seq<char>,
    t: Seq<char>,
) -> bool {
    &&& links_to(x, d, t)
    &&& source_components(x.1, d).contains(s)
    &&& !linked_before(q, x.1.file.relative_path@, d, t)
}

/// The evidence, as (path, code fragment) in order, of a dependency of
/// component `s` on component `t` in decomposition `d`.
pub open spec fn link_evidence(q: Seq<(Dependency, SourceFileDependency)>, d: Seq<char>, s: Seq<char>, t: Seq<char>) -> Seq<
    (Seq<char>, Seq<char>),
>
    decreases q.len(),
{
    if q.len() == 0 {
        Seq::empty()
    } else {
        let rest = link_evidence(q.drop_last(), d, s, t);
        if counted(q.drop_last(), q.last(), d, s, t) {
            rest.push((q.last().1.file.relative_path@, q.last().1.code_fragment@))
        } else {
            rest
        }
    }
}

/// The summed lines of code of the files counted for a dependency of `s`
/// on `t`.
pub open spec fn link_lines(q: Seq<(Dependency, SourceFileDependency)>, d: Seq<char>, s: Seq<char>, t: Seq<char>) -> nat
    decreases q.len(),
{
    if q.len() == 0 {
        0
    } else {
        link_lines(q.drop_last(), d, s, t) + if counted(q.drop_last(), q.last(), d, s, t) {
            q.last().1.file.lines_of_code as nat
        } else {
            0nat
        }
    }
}

/// Evidence lines as (path, line) pairs.
pub open spec fn evidence_pairs(e: Seq<DependencyEvidence>) -> Seq<(Seq<char>, Seq<char>)> {
    e.map_values(|x: DependencyEvidence| (x.path_from@, x.evidence@))
}

/// `e` is the dependency of its source component on its target component
/// in decomposition `d` that the files of `q` make: its evidence, their
/// count (at least one) and their summed lines of code (capped at
/// `usize::MAX`).
pub open spec fn entry_of_links(q: Seq<(Dependency, SourceFileDependency)>, d: Seq<char>, e: ComponentDependency) -> bool {
    &&& e.decomposition@ == d
    &&& evidence_pairs(e.evidence@) == link_evidence(q, d, e.from_component@, e.to_component@)
    &&& e.count == e.evidence@.len()
    &&& e.count > 0
    &&& e.loc_from == capped(link_lines(q, d, e.from_component@, e.to_component@))
}

/// Component dependency `e` of decomposition `d` as `deps` make it.
pub open spec fn component_dependency_ok(deps: Seq<Dependency>, d: Seq<char>, e: ComponentDependency) -> bool {
    entry_of_links(all_file_links(deps), d, e)
}

/// Every pair of components with evidence has an entry in `r`.
pub open spec fn links_covered(q: Seq<(Dependency, SourceFileDependency)>, d: Seq<char>, r: Seq<ComponentDependency>) -> bool {
    forall|s: Seq<char>, t: Seq<char>|
        #[trigger] link_evidence(q, d, s, t).len() > 0 ==> exists|k: int|
            0 <= k < r.len() && (#[trigger] r[k]).from_component@ == s && r[k].to_component@ == t
}

/// The component dependencies of decomposition `d`: one per pair of
/// components with evidence, strictly ordered by (from, to).
pub open spec fn component_dependencies_in(
    deps: Seq<Dependency>,
    d: Seq<char>,
    r: Seq<ComponentDependency>,
) -> bool {
    &&& forall|x: int, y: int|
        0 <= x < y < r.len() ==> pair_lt(
            #[trigger] r[x].from_component@,
            r[x].to_component@,
            #[trigger] r[y].from_component@,
            r[y].to_component@,
        )
    &&& forall|k: int| 0 <= k < r.len() ==> component_dependency_ok(deps, d, #[trigger] r[k])
    &&& links_covered(all_file_links(deps), d, r)
}

proof fn lemma_counted_apart(q: Seq<(Dependency, SourceFileDependency)>, x: (Dependency, SourceFileDependency), d: Seq<char>, s: Seq<char>, t: Seq<char>)
    requires
        counted(q, x, d, s, t),
    ensures
        s != t,
{
}

proof fn lemma_link_evidence_apart(q: Seq<(Dependency, SourceFileDependency)>, d: Seq<char>, s: Seq<char>, t: Seq<char>)
    requires
        link_evidence(q, d, s, t).len() > 0,
    ensures
        s != t,
    decreases q.len(),
{
    if q.len() > 0 {
        if counted(q.drop_last(), q.last(), d, s, t) {
            lemma_counted_apart(q.drop_last(), q.last(), d, s, t);
        } else {
            lemma_link_evidence_apart(q.drop_last(), d, s, t);
        }
    }
}

/// No component depends on itself: every component dependency links two
/// different components.
pub proof fn lemma_no_self_dependency(deps: Seq<Dependency>, d: Seq<char>, e: ComponentDependency)
    requires
        component_dependency_ok(deps, d, e),
    ensures
        e.from_component@ != e.to_component@,
{
    assert(evidence_pairs(e.evidence@).len() == e.evidence@.len());
    lemma_link_evidence_apart(all_file_links(deps), d, e.from_component@, e.to_component@);
}

proof fn lemma_no_evidence_no_lines(q: Seq<(Dependency, SourceFileDependency)>, d: Seq<char>, s: Seq<char>, t: Seq<char>)
    requires
        link_evidence(q, d, s, t).len() == 0,
    ensures
        link_lines(q, d, s, t) == 0,
    decreases q.len(),
{
    if q.len() > 0 {
        lemma_no_evidence_no_lines(q.drop_last(), d, s, t);
    }
}

proof fn lemma_pair_lt_trichotomy(a1: Seq<char>, b1: Seq<char>, a2: Seq<char>, b2: Seq<char>)
    ensures
        (a1, b1) != (a2, b2) ==> pair_lt(a1, b1, a2, b2) || pair_lt(a2, b2, a1, b1),
        !(pair_lt(a1, b1, a2, b2) && pair_lt(a2, b2, a1, b1)),
        !pair_lt(a1, b1, a1, b1),
{
    lemma_text_lt_trichotomy(a1, a2);
    lemma_text_lt_trichotomy(b1, b2);
    lemma_text_lt_irreflexive(a1);
    lemma_text_lt_irreflexive(b1);
}

proof fn lemma_pair_lt_transitive(
    a1: Seq<char>,
    b1: Seq<char>,
    a2: Seq<char>,
    b2: Seq<char>,
    a3: Seq<char>,
    b3: Seq<char>,
)
    requires
        pair_lt(a1, b1, a2, b2),
        pair_lt(a2, b2, a3, b3),
    ensures
        pair_lt(a1, b1, a3, b3),
{
    if text_lt(a1, a2) && text_lt(a2, a3) {
        lemma_text_lt_transitive(a1, a2, a3);
    } else if text_lt(b1, b2) && text_lt(b2, b3) && a1 == a2 && a2 == a3 {
        lemma_text_lt_transitive(b1, b2, b3);
    }
}

/// Position of the first entry whose pair is not below `(from, to)`, and
/// whether it is that pair.
fn entry_position(entries: &Vec<ComponentDependency>, from: &str, to: &str) -> (r: (usize, bool))
    requires
        forall|x: int, y: int|
            0 <= x < y < entries@.len() ==> pair_lt(
                #[trigger] entries@[x].from_component@,
                entries@[x].to_component@,
                #[trigger] entries@[y].from_component@,
                entries@[y].to_component@,
            ),
    ensures
        r.0 <= entries@.len(),
        forall|k: int|
            0 <= k < r.0 ==> pair_lt(
                (#[trigger] entries@[k]).from_component@,
                entries@[k].to_component@,
                from@,
                to@,
            ),
        r.0 < entries@.len() ==> !pair_lt(
            entries@[r.0 as int].from_component@,
            entries@[r.0 as int].to_component@,
            from@,
            to@,
        ),
        r.1 ==> r.0 < entries@.len() && entries@[r.0 as int].from_component@ == from@
            && entries@[r.0 as int].to_component@ == to@,
        !r.1 ==> forall|k: int|
            0 <= k < entries@.len() ==> !((#[trigger] entries@[k]).from_component@ == from@
                && entries@[k].to_component@ == to@),
{
    let mut i: usize = 0;
    while i < entries.len()
        invariant
            i <= entries@.len(),
            forall|x: int, y: int|
                0 <= x < y < entries@.len() ==> pair_lt(
                    #[trigger] entries@[x].from_component@,
                    entries@[x].to_component@,
                    #[trigger] entries@[y].from_component@,
                    entries@[y].to_component@,
                ),
            forall|k: int|
                0 <= k < i ==> pair_lt(
                    (#[trigger] entries@[k]).from_component@,
                    entries@[k].to_component@,
                    from@,
                    to@,
                ),
        decreases entries@.len() - i,
    {
        let f = entries[i].from_component.as_str();
        let t = entries[i].to_component.as_str();
        let below = str_lt(f, from) || (str_eq(f, from) && str_lt(t, to));
        if !below {
            let found = str_eq(f, from) && str_eq(t, to);
            proof {
                if !found {
                    assert forall|k: int|
                        0 <= k < entries@.len() implies !((#[trigger] entries@[k]).from_component@
                        == from@ && entries@[k].to_component@ == to@) by {
                        let e = entries@[k];
                        let ei = entries@[i as int];
                        lemma_pair_lt_trichotomy(e.from_component@, e.to_component@, from@, to@);
                        if k > i {
                            lemma_pair_lt_trichotomy(ei.from_component@, ei.to_component@, from@, to@);
                            if e.from_component@ == from@ && e.to_component@ == to@ {
                                assert(pair_lt(ei.from_component@, ei.to_component@, e.from_component@, e.to_component@));
                            }
                        }
                    }
                }
            }
            return (i, found);
        }
        i += 1;
    }
    proof {
        assert forall|k: int|
            0 <= k < entries@.len() implies !((#[trigger] entries@[k]).from_component@ == from@
            && entries@[k].to_component@ == to@) by {
            lemma_pair_lt_trichotomy(from@, to@, from@, to@);
        }
    }
    (i, false)
}

/// The (path, component) pairs of recorded links.
pub open spec fn link_pairs(links: Seq<(String, String)>) -> Seq<(Seq<char>, Seq<char>)> {
    links.map_values(|l: (String, String)| (l.0@, l.1@))
}

/// Whether the (path, component) link is already recorded.
fn has_link(links: &Vec<(String, String)>, path: &str, component: &str) -> (b: bool)
    ensures
        b == link_pairs(links@).contains((path@, component@)),
{
    let mut k: usize = 0;
    while k < links.len()
        invariant
            k <= links@.len(),
            forall|m: int| 0 <= m < k ==> (#[trigger] link_pairs(links@)[m]) != (path@, component@),
        decreases links@.len() - k,
    {
        if str_eq(links[k].0.as_str(), path) && str_eq(links[k].1.as_str(), component) {
            proof {
                assert(link_pairs(links@)[k as int] == (path@, component@));
            }
            return true;
        }
        proof {
            assert(link_pairs(links@)[k as int] == (links@[k as int].0@, links@[k as int].1@));
        }
        k += 1;
    }
    false
}

/// Whether two ordered sets share a member.
fn overlaps(a: &PathSet, b: &PathSet) -> (r: bool)
    requires
        a.wf(),
        b.wf(),
    ensures
        r == exists|k: int| 0 <= k < a.members().len() && b.has(#[trigger] a.members()[k]),
{
    let mut k: usize = 0;
    while k < a.items.len()
        invariant
            a.wf(),
            b.wf(),
            k <= a.members().len(),
            forall|m: int| 0 <= m < k ==> !b.has(#[trigger] a.members()[m]),
        decreases a.members().len() - k,
    {
        if b.contains(a.items[k].as_str()) {
            proof {
                assert(a.members()[k as int] == a.items@[k as int]@);
            }
            return true;
        }
        proof {
            assert(a.members()[k as int] == a.items@[k as int]@);
        }
        k += 1;
    }
    false
}

/// The (path, component) pairs that files of `q` link.
pub open spec fn claimed(q: Seq<(Dependency, SourceFileDependency)>, d: Seq<char>) -> Set<(Seq<char>, Seq<char>)> {
    Set::new(|pt: (Seq<char>, Seq<char>)| linked_before(q, pt.0, d, pt.1))
}

/// The links that file path `path` makes to the first `m` targets.
pub open spec fn current_links(path: Seq<char>, ts: Seq<Seq<char>>, m: int) -> Set<(Seq<char>, Seq<char>)> {
    Set::new(|pt: (Seq<char>, Seq<char>)| pt.0 == path && ts.take(m).contains(pt.1))
}

/// Whether the current file has been counted for the pair (s, t): for the
/// targets before position `m`, and for target `m` with the sources before
/// position `r`.
pub open spec fn done_at(ts: Seq<Seq<char>>, ss: Seq<Seq<char>>, m: int, r: int, s: Seq<char>, t: Seq<char>) -> bool {
    ts.take(m).contains(t) || (0 <= m < ts.len() && t == ts[m] && ss.take(r).contains(s))
}

/// The evidence of the pair (s, t) after the files of `q`, and after `x`
/// when `done`.
pub open spec fn partial_evidence(
    q: Seq<(Dependency, SourceFileDependency)>,
    x: (Dependency, SourceFileDependency),
    d: Seq<char>,
    s: Seq<char>,
    t: Seq<char>,
    done: bool,
) -> Seq<(Seq<char>, Seq<char>)> {
    if done && counted(q, x, d, s, t) {
        link_evidence(q, d, s, t).push((x.1.file.relative_path@, x.1.code_fragment@))
    } else {
        link_evidence(q, d, s, t)
    }
}

/// The lines of code of the pair (s, t) after the files of `q`, and after
/// `x` when `done`.
pub open spec fn partial_lines(
    q: Seq<(Dependency, SourceFileDependency)>,
    x: (Dependency, SourceFileDependency),
    d: Seq<char>,
    s: Seq<char>,
    t: Seq<char>,
    done: bool,
) -> nat {
    link_lines(q, d, s, t) + if done && counted(q, x, d, s, t) {
        x.1.file.lines_of_code as nat
    } else {
        0nat
    }
}

/// The entries are strictly ordered by (from, to).
pub open spec fn pairs_ordered(entries: Seq<ComponentDependency>) -> bool {
    forall|x: int, y: int|
        0 <= x < y < entries.len() ==> pair_lt(
            #[trigger] entries[x].from_component@,
            entries[x].to_component@,
            #[trigger] entries[y].from_component@,
            entries[y].to_component@,
        )
}

/// The entries describe the files of `q` exactly.
pub open spec fn entries_exact(entries: Seq<ComponentDependency>, q: Seq<(Dependency, SourceFileDependency)>, d: Seq<char>) -> bool {
    &&& pairs_ordered(entries)
    &&& forall|k: int| 0 <= k < entries.len() ==> entry_of_links(q, d, #[trigger] entries[k])
    &&& links_covered(q, d, entries)
}

/// The entry describes pair (from, to) after `q` and, as far as done, `x`.
pub open spec fn entry_matches(
    e: ComponentDependency,
    q: Seq<(Dependency, SourceFileDependency)>,
    x: (Dependency, SourceFileDependency),
    d: Seq<char>,
    done: bool,
) -> bool {
    &&& e.decomposition@ == d
    &&& evidence_pairs(e.evidence@) == partial_evidence(q, x, d, e.from_component@, e.to_component@, done)
    &&& e.count == e.evidence@.len()
    &&& e.count > 0
    &&& e.loc_from == capped(partial_lines(q, x, d, e.from_component@, e.to_component@, done))
}

/// The entries describe the files of `q` and the part of `x` that
/// `done_at` marks.
pub open spec fn entries_match(
    entries: Seq<ComponentDependency>,
    q: Seq<(Dependency, SourceFileDependency)>,
    x: (Dependency, SourceFileDependency),
    d: Seq<char>,
    ts: Seq<Seq<char>>,
    ss: Seq<Seq<char>>,
    m: int,
    r: int,
) -> bool {
    &&& pairs_ordered(entries)
    &&& forall|k: int|
        0 <= k < entries.len() ==> entry_matches(
            #[trigger] entries[k],
            q,
            x,
            d,
            done_at(ts, ss, m, r, entries[k].from_component@, entries[k].to_component@),
        )
    &&& forall|s: Seq<char>, t: Seq<char>|
        #[trigger] partial_evidence(q, x, d, s, t, done_at(ts, ss, m, r, s, t)).len() > 0 ==> exists|k: int|
            0 <= k < entries.len() && (#[trigger] entries[k]).from_component@ == s && entries[k].to_component@ == t
}

proof fn lemma_prefix_step(ts: Seq<Seq<char>>, m: int)
    requires
        0 <= m < ts.len(),
    ensures
        forall|t: Seq<char>| #[trigger] ts.take(m + 1).contains(t) <==> (ts.take(m).contains(t) || t == ts[m]),
{
    assert forall|t: Seq<char>| #[trigger] ts.take(m + 1).contains(t) <==> (ts.take(m).contains(t) || t == ts[m]) by {
        let longer = ts.take(m + 1);
        let shorter = ts.take(m);
        if longer.contains(t) {
            let k = choose|k: int| 0 <= k < longer.len() && #[trigger] longer[k] == t;
            if k < m {
                assert(shorter[k] == t);
            }
        }
        if shorter.contains(t) {
            let k = choose|k: int| 0 <= k < shorter.len() && #[trigger] shorter[k] == t;
            assert(longer[k] == t);
        }
        if t == ts[m] {
            assert(longer[m] == t);
        }
    }
}

proof fn lemma_start_file(
    entries: Seq<ComponentDependency>,
    q: Seq<(Dependency, SourceFileDependency)>,
    x: (Dependency, SourceFileDependency),
    d: Seq<char>,
    ts: Seq<Seq<char>>,
    ss: Seq<Seq<char>>,
)
    requires
        entries_exact(entries, q, d),
    ensures
        entries_match(entries, q, x, d, ts, ss, 0, 0),
{
    assert forall|s: Seq<char>, t: Seq<char>| !done_at(ts, ss, 0, 0, s, t) by {
        assert(ts.take(0).len() == 0);
        assert(ss.take(0).len() == 0);
    }
    assert forall|k: int| 0 <= k < entries.len() implies entry_matches(
        #[trigger] entries[k],
        q,
        x,
        d,
        done_at(ts, ss, 0, 0, entries[k].from_component@, entries[k].to_component@),
    ) by {
        assert(entry_of_links(q, d, entries[k]));
    }
    assert forall|s: Seq<char>, t: Seq<char>|
        #[trigger] partial_evidence(q, x, d, s, t, done_at(ts, ss, 0, 0, s, t)).len() > 0 implies exists|k: int|
        0 <= k < entries.len() && (#[trigger] entries[k]).from_component@ == s && entries[k].to_component@ == t by {
        assert(link_evidence(q, d, s, t).len() > 0);
    }
}

proof fn lemma_skip_file(
    entries: Seq<ComponentDependency>,
    q: Seq<(Dependency, SourceFileDependency)>,
    x: (Dependency, SourceFileDependency),
    d: Seq<char>,
)
    requires
        entries_exact(entries, q, d),
        forall|t: Seq<char>| !links_to(x, d, t),
    ensures
        entries_exact(entries, q.push(x), d),
        claimed(q.push(x), d) == claimed(q, d),
{
    assert(q.push(x).drop_last() =~= q);
    assert(q.push(x).last() == x);
    assert forall|s: Seq<char>, t: Seq<char>|
        link_evidence(q.push(x), d, s, t) == link_evidence(q, d, s, t) && link_lines(q.push(x), d, s, t) == link_lines(
            q,
            d,
            s,
            t,
        ) by {
        assert(!counted(q, x, d, s, t));
    }
    assert forall|k: int| 0 <= k < entries.len() implies entry_of_links(q.push(x), d, #[trigger] entries[k]) by {
        assert(entry_of_links(q, d, entries[k]));
    }
    assert forall|s: Seq<char>, t: Seq<char>|
        #[trigger] link_evidence(q.push(x), d, s, t).len() > 0 implies exists|k: int|
        0 <= k < entries.len() && (#[trigger] entries[k]).from_component@ == s && entries[k].to_component@ == t by {
        assert(link_evidence(q, d, s, t).len() > 0);
    }
    assert(claimed(q.push(x), d) =~= claimed(q, d));
}

proof fn lemma_finish_file(
    entries: Seq<ComponentDependency>,
    q: Seq<(Dependency, SourceFileDependency)>,
    x: (Dependency, SourceFileDependency),
    d: Seq<char>,
    ts: Seq<Seq<char>>,
    ss: Seq<Seq<char>>,
)
    requires
        entries_match(entries, q, x, d, ts, ss, ts.len() as int, 0),
        forall|t: Seq<char>| links_to(x, d, t) <==> ts.contains(t),
    ensures
        entries_exact(entries, q.push(x), d),
        claimed(q.push(x), d) == claimed(q, d) + current_links(x.1.file.relative_path@, ts, ts.len() as int),
{
    assert(q.push(x).drop_last() =~= q);
    assert(q.push(x).last() == x);
    assert(ts.take(ts.len() as int) =~= ts);
    assert forall|s: Seq<char>, t: Seq<char>|
        link_evidence(q.push(x), d, s, t) == partial_evidence(q, x, d, s, t, done_at(ts, ss, ts.len() as int, 0, s, t))
            && link_lines(q.push(x), d, s, t) == partial_lines(
            q,
            x,
            d,
            s,
            t,
            done_at(ts, ss, ts.len() as int, 0, s, t),
        ) by {
        if counted(q, x, d, s, t) {
            assert(ts.contains(t));
        }
    }
    assert forall|k: int| 0 <= k < entries.len() implies entry_of_links(q.push(x), d, #[trigger] entries[k]) by {
        assert(entry_matches(
            entries[k],
            q,
            x,
            d,
            done_at(ts, ss, ts.len() as int, 0, entries[k].from_component@, entries[k].to_component@),
        ));
    }
    assert forall|s: Seq<char>, t: Seq<char>|
        #[trigger] link_evidence(q.push(x), d, s, t).len() > 0 implies exists|k: int|
        0 <= k < entries.len() && (#[trigger] entries[k]).from_component@ == s && entries[k].to_component@ == t by {
        assert(partial_evidence(q, x, d, s, t, done_at(ts, ss, ts.len() as int, 0, s, t)).len() > 0);
    }
    assert(claimed(q.push(x), d) =~= claimed(q, d) + current_links(x.1.file.relative_path@, ts, ts.len() as int));
}

proof fn lemma_next_target(
    entries: Seq<ComponentDependency>,
    q: Seq<(Dependency, SourceFileDependency)>,
    x: (Dependency, SourceFileDependency),
    d: Seq<char>,
    ts: Seq<Seq<char>>,
    ss: Seq<Seq<char>>,
    m: int,
    r: int,
)
    requires
        0 <= m < ts.len(),
        0 <= r <= ss.len(),
        entries_match(entries, q, x, d, ts, ss, m, r),
        forall|s: Seq<char>| counted(q, x, d, s, ts[m]) ==> ss.take(r).contains(s),
    ensures
        entries_match(entries, q, x, d, ts, ss, m + 1, 0),
{
    lemma_prefix_step(ts, m);
    assert(ss.take(0).len() == 0);
    assert forall|s: Seq<char>, t: Seq<char>|
        partial_evidence(q, x, d, s, t, done_at(ts, ss, m + 1, 0, s, t)) == partial_evidence(
            q,
            x,
            d,
            s,
            t,
            done_at(ts, ss, m, r, s, t),
        ) && partial_lines(q, x, d, s, t, done_at(ts, ss, m + 1, 0, s, t)) == partial_lines(
            q,
            x,
            d,
            s,
            t,
            done_at(ts, ss, m, r, s, t),
        ) by {
        assert(ts.take(m + 1).contains(t) <==> (ts.take(m).contains(t) || t == ts[m]));
        if t == ts[m] {
            if counted(q, x, d, s, t) {
                assert(ss.take(r).contains(s));
            }
        }
    }
    assert forall|k: int| 0 <= k < entries.len() implies entry_matches(
        #[trigger] entries[k],
        q,
        x,
        d,
        done_at(ts, ss, m + 1, 0, entries[k].from_component@, entries[k].to_component@),
    ) by {
        assert(entry_matches(
            entries[k],
            q,
            x,
            d,
            done_at(ts, ss, m, r, entries[k].from_component@, entries[k].to_component@),
        ));
    }
    assert forall|s: Seq<char>, t: Seq<char>|
        #[trigger] partial_evidence(q, x, d, s, t, done_at(ts, ss, m + 1, 0, s, t)).len() > 0 implies exists|k: int|
        0 <= k < entries.len() && (#[trigger] entries[k]).from_component@ == s && entries[k].to_component@ == t by {
        assert(partial_evidence(q, x, d, s, t, done_at(ts, ss, m, r, s, t)).len() > 0);
    }
}

/// Adds one evidence line for the pair (`ss[r]`, `ts[m]`).
#[verifier::rlimit(60)]
fn add_evidence(
    entries: &mut Vec<ComponentDependency>,
    decomposition: &str,
    source: &String,
    target: &String,
    source_file: &SourceFileDependency,
    Ghost(q): Ghost<Seq<(Dependency, SourceFileDependency)>>,
    Ghost(x): Ghost<(Dependency, SourceFileDependency)>,
    Ghost(ts): Ghost<Seq<Seq<char>>>,
    Ghost(ss): Ghost<Seq<Seq<char>>>,
    Ghost(m): Ghost<int>,
    Ghost(r): Ghost<int>,
)
    requires
        entries_match(old(entries)@, q, x, decomposition@, ts, ss, m, r),
        0 <= m < ts.len(),
        0 <= r < ss.len(),
        ts[m] == target@,
        ss[r] == source@,
        x.1 == *source_file,
        !ts.take(m).contains(ts[m]),
        !ss.take(r).contains(ss[r]),
        counted(q, x, decomposition@, source@, target@),
    ensures
        entries_match(final(entries)@, q, x, decomposition@, ts, ss, m, r + 1),
{
    let ghost d = decomposition@;
    let ghost sv = source@;
    let ghost tv = target@;
    proof {
        lemma_prefix_step(ss, r);
        assert forall|s: Seq<char>, t: Seq<char>|
            (done_at(ts, ss, m, r + 1, s, t) == (done_at(ts, ss, m, r, s, t) || (s == sv && t == tv))) by {
            assert(ss.take(r + 1).contains(s) <==> (ss.take(r).contains(s) || s == ss[r]));
        }
        assert(!done_at(ts, ss, m, r, sv, tv));
    }
    let ev = DependencyEvidence {
        path_from: copy_string(&source_file.file.relative_path),
        evidence: copy_string(&source_file.code_fragment),
    };
    let (pos, found) = entry_position(entries, source.as_str(), target.as_str());
    let ghost before = entries@;
    if found {
        let mut entry = entries.remove(pos);
        let ghost old_entry = entry;
        proof {
            assert(old_entry == before[pos as int]);
            assert(entry_matches(old_entry, q, x, d, done_at(ts, ss, m, r, sv, tv)));
        }
        entry.evidence.push(ev);
        entry.count = entry.evidence.len();
        entry.loc_from = entry.loc_from.saturating_add(source_file.file.lines_of_code);
        proof {
            assert(evidence_pairs(entry.evidence@) =~= evidence_pairs(old_entry.evidence@).push(
                (x.1.file.relative_path@, x.1.code_fragment@),
            ));
            assert(entry_matches(entry, q, x, d, done_at(ts, ss, m, r + 1, sv, tv)));
        }
        entries.insert(pos, entry);
        proof {
            assert(entries@ =~= before.update(pos as int, entry));
            assert forall|k: int| 0 <= k < entries@.len() implies entry_matches(
                #[trigger] entries@[k],
                q,
                x,
                d,
                done_at(ts, ss, m, r + 1, entries@[k].from_component@, entries@[k].to_component@),
            ) by {
                if k != pos {
                    assert(entries@[k] == before[k]);
                    assert(entry_matches(
                        before[k],
                        q,
                        x,
                        d,
                        done_at(ts, ss, m, r, before[k].from_component@, before[k].to_component@),
                    ));
                    lemma_pair_lt_trichotomy(before[k].from_component@, before[k].to_component@, sv, tv);
                    if k < pos {
                        assert(pair_lt(before[k].from_component@, before[k].to_component@, sv, tv));
                    } else {
                        assert(pair_lt(sv, tv, before[k].from_component@, before[k].to_component@));
                    }
                }
            }
            assert forall|x1: int, y1: int|
                0 <= x1 < y1 < entries@.len() implies pair_lt(
                #[trigger] entries@[x1].from_component@,
                entries@[x1].to_component@,
                #[trigger] entries@[y1].from_component@,
                entries@[y1].to_component@,
            ) by {
                assert(entries@[x1].from_component@ == before[x1].from_component@);
                assert(entries@[y1].from_component@ == before[y1].from_component@);
                assert(entries@[x1].to_component@ == before[x1].to_component@);
                assert(entries@[y1].to_component@ == before[y1].to_component@);
            }
            assert forall|s: Seq<char>, t: Seq<char>|
                #[trigger] partial_evidence(q, x, d, s, t, done_at(ts, ss, m, r + 1, s, t)).len() > 0 implies exists|k: int|
                0 <= k < entries@.len() && (#[trigger] entries@[k]).from_component@ == s && entries@[k].to_component@
                    == t by {
                if s == sv && t == tv {
                    assert(entries@[pos as int].from_component@ == s);
                } else {
                    assert(partial_evidence(q, x, d, s, t, done_at(ts, ss, m, r, s, t)).len() > 0);
                    let k = choose|k: int|
                        0 <= k < before.len() && (#[trigger] before[k]).from_component@ == s && before[k].to_component@
                            == t;
                    assert(entries@[k] == before[k]);
                }
            }
        }
    } else {
        proof {
            if partial_evidence(q, x, d, sv, tv, done_at(ts, ss, m, r, sv, tv)).len() > 0 {
                let k = choose|k: int|
                    0 <= k < before.len() && (#[trigger] before[k]).from_component@ == sv && before[k].to_component@
                        == tv;
            }
            assert(link_evidence(q, d, sv, tv).len() == 0);
            lemma_no_evidence_no_lines(q, d, sv, tv);
        }
        let mut evidence: Vec<DependencyEvidence> = Vec::new();
        evidence.push(ev);
        let entry = ComponentDependency {
            decomposition: decomposition.to_owned(),
            from_component: copy_string(source),
            loc_from: source_file.file.lines_of_code,
            evidence,
            to_component: copy_string(target),
            count: 1,
        };
        proof {
            assert(evidence_pairs(entry.evidence@) =~= link_evidence(q, d, sv, tv).push(
                (x.1.file.relative_path@, x.1.code_fragment@),
            ));
            assert(entry_matches(entry, q, x, d, done_at(ts, ss, m, r + 1, sv, tv)));
        }
        entries.insert(pos, entry);
        proof {
            assert forall|k: int| 0 <= k < entries@.len() implies entry_matches(
                #[trigger] entries@[k],
                q,
                x,
                d,
                done_at(ts, ss, m, r + 1, entries@[k].from_component@, entries@[k].to_component@),
            ) by {
                if k != pos {
                    let j = if k < pos { k } else { k - 1 };
                    assert(entries@[k] == before[j]);
                    assert(entry_matches(
                        before[j],
                        q,
                        x,
                        d,
                        done_at(ts, ss, m, r, before[j].from_component@, before[j].to_component@),
                    ));
                    assert(!(before[j].from_component@ == sv && before[j].to_component@ == tv));
                }
            }
            assert forall|x1: int, y1: int|
                0 <= x1 < y1 < entries@.len() implies pair_lt(
                #[trigger] entries@[x1].from_component@,
                entries@[x1].to_component@,
                #[trigger] entries@[y1].from_component@,
                entries@[y1].to_component@,
            ) by {
                let e = entry;
                if x1 < pos && y1 == pos {
                    assert(entries@[x1] == before[x1]);
                } else if x1 < pos && y1 > pos {
                    assert(entries@[x1] == before[x1]);
                    assert(entries@[y1] == before[y1 - 1]);
                } else if x1 == pos && y1 > pos {
                    assert(entries@[y1] == before[y1 - 1]);
                    lemma_pair_lt_trichotomy(
                        before[pos as int].from_component@,
                        before[pos as int].to_component@,
                        e.from_component@,
                        e.to_component@,
                    );
                    if y1 - 1 > pos {
                        lemma_pair_lt_transitive(
                            e.from_component@,
                            e.to_component@,
                            before[pos as int].from_component@,
                            before[pos as int].to_component@,
                            before[y1 - 1].from_component@,
                            before[y1 - 1].to_component@,
                        );
                    }
                } else if x1 > pos {
                    assert(entries@[x1] == before[x1 - 1]);
                    assert(entries@[y1] == before[y1 - 1]);
                } else {
                    assert(entries@[x1] == before[x1]);
                    assert(entries@[y1] == before[y1]);
                }
            }
            assert forall|s: Seq<char>, t: Seq<char>|
                #[trigger] partial_evidence(q, x, d, s, t, done_at(ts, ss, m, r + 1, s, t)).len() > 0 implies exists|k: int|
                0 <= k < entries@.len() && (#[trigger] entries@[k]).from_component@ == s && entries@[k].to_component@
                    == t by {
                if s == sv && t == tv {
                    assert(entries@[pos as int].from_component@ == s);
                } else {
                    assert(partial_evidence(q, x, d, s, t, done_at(ts, ss, m, r, s, t)).len() > 0);
                    let k = choose|k: int|
                        0 <= k < before.len() && (#[trigger] before[k]).from_component@ == s && before[k].to_component@
                            == t;
                    if k < pos {
                        assert(entries@[k] == before[k]);
                    } else {
                        assert(entries@[k + 1] == before[k]);
                    }
                }
            }
        }
    }
}

/// The dependencies between components of decomposition `decomposition`:
/// a file of one component importing a package with files in another,
/// counted once per file and target component.
#[verifier::rlimit(60)]
pub fn extract_component_dependencies_for_decomposition(
    dependencies: &Vec<Dependency>,
    decomposition: &str,
) -> (r: Vec<ComponentDependency>)
    ensures
        component_dependencies_in(dependencies@, decomposition@, r@),
{
    let ghost d = decomposition@;
    let mut links: Vec<(String, String)> = Vec::new();
    let mut entries: Vec<ComponentDependency> = Vec::new();
    let ghost mut q: Seq<(Dependency, SourceFileDependency)> = Seq::empty();
    proof {
        assert(link_pairs(links@).to_set() =~= claimed(q, d));
        assert(dependencies@.take(0) =~= Seq::<Dependency>::empty());
    }
    let mut i: usize = 0;
    while i < dependencies.len()
        invariant
            i <= dependencies@.len(),
            d == decomposition@,
            q == all_file_links(dependencies@.take(i as int)),
            entries_exact(entries@, q, d),
            link_pairs(links@).to_set() == claimed(q, d),
        decreases dependencies@.len() - i,
    {
        let dependency = &dependencies[i];
        let target_labels = collect_labels(&dependency.to_anchor.files);
        let targets = component_names(&target_labels, decomposition);
        let ghost ts = targets.members();
        let ghost q0 = q;
        proof {
            assert(file_links(*dependency).take(0) =~= Seq::<(Dependency, SourceFileDependency)>::empty());
            assert(q0 + file_links(*dependency).take(0) =~= q0);
        }
        let mut j: usize = 0;
        while j < dependency.from_files.len()
            invariant
                i < dependencies@.len(),
                *dependency == dependencies@[i as int],
                d == decomposition@,
                targets.wf(),
                ts == targets.members(),
                ts.to_set() == target_components(*dependency, d),
                q0 == all_file_links(dependencies@.take(i as int)),
                j <= dependency.from_files@.len(),
                q == q0 + file_links(*dependency).take(j as int),
                entries_exact(entries@, q, d),
                link_pairs(links@).to_set() == claimed(q, d),
            decreases dependency.from_files@.len() - j,
        {
            let source_file = &dependency.from_files[j];
            let ghost x = (*dependency, *source_file);
            let sources = component_names(&source_file.file.components, decomposition);
            let ghost ss = sources.members();
            proof {
                assert(ss.to_set() == source_components(*source_file, d));
            }
            if targets.len() > 0 && sources.len() > 0 && !overlaps(&sources, &targets) {
                proof {
                    assert(ss.to_set().contains(ss[0]));
                    assert forall|t: Seq<char>| links_to(x, d, t) <==> ts.contains(t) by {
                        if ts.contains(t) {
                            assert(ts.to_set().contains(t));
                            assert(source_components(x.1, d).contains(ss[0]));
                            assert forall|c: Seq<char>| #[trigger] source_components(x.1, d).contains(c) implies !target_components(
                                x.0,
                                d,
                            ).contains(c) by {
                                assert(ss.to_set().contains(c));
                                let k = choose|k: int| 0 <= k < ss.len() && #[trigger] ss[k] == c;
                                assert(!targets.has(ss[k]));
                                assert(!ts.to_set().contains(c));
                            }
                        }
                        if links_to(x, d, t) {
                            assert(ts.to_set().contains(t));
                        }
                    }
                    lemma_start_file(entries@, q, x, d, ts, ss);
                    assert(ts.take(0).len() == 0);
                    assert(link_pairs(links@).to_set() =~= claimed(q, d) + current_links(x.1.file.relative_path@, ts, 0));
                }
                let mut t: usize = 0;
                while t < targets.items.len()
                    invariant
                        i < dependencies@.len(),
                        *dependency == dependencies@[i as int],
                        j < dependency.from_files@.len(),
                        *source_file == dependency.from_files@[j as int],
                        x == (*dependency, *source_file),
                        d == decomposition@,
                        targets.wf(),
                        sources.wf(),
                        ts == targets.members(),
                        ss == sources.members(),
                        ss.to_set() == source_components(*source_file, d),
                        forall|t1: Seq<char>| links_to(x, d, t1) <==> ts.contains(t1),
                        t <= ts.len(),
                        entries_match(entries@, q, x, d, ts, ss, t as int, 0),
                        link_pairs(links@).to_set() == claimed(q, d) + current_links(
                            x.1.file.relative_path@,
                            ts,
                            t as int,
                        ),
                    decreases ts.len() - t,
                {
                    let target = &targets.items[t];
                    let ghost tv = ts[t as int];
                    proof {
                        assert(tv == target@);
                        assert(ts.contains(tv));
                        assert(!ts.take(t as int).contains(tv)) by {
                            let prefix = ts.take(t as int);
                            if prefix.contains(tv) {
                                let k = choose|k: int| 0 <= k < prefix.len() && #[trigger] prefix[k] == tv;
                                assert(text_lt(ts[k], ts[t as int]));
                                lemma_text_lt_irreflexive(tv);
                            }
                        }
                        assert(ts.take(t + 1) =~= ts.take(t as int).push(tv));
                    }
                    if !has_link(&links, source_file.file.relative_path.as_str(), target.as_str()) {
                        proof {
                            assert(!link_pairs(links@).to_set().contains((x.1.file.relative_path@, tv)));
                            assert(!linked_before(q, x.1.file.relative_path@, d, tv));
                        }
                        let ghost links_before = link_pairs(links@);
                        links.push((copy_string(&source_file.file.relative_path), copy_string(target)));
                        proof {
                            let p = x.1.file.relative_path@;
                            assert(link_pairs(links@) =~= links_before.push((p, tv)));
                            links_before.lemma_push_to_set_commute((p, tv));
                            lemma_prefix_step(ts, t as int);
                            assert forall|pt: (Seq<char>, Seq<char>)|
                                (claimed(q, d) + current_links(p, ts, t + 1)).contains(pt) <==> (claimed(q, d)
                                    + current_links(p, ts, t as int)).insert((p, tv)).contains(pt) by {
                                assert(ts.take(t + 1).contains(pt.1) <==> (ts.take(t as int).contains(pt.1) || pt.1
                                    == ts[t as int]));
                            }
                            assert(link_pairs(links@).to_set() =~= claimed(q, d) + current_links(
                                x.1.file.relative_path@,
                                ts,
                                t + 1,
                            ));
                        }
                        let mut s: usize = 0;
                        while s < sources.items.len()
                            invariant
                                j < dependency.from_files@.len(),
                                *source_file == dependency.from_files@[j as int],
                                x == (*dependency, *source_file),
                                d == decomposition@,
                                targets.wf(),
                                sources.wf(),
                                ts == targets.members(),
                                ss == sources.members(),
                                ss.to_set() == source_components(*source_file, d),
                                t < ts.len(),
                                tv == ts[t as int],
                                *target == targets.items@[t as int],
                                tv == target@,
                                !ts.take(t as int).contains(tv),
                                links_to(x, d, tv),
                                !linked_before(q, x.1.file.relative_path@, d, tv),
                                s <= ss.len(),
                                entries_match(entries@, q, x, d, ts, ss, t as int, s as int),
                            decreases ss.len() - s,
                        {
                            let source = &sources.items[s];
                            proof {
                                assert(ss[s as int] == source@);
                                assert(ss.to_set().contains(ss[s as int]));
                                assert(!ss.take(s as int).contains(ss[s as int])) by {
                                    let prefix = ss.take(s as int);
                                    if prefix.contains(ss[s as int]) {
                                        let k = choose|k: int| 0 <= k < prefix.len() && #[trigger] prefix[k] == ss[s as int];
                                        assert(text_lt(ss[k], ss[s as int]));
                                        lemma_text_lt_irreflexive(ss[s as int]);
                                    }
                                }
                                assert(counted(q, x, d, source@, tv));
                            }
                            add_evidence(
                                &mut entries,
                                decomposition,
                                source,
                                target,
                                source_file,
                                Ghost(q),
                                Ghost(x),
                                Ghost(ts),
                                Ghost(ss),
                                Ghost(t as int),
                                Ghost(s as int),
                            );
                            s += 1;
                        }
                        proof {
                            assert(ss.take(ss.len() as int) =~= ss);
                            assert forall|s1: Seq<char>| counted(q, x, d, s1, ts[t as int]) implies ss.take(
                                ss.len() as int,
                            ).contains(s1) by {
                                assert(ss.to_set().contains(s1));
                            }
                            lemma_next_target(entries@, q, x, d, ts, ss, t as int, ss.len() as int);
                        }
                    } else {
                        proof {
                            lemma_prefix_step(ts, t as int);
                            assert(link_pairs(links@).to_set().contains((x.1.file.relative_path@, tv)));
                            assert(!current_links(x.1.file.relative_path@, ts, t as int).contains(
                                (x.1.file.relative_path@, tv),
                            ));
                            assert(claimed(q, d).contains((x.1.file.relative_path@, tv)));
                            assert(linked_before(q, x.1.file.relative_path@, d, tv));
                            assert(ss.take(0).len() == 0);
                            lemma_next_target(entries@, q, x, d, ts, ss, t as int, 0);
                            let p = x.1.file.relative_path@;
                            assert forall|pt: (Seq<char>, Seq<char>)|
                                (claimed(q, d) + current_links(p, ts, t + 1)).contains(pt) <==> (claimed(q, d)
                                    + current_links(p, ts, t as int)).contains(pt) by {
                                assert(ts.take(t + 1).contains(pt.1) <==> (ts.take(t as int).contains(pt.1) || pt.1
                                    == ts[t as int]));
                                if pt == (p, tv) {
                                    assert(claimed(q, d).contains(pt));
                                }
                            }
                            assert(link_pairs(links@).to_set() =~= claimed(q, d) + current_links(
                                x.1.file.relative_path@,
                                ts,
                                t + 1,
                            ));
                        }
                    }
                    t += 1;
                }
                proof {
                    lemma_finish_file(entries@, q, x, d, ts, ss);
                }
            } else {
                proof {
                    assert forall|t1: Seq<char>| !links_to(x, d, t1) by {
                        if links_to(x, d, t1) {
                            assert(ts.to_set().contains(t1));
                            assert(ts.len() > 0);
                            let c = choose|c: Seq<char>| #[trigger] source_components(x.1, d).contains(c);
                            assert(ss.to_set().contains(c));
                            assert(ss.len() > 0);
                            if exists|k: int| 0 <= k < ss.len() && targets.has(#[trigger] ss[k]) {
                                let k = choose|k: int| 0 <= k < ss.len() && targets.has(#[trigger] ss[k]);
                                assert(ss.to_set().contains(ss[k]));
                                assert(ts.to_set().contains(ss[k]));
                            }
                        }
                    }
                    lemma_skip_file(entries@, q, x, d);
                }
            }
            proof {
                assert(file_links(*dependency).take(j + 1) =~= file_links(*dependency).take(j as int).push(x));
                q = q.push(x);
            }
            j += 1;
        }
        proof {
            assert(file_links(*dependency).take(dependency.from_files@.len() as int) =~= file_links(*dependency));
            assert(dependencies@.take(i + 1).drop_last() =~= dependencies@.take(i as int));
            assert(dependencies@.take(i + 1).last() == *dependency);
        }
        i += 1;
    }
    proof {
        assert(dependencies@.take(dependencies@.len() as int) =~= dependencies@);
    }
    entries
}

/// The labels of every file a dependency involves: its depending files and
/// the files of its target package.
pub open spec fn dependency_labels(d: Dependency) -> Seq<Seq<char>> {
    all_labels(d.from_files@.map_values(|f: crate::ir::SourceFileDependency| f.file@)) + all_labels(
        record_views(d.to_anchor.files@),
    )
}

/// The decompositions named by the first `m` labels.
pub open spec fn decs_of(ls: Seq<Seq<char>>, m: int) -> Set<Seq<char>> {
    Set::new(|dec: Seq<char>| exists|x: int| 0 <= x < m && #[trigger] label_decomposition(ls[x]) == Some(dec))
}

proof fn lemma_decs_of_step(ls: Seq<Seq<char>>, m: int)
    requires
        0 <= m < ls.len(),
    ensures
        decs_of(ls, m + 1) == match label_decomposition(ls[m]) {
            Some(d) => decs_of(ls, m).insert(d),
            None => decs_of(ls, m),
        },
{
    let next = match label_decomposition(ls[m]) {
        Some(d) => decs_of(ls, m).insert(d),
        None => decs_of(ls, m),
    };
    assert forall|z: Seq<char>| #[trigger] decs_of(ls, m + 1).contains(z) <==> next.contains(z) by {
        if decs_of(ls, m + 1).contains(z) {
            let x = choose|x: int| 0 <= x < m + 1 && #[trigger] label_decomposition(ls[x]) == Some(z);
            if x < m {
                assert(decs_of(ls, m).contains(z));
            }
        }
        if decs_of(ls, m).contains(z) {
            let x = choose|x: int| 0 <= x < m && #[trigger] label_decomposition(ls[x]) == Some(z);
            assert(0 <= x < m + 1);
        }
        if label_decomposition(ls[m]) == Some(z) {
            assert(0 <= m < m + 1);
        }
    }
    assert(decs_of(ls, m + 1) =~= next);
}

/// The decomposition a label names.
pub open spec fn label_decomposition(l: Seq<char>) -> Option<Seq<char>> {
    match split_label(l) {
        Some((d, _)) => Some(d),
        None => None,
    }
}

/// The decompositions named by the labels that the dependencies involve.
pub open spec fn decomposition_set(deps: Seq<Dependency>) -> Set<Seq<char>> {
    Set::new(
        |dec: Seq<char>|
            exists|k: int, m: int|
                0 <= k < deps.len() && 0 <= m < dependency_labels(deps[k]).len() && #[trigger] label_decomposition(dependency_labels(deps[k])[m]) == Some(dec),
    )
}

fn dependency_label_list(d: &Dependency) -> (r: Vec<String>)
    ensures
        views(r@) == dependency_labels(*d),
{
    let mut files: Vec<FileRecord> = Vec::new();
    let mut i: usize = 0;
    while i < d.from_files.len()
        invariant
            i <= d.from_files@.len(),
            record_views(files@) == d.from_files@.take(i as int).map_values(|f: crate::ir::SourceFileDependency| f.file@),
        decreases d.from_files@.len() - i,
    {
        let f = crate::ir::copy_file_record(&d.from_files[i].file);
        let ghost before = files@;
        files.push(f);
        proof {
            assert(record_views(files@) =~= record_views(before).push(f@));
            assert(d.from_files@.take(i + 1).map_values(|f: crate::ir::SourceFileDependency| f.file@)
                =~= d.from_files@.take(i as int).map_values(|f: crate::ir::SourceFileDependency| f.file@).push(d.from_files@[i as int].file@));
        }
        i += 1;
    }
    proof {
        assert(d.from_files@.take(d.from_files@.len() as int) =~= d.from_files@);
    }
    let a = collect_labels(&files);
    let b = collect_labels(&d.to_anchor.files);
    let mut r = a;
    let mut k: usize = 0;
    let ghost base = views(r@);
    while k < b.len()
        invariant
            k <= b@.len(),
            views(r@) == base + views(b@.take(k as int)),
        decreases b@.len() - k,
    {
        let ghost before = r@;
        r.push(copy_string(&b[k]));
        proof {
            assert(views(r@) =~= views(before).push(b@[k as int]@));
            assert(views(b@.take(k + 1)) =~= views(b@.take(k as int)).push(b@[k as int]@));
        }
        k += 1;
    }
    proof {
        assert(b@.take(b@.len() as int) =~= b@);
        assert(record_views(files@) == d.from_files@.map_values(|f: crate::ir::SourceFileDependency| f.file@));
    }
    r
}

/// The decompositions that the dependencies' files are labelled with, in
/// order.
pub fn decomposition_names(dependencies: &Vec<Dependency>) -> (r: PathSet)
    ensures
        r.wf(),
        r.members().to_set() == decomposition_set(dependencies@),
{
    let mut r = PathSet::new();
    let mut i: usize = 0;
    while i < dependencies.len()
        invariant
            i <= dependencies@.len(),
            r.wf(),
            r.members().to_set() == decomposition_set(dependencies@.take(i as int)),
        decreases dependencies@.len() - i,
    {
        let labels = dependency_label_list(&dependencies[i]);
        let ghost pre = dependencies@.take(i as int);
        let ghost post = dependencies@.take(i + 1);
        let ghost start = r.members().to_set();
        proof {
            assert(decs_of(views(labels@), 0) =~= Set::empty());
            assert(start + decs_of(views(labels@), 0) =~= start);
        }
        let mut m: usize = 0;
        while m < labels.len()
            invariant
                i < dependencies@.len(),
                pre == dependencies@.take(i as int),
                post == dependencies@.take(i + 1),
                views(labels@) == dependency_labels(dependencies@[i as int]),
                m <= labels@.len(),
                r.wf(),
                r.members().to_set() == start + decs_of(views(labels@), m as int),
            decreases labels@.len() - m,
        {
            let ghost before = r.members().to_set();
            match split_label_once(labels[m].as_str()) {
                Some((dec, _)) => {
                    r.insert(dec.as_str());
                    proof {
                        assert(views(labels@)[m as int] == labels@[m as int]@);
                    }
                },
                None => {
                    proof {
                        assert(views(labels@)[m as int] == labels@[m as int]@);
                    }
                },
            }
            proof {
                lemma_decs_of_step(views(labels@), m as int);
                assert(r.members().to_set() =~= start + decs_of(views(labels@), m + 1));
            }
            m += 1;
        }
        proof {
            assert forall|dec: Seq<char>| #[trigger] decomposition_set(post).contains(dec) <==> r.members().to_set().contains(dec) by {
                if decomposition_set(post).contains(dec) {
                    let (k, x) = choose|k: int, x: int|
                        0 <= k < post.len() && 0 <= x < dependency_labels(post[k]).len() && #[trigger] label_decomposition(dependency_labels(post[k])[x]) == Some(dec);
                    if k < i {
                        assert(pre[k] == post[k]);
                        assert(decomposition_set(pre).contains(dec));
                    } else {
                        assert(post[k] == dependencies@[i as int]);
                        assert(label_decomposition(views(labels@)[x]) == label_decomposition(dependency_labels(post[k])[x]));
                    }
                }
                if start.contains(dec) {
                    let (k, x) = choose|k: int, x: int|
                        0 <= k < pre.len() && 0 <= x < dependency_labels(pre[k]).len() && #[trigger] label_decomposition(dependency_labels(pre[k])[x]) == Some(dec);
                    assert(pre[k] == post[k]);
                    assert(label_decomposition(dependency_labels(post[k])[x]) == label_decomposition(dependency_labels(pre[k])[x]));
                }
                if r.members().to_set().contains(dec) && !start.contains(dec) {
                    let x = choose|x: int|
                        0 <= x < labels@.len() && #[trigger] label_decomposition(views(labels@)[x]) == Some(dec);
                    assert(post[i as int] == dependencies@[i as int]);
                    assert(label_decomposition(dependency_labels(post[i as int])[x]) == label_decomposition(views(labels@)[x]));
                }
            }
            assert(decomposition_set(post) =~= r.members().to_set());
        }
        i += 1;
    }
    proof {
        assert(dependencies@.take(dependencies@.len() as int) =~= dependencies@);
    }
    r
}

/// `(a1, b1, c1)` orders before `(a2, b2, c2)`.
pub open spec fn triple_lt(
    a1: Seq<char>,
    b1: Seq<char>,
    c1: Seq<char>,
    a2: Seq<char>,
    b2: Seq<char>,
    c2: Seq<char>,
) -> bool {
    text_lt(a1, a2) || (a1 == a2 && pair_lt(b1, c1, b2, c2))
}

proof fn lemma_label_listed(fs: Seq<FileRecordView>, j: int, c: int)
    requires
        0 <= j < fs.len(),
        0 <= c < fs[j].components.len(),
    ensures
        exists|idx: int| 0 <= idx < all_labels(fs).len() && #[trigger] all_labels(fs)[idx] == fs[j].components[c],
    decreases fs.len(),
{
    let rest = all_labels(fs.drop_last());
    if j == fs.len() - 1 {
        assert(all_labels(fs)[rest.len() + c] == fs[j].components[c]);
    } else {
        lemma_label_listed(fs.drop_last(), j, c);
        let idx = choose|idx: int| 0 <= idx < rest.len() && #[trigger] rest[idx] == fs.drop_last()[j].components[c];
        assert(all_labels(fs)[idx] == rest[idx]);
    }
}

proof fn lemma_file_link_origin(deps: Seq<Dependency>, i: int)
    requires
        0 <= i < all_file_links(deps).len(),
    ensures
        exists|k: int, j: int|
            0 <= k < deps.len() && 0 <= j < deps[k].from_files@.len() && #[trigger] all_file_links(deps)[i] == (
                deps[k],
                deps[k].from_files@[j],
            ),
    decreases deps.len(),
{
    let rest = all_file_links(deps.drop_last());
    if i < rest.len() {
        lemma_file_link_origin(deps.drop_last(), i);
        let (k, j) = choose|k: int, j: int|
            0 <= k < deps.drop_last().len() && 0 <= j < deps.drop_last()[k].from_files@.len()
                && #[trigger] rest[i] == (deps.drop_last()[k], deps.drop_last()[k].from_files@[j]);
        assert(all_file_links(deps)[i] == rest[i]);
        assert(deps[k] == deps.drop_last()[k]);
    } else {
        let j = i - rest.len();
        assert(all_file_links(deps)[i] == file_links(deps.last())[j]);
        assert(deps[deps.len() - 1] == deps.last());
    }
}

proof fn lemma_evidence_has_file(q: Seq<(Dependency, SourceFileDependency)>, d: Seq<char>, s: Seq<char>, t: Seq<char>)
    requires
        link_evidence(q, d, s, t).len() > 0,
    ensures
        exists|i: int| 0 <= i < q.len() && source_components((#[trigger] q[i]).1, d).contains(s),
    decreases q.len(),
{
    if counted(q.drop_last(), q.last(), d, s, t) {
        assert(q[q.len() - 1] == q.last());
    } else {
        lemma_evidence_has_file(q.drop_last(), d, s, t);
        let i = choose|i: int| 0 <= i < q.drop_last().len() && source_components((#[trigger] q.drop_last()[i]).1, d).contains(s);
        assert(q[i] == q.drop_last()[i]);
    }
}

/// Evidence only arises in decompositions that the dependencies' labels
/// name.
pub proof fn lemma_evidence_in_decompositions(deps: Seq<Dependency>, dec: Seq<char>, s: Seq<char>, t: Seq<char>)
    requires
        link_evidence(all_file_links(deps), dec, s, t).len() > 0,
    ensures
        decomposition_set(deps).contains(dec),
{
    let q = all_file_links(deps);
    lemma_evidence_has_file(q, dec, s, t);
    let i = choose|i: int| 0 <= i < q.len() && source_components((#[trigger] q[i]).1, dec).contains(s);
    lemma_file_link_origin(deps, i);
    let (k, j) = choose|k: int, j: int|
        0 <= k < deps.len() && 0 <= j < deps[k].from_files@.len() && #[trigger] q[i] == (deps[k], deps[k].from_files@[j]);
    let f = deps[k].from_files@[j];
    let labels = views(f.file.components@);
    let c = choose|c: int| 0 <= c < labels.len() && component_in(#[trigger] labels[c], dec) == Some(s);
    let fs = deps[k].from_files@.map_values(|g: SourceFileDependency| g.file@);
    assert(fs[j] == f.file@);
    assert(fs[j].components[c] == labels[c]);
    lemma_label_listed(fs, j, c);
    let idx = choose|idx: int| 0 <= idx < all_labels(fs).len() && #[trigger] all_labels(fs)[idx] == fs[j].components[c];
    assert(dependency_labels(deps[k])[idx] == labels[c]);
    assert(label_decomposition(dependency_labels(deps[k])[idx]) == Some(dec));
}

/// Every pair of components with evidence has an entry in `r`.
pub open spec fn all_links_covered(deps: Seq<Dependency>, r: Seq<ComponentDependency>) -> bool {
    forall|dec: Seq<char>, s: Seq<char>, t: Seq<char>|
        #[trigger] link_evidence(all_file_links(deps), dec, s, t).len() > 0
            ==> exists|k: int|
            0 <= k < r.len() && (#[trigger] r[k]).decomposition@ == dec && r[k].from_component@ == s
                && r[k].to_component@ == t
}

/// The component dependencies of every decomposition the dependencies'
/// files are labelled with, ordered by decomposition, source and target.
pub fn extract_component_dependencies(dependencies: &Vec<Dependency>) -> (r: Vec<ComponentDependency>)
    ensures
        forall|x: int, y: int|
            0 <= x < y < r@.len() ==> triple_lt(
                #[trigger] r@[x].decomposition@,
                r@[x].from_component@,
                r@[x].to_component@,
                #[trigger] r@[y].decomposition@,
                r@[y].from_component@,
                r@[y].to_component@,
            ),
        forall|k: int|
            0 <= k < r@.len() ==> decomposition_set(dependencies@).contains(
                (#[trigger] r@[k]).decomposition@,
            ) && component_dependency_ok(dependencies@, r@[k].decomposition@, r@[k]),
        all_links_covered(dependencies@, r@),
{
    let names = decomposition_names(dependencies);
    let mut r: Vec<ComponentDependency> = Vec::new();
    let mut m: usize = 0;
    while m < names.items.len()
        invariant
            names.wf(),
            names.members().to_set() == decomposition_set(dependencies@),
            m <= names.members().len(),
            forall|x: int, y: int|
                0 <= x < y < r@.len() ==> triple_lt(
                    #[trigger] r@[x].decomposition@,
                    r@[x].from_component@,
                    r@[x].to_component@,
                    #[trigger] r@[y].decomposition@,
                    r@[y].from_component@,
                    r@[y].to_component@,
                ),
            forall|k: int|
                0 <= k < r@.len() ==> exists|n: int|
                    0 <= n < m && (#[trigger] r@[k]).decomposition@ == names.members()[n],
            forall|k: int|
                0 <= k < r@.len() ==> decomposition_set(dependencies@).contains(
                    (#[trigger] r@[k]).decomposition@,
                ) && component_dependency_ok(dependencies@, r@[k].decomposition@, r@[k]),
            forall|dec: Seq<char>, s: Seq<char>, t: Seq<char>|
                names.members().take(m as int).contains(dec) && #[trigger] link_evidence(
                    all_file_links(dependencies@),
                    dec,
                    s,
                    t,
                ).len() > 0 ==> exists|k: int|
                    0 <= k < r@.len() && (#[trigger] r@[k]).decomposition@ == dec && r@[k].from_component@ == s
                        && r@[k].to_component@ == t,
        decreases names.members().len() - m,
    {
        let block = extract_component_dependencies_for_decomposition(dependencies, names.items[m].as_str());
        let ghost dec = names.members()[m as int];
        proof {
            assert(names.members()[m as int] == names.items@[m as int]@);
            assert(names.members().to_set().contains(dec));
        }
        let ghost base = r@;
        let mut block = block;
        let ghost blk = block@;
        r.append(&mut block);
        proof {
            assert(r@ =~= base + blk);
            lemma_prefix_step(names.members(), m as int);
            assert forall|dec2: Seq<char>, s: Seq<char>, t: Seq<char>|
                names.members().take(m + 1).contains(dec2) && #[trigger] link_evidence(
                    all_file_links(dependencies@),
                    dec2,
                    s,
                    t,
                ).len() > 0 implies exists|k: int|
                0 <= k < r@.len() && (#[trigger] r@[k]).decomposition@ == dec2 && r@[k].from_component@ == s
                    && r@[k].to_component@ == t by {
                if names.members().take(m as int).contains(dec2) {
                    let k = choose|k: int|
                        0 <= k < base.len() && (#[trigger] base[k]).decomposition@ == dec2 && base[k].from_component@
                            == s && base[k].to_component@ == t;
                    assert(r@[k] == base[k]);
                } else {
                    assert(dec2 == dec);
                    assert(links_covered(all_file_links(dependencies@), dec, blk));
                    let k = choose|k: int|
                        0 <= k < blk.len() && (#[trigger] blk[k]).from_component@ == s && blk[k].to_component@ == t;
                    assert(component_dependency_ok(dependencies@, dec, blk[k]));
                    assert(r@[base.len() + k] == blk[k]);
                }
            }
            assert forall|k: int|
                0 <= k < r@.len() implies exists|n: int|
                    0 <= n < m + 1 && (#[trigger] r@[k]).decomposition@ == names.members()[n] by {
                if k < base.len() {
                    assert(r@[k] == base[k]);
                    let n = choose|n: int| 0 <= n < m && (#[trigger] base[k]).decomposition@ == names.members()[n];
                } else {
                    assert(r@[k] == blk[k - base.len()]);
                    assert(component_dependency_ok(dependencies@, dec, blk[k - base.len()]));
                }
            }
            assert forall|k: int|
                0 <= k < r@.len() implies decomposition_set(dependencies@).contains(
                    (#[trigger] r@[k]).decomposition@,
                ) && component_dependency_ok(dependencies@, r@[k].decomposition@, r@[k]) by {
                if k < base.len() {
                    assert(r@[k] == base[k]);
                } else {
                    assert(r@[k] == blk[k - base.len()]);
                    assert(component_dependency_ok(dependencies@, dec, blk[k - base.len()]));
                }
            }
            assert forall|x: int, y: int|
                0 <= x < y < r@.len() implies triple_lt(
                    #[trigger] r@[x].decomposition@,
                    r@[x].from_component@,
                    r@[x].to_component@,
                    #[trigger] r@[y].decomposition@,
                    r@[y].from_component@,
                    r@[y].to_component@,
                ) by {
                if y < base.len() {
                    assert(r@[x] == base[x]);
                    assert(r@[y] == base[y]);
                } else if x < base.len() {
                    assert(r@[x] == base[x]);
                    assert(r@[y] == blk[y - base.len()]);
                    assert(component_dependency_ok(dependencies@, dec, blk[y - base.len()]));
                    let n = choose|n: int| 0 <= n < m && (#[trigger] base[x]).decomposition@ == names.members()[n];
                    assert(text_lt(names.members()[n], names.members()[m as int]));
                } else {
                    assert(r@[x] == blk[x - base.len()]);
                    assert(r@[y] == blk[y - base.len()]);
                    assert(component_dependency_ok(dependencies@, dec, blk[x - base.len()]));
                    assert(component_dependency_ok(dependencies@, dec, blk[y - base.len()]));
                    assert(pair_lt(
                        blk[x - base.len()].from_component@,
                        blk[x - base.len()].to_component@,
                        blk[y - base.len()].from_component@,
                        blk[y - base.len()].to_component@,
                    ));
                }
            }
        }
        m += 1;
    }
    proof {
        assert(names.members().take(names.members().len() as int) =~= names.members());
        assert forall|dec: Seq<char>, s: Seq<char>, t: Seq<char>|
            #[trigger] link_evidence(
                all_file_links(dependencies@),
                dec,
                s,
                t,
            ).len() > 0 implies exists|k: int|
            0 <= k < r@.len() && (#[trigger] r@[k]).decomposition@ == dec && r@[k].from_component@ == s
                && r@[k].to_component@ == t by {
            lemma_evidence_in_decompositions(dependencies@, dec, s, t);
            assert(names.members().to_set().contains(dec));
            assert(names.members().take(m as int).contains(dec));
        }
    }
    r
}

/// A component dependency's key: decomposition, source and target.
pub open spec fn key_of(c: ComponentDependency) -> (Seq<char>, Seq<char>, Seq<char>) {
    (c.decomposition@, c.from_component@, c.to_component@)
}

spec fn key_lt(x: (Seq<char>, Seq<char>, Seq<char>), y: (Seq<char>, Seq<char>, Seq<char>)) -> bool {
    triple_lt(x.0, x.1, x.2, y.0, y.1, y.2)
}

spec fn keys_sorted(s: Seq<(Seq<char>, Seq<char>, Seq<char>)>) -> bool {
    forall|x: int, y: int| 0 <= x < y < s.len() ==> key_lt(#[trigger] s[x], #[trigger] s[y])
}

spec fn keys_within(s: Seq<(Seq<char>, Seq<char>, Seq<char>)>, t: Seq<(Seq<char>, Seq<char>, Seq<char>)>) -> bool {
    forall|i: int| 0 <= i < s.len() ==> t.contains(#[trigger] s[i])
}

proof fn lemma_key_lt_order(x: (Seq<char>, Seq<char>, Seq<char>), y: (Seq<char>, Seq<char>, Seq<char>))
    ensures
        !key_lt(x, x),
        !(key_lt(x, y) && key_lt(y, x)),
{
    lemma_text_lt_trichotomy(x.0, y.0);
    lemma_text_lt_irreflexive(x.0);
    lemma_pair_lt_trichotomy(x.1, x.2, y.1, y.2);
    lemma_pair_lt_trichotomy(x.1, x.2, x.1, x.2);
}

/// Two strictly ordered key sequences holding the same keys are equal.
proof fn lemma_sorted_keys_equal(s: Seq<(Seq<char>, Seq<char>, Seq<char>)>, t: Seq<(Seq<char>, Seq<char>, Seq<char>)>)
    requires
        keys_sorted(s),
        keys_sorted(t),
        keys_within(s, t),
        keys_within(t, s),
    ensures
        s == t,
    decreases s.len() + t.len(),
{
    if s.len() == 0 {
        if t.len() > 0 {
            assert(s.contains(t[0]));
        }
        assert(s =~= t);
    } else {
        assert(t.contains(s[0]));
        let j = choose|j: int| 0 <= j < t.len() && t[j] == s[0];
        assert(s.contains(t[0]));
        let i = choose|i: int| 0 <= i < s.len() && s[i] == t[0];
        lemma_key_lt_order(s[0], t[0]);
        lemma_key_lt_order(t[0], t[0]);
        if j > 0 {
            assert(key_lt(t[0], t[j]));
            if i > 0 {
                assert(key_lt(s[0], s[i]));
            }
        }
        assert(t[0] == s[0]);
        let s1 = s.drop_first();
        let t1 = t.drop_first();
        assert forall|a: int| 0 <= a < s1.len() implies t1.contains(#[trigger] s1[a]) by {
            assert(s1[a] == s[a + 1]);
            assert(key_lt(s[0], s[a + 1]));
            lemma_key_lt_order(s[0], s[0]);
            let b = choose|b: int| 0 <= b < t.len() && t[b] == s[a + 1];
            assert(b != 0);
            assert(t1[b - 1] == t[b]);
        }
        assert forall|a: int| 0 <= a < t1.len() implies s1.contains(#[trigger] t1[a]) by {
            assert(t1[a] == t[a + 1]);
            assert(key_lt(t[0], t[a + 1]));
            lemma_key_lt_order(t[0], t[0]);
            let b = choose|b: int| 0 <= b < s.len() && s[b] == t[a + 1];
            assert(b != 0);
            assert(s1[b - 1] == s[b]);
        }
        assert forall|x: int, y: int| 0 <= x < y < s1.len() implies key_lt(#[trigger] s1[x], #[trigger] s1[y]) by {
            assert(s1[x] == s[x + 1] && s1[y] == s[y + 1]);
        }
        assert forall|x: int, y: int| 0 <= x < y < t1.len() implies key_lt(#[trigger] t1[x], #[trigger] t1[y]) by {
            assert(t1[x] == t[x + 1] && t1[y] == t[y + 1]);
        }
        lemma_sorted_keys_equal(s1, t1);
        assert(s =~= seq![s[0]] + s1);
        assert(t =~= seq![t[0]] + t1);
    }
}

/// `r` is a complete, ordered list of component dependencies of `deps`:
/// strictly ordered by key, each entry as the links make it, and every pair
/// of components with evidence present.
pub open spec fn component_dependencies_of(deps: Seq<Dependency>, r: Seq<ComponentDependency>) -> bool {
    &&& forall|x: int, y: int|
        0 <= x < y < r.len() ==> triple_lt(
            #[trigger] r[x].decomposition@,
            r[x].from_component@,
            r[x].to_component@,
            #[trigger] r[y].decomposition@,
            r[y].from_component@,
            r[y].to_component@,
        )
    &&& forall|k: int| 0 <= k < r.len() ==> component_dependency_ok(deps, (#[trigger] r[k]).decomposition@, r[k])
    &&& all_links_covered(deps, r)
}

/// The component dependencies of a set of package dependencies are
/// determined: two complete, ordered lists agree entry by entry on key,
/// count, lines of code and evidence.
pub proof fn lemma_component_dependencies_determined(
    deps: Seq<Dependency>,
    r1: Seq<ComponentDependency>,
    r2: Seq<ComponentDependency>,
)
    requires
        component_dependencies_of(deps, r1),
        component_dependencies_of(deps, r2),
    ensures
        r1.len() == r2.len(),
        forall|k: int|
            0 <= k < r1.len() ==> key_of(#[trigger] r1[k]) == key_of(r2[k]) && r1[k].count == r2[k].count
                && r1[k].loc_from == r2[k].loc_from && evidence_pairs(r1[k].evidence@) == evidence_pairs(
                r2[k].evidence@,
            ),
{
    let k1 = r1.map_values(|c: ComponentDependency| key_of(c));
    let k2 = r2.map_values(|c: ComponentDependency| key_of(c));
    let q = all_file_links(deps);
    assert forall|x: int, y: int| 0 <= x < y < k1.len() implies key_lt(#[trigger] k1[x], #[trigger] k1[y]) by {
        assert(triple_lt(r1[x].decomposition@, r1[x].from_component@, r1[x].to_component@, r1[y].decomposition@, r1[y].from_component@, r1[y].to_component@));
    }
    assert forall|x: int, y: int| 0 <= x < y < k2.len() implies key_lt(#[trigger] k2[x], #[trigger] k2[y]) by {
        assert(triple_lt(r2[x].decomposition@, r2[x].from_component@, r2[x].to_component@, r2[y].decomposition@, r2[y].from_component@, r2[y].to_component@));
    }
    assert forall|i: int| 0 <= i < k1.len() implies k2.contains(#[trigger] k1[i]) by {
        let c = r1[i];
        assert(component_dependency_ok(deps, c.decomposition@, c));
        assert(evidence_pairs(c.evidence@).len() == c.evidence@.len());
        assert(link_evidence(q, c.decomposition@, c.from_component@, c.to_component@).len() > 0);
        let j = choose|j: int|
            0 <= j < r2.len() && (#[trigger] r2[j]).decomposition@ == c.decomposition@ && r2[j].from_component@
                == c.from_component@ && r2[j].to_component@ == c.to_component@;
        assert(k2[j] == k1[i]);
    }
    assert forall|i: int| 0 <= i < k2.len() implies k1.contains(#[trigger] k2[i]) by {
        let c = r2[i];
        assert(component_dependency_ok(deps, c.decomposition@, c));
        assert(evidence_pairs(c.evidence@).len() == c.evidence@.len());
        assert(link_evidence(q, c.decomposition@, c.from_component@, c.to_component@).len() > 0);
        let j = choose|j: int|
            0 <= j < r1.len() && (#[trigger] r1[j]).decomposition@ == c.decomposition@ && r1[j].from_component@
                == c.from_component@ && r1[j].to_component@ == c.to_component@;
        assert(k1[j] == k2[i]);
    }
    lemma_sorted_keys_equal(k1, k2);
    assert forall|k: int| 0 <= k < r1.len() implies key_of(#[trigger] r1[k]) == key_of(r2[k]) && r1[k].count
        == r2[k].count && r1[k].loc_from == r2[k].loc_from && evidence_pairs(r1[k].evidence@) == evidence_pairs(
        r2[k].evidence@,
    ) by {
        assert(k1[k] == k2[k]);
        assert(component_dependency_ok(deps, r1[k].decomposition@, r1[k]));
        assert(component_dependency_ok(deps, r2[k].decomposition@, r2[k]));
        assert(evidence_pairs(r1[k].evidence@).len() == r1[k].evidence@.len());
        assert(evidence_pairs(r2[k].evidence@).len() == r2[k].evidence@.len());
    }
}

} // verus!
