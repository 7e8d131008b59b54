//! Package dependencies between Java source files: a file depends on a
//! package when one of its lines matches that package's dependency pattern.
use vstd::prelude::*;

use crate::ir::{
    anchor_view, copy_anchor, copy_file_record, evidence_views, Dependency, DependencyAnchor,
    SourceFileDependency,
};
use crate::java::{
    anchor_names, anchors_of, declared_package, limit_regex_content, normalized_dependency_content,
    package_declaration, JavaSourceInput,
};
use crate::pathset::str_eq;
use crate::pattern::{anchored, anchored_pattern, compile, full_match, is_match, regex_compiles, CompiledPattern};
use crate::text::{copy_string, lines, lines_of, string_of, text_lt, views};

verus! {

/// Why a repository analysis could not be completed.
#[derive(Debug, Clone, PartialEq, Eq)]
pub enum JavaAnalysisError {
    /// A dependency pattern of the named package is not a valid expression.
    InvalidDependencyPattern { anchor: String },
    /// The Java parser could not be set up or produced no tree.
    ParserUnavailable,
    /// A unit's declaration could not be read from the source.
    MalformedUnit,
}

/// A line as dependency patterns look at it: at most its first thousand
/// characters.
pub open spec fn clip(l: Seq<char>) -> Seq<char> {
    l.take(if l.len() < 1000 { l.len() as int } else { 1000 })
}

/// The lines of a source file as dependency patterns look at them.
pub open spec fn dependency_lines(source: Seq<char>) -> Seq<Seq<char>> {
    lines(crate::java::normalized_text(source)).map_values(|l: Seq<char>| clip(l))
}

/// The lines of `content`, each cut to its first thousand characters.
pub fn normalized_dependency_lines(content: &str) -> (r: Vec<String>)
    ensures
        views(r@) == dependency_lines(content@),
{
    let normalized = normalized_dependency_content(content);
    let ls = lines_of(normalized.as_slice());
    let ghost lv = ls@.map_values(|l: Vec<char>| l@);
    let mut r: Vec<String> = Vec::new();
    let mut i: usize = 0;
    while i < ls.len()
        invariant
            i <= ls@.len(),
            lv == ls@.map_values(|l: Vec<char>| l@),
            lv == lines(crate::java::normalized_text(content@)),
            views(r@) =~= lv.take(i as int).map_values(|l: Seq<char>| clip(l)),
        decreases ls@.len() - i,
    {
        let clipped = limit_regex_content(ls[i].as_slice());
        let ghost before = r@;
        r.push(string_of(clipped.as_slice()));
        proof {
            assert(views(r@) =~= views(before).push(clip(lv[i as int])));
            assert(lv.take(i + 1).map_values(|l: Seq<char>| clip(l)) =~= lv.take(i as int).map_values(
                |l: Seq<char>| clip(l),
            ).push(clip(lv[i as int])));
        }
        i += 1;
    }
    proof {
        assert(lv.take(ls@.len() as int) =~= lv);
    }
    r
}

/// Whether some pattern matches the whole line.
pub open spec fn line_hits(line: Seq<char>, patterns: Seq<Seq<char>>) -> bool {
    exists|k: int| 0 <= k < patterns.len() && full_match(#[trigger] patterns[k], line)
}

/// The first line some pattern matches as a whole.
pub open spec fn first_hit(lines: Seq<Seq<char>>, patterns: Seq<Seq<char>>) -> Option<Seq<char>>
    decreases lines.len(),
{
    if lines.len() == 0 {
        None
    } else if line_hits(lines[0], patterns) {
        Some(lines[0])
    } else {
        first_hit(lines.skip(1), patterns)
    }
}

/// An anchor with its dependency patterns compiled for whole-line matching.
pub struct AnchorMatcher {
    anchor: DependencyAnchor,
    patterns: Vec<CompiledPattern>,
}

impl AnchorMatcher {
    /// The anchor whose patterns are compiled.
    pub closed spec fn target(&self) -> DependencyAnchor {
        self.anchor
    }

    /// Every dependency pattern of the anchor is compiled, anchored.
    pub closed spec fn compiled(&self) -> bool {
        &&& self.patterns@.len() == self.target().dependency_patterns@.len()
        &&& forall|k: int|
            #![trigger self.patterns@[k]]
            0 <= k < self.patterns@.len() ==> self.patterns@[k].source() == anchored(
                self.target().dependency_patterns@[k]@,
            ) && regex_compiles(anchored(self.target().dependency_patterns@[k]@))
    }

    /// Compiles the anchor's patterns; fails when one of them is not a
    /// valid expression.
    pub fn new(anchor: &DependencyAnchor) -> (r: Result<Self, JavaAnalysisError>)
        ensures
            match r {
                Ok(m) => m.compiled() && anchor_view(m.target()) == anchor_view(*anchor),
                Err(e) => e == JavaAnalysisError::InvalidDependencyPattern { anchor: anchor.anchor }
                    && exists|k: int|
                    0 <= k < anchor.dependency_patterns@.len() && !regex_compiles(
                        anchored(#[trigger] anchor.dependency_patterns@[k]@),
                    ),
            },
    {
        let mut patterns: Vec<CompiledPattern> = Vec::new();
        let mut i: usize = 0;
        while i < anchor.dependency_patterns.len()
            invariant
                i <= anchor.dependency_patterns@.len(),
                patterns@.len() == i,
                forall|k: int|
                    #![trigger patterns@[k]]
                    0 <= k < i ==> patterns@[k].source() == anchored(
                        anchor.dependency_patterns@[k]@,
                    ) && regex_compiles(anchored(anchor.dependency_patterns@[k]@)),
            decreases anchor.dependency_patterns@.len() - i,
        {
            let full = anchored_pattern(anchor.dependency_patterns[i].as_str());
            match compile(full.as_str()) {
                Some(c) => patterns.push(c),
                None => {
                    return Err(
                        JavaAnalysisError::InvalidDependencyPattern {
                            anchor: copy_string(&anchor.anchor),
                        },
                    );
                },
            }
            i += 1;
        }
        let copied = copy_anchor(anchor);
        let m = AnchorMatcher { anchor: copied, patterns };
        proof {
            assert(views(copied.dependency_patterns@) == views(anchor.dependency_patterns@));
            assert(copied.dependency_patterns@.len() == anchor.dependency_patterns@.len());
            assert forall|k: int| 0 <= k < anchor.dependency_patterns@.len() implies #[trigger] copied.dependency_patterns@[k]@
                == anchor.dependency_patterns@[k]@ by {
                assert(views(copied.dependency_patterns@)[k] == copied.dependency_patterns@[k]@);
                assert(views(anchor.dependency_patterns@)[k] == anchor.dependency_patterns@[k]@);
            }
        }
        Ok(m)
    }

    /// Whether some pattern matches all of `line`.
    fn hits(&self, line: &str) -> (b: bool)
        requires
            self.compiled(),
        ensures
            b == line_hits(line@, views(self.target().dependency_patterns@)),
    {
        let mut k: usize = 0;
        while k < self.patterns.len()
            invariant
                self.compiled(),
                k <= self.patterns@.len(),
                forall|j: int|
                    0 <= j < k ==> !full_match(
                        #[trigger] views(self.target().dependency_patterns@)[j],
                        line@,
                    ),
            decreases self.patterns@.len() - k,
        {
            if is_match(&self.patterns[k], line) {
                proof {
                    assert(full_match(views(self.target().dependency_patterns@)[k as int], line@));
                }
                return true;
            }
            k += 1;
        }
        false
    }

    /// The first line that some dependency pattern matches as a whole.
    pub fn dependency_code_fragment(&self, lines: &Vec<String>) -> (r: Option<String>)
        requires
            self.compiled(),
        ensures
            match r {
                Some(l) => first_hit(views(lines@), views(self.target().dependency_patterns@))
                    == Some(l@),
                None => first_hit(views(lines@), views(self.target().dependency_patterns@)) is None,
            },
    {
        let ghost pats = views(self.target().dependency_patterns@);
        let ghost lv = views(lines@);
        let mut i: usize = 0;
        proof {
            assert(lv.skip(0) =~= lv);
        }
        while i < lines.len()
            invariant
                self.compiled(),
                pats == views(self.target().dependency_patterns@),
                lv == views(lines@),
                i <= lv.len(),
                first_hit(lv, pats) == first_hit(lv.skip(i as int), pats),
            decreases lv.len() - i,
        {
            proof {
                assert(lv.skip(i as int)[0] == lines@[i as int]@);
                assert(lv.skip(i as int).skip(1) =~= lv.skip(i + 1));
            }
            if self.hits(lines[i].as_str()) {
                return Some(copy_string(&lines[i]));
            }
            i += 1;
        }
        None
    }
}

/// The files of `inputs` that declare package `from` and depend on `to`,
/// each with its first line that `to`'s patterns match, in input order.
pub open spec fn dependency_evidence(
    inputs: Seq<JavaSourceInput>,
    from: Seq<char>,
    to: DependencyAnchor,
) -> Seq<(crate::ir::FileRecordView, Seq<char>)>
    decreases inputs.len(),
{
    if inputs.len() == 0 {
        Seq::empty()
    } else {
        let prev = dependency_evidence(inputs.drop_last(), from, to);
        let input = inputs.last();
        match declared_package(input) {
            Some((name, _)) => if name == from {
                match first_hit(
                    dependency_lines(input.source@),
                    views(to.dependency_patterns@),
                ) {
                    Some(line) => prev.push((input.file@, line)),
                    None => prev,
                }
            } else {
                prev
            },
            None => prev,
        }
    }
}

/// Evidence depends on the target anchor only through its patterns.
proof fn lemma_evidence_congruent(
    inputs: Seq<JavaSourceInput>,
    from: Seq<char>,
    a: DependencyAnchor,
    b: DependencyAnchor,
)
    requires
        views(a.dependency_patterns@) == views(b.dependency_patterns@),
    ensures
        dependency_evidence(inputs, from, a) == dependency_evidence(inputs, from, b),
    decreases inputs.len(),
{
    if inputs.len() > 0 {
        lemma_evidence_congruent(inputs.drop_last(), from, a, b);
    }
}

/// `(a1, b1)` orders before `(a2, b2)`.
pub open spec fn pair_lt(a1: Seq<char>, b1: Seq<char>, a2: Seq<char>, b2: Seq<char>) -> bool {
    text_lt(a1, a2) || (a1 == a2 && text_lt(b1, b2))
}

/// `deps` are the package dependencies of `inputs` over `anchors`: one for
/// each ordered pair of distinct anchors with evidence, in pair order, each
/// holding both anchors and all its evidence.
pub open spec fn dependencies_of(
    inputs: Seq<JavaSourceInput>,
    anchors: Seq<DependencyAnchor>,
    deps: Seq<Dependency>,
) -> bool {
    &&& forall|x: int, y: int|
        0 <= x < y < deps.len() ==> pair_lt(
            #[trigger] deps[x].from@,
            deps[x].to@,
            #[trigger] deps[y].from@,
            deps[y].to@,
        )
    &&& forall|k: int| 0 <= k < deps.len() ==> #[trigger] dependency_of_some_pair(inputs, anchors, deps[k])
    &&& forall|p: int, q: int|
        0 <= p < anchors.len() && 0 <= q < anchors.len() && p != q && dependency_evidence(
            inputs,
            #[trigger] anchors[p].anchor@,
            #[trigger] anchors[q],
        ).len() > 0 ==> exists|k: int|
            0 <= k < deps.len() && (#[trigger] deps[k]).from@ == anchors[p].anchor@ && deps[k].to@
                == anchors[q].anchor@
}

/// The package dependencies of `inputs`, given the anchors collected from
/// them; fails when a dependency pattern does not compile.
pub fn extract_package_dependencies(
    inputs: &[JavaSourceInput],
    anchors: &Vec<DependencyAnchor>,
) -> (r: Result<Vec<Dependency>, JavaAnalysisError>)
    requires
        anchors_of(inputs@, anchors@),
    ensures
        r is Ok ==> forall|p: int, k: int|
            0 <= p < anchors@.len() && 0 <= k < anchors@[p].dependency_patterns@.len() ==> regex_compiles(
                anchored(#[trigger] anchors@[p].dependency_patterns@[k]@),
            ),
        match r {
            Ok(deps) => dependencies_of(inputs@, anchors@, deps@),
            Err(e) => exists|p: int, k: int|
                0 <= p < anchors@.len() && 0 <= k < anchors@[p].dependency_patterns@.len()
                    && !regex_compiles(anchored(anchors@[p].dependency_patterns@[k]@)),
        },
{
    // Compile every anchor first: a bad pattern fails the whole extraction.
    let mut matchers: Vec<AnchorMatcher> = Vec::new();
    let mut m: usize = 0;
    while m < anchors.len()
        invariant
            m <= anchors@.len(),
            matchers@.len() == m,
            forall|k: int|
                #![trigger matchers@[k]]
                0 <= k < m ==> matchers@[k].compiled() && anchor_view(matchers@[k].target())
                    == anchor_view(anchors@[k]),
        decreases anchors@.len() - m,
    {
        match AnchorMatcher::new(&anchors[m]) {
            Ok(matcher) => matchers.push(matcher),
            Err(e) => {
                return Err(e);
            },
        }
        m += 1;
    }
    // What each input declares, and its lines.
    let mut declared: Vec<Option<String>> = Vec::new();
    let mut input_lines: Vec<Vec<String>> = Vec::new();
    let mut i: usize = 0;
    while i < inputs.len()
        invariant
            i <= inputs@.len(),
            declared@.len() == i,
            input_lines@.len() == i,
            forall|k: int|
                #![trigger declared@[k]]
                0 <= k < i ==> match declared_package(inputs@[k]) {
                    Some((n, _)) => declared@[k] matches Some(d) && d@ == n,
                    None => declared@[k] is None,
                },
            forall|k: int|
                #![trigger input_lines@[k]]
                0 <= k < i ==> views(input_lines@[k]@) == dependency_lines(inputs@[k].source@),
        decreases inputs@.len() - i,
    {
        match package_declaration(inputs[i].source.as_str()) {
            Some((name, _)) => declared.push(Some(name)),
            None => declared.push(None),
        }
        input_lines.push(normalized_dependency_lines(inputs[i].source.as_str()));
        i += 1;
    }
    let ghost names = anchor_names(anchors@);
    let mut deps: Vec<Dependency> = Vec::new();
    proof {
        assert(indexed_dependencies(inputs@, anchors@, deps@, Seq::empty(), 0, 0));
    }
    let mut p: usize = 0;
    while p < anchors.len()
        invariant
            anchors_of(inputs@, anchors@),
            names == anchor_names(anchors@),
            p <= anchors@.len(),
            matchers@.len() == anchors@.len(),
            forall|k: int|
                #![trigger matchers@[k]]
                0 <= k < anchors@.len() ==> matchers@[k].compiled() && anchor_view(matchers@[k].target())
                    == anchor_view(anchors@[k]),
            declared@.len() == inputs@.len(),
            input_lines@.len() == inputs@.len(),
            forall|k: int|
                #![trigger declared@[k]]
                0 <= k < inputs@.len() ==> match declared_package(inputs@[k]) {
                    Some((n, _)) => declared@[k] matches Some(d) && d@ == n,
                    None => declared@[k] is None,
                },
            forall|k: int|
                #![trigger input_lines@[k]]
                0 <= k < inputs@.len() ==> views(input_lines@[k]@) == dependency_lines(
                    inputs@[k].source@,
                ),
            dependencies_upto(inputs@, anchors@, deps@, p as int, 0),
        decreases anchors@.len() - p,
    {
        let mut q: usize = 0;
        while q < anchors.len()
            invariant
                anchors_of(inputs@, anchors@),
                names == anchor_names(anchors@),
                p < anchors@.len(),
                q <= anchors@.len(),
                matchers@.len() == anchors@.len(),
                forall|k: int|
                    #![trigger matchers@[k]]
                    0 <= k < anchors@.len() ==> matchers@[k].compiled() && anchor_view(matchers@[k].target()) == anchor_view(anchors@[k]),
                declared@.len() == inputs@.len(),
                input_lines@.len() == inputs@.len(),
                forall|k: int|
                    #![trigger declared@[k]]
                    0 <= k < inputs@.len() ==> match declared_package(inputs@[k]) {
                        Some((n, _)) => declared@[k] matches Some(d) && d@ == n,
                        None => declared@[k] is None,
                    },
                forall|k: int|
                    #![trigger input_lines@[k]]
                    0 <= k < inputs@.len() ==> views(input_lines@[k]@) == dependency_lines(
                        inputs@[k].source@,
                    ),
                dependencies_upto(inputs@, anchors@, deps@, p as int, q as int),
            decreases anchors@.len() - q,
        {
            let ghost before = deps@;
            if p != q {
                let evidence = evidence_for(
                    inputs,
                    &declared,
                    &input_lines,
                    &anchors[p].anchor,
                    &matchers[q],
                );
                proof {
                    lemma_evidence_congruent(inputs@, anchors@[p as int].anchor@, matchers@[q as int].target(), anchors@[q as int]);
                }
                if evidence.len() > 0 {
                    deps.push(
                        Dependency {
                            from: copy_string(&anchors[p].anchor),
                            to: copy_string(&anchors[q].anchor),
                            kind: "package".to_owned(),
                            from_anchor: copy_anchor(&anchors[p]),
                            to_anchor: copy_anchor(&anchors[q]),
                            from_files: evidence,
                        },
                    );
                    proof {
                        assert(deps@.drop_last() =~= before);
                        assert(dependency_at(inputs@, anchors@, deps@.last(), p as int, q as int));
                    }
                } else {
                    proof {
                        assert(evidence_views(evidence@).len() == 0);
                    }
                }
            }
            proof {
                lemma_dependencies_step(inputs@, anchors@, before, deps@, p as int, q as int);
            }
            q += 1;
        }
        proof {
            lemma_dependencies_next_row(inputs@, anchors@, deps@, p as int);
        }
        p += 1;
    }
    proof {
        lemma_dependencies_done(inputs@, anchors@, deps@);
        assert forall|p: int, k: int|
            0 <= p < anchors@.len() && 0 <= k < anchors@[p].dependency_patterns@.len() implies regex_compiles(
            anchored(#[trigger] anchors@[p].dependency_patterns@[k]@),
        ) by {
            let t = matchers@[p].target();
            assert(matchers@[p].compiled());
            assert(views(t.dependency_patterns@) == views(anchors@[p].dependency_patterns@));
            assert(views(t.dependency_patterns@).len() == t.dependency_patterns@.len());
            assert(views(anchors@[p].dependency_patterns@).len() == anchors@[p].dependency_patterns@.len());
            assert(matchers@[p].patterns@[k].source() == anchored(t.dependency_patterns@[k]@));
            assert(views(t.dependency_patterns@)[k] == t.dependency_patterns@[k]@);
            assert(views(anchors@[p].dependency_patterns@)[k] == anchors@[p].dependency_patterns@[k]@);
            assert(t.dependency_patterns@[k]@ == anchors@[p].dependency_patterns@[k]@);
        }
    }
    Ok(deps)
}

/// The file-level evidence that the files declaring `from` depend on the
/// matcher's anchor.
fn evidence_for(
    inputs: &[JavaSourceInput],
    declared: &Vec<Option<String>>,
    input_lines: &Vec<Vec<String>>,
    from: &String,
    matcher: &AnchorMatcher,
) -> (r: Vec<SourceFileDependency>)
    requires
        matcher.compiled(),
        declared@.len() == inputs@.len(),
        input_lines@.len() == inputs@.len(),
        forall|k: int|
            #![trigger declared@[k]]
            0 <= k < inputs@.len() ==> match declared_package(inputs@[k]) {
                Some((n, _)) => declared@[k] matches Some(d) && d@ == n,
                None => declared@[k] is None,
            },
        forall|k: int|
            #![trigger input_lines@[k]]
            0 <= k < inputs@.len() ==> views(input_lines@[k]@) == dependency_lines(
                inputs@[k].source@,
            ),
    ensures
        evidence_views(r@) == dependency_evidence(inputs@, from@, matcher.target()),
{
    let mut r: Vec<SourceFileDependency> = Vec::new();
    let mut i: usize = 0;
    while i < inputs.len()
        invariant
            matcher.compiled(),
            i <= inputs@.len(),
            declared@.len() == inputs@.len(),
            input_lines@.len() == inputs@.len(),
            forall|k: int|
                #![trigger declared@[k]]
                0 <= k < inputs@.len() ==> match declared_package(inputs@[k]) {
                    Some((n, _)) => declared@[k] matches Some(d) && d@ == n,
                    None => declared@[k] is None,
                },
            forall|k: int|
                #![trigger input_lines@[k]]
                0 <= k < inputs@.len() ==> views(input_lines@[k]@) == dependency_lines(
                    inputs@[k].source@,
                ),
            evidence_views(r@) == dependency_evidence(inputs@.take(i as int), from@, matcher.target()),
        decreases inputs@.len() - i,
    {
        proof {
            assert(inputs@.take(i + 1).drop_last() =~= inputs@.take(i as int));
            assert(inputs@.take(i + 1).last() == inputs@[i as int]);
            assert(declared@[i as int] == declared@[i as int]);
            assert(input_lines@[i as int] == input_lines@[i as int]);
        }
        let ghost before = r@;
        match &declared[i] {
            Some(name) => {
                if str_eq(name.as_str(), from.as_str()) {
                    match matcher.dependency_code_fragment(&input_lines[i]) {
                        Some(line) => {
                            let f = copy_file_record(&inputs[i].file);
                            r.push(SourceFileDependency { file: f, code_fragment: line });
                            proof {
                                assert(evidence_views(r@) =~= evidence_views(before).push(
                                    (inputs@[i as int].file@, line@),
                                ));
                            }
                        },
                        None => {},
                    }
                }
            },
            None => {},
        }
        i += 1;
    }
    proof {
        assert(inputs@.take(inputs@.len() as int) =~= inputs@);
    }
    r
}

/// The dependencies found for every pair of anchors before `(p, q)` in
/// index order.
pub open spec fn dependencies_upto(
    inputs: Seq<JavaSourceInput>,
    anchors: Seq<DependencyAnchor>,
    deps: Seq<Dependency>,
    p: int,
    q: int,
) -> bool {
    exists|idx: Seq<(int, int)>| #[trigger] indexed_dependencies(inputs, anchors, deps, idx, p, q)
}

/// `idx` gives, for each dependency, the anchor indices of its pair; the
/// pairs are increasing, all before `(p, q)`, and every pair before `(p, q)`
/// with evidence has its dependency.
pub open spec fn indexed_dependencies(
    inputs: Seq<JavaSourceInput>,
    anchors: Seq<DependencyAnchor>,
    deps: Seq<Dependency>,
    idx: Seq<(int, int)>,
    p: int,
    q: int,
) -> bool {
    &&& idx.len() == deps.len()
    &&& forall|x: int, y: int|
        0 <= x < y < idx.len() ==> index_lt(#[trigger] idx[x], #[trigger] idx[y])
    &&& forall|k: int| 0 <= k < idx.len() ==> index_lt(#[trigger] idx[k], (p, q))
    &&& forall|k: int|
        #![trigger deps[k]]
        0 <= k < deps.len() ==> dependency_at(inputs, anchors, deps[k], idx[k].0, idx[k].1)
    &&& forall|a: int, b: int|
        0 <= a < anchors.len() && 0 <= b < anchors.len() && a != b && index_lt((a, b), (p, q))
            && dependency_evidence(inputs, #[trigger] anchors[a].anchor@, #[trigger] anchors[b]).len()
            > 0 ==> exists|k: int| 0 <= k < idx.len() && #[trigger] idx[k] == (a, b)
}

/// `d` is the dependency of one anchor on another.
pub open spec fn dependency_of_some_pair(
    inputs: Seq<JavaSourceInput>,
    anchors: Seq<DependencyAnchor>,
    d: Dependency,
) -> bool {
    exists|a: int, b: int| #[trigger] dependency_at(inputs, anchors, d, a, b)
}

/// `d` is the dependency of anchor `a` on anchor `b`, with its evidence.
pub open spec fn dependency_at(
    inputs: Seq<JavaSourceInput>,
    anchors: Seq<DependencyAnchor>,
    d: Dependency,
    a: int,
    b: int,
) -> bool {
    &&& 0 <= a < anchors.len()
    &&& 0 <= b < anchors.len()
    &&& a != b
    &&& d.from@ == anchors[a].anchor@
    &&& d.to@ == anchors[b].anchor@
    &&& anchor_view(d.from_anchor) == anchor_view(anchors[a])
    &&& anchor_view(d.to_anchor) == anchor_view(anchors[b])
    &&& d.kind@ == "package"@
    &&& evidence_views(d.from_files@) == dependency_evidence(inputs, anchors[a].anchor@, anchors[b])
    &&& d.from_files@.len() > 0
}

pub open spec fn index_lt(x: (int, int), y: (int, int)) -> bool {
    x.0 < y.0 || (x.0 == y.0 && x.1 < y.1)
}

proof fn lemma_dependencies_step(
    inputs: Seq<JavaSourceInput>,
    anchors: Seq<DependencyAnchor>,
    before: Seq<Dependency>,
    after: Seq<Dependency>,
    p: int,
    q: int,
)
    requires
        0 <= p < anchors.len(),
        0 <= q < anchors.len(),
        dependencies_upto(inputs, anchors, before, p, q),
        after == before || (after.len() == before.len() + 1 && after.drop_last() == before
            && dependency_at(inputs, anchors, after.last(), p, q)),
        after == before ==> (p == q || dependency_evidence(inputs, anchors[p].anchor@, anchors[q]).len()
            == 0),
    ensures
        dependencies_upto(inputs, anchors, after, p, q + 1),
{
    let idx = choose|idx: Seq<(int, int)>| indexed_dependencies(inputs, anchors, before, idx, p, q);
    if after == before {
        assert(indexed_dependencies(inputs, anchors, after, idx, p, q + 1)) by {
            assert forall|a: int, b: int|
                0 <= a < anchors.len() && 0 <= b < anchors.len() && a != b && index_lt((a, b), (p, q + 1))
                    && dependency_evidence(inputs, #[trigger] anchors[a].anchor@, #[trigger] anchors[b]).len()
                    > 0 implies exists|k: int| 0 <= k < idx.len() && #[trigger] idx[k] == (a, b) by {
                if (a, b) != (p, q) {
                    assert(index_lt((a, b), (p, q)));
                }
            }
        }
    } else {
        let idx2 = idx.push((p, q));
        assert(indexed_dependencies(inputs, anchors, after, idx2, p, q + 1)) by {
            assert forall|k: int|
                #![trigger after[k]]
                0 <= k < after.len() implies dependency_at(inputs, anchors, after[k], idx2[k].0, idx2[k].1) by {
                if k < before.len() {
                    assert(after[k] == before[k]);
                    assert(idx2[k] == idx[k]);
                }
            }
            assert forall|x: int, y: int|
                0 <= x < y < idx2.len() implies index_lt(#[trigger] idx2[x], #[trigger] idx2[y]) by {
                if y == idx2.len() - 1 {
                    assert(index_lt(idx[x], (p, q)));
                }
            }
            assert forall|k: int| 0 <= k < idx2.len() implies index_lt(#[trigger] idx2[k], (p, q + 1)) by {
                if k < idx.len() {
                    assert(index_lt(idx[k], (p, q)));
                }
            }
            assert forall|a: int, b: int|
                0 <= a < anchors.len() && 0 <= b < anchors.len() && a != b && index_lt((a, b), (p, q + 1))
                    && dependency_evidence(inputs, #[trigger] anchors[a].anchor@, #[trigger] anchors[b]).len()
                    > 0 implies exists|k: int| 0 <= k < idx2.len() && #[trigger] idx2[k] == (a, b) by {
                if (a, b) == (p, q) {
                    assert(idx2[idx.len() as int] == (a, b));
                } else {
                    assert(index_lt((a, b), (p, q)));
                    let k = choose|k: int| 0 <= k < idx.len() && #[trigger] idx[k] == (a, b);
                    assert(idx2[k] == (a, b));
                }
            }
        }
    }
}

proof fn lemma_dependencies_next_row(
    inputs: Seq<JavaSourceInput>,
    anchors: Seq<DependencyAnchor>,
    deps: Seq<Dependency>,
    p: int,
)
    requires
        0 <= p < anchors.len(),
        dependencies_upto(inputs, anchors, deps, p, anchors.len() as int),
    ensures
        dependencies_upto(inputs, anchors, deps, p + 1, 0),
{
    let idx = choose|idx: Seq<(int, int)>|
        indexed_dependencies(inputs, anchors, deps, idx, p, anchors.len() as int);
    assert(indexed_dependencies(inputs, anchors, deps, idx, p + 1, 0)) by {
        assert forall|k: int| 0 <= k < idx.len() implies index_lt(#[trigger] idx[k], (p + 1, 0)) by {
            assert(index_lt(idx[k], (p, anchors.len() as int)));
        }
        assert forall|a: int, b: int|
            0 <= a < anchors.len() && 0 <= b < anchors.len() && a != b && index_lt((a, b), (p + 1, 0))
                && dependency_evidence(inputs, #[trigger] anchors[a].anchor@, #[trigger] anchors[b]).len()
                > 0 implies exists|k: int| 0 <= k < idx.len() && #[trigger] idx[k] == (a, b) by {
            assert(index_lt((a, b), (p, anchors.len() as int)));
        }
    }
}

proof fn lemma_dependencies_done(
    inputs: Seq<JavaSourceInput>,
    anchors: Seq<DependencyAnchor>,
    deps: Seq<Dependency>,
)
    requires
        anchors_of(inputs, anchors),
        dependencies_upto(inputs, anchors, deps, anchors.len() as int, 0),
    ensures
        dependencies_of(inputs, anchors, deps),
{
    let idx = choose|idx: Seq<(int, int)>|
        indexed_dependencies(inputs, anchors, deps, idx, anchors.len() as int, 0);
    let names = anchor_names(anchors);
    assert forall|x: int, y: int|
        0 <= x < y < deps.len() implies pair_lt(
        #[trigger] deps[x].from@,
        deps[x].to@,
        #[trigger] deps[y].from@,
        deps[y].to@,
    ) by {
        assert(index_lt(idx[x], idx[y]));
        assert(dependency_at(inputs, anchors, deps[x], idx[x].0, idx[x].1));
        assert(dependency_at(inputs, anchors, deps[y], idx[y].0, idx[y].1));
        let a1 = idx[x].0;
        let b1 = idx[x].1;
        let a2 = idx[y].0;
        let b2 = idx[y].1;
        assert(names[a1] == anchors[a1].anchor@);
        assert(names[a2] == anchors[a2].anchor@);
        assert(names[b1] == anchors[b1].anchor@);
        assert(names[b2] == anchors[b2].anchor@);
        if a1 < a2 {
            assert(text_lt(names[a1], names[a2]));
        } else {
            assert(text_lt(names[b1], names[b2]));
        }
    }
    assert forall|k: int| 0 <= k < deps.len() implies #[trigger] dependency_of_some_pair(
        inputs,
        anchors,
        deps[k],
    ) by {
        assert(dependency_at(inputs, anchors, deps[k], idx[k].0, idx[k].1));
    }
    assert forall|p: int, q: int|
        0 <= p < anchors.len() && 0 <= q < anchors.len() && p != q && dependency_evidence(
            inputs,
            #[trigger] anchors[p].anchor@,
            #[trigger] anchors[q],
        ).len() > 0 implies exists|k: int|
            0 <= k < deps.len() && (#[trigger] deps[k]).from@ == anchors[p].anchor@ && deps[k].to@
                == anchors[q].anchor@ by {
        assert(index_lt((p, q), (anchors.len() as int, 0)));
        let k = choose|k: int| 0 <= k < idx.len() && #[trigger] idx[k] == (p, q);
        assert(dependency_at(inputs, anchors, deps[k], idx[k].0, idx[k].1));
    }
}

} // verus!
