//! Concerns: main files grouped by configured concern filters, with the
//! files no concern claims and those several concerns claim, and the labels
//! each file gets from them.
use vstd::prelude::*;

use crate::config::{ConcernConfig, ConcernGroupConfig, SokratesConfig, SourceFileFilterConfig};
use crate::export::{context_of, find_context, PathLabels};
use crate::pathset::PathSet;
use crate::pattern::{full_match, matches_entire};
use crate::scopes::{content_hit, context_keys, contexts_wf, filter_hit, filter_matches, path_hit, path_matches, FileContext};
use crate::text::{
    all_ws, chars_of, contains_string, copy_string, is_blank, lemma_text_lt_irreflexive, push_str, text_lt, views,
};

verus! {

/// `n`, or `usize::MAX` when it does not fit.
pub open spec fn capped(n: nat) -> nat {
    if n <= usize::MAX {
        n
    } else {
        usize::MAX as nat
    }
}

// ---------------------------------------------------------------------------
// Matching lines
// ---------------------------------------------------------------------------

/// Number of lines that `pattern` matches as a whole.
pub open spec fn lines_matching(pattern: Seq<char>, lines: Seq<Seq<char>>) -> nat
    decreases lines.len(),
{
    if lines.len() == 0 {
        0
    } else {
        lines_matching(pattern, lines.drop_last()) + if full_match(pattern, lines.last()) {
            1nat
        } else {
            0nat
        }
    }
}

proof fn lemma_lines_matching_bound(pattern: Seq<char>, lines: Seq<Seq<char>>)
    ensures
        lines_matching(pattern, lines) <= lines.len(),
    decreases lines.len(),
{
    if lines.len() > 0 {
        lemma_lines_matching_bound(pattern, lines.drop_last());
    }
}

/// Lines of a file that a filter's content pattern matches: none when the
/// content pattern is blank or the path pattern does not select the file.
pub open spec fn filter_line_matches(f: SourceFileFilterConfig, c: FileContext) -> nat {
    if all_ws(f.content_pattern@) || !path_hit(f.path_pattern@, c.absolute_path@) {
        0
    } else {
        lines_matching(f.content_pattern@, views(c.lines@))
    }
}

/// Number of lines of the file that the filter's content pattern matches.
pub fn matching_line_count(filter: &SourceFileFilterConfig, context: &FileContext) -> (n: usize)
    ensures
        n == filter_line_matches(*filter, *context),
{
    let pattern_chars = chars_of(filter.content_pattern.as_str());
    if is_blank(pattern_chars.as_slice()) || !path_matches(
        filter.path_pattern.as_str(),
        context.absolute_path.as_str(),
    ) {
        return 0;
    }
    let ghost lv = views(context.lines@);
    let mut count: usize = 0;
    let mut i: usize = 0;
    while i < context.lines.len()
        invariant
            i <= context.lines@.len(),
            lv == views(context.lines@),
            count == lines_matching(filter.content_pattern@, lv.take(i as int)),
        decreases context.lines@.len() - i,
    {
        proof {
            assert(lv.take(i + 1).drop_last() =~= lv.take(i as int));
            assert(lv.take(i + 1).last() == context.lines@[i as int]@);
            lemma_lines_matching_bound(filter.content_pattern@, lv.take(i as int));
        }
        if matches_entire(filter.content_pattern.as_str(), context.lines[i].as_str()) {
            count += 1;
        }
        i += 1;
    }
    proof {
        assert(lv.take(context.lines@.len() as int) =~= lv);
    }
    count
}

// ---------------------------------------------------------------------------
// One concern
// ---------------------------------------------------------------------------

/// A file belongs to a concern when the concern lists it or one of its
/// filters selects it, and no exception filter selects it.
pub open spec fn concern_hit(concern: ConcernConfig, path: Seq<char>, c: FileContext) -> bool {
    let listed = views(concern.files@).contains(path);
    let selected = exists|k: int|
        0 <= k < concern.source_file_filters@.len() && !concern.source_file_filters@[k].exception && filter_hit(
            #[trigger] concern.source_file_filters@[k],
            c,
        );
    let excepted = exists|k: int|
        0 <= k < concern.source_file_filters@.len() && concern.source_file_filters@[k].exception && filter_hit(
            #[trigger] concern.source_file_filters@[k],
            c,
        );
    (listed || selected) && !excepted
}

/// Lines matched in a file by the concern's selecting filters that select
/// it.
pub open spec fn concern_file_line_matches(filters: Seq<SourceFileFilterConfig>, c: FileContext) -> nat
    decreases filters.len(),
{
    if filters.len() == 0 {
        0
    } else {
        concern_file_line_matches(filters.drop_last(), c) + if !filters.last().exception && filter_hit(
            filters.last(),
            c,
        ) {
            filter_line_matches(filters.last(), c)
        } else {
            0
        }
    }
}

/// Lines matched by a concern over the given paths (with contexts).
pub open spec fn concern_line_matches(paths: Seq<Seq<char>>, contexts: Seq<FileContext>, concern: ConcernConfig) -> nat
    decreases paths.len(),
{
    if paths.len() == 0 {
        0
    } else {
        concern_line_matches(paths.drop_last(), contexts, concern) + match context_of(contexts, paths.last()) {
            Some(c) => concern_file_line_matches(concern.source_file_filters@, c),
            None => 0,
        }
    }
}

/// The main files a concern claims.
pub open spec fn concern_paths(main: PathSet, contexts: Seq<FileContext>, concern: ConcernConfig) -> Set<Seq<char>> {
    Set::new(
        |p: Seq<char>|
            main.has(p) && context_of(contexts, p) is Some && concern_hit(concern, p, context_of(contexts, p).unwrap()),
    )
}

/// A main file that some exception filter of a concern selects is never
/// among the files the concern claims, whatever its other filters or listed
/// files say; nor in a concern's match in an analysed group.
pub proof fn lemma_concern_exception_excludes(
    main: PathSet,
    contexts: Seq<FileContext>,
    concern: ConcernConfig,
    m: ConcernMatch,
    i: int,
    k: int,
)
    requires
        contexts_wf(contexts),
        0 <= i < contexts.len(),
        0 <= k < concern.source_file_filters@.len(),
        concern.source_file_filters@[k].exception,
        filter_hit(concern.source_file_filters@[k], contexts[i]),
    ensures
        !concern_paths(main, contexts, concern).contains(contexts[i].file.relative_path@),
        concern_match_of(m, concern, main, contexts) ==> !m.paths.has(contexts[i].file.relative_path@),
{
    let p = contexts[i].file.relative_path@;
    let keys = context_keys(contexts);
    assert(keys[i] == p);
    assert(keys.contains(p));
    let j = keys.index_of(p);
    assert(0 <= j < keys.len() && keys[j] == p);
    if i < j {
        assert(text_lt(keys[i], keys[j]));
    } else if j < i {
        assert(text_lt(keys[j], keys[i]));
    }
    lemma_text_lt_irreflexive(p);
    assert(context_of(contexts, p) == Some(contexts[i]));
    assert(!concern_hit(concern, p, contexts[i]));
    if concern_match_of(m, concern, main, contexts) && m.paths.has(p) {
        assert(m.paths.members().to_set().contains(p));
    }
}

/// Every main file has a context.
pub open spec fn contexts_cover(main: PathSet, contexts: Seq<FileContext>) -> bool {
    forall|k: int| 0 <= k < main.members().len() ==> context_of(contexts, #[trigger] main.members()[k]) is Some
}

/// Why a concern analysis was refused.
#[derive(Debug, Clone, PartialEq, Eq)]
pub enum ConcernError {
    /// A main file has no context.
    MissingFileContext { path: String },
}

/// Whether a concern claims the file at `path`, and how many lines its
/// selecting filters match there.
fn concern_claims(concern: &ConcernConfig, path: &String, context: &FileContext) -> (r: (bool, usize))
    ensures
        r.0 == concern_hit(*concern, path@, *context),
        r.1 == capped(concern_file_line_matches(concern.source_file_filters@, *context)),
{
    let mut included = contains_string(&concern.files, path);
    let mut excluded = false;
    let mut count: usize = 0;
    let ghost filters = concern.source_file_filters@;
    let mut k: usize = 0;
    while k < concern.source_file_filters.len()
        invariant
            k <= filters.len(),
            filters == concern.source_file_filters@,
            included <==> (views(concern.files@).contains(path@) || exists|j: int|
                0 <= j < k && !filters[j].exception && filter_hit(#[trigger] filters[j], *context)),
            excluded <==> exists|j: int| 0 <= j < k && filters[j].exception && filter_hit(#[trigger] filters[j], *context),
            count == capped(concern_file_line_matches(filters.take(k as int), *context)),
        decreases filters.len() - k,
    {
        proof {
            assert(filters.take(k + 1).drop_last() =~= filters.take(k as int));
            assert(filters.take(k + 1).last() == filters[k as int]);
        }
        let filter = &concern.source_file_filters[k];
        if filter_matches(filter, context) {
            if filter.exception {
                excluded = true;
            } else {
                included = true;
                count = count.saturating_add(matching_line_count(filter, context));
            }
        }
        k += 1;
    }
    proof {
        assert(filters.take(filters.len() as int) =~= filters);
    }
    (included && !excluded, count)
}

/// The main files a concern claims, and the number of lines its selecting
/// filters match in the main files they select (capped at `usize::MAX`).
/// Refused when a main file has no context.
pub fn evaluate_concern(contexts: &Vec<FileContext>, main_paths: &PathSet, concern: &ConcernConfig) -> (r: Result<
    (PathSet, usize),
    ConcernError,
>)
    requires
        contexts_wf(contexts@),
        main_paths.wf(),
    ensures
        r is Ok <==> contexts_cover(*main_paths, contexts@),
        r matches Ok((paths, n)) ==> {
            &&& paths.wf()
            &&& paths.members().to_set() == concern_paths(*main_paths, contexts@, *concern)
            &&& n == capped(concern_line_matches(main_paths.members(), contexts@, *concern))
        },
        r matches Err(ConcernError::MissingFileContext { path }) ==> main_paths.has(path@) && context_of(
            contexts@,
            path@,
        ) is None,
{
    let ghost ms = main_paths.members();
    let mut matches = PathSet::new();
    let mut count: usize = 0;
    let mut i: usize = 0;
    while i < main_paths.items.len()
        invariant
            i <= ms.len(),
            ms == main_paths.members(),
            contexts_wf(contexts@),
            matches.wf(),
            forall|k: int| 0 <= k < i ==> context_of(contexts@, #[trigger] ms[k]) is Some,
            matches.members().to_set() == concern_paths(*main_paths, contexts@, *concern).intersect(
                ms.take(i as int).to_set(),
            ),
            count == capped(concern_line_matches(ms.take(i as int), contexts@, *concern)),
        decreases ms.len() - i,
    {
        let path = &main_paths.items[i];
        proof {
            assert(ms[i as int] == path@);
            assert(ms.take(i + 1).drop_last() =~= ms.take(i as int));
            assert(ms.take(i + 1).last() == path@);
        }
        let pos = match find_context(contexts, path.as_str()) {
            Some(pos) => pos,
            None => {
                proof {
                    assert(!contexts_cover(*main_paths, contexts@));
                }
                return Err(ConcernError::MissingFileContext { path: copy_string(path) });
            },
        };
        let (hit, lines) = concern_claims(concern, path, &contexts[pos]);
        count = count.saturating_add(lines);
        let ghost before = matches.members().to_set();
        if hit {
            matches.insert(path.as_str());
        }
        proof {
            assert(ms.take(i + 1).to_set() =~= ms.take(i as int).to_set().insert(path@)) by {
                assert(ms.take(i + 1) =~= ms.take(i as int).push(path@));
                ms.take(i as int).lemma_push_to_set_commute(path@);
            }
            assert(matches.members().to_set() =~= concern_paths(*main_paths, contexts@, *concern).intersect(
                ms.take(i + 1).to_set(),
            ));
        }
        i += 1;
    }
    proof {
        assert(ms.take(ms.len() as int) =~= ms);
        assert(matches.members().to_set() =~= concern_paths(*main_paths, contexts@, *concern));
    }
    Ok((matches, count))
}

// ---------------------------------------------------------------------------
// Concern groups
// ---------------------------------------------------------------------------

/// The files of a concern.
#[derive(Debug, Clone)]
pub struct ConcernMatch {
    pub name: String,
    pub paths: PathSet,
    pub number_of_regex_line_matches: usize,
    pub label_in_file_export: bool,
}

/// The concerns of a group.
#[derive(Debug, Clone)]
pub struct ConcernGroupMatch {
    pub key: String,
    pub concerns: Vec<ConcernMatch>,
}

/// Name given to the main files no concern of a group claims.
pub open spec fn unclassified_name() -> Seq<char> {
    "Unclassified"@
}

/// Name given to the main files several concerns of a group claim.
pub open spec fn multiple_name() -> Seq<char> {
    "Multiple Classifications"@
}

/// Number of the concerns that claim `p`.
pub open spec fn claims(concerns: Seq<ConcernMatch>, p: Seq<char>) -> nat
    decreases concerns.len(),
{
    if concerns.len() == 0 {
        0
    } else {
        claims(concerns.drop_last(), p) + if concerns.last().paths.has(p) {
            1nat
        } else {
            0nat
        }
    }
}

/// `m` is the match of `concern` over the main files.
pub open spec fn concern_match_of(
    m: ConcernMatch,
    concern: ConcernConfig,
    main: PathSet,
    contexts: Seq<FileContext>,
) -> bool {
    &&& m.name@ == concern.name@
    &&& m.paths.wf()
    &&& m.paths.members().to_set() == concern_paths(main, contexts, concern)
    &&& m.number_of_regex_line_matches == capped(concern_line_matches(main.members(), contexts, concern))
    &&& m.label_in_file_export
}

/// `m` gathers the main files that `count` of the concerns claim, as its
/// name says, with no matched lines.
pub open spec fn summary_match_of(
    m: ConcernMatch,
    concerns: Seq<ConcernMatch>,
    main: PathSet,
    name: Seq<char>,
    unclassified: bool,
) -> bool {
    &&& m.name@ == name
    &&& m.paths.wf()
    &&& forall|p: Seq<char>|
        #![trigger m.paths.has(p)]
        m.paths.has(p) <==> main.has(p) && (if unclassified {
            claims(concerns, p) == 0
        } else {
            claims(concerns, p) > 1
        })
    &&& m.number_of_regex_line_matches == 0
    &&& m.label_in_file_export == unclassified
}

/// Some main file is claimed by no concern.
pub open spec fn some_unclassified(concerns: Seq<ConcernMatch>, main: PathSet) -> bool {
    exists|k: int| 0 <= k < main.members().len() && claims(concerns, #[trigger] main.members()[k]) == 0
}

/// Some main file is claimed by several concerns.
pub open spec fn some_multiple(concerns: Seq<ConcernMatch>, main: PathSet) -> bool {
    exists|k: int| 0 <= k < main.members().len() && claims(concerns, #[trigger] main.members()[k]) > 1
}

/// `g` is the analysis of the concern group `cfg`: one match per configured
/// concern, in order, then an unclassified match when some main file is
/// claimed by none, then a multiple-classification match when some main file
/// is claimed by several.
pub open spec fn group_match_of(
    g: ConcernGroupMatch,
    cfg: ConcernGroupConfig,
    main: PathSet,
    contexts: Seq<FileContext>,
) -> bool {
    let n = cfg.concerns@.len();
    let base = g.concerns@.take(n as int);
    let un = some_unclassified(base, main);
    let mu = some_multiple(base, main);
    &&& g.key@ == cfg.name@
    &&& g.concerns@.len() == n + (if un { 1int } else { 0int }) + (if mu { 1int } else { 0int })
    &&& forall|k: int| 0 <= k < n ==> concern_match_of(#[trigger] g.concerns@[k], cfg.concerns@[k], main, contexts)
    &&& un ==> summary_match_of(g.concerns@[n as int], base, main, unclassified_name(), true)
    &&& mu ==> summary_match_of(
        g.concerns@[n + (if un { 1int } else { 0int })],
        base,
        main,
        multiple_name(),
        false,
    )
}

/// Number of the concerns that claim `p`.
fn count_claims(concerns: &Vec<ConcernMatch>, p: &str) -> (n: usize)
    requires
        forall|k: int| 0 <= k < concerns@.len() ==> (#[trigger] concerns@[k]).paths.wf(),
    ensures
        n == claims(concerns@, p@),
{
    let mut n: usize = 0;
    let mut k: usize = 0;
    while k < concerns.len()
        invariant
            k <= concerns@.len(),
            forall|m: int| 0 <= m < concerns@.len() ==> (#[trigger] concerns@[m]).paths.wf(),
            n == claims(concerns@.take(k as int), p@),
            n <= k,
        decreases concerns@.len() - k,
    {
        proof {
            assert(concerns@.take(k + 1).drop_last() =~= concerns@.take(k as int));
            assert(concerns@.take(k + 1).last() == concerns@[k as int]);
        }
        if concerns[k].paths.contains(p) {
            n += 1;
        }
        k += 1;
    }
    proof {
        assert(concerns@.take(concerns@.len() as int) =~= concerns@);
    }
    n
}

/// Whether a main file belongs to the unclassified files (or, when
/// `unclassified` is false, to those with several classifications).
pub open spec fn summary_wanted(concerns: Seq<ConcernMatch>, unclassified: bool, p: Seq<char>) -> bool {
    if unclassified {
        claims(concerns, p) == 0
    } else {
        claims(concerns, p) > 1
    }
}

/// The main files that no concern claims, or that several claim.
fn summary_paths(concerns: &Vec<ConcernMatch>, main_paths: &PathSet, unclassified: bool) -> (r: PathSet)
    requires
        main_paths.wf(),
        forall|k: int| 0 <= k < concerns@.len() ==> (#[trigger] concerns@[k]).paths.wf(),
    ensures
        r.wf(),
        forall|p: Seq<char>|
            #![trigger r.has(p)]
            r.has(p) <==> main_paths.has(p) && (if unclassified {
                claims(concerns@, p) == 0
            } else {
                claims(concerns@, p) > 1
            }),
        r.members().len() > 0 <==> (if unclassified {
            some_unclassified(concerns@, *main_paths)
        } else {
            some_multiple(concerns@, *main_paths)
        }),
{
    let ghost ms = main_paths.members();
    let ghost wanted = |p: Seq<char>| summary_wanted(concerns@, unclassified, p);
    let mut r = PathSet::new();
    let mut i: usize = 0;
    while i < main_paths.items.len()
        invariant
            i <= ms.len(),
            ms == main_paths.members(),
            r.wf(),
            forall|k: int| 0 <= k < concerns@.len() ==> (#[trigger] concerns@[k]).paths.wf(),
            r.members().to_set() == ms.take(i as int).to_set().filter(wanted),
            forall|x: Seq<char>| #[trigger] wanted(x) == summary_wanted(concerns@, unclassified, x),
        decreases ms.len() - i,
    {
        let path = main_paths.items[i].as_str();
        proof {
            assert(ms[i as int] == path@);
            assert(ms.take(i + 1).to_set() =~= ms.take(i as int).to_set().insert(path@)) by {
                assert(ms.take(i + 1) =~= ms.take(i as int).push(path@));
                ms.take(i as int).lemma_push_to_set_commute(path@);
            }
        }
        let count = count_claims(concerns, path);
        let ghost before = r.members().to_set();
        let hit = (unclassified && count == 0) || (!unclassified && count > 1);
        proof {
            assert(hit == summary_wanted(concerns@, unclassified, path@));
        }
        if hit {
            r.insert(path);
        }
        proof {
            if hit {
                assert(r.members().to_set() =~= before.insert(path@));
            } else {
                assert(r.members().to_set() =~= before);
            }
            assert forall|x: Seq<char>| #[trigger] r.members().to_set().contains(x) <==> ms.take(i + 1).to_set().filter(
                wanted,
            ).contains(x) by {
                assert(wanted(x) == summary_wanted(concerns@, unclassified, x));
                if x == path@ {
                    assert(ms.take(i + 1).to_set().contains(x));
                } else {
                    assert(ms.take(i + 1).to_set().contains(x) == ms.take(i as int).to_set().contains(x));
                }
            }
            assert(r.members().to_set() =~= ms.take(i + 1).to_set().filter(wanted));
        }
        i += 1;
    }
    proof {
        assert(ms.take(ms.len() as int) =~= ms);
        assert forall|p: Seq<char>| #![trigger r.has(p)] r.has(p) <==> main_paths.has(p) && wanted(p) by {
            assert(r.members().to_set().contains(p) == r.has(p));
        }
        if r.members().len() > 0 {
            let p = r.members()[0];
            assert(r.has(p));
            let k = choose|k: int| 0 <= k < ms.len() && ms[k] == p;
            assert(wanted(ms[k]));
        }
        if unclassified && some_unclassified(concerns@, *main_paths) {
            let k = choose|k: int| 0 <= k < ms.len() && claims(concerns@, #[trigger] ms[k]) == 0;
            assert(r.has(ms[k]));
        }
        if !unclassified && some_multiple(concerns@, *main_paths) {
            let k = choose|k: int| 0 <= k < ms.len() && claims(concerns@, #[trigger] ms[k]) > 1;
            assert(r.has(ms[k]));
        }
    }
    r
}

/// The analysis of one concern group over the main files. Refused when the
/// group has a concern and a main file has no context.
fn analyze_concern_group(contexts: &Vec<FileContext>, main_paths: &PathSet, group: &ConcernGroupConfig) -> (r: Result<
    ConcernGroupMatch,
    ConcernError,
>)
    requires
        contexts_wf(contexts@),
        main_paths.wf(),
    ensures
        r is Ok <==> group.concerns@.len() == 0 || contexts_cover(*main_paths, contexts@),
        r matches Ok(g) ==> group_match_of(g, *group, *main_paths, contexts@),
        r matches Err(ConcernError::MissingFileContext { path }) ==> main_paths.has(path@) && context_of(
            contexts@,
            path@,
        ) is None,
{
    let mut concerns: Vec<ConcernMatch> = Vec::new();
    let ghost n = group.concerns@.len();
    let mut c: usize = 0;
    while c < group.concerns.len()
        invariant
            c <= n,
            n == group.concerns@.len(),
            contexts_wf(contexts@),
            main_paths.wf(),
            concerns@.len() == c,
            c > 0 ==> contexts_cover(*main_paths, contexts@),
            forall|k: int|
                0 <= k < c ==> concern_match_of(#[trigger] concerns@[k], group.concerns@[k], *main_paths, contexts@),
        decreases n - c,
    {
        let concern = &group.concerns[c];
        match evaluate_concern(contexts, main_paths, concern) {
            Ok((paths, count)) => {
                concerns.push(
                    ConcernMatch {
                        name: copy_string(&concern.name),
                        paths,
                        number_of_regex_line_matches: count,
                        label_in_file_export: true,
                    },
                );
            },
            Err(e) => {
                return Err(e);
            },
        }
        c += 1;
    }
    let ghost base = concerns@;
    proof {
        assert forall|k: int| 0 <= k < concerns@.len() implies (#[trigger] concerns@[k]).paths.wf() by {
            assert(concern_match_of(concerns@[k], group.concerns@[k], *main_paths, contexts@));
        }
    }
    let unclassified = summary_paths(&concerns, main_paths, true);
    let multiple = summary_paths(&concerns, main_paths, false);
    let un = unclassified.len() > 0;
    let mu = multiple.len() > 0;
    if un {
        concerns.push(
            ConcernMatch {
                name: "Unclassified".to_owned(),
                paths: unclassified,
                number_of_regex_line_matches: 0,
                label_in_file_export: true,
            },
        );
    }
    if mu {
        concerns.push(
            ConcernMatch {
                name: "Multiple Classifications".to_owned(),
                paths: multiple,
                number_of_regex_line_matches: 0,
                label_in_file_export: false,
            },
        );
    }
    let g = ConcernGroupMatch { key: copy_string(&group.name), concerns };
    proof {
        assert(g.concerns@.take(n as int) =~= base);
    }
    Ok(g)
}

/// The analysis of every configured concern group over the main files, in
/// order. Refused when some group has a concern and a main file has no
/// context.
pub fn analyze_concern_groups(contexts: &Vec<FileContext>, main_paths: &PathSet, config: &SokratesConfig) -> (r:
    Result<Vec<ConcernGroupMatch>, ConcernError>)
    requires
        contexts_wf(contexts@),
        main_paths.wf(),
    ensures
        r is Ok <==> (forall|k: int|
            0 <= k < config.concern_groups@.len() ==> (#[trigger] config.concern_groups@[k]).concerns@.len() == 0)
            || contexts_cover(*main_paths, contexts@),
        r matches Ok(gs) ==> groups_wf(gs@),
        r matches Ok(gs) ==> gs@.len() == config.concern_groups@.len() && forall|k: int|
            0 <= k < gs@.len() ==> group_match_of(
                #[trigger] gs@[k],
                config.concern_groups@[k],
                *main_paths,
                contexts@,
            ),
        r matches Err(ConcernError::MissingFileContext { path }) ==> main_paths.has(path@) && context_of(
            contexts@,
            path@,
        ) is None,
{
    let mut groups: Vec<ConcernGroupMatch> = Vec::new();
    let mut g: usize = 0;
    while g < config.concern_groups.len()
        invariant
            g <= config.concern_groups@.len(),
            contexts_wf(contexts@),
            main_paths.wf(),
            groups@.len() == g,
            forall|k: int|
                0 <= k < g ==> (#[trigger] config.concern_groups@[k]).concerns@.len() == 0 || contexts_cover(
                    *main_paths,
                    contexts@,
                ),
            forall|k: int|
                0 <= k < g ==> group_match_of(
                    #[trigger] groups@[k],
                    config.concern_groups@[k],
                    *main_paths,
                    contexts@,
                ),
        decreases config.concern_groups@.len() - g,
    {
        match analyze_concern_group(contexts, main_paths, &config.concern_groups[g]) {
            Ok(m) => {
                groups.push(m);
            },
            Err(e) => {
                return Err(e);
            },
        }
        g += 1;
    }
    proof {
        if !contexts_cover(*main_paths, contexts@) {
            assert forall|k: int| 0 <= k < config.concern_groups@.len() implies (
            #[trigger] config.concern_groups@[k]).concerns@.len() == 0 by {}
        }
    }
    Ok(groups)
}

// ---------------------------------------------------------------------------
// Labels
// ---------------------------------------------------------------------------

/// The labels that the concerns give to `p`: `::` and the name of each
/// labelling concern that claims it, in order.
pub open spec fn concern_labels(concerns: Seq<ConcernMatch>, p: Seq<char>) -> Seq<Seq<char>>
    decreases concerns.len(),
{
    if concerns.len() == 0 {
        Seq::empty()
    } else {
        let c = concerns.last();
        concern_labels(concerns.drop_last(), p) + if c.label_in_file_export && c.paths.has(p) {
            seq!["::"@ + c.name@]
        } else {
            Seq::empty()
        }
    }
}

/// The labels that the groups give to `p`, group by group.
pub open spec fn group_labels(groups: Seq<ConcernGroupMatch>, p: Seq<char>) -> Seq<Seq<char>>
    decreases groups.len(),
{
    if groups.len() == 0 {
        Seq::empty()
    } else {
        group_labels(groups.drop_last(), p) + concern_labels(groups.last().concerns@, p)
    }
}

/// Every concern of every group has well-formed paths.
pub open spec fn groups_wf(groups: Seq<ConcernGroupMatch>) -> bool {
    forall|g: int, k: int|
        0 <= g < groups.len() && 0 <= k < groups[g].concerns@.len() ==> (#[trigger] groups[g].concerns@[k]).paths.wf()
}

/// The concern labels of each main file, in path order.
pub fn concern_labels_from_groups(main_paths: &PathSet, groups: &Vec<ConcernGroupMatch>) -> (r: Vec<PathLabels>)
    requires
        groups_wf(groups@),
    ensures
        r@.len() == main_paths.members().len(),
        forall|k: int|
            0 <= k < r@.len() ==> (#[trigger] r@[k]).path@ == main_paths.members()[k] && views(r@[k].labels@)
                == group_labels(groups@, main_paths.members()[k]),
{
    let mut r: Vec<PathLabels> = Vec::new();
    let mut i: usize = 0;
    while i < main_paths.items.len()
        invariant
            i <= main_paths.members().len(),
            groups_wf(groups@),
            r@.len() == i,
            forall|k: int|
                0 <= k < i ==> (#[trigger] r@[k]).path@ == main_paths.members()[k] && views(r@[k].labels@)
                    == group_labels(groups@, main_paths.members()[k]),
        decreases main_paths.members().len() - i,
    {
        let path = &main_paths.items[i];
        let mut labels: Vec<String> = Vec::new();
        let mut g: usize = 0;
        while g < groups.len()
            invariant
                g <= groups@.len(),
                groups_wf(groups@),
                views(labels@) == group_labels(groups@.take(g as int), path@),
            decreases groups@.len() - g,
        {
            proof {
                assert(groups@.take(g + 1).drop_last() =~= groups@.take(g as int));
                assert(groups@.take(g + 1).last() == groups@[g as int]);
            }
            let concerns = &groups[g].concerns;
            let ghost start = views(labels@);
            let mut c: usize = 0;
            while c < concerns.len()
                invariant
                    c <= concerns@.len(),
                    g < groups@.len(),
                    concerns@ == groups@[g as int].concerns@,
                    groups_wf(groups@),
                    views(labels@) == start + concern_labels(concerns@.take(c as int), path@),
                decreases concerns@.len() - c,
            {
                proof {
                    assert(concerns@.take(c + 1).drop_last() =~= concerns@.take(c as int));
                    assert(concerns@.take(c + 1).last() == concerns@[c as int]);
                    assert(groups@[g as int].concerns@[c as int].paths.wf());
                }
                let ghost before = views(labels@);
                let concern = &concerns[c];
                if concern.label_in_file_export && concern.paths.contains(path.as_str()) {
                    let mut label = String::new();
                    push_str(&mut label, "::");
                    push_str(&mut label, concern.name.as_str());
                    labels.push(label);
                    proof {
                        assert(views(labels@) =~= before.push(label@));
                        assert(concern_labels(concerns@.take(c + 1), path@) =~= concern_labels(
                            concerns@.take(c as int),
                            path@,
                        ) + seq![label@]);
                    }
                } else {
                    proof {
                        assert(concern_labels(concerns@.take(c + 1), path@) =~= concern_labels(
                            concerns@.take(c as int),
                            path@,
                        ));
                    }
                }
                c += 1;
            }
            proof {
                assert(concerns@.take(concerns@.len() as int) =~= concerns@);
                assert(views(labels@) =~= group_labels(groups@.take(g + 1), path@));
            }
            g += 1;
        }
        proof {
            assert(groups@.take(groups@.len() as int) =~= groups@);
        }
        r.push(PathLabels { path: copy_string(path), labels });
        i += 1;
    }
    r
}

} // verus!
