//! Duplication measures: the lines of each main file that duplication is
//! measured on, and their totals overall and per component.
use vstd::prelude::*;

use crate::concerns::capped;
use crate::config::SokratesConfig;
use crate::decompositions::LogicalDecompositionExport;
use crate::export::{context_of, find_context, selected_file_records, selected_records};
use crate::ir::{record_views, FileRecord, FileRecordView};
use crate::java::{join, keep_lines_from, strip_java_comments_keep_lines, LexState};
use crate::pathset::{str_eq, PathSet};
use crate::pattern::{full_match, matches_entire};
use crate::ranking::files_in_component;
use crate::scopes::{contexts_wf, split_lines, text_lines, FileContext, ScopeFiles};
use crate::text::{chars_of, push_char, push_str, string_of, trim, trim_chars, unify_newline_chars, unify_newlines, views};

verus! {

// ---------------------------------------------------------------------------
// Cleaned lines
// ---------------------------------------------------------------------------

/// A trimmed Java line that duplication ignores: empty, an import, a
/// package declaration, or a lone brace (what the expressions `[{]` and
/// `[}]` match as a whole: the one character).
pub open spec fn ignored_java_line(t: Seq<char>) -> bool {
    ||| t.len() == 0
    ||| full_match("import .*;"@, t)
    ||| full_match("package .*"@, t)
    ||| t == seq!['{']
    ||| t == seq!['}']
}

/// The trimmed lines that duplication keeps, in order.
pub open spec fn kept_java_lines(ls: Seq<Seq<char>>) -> Seq<Seq<char>>
    decreases ls.len(),
{
    if ls.len() == 0 {
        Seq::empty()
    } else {
        let t = trim(ls.last());
        kept_java_lines(ls.drop_last()) + if ignored_java_line(t) {
            Seq::empty()
        } else {
            seq![t]
        }
    }
}

/// The lines of Java source that duplication is measured on: comments
/// removed (keeping line breaks), lines trimmed, and blank lines, imports,
/// package declarations and lone braces dropped.
pub open spec fn java_duplication_lines(source: Seq<char>) -> Seq<Seq<char>> {
    kept_java_lines(text_lines(keep_lines_from(LexState::Code, unify_newlines(source))))
}

fn trimmed(s: &str) -> (r: String)
    ensures
        r@ == trim(s@),
{
    let chars = chars_of(s);
    let t = trim_chars(chars.as_slice());
    string_of(t.as_slice())
}

/// The lines of Java source that duplication is measured on.
pub fn cleaned_java_lines_for_duplication(source: &str) -> (r: Vec<String>)
    ensures
        views(r@) == java_duplication_lines(source@),
{
    let chars = chars_of(source);
    let normalized = unify_newline_chars(chars.as_slice());
    let stripped = strip_java_comments_keep_lines(normalized.as_slice());
    let text = string_of(stripped.as_slice());
    let ls = split_lines(text.as_str());
    let ghost lv = views(ls@);
    let mut r: Vec<String> = Vec::new();
    let mut i: usize = 0;
    while i < ls.len()
        invariant
            i <= ls@.len(),
            lv == views(ls@),
            views(r@) == kept_java_lines(lv.take(i as int)),
        decreases ls@.len() - i,
    {
        proof {
            assert(lv.take(i + 1).drop_last() =~= lv.take(i as int));
            assert(lv.take(i + 1).last() == ls@[i as int]@);
        }
        let t = trimmed(ls[i].as_str());
        let ghost before = views(r@);
        let tc = chars_of(t.as_str());
        let lone_brace = tc.len() == 1 && (tc[0] == '{' || tc[0] == '}');
        proof {
            assert(tc@ == t@);
            if tc@.len() == 1 {
                assert(t@ =~= seq![tc@[0]]);
            }
            if t@ == seq!['{'] || t@ == seq!['}'] {
                assert(tc@.len() == 1);
            }
            assert(lone_brace <==> (t@ == seq!['{'] || t@ == seq!['}']));
        }
        let ignored = tc.len() == 0 || matches_entire("import .*;", t.as_str())
            || matches_entire("package .*", t.as_str()) || lone_brace;
        if !ignored {
            r.push(t);
            proof {
                assert(views(r@) =~= before + seq![t@]);
            }
        } else {
            proof {
                assert(views(r@) =~= before + Seq::<Seq<char>>::empty());
            }
        }
        i += 1;
    }
    proof {
        assert(lv.take(ls@.len() as int) =~= lv);
    }
    r
}

/// What duplication measures of a Java source never holds a blank line or
/// a lone `{` or `}`: each kept line is the trimmed, non-blank text of a
/// line and no brace alone.
pub proof fn lemma_java_duplication_lines_clean(source: Seq<char>)
    ensures
        forall|k: int|
            0 <= k < java_duplication_lines(source).len() ==> {
                let l = #[trigger] java_duplication_lines(source)[k];
                &&& l.len() > 0
                &&& l != seq!['{']
                &&& l != seq!['}']
            },
{
    lemma_kept_java_lines_clean(text_lines(keep_lines_from(LexState::Code, unify_newlines(source))));
}

proof fn lemma_kept_java_lines_clean(ls: Seq<Seq<char>>)
    ensures
        forall|k: int|
            0 <= k < kept_java_lines(ls).len() ==> {
                let l = #[trigger] kept_java_lines(ls)[k];
                &&& l.len() > 0
                &&& l != seq!['{']
                &&& l != seq!['}']
            },
    decreases ls.len(),
{
    if ls.len() > 0 {
        lemma_kept_java_lines_clean(ls.drop_last());
        let prev = kept_java_lines(ls.drop_last());
        let t = trim(ls.last());
        assert forall|k: int| 0 <= k < kept_java_lines(ls).len() implies {
            let l = #[trigger] kept_java_lines(ls)[k];
            &&& l.len() > 0
            &&& l != seq!['{']
            &&& l != seq!['}']
        } by {
            if k < prev.len() {
                assert(kept_java_lines(ls)[k] == prev[k]);
            } else {
                assert(kept_java_lines(ls)[k] == t);
            }
        }
    }
}

/// The trimmed non-blank lines, in order.
pub open spec fn trimmed_nonblank(ls: Seq<Seq<char>>) -> Seq<Seq<char>>
    decreases ls.len(),
{
    if ls.len() == 0 {
        Seq::empty()
    } else {
        let t = trim(ls.last());
        trimmed_nonblank(ls.drop_last()) + if t.len() == 0 {
            Seq::empty()
        } else {
            seq![t]
        }
    }
}

/// The lines of a file that duplication is measured on: for Java files the
/// cleaned Java lines of its text, otherwise its trimmed non-blank lines.
pub open spec fn duplication_lines(c: FileContext) -> Seq<Seq<char>> {
    if c.file.extension@ == "java"@ {
        java_duplication_lines(join(views(c.lines@), seq!['\n']))
    } else {
        trimmed_nonblank(views(c.lines@))
    }
}

/// The lines of `lines` joined by line breaks.
pub(crate) fn join_lines(lines: &Vec<String>) -> (r: String)
    ensures
        r@ == join(views(lines@), seq!['\n']),
{
    let mut r = String::new();
    let mut i: usize = 0;
    while i < lines.len()
        invariant
            i <= lines@.len(),
            r@ == join(views(lines@.take(i as int)), seq!['\n']),
        decreases lines@.len() - i,
    {
        proof {
            assert(views(lines@.take(i + 1)).drop_last() =~= views(lines@.take(i as int)));
            assert(views(lines@.take(i + 1)).last() == lines@[i as int]@);
        }
        if i > 0 {
            push_char(&mut r, '\n');
        }
        push_str(&mut r, lines[i].as_str());
        proof {
            if i == 0 {
                assert(views(lines@.take(1)).len() == 1);
                assert(r@ =~= views(lines@.take(1))[0]);
            } else {
                assert(r@ =~= join(views(lines@.take(i as int)), seq!['\n']) + seq!['\n'] + lines@[i as int]@);
            }
        }
        i += 1;
    }
    proof {
        assert(lines@.take(lines@.len() as int) =~= lines@);
    }
    r
}

/// The lines of a file that duplication is measured on.
pub fn cleaned_lines_for_duplication(context: &FileContext) -> (r: Vec<String>)
    ensures
        views(r@) == duplication_lines(*context),
{
    if str_eq(context.file.extension.as_str(), "java") {
        let text = join_lines(&context.lines);
        return cleaned_java_lines_for_duplication(text.as_str());
    }
    let ghost lv = views(context.lines@);
    let mut r: Vec<String> = Vec::new();
    let mut i: usize = 0;
    while i < context.lines.len()
        invariant
            i <= context.lines@.len(),
            lv == views(context.lines@),
            views(r@) == trimmed_nonblank(lv.take(i as int)),
        decreases context.lines@.len() - i,
    {
        proof {
            assert(lv.take(i + 1).drop_last() =~= lv.take(i as int));
            assert(lv.take(i + 1).last() == context.lines@[i as int]@);
        }
        let t = trimmed(context.lines[i].as_str());
        let ghost before = views(r@);
        let tc = chars_of(t.as_str());
        if tc.len() > 0 {
            r.push(t);
            proof {
                assert(views(r@) =~= before + seq![t@]);
            }
        } else {
            proof {
                assert(views(r@) =~= before + Seq::<Seq<char>>::empty());
            }
        }
        i += 1;
    }
    proof {
        assert(lv.take(context.lines@.len() as int) =~= lv);
    }
    r
}

// ---------------------------------------------------------------------------
// Duplication results
// ---------------------------------------------------------------------------

/// Duplication measures of a scope, component or extension.
#[derive(Debug, Clone, PartialEq, Eq)]
pub struct DuplicationMetric {
    pub key: String,
    pub number_of_duplicates: usize,
    pub cleaned_lines_of_code: usize,
    pub duplicated_lines_of_code: usize,
    pub number_of_files_with_duplicates: usize,
}

/// A duplication measure.
pub fn duplication_metric(
    key: &str,
    number_of_duplicates: usize,
    cleaned_lines_of_code: usize,
    duplicated_lines_of_code: usize,
    number_of_files_with_duplicates: usize,
) -> (r: DuplicationMetric)
    ensures
        r.key@ == key@,
        r.number_of_duplicates == number_of_duplicates,
        r.cleaned_lines_of_code == cleaned_lines_of_code,
        r.duplicated_lines_of_code == duplicated_lines_of_code,
        r.number_of_files_with_duplicates == number_of_files_with_duplicates,
{
    DuplicationMetric {
        key: key.to_owned(),
        number_of_duplicates,
        cleaned_lines_of_code,
        duplicated_lines_of_code,
        number_of_files_with_duplicates,
    }
}

/// The duplication analysis: overall and per component of each
/// decomposition.
#[derive(Debug, Clone, PartialEq, Eq)]
pub struct DuplicationAnalysisResultsExport {
    pub overall_duplication: DuplicationMetric,
    pub duplication_per_component: Vec<Vec<DuplicationMetric>>,
}

/// Summed number of measured lines of the files (those with a context).
pub open spec fn cleaned_total(fs: Seq<FileRecordView>, contexts: Seq<FileContext>) -> nat
    decreases fs.len(),
{
    if fs.len() == 0 {
        0
    } else {
        cleaned_total(fs.drop_last(), contexts) + match context_of(contexts, fs.last().relative_path) {
            Some(c) => duplication_lines(c).len(),
            None => 0,
        }
    }
}

fn cleaned_lines_total(files: &Vec<FileRecord>, contexts: &Vec<FileContext>) -> (n: usize)
    requires
        contexts_wf(contexts@),
    ensures
        n == capped(cleaned_total(record_views(files@), contexts@)),
{
    let ghost fs = record_views(files@);
    let mut n: usize = 0;
    let mut i: usize = 0;
    while i < files.len()
        invariant
            i <= files@.len(),
            fs == record_views(files@),
            contexts_wf(contexts@),
            n == capped(cleaned_total(fs.take(i as int), contexts@)),
        decreases files@.len() - i,
    {
        proof {
            assert(fs.take(i + 1).drop_last() =~= fs.take(i as int));
            assert(fs.take(i + 1).last() == files@[i as int]@);
        }
        match find_context(contexts, files[i].relative_path.as_str()) {
            Some(pos) => {
                let lines = cleaned_lines_for_duplication(&contexts[pos]);
                n = n.saturating_add(lines.len());
            },
            None => {},
        }
        i += 1;
    }
    proof {
        assert(fs.take(files@.len() as int) =~= fs);
    }
    n
}

/// `m` measures `key` with `cleaned` lines and nothing duplicated.
pub open spec fn plain_metric(m: DuplicationMetric, key: Seq<char>, cleaned: nat) -> bool {
    &&& m.key@ == key
    &&& m.number_of_duplicates == 0
    &&& m.cleaned_lines_of_code == cleaned
    &&& m.duplicated_lines_of_code == 0
    &&& m.number_of_files_with_duplicates == 0
}

/// Duplication is skipped when configured so or when the main code exceeds
/// the configured size.
pub open spec fn duplication_skipped(config: SokratesConfig, main_lines_of_code: nat) -> bool {
    config.analysis.skip_duplication || main_lines_of_code > config.analysis.loc_duplication_threshold
}

/// The duplication analysis of the main files: the measured lines overall
/// and per component of each decomposition (nothing is found duplicated);
/// when skipped, zero lines overall and no components.
pub fn build_duplication_analysis_results(
    files: &Vec<FileRecord>,
    contexts: &Vec<FileContext>,
    scopes: &ScopeFiles,
    config: &SokratesConfig,
    logical_decompositions: &Vec<LogicalDecompositionExport>,
    main_lines_of_code: usize,
) -> (r: DuplicationAnalysisResultsExport)
    requires
        contexts_wf(contexts@),
        scopes.wf(),
    ensures
        duplication_skipped(*config, main_lines_of_code as nat) ==> plain_metric(r.overall_duplication, "system"@, 0)
            && r.duplication_per_component@.len() == 0,
        !duplication_skipped(*config, main_lines_of_code as nat) ==> {
            let main = selected_records(files@, contexts@, scopes.main);
            &&& plain_metric(r.overall_duplication, "system"@, capped(cleaned_total(main, contexts@)))
            &&& r.duplication_per_component@.len() == logical_decompositions@.len()
            &&& forall|k: int|
                0 <= k < logical_decompositions@.len() ==> {
                    let d = logical_decompositions@[k];
                    &&& (#[trigger] r.duplication_per_component@[k])@.len() == d.components@.len()
                    &&& forall|c: int|
                        0 <= c < d.components@.len() ==> plain_metric(
                            #[trigger] r.duplication_per_component@[k]@[c],
                            d.components@[c].name@,
                            capped(cleaned_total(files_in_component(main, d.key@, d.components@[c].name@), contexts@)),
                        )
                }
        },
{
    if config.analysis.skip_duplication || main_lines_of_code > config.analysis.loc_duplication_threshold {
        return DuplicationAnalysisResultsExport {
            overall_duplication: duplication_metric("system", 0, 0, 0, 0),
            duplication_per_component: Vec::new(),
        };
    }
    let main_files = selected_file_records(files, contexts, &scopes.main);
    let ghost main = record_views(main_files@);
    let total = cleaned_lines_total(&main_files, contexts);
    let mut per_component: Vec<Vec<DuplicationMetric>> = Vec::new();
    let mut k: usize = 0;
    while k < logical_decompositions.len()
        invariant
            k <= logical_decompositions@.len(),
            main == record_views(main_files@),
            contexts_wf(contexts@),
            per_component@.len() == k,
            forall|m: int|
                0 <= m < k ==> {
                    let d = logical_decompositions@[m];
                    &&& (#[trigger] per_component@[m])@.len() == d.components@.len()
                    &&& forall|c: int|
                        0 <= c < d.components@.len() ==> plain_metric(
                            #[trigger] per_component@[m]@[c],
                            d.components@[c].name@,
                            capped(cleaned_total(files_in_component(main, d.key@, d.components@[c].name@), contexts@)),
                        )
                },
        decreases logical_decompositions@.len() - k,
    {
        let d = &logical_decompositions[k];
        let mut metrics: Vec<DuplicationMetric> = Vec::new();
        let mut c: usize = 0;
        while c < d.components.len()
            invariant
                c <= d.components@.len(),
                main == record_views(main_files@),
                contexts_wf(contexts@),
                metrics@.len() == c,
                forall|m: int|
                    0 <= m < c ==> plain_metric(
                        #[trigger] metrics@[m],
                        d.components@[m].name@,
                        capped(cleaned_total(files_in_component(main, d.key@, d.components@[m].name@), contexts@)),
                    ),
            decreases d.components@.len() - c,
        {
            let name = d.components[c].name.as_str();
            let mut selected: Vec<FileRecord> = Vec::new();
            let mut j: usize = 0;
            while j < main_files.len()
                invariant
                    j <= main_files@.len(),
                    main == record_views(main_files@),
                    record_views(selected@) == files_in_component(main.take(j as int), d.key@, name@),
                decreases main_files@.len() - j,
            {
                proof {
                    assert(main.take(j + 1).drop_last() =~= main.take(j as int));
                    assert(main.take(j + 1).last() == main_files@[j as int]@);
                }
                if crate::export::file_has_component(&main_files[j], d.key.as_str(), name) {
                    let ghost before = record_views(selected@);
                    let f = crate::ir::copy_file_record(&main_files[j]);
                    selected.push(f);
                    proof {
                        assert(record_views(selected@) =~= before.push(f@));
                    }
                }
                j += 1;
            }
            proof {
                assert(main.take(main_files@.len() as int) =~= main);
            }
            let cleaned = cleaned_lines_total(&selected, contexts);
            metrics.push(duplication_metric(name, 0, cleaned, 0, 0));
            c += 1;
        }
        per_component.push(metrics);
        k += 1;
    }
    DuplicationAnalysisResultsExport { overall_duplication: duplication_metric("system", 0, total, 0, 0), duplication_per_component: per_component }
}

} // verus!
