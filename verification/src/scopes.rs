//! Files as the exporter sees them, and their classification into scopes
//! (main, test, generated, build and deployment, other) by configured
//! filters.
use vstd::prelude::*;

use crate::config::{NamedSourceCodeAspectConfig, SokratesConfig, SourceFileFilterConfig};
use crate::ir::{copy_file_record, FileRecord, FileRecordView};
use crate::java::count_nonblank;
use crate::pathset::{str_eq, strictly_sorted, PathSet};
use crate::pattern::{full_match, matches_entire};
use crate::text::{
    all_ws, chars_of, contains_string, is_blank, lemma_text_lt_irreflexive, lemma_text_lt_transitive,
    lemma_text_lt_trichotomy, lines, lines_of, push_char, str_lt, string_of, text_lt, unify_newline_chars,
    unify_newlines, views,
};

verus! {

/// The lines of a text with `\r\n` and `\r` read as line breaks.
pub open spec fn text_lines(content: Seq<char>) -> Seq<Seq<char>> {
    lines(unify_newlines(content))
}

/// The lines of `content`.
pub fn split_lines(content: &str) -> (r: Vec<String>)
    ensures
        views(r@) == text_lines(content@),
{
    let chars = chars_of(content);
    let unified = unify_newline_chars(chars.as_slice());
    let ls = lines_of(unified.as_slice());
    let ghost lv = ls@.map_values(|l: Vec<char>| l@);
    let mut r: Vec<String> = Vec::new();
    let mut i: usize = 0;
    while i < ls.len()
        invariant
            i <= ls@.len(),
            lv == ls@.map_values(|l: Vec<char>| l@),
            views(r@) =~= lv.take(i as int),
        decreases ls@.len() - i,
    {
        let ghost before = r@;
        r.push(string_of(ls[i].as_slice()));
        proof {
            assert(views(r@) =~= views(before).push(lv[i as int]));
        }
        i += 1;
    }
    proof {
        assert(lv.take(ls@.len() as int) =~= lv);
    }
    r
}

/// Number of lines holding something other than whitespace.
pub fn count_non_empty_lines(lines: &Vec<String>) -> (n: usize)
    ensures
        n == count_nonblank(views(lines@)),
{
    let ghost lv = views(lines@);
    let mut n: usize = 0;
    let mut i: usize = 0;
    while i < lines.len()
        invariant
            i <= lines@.len(),
            lv == views(lines@),
            n == count_nonblank(lv.take(i as int)),
            n <= i,
        decreases lines@.len() - i,
    {
        proof {
            assert(lv.take(i + 1).drop_last() =~= lv.take(i as int));
            assert(lv.take(i + 1).last() == lines@[i as int]@);
        }
        let chars = chars_of(lines[i].as_str());
        if !is_blank(chars.as_slice()) {
            n += 1;
        }
        i += 1;
    }
    proof {
        assert(lv.take(lines@.len() as int) =~= lv);
    }
    n
}

/// A file as the exporter sees it: its record, its path on disk and its
/// lines.
#[derive(Debug, Clone)]
pub struct FileContext {
    pub file: FileRecord,
    pub absolute_path: String,
    pub lines: Vec<String>,
}

/// The record of a file whose content is `content`: unchanged, except that
/// a missing line count is filled with the number of non-blank lines.
pub open spec fn context_record(file: FileRecordView, content: Seq<char>) -> FileRecordView {
    if file.lines_of_code == 0 {
        FileRecordView { lines_of_code: count_nonblank(text_lines(content)), ..file }
    } else {
        file
    }
}

/// The context of one file, given its contents.
pub fn file_context(file: &FileRecord, absolute_path: String, content: &str) -> (r: FileContext)
    ensures
        r.file@ == context_record(file@, content@),
        r.absolute_path == absolute_path,
        views(r.lines@) == text_lines(content@),
{
    let lines = split_lines(content);
    let mut export_file = copy_file_record(file);
    if export_file.lines_of_code == 0 {
        export_file.lines_of_code = count_non_empty_lines(&lines);
    }
    FileContext { file: export_file, absolute_path, lines }
}

/// The context paths, in order.
pub open spec fn context_keys(contexts: Seq<FileContext>) -> Seq<Seq<char>> {
    contexts.map_values(|c: FileContext| c.file.relative_path@)
}

/// Contexts keyed by path: strictly increasing paths.
pub open spec fn contexts_wf(contexts: Seq<FileContext>) -> bool {
    strictly_sorted(context_keys(contexts))
}

/// `c` is the context of the file at `m`, the last of the first `upto`
/// files with its path.
pub open spec fn context_source(
    files: Seq<FileRecord>,
    absolute_paths: Seq<String>,
    contents: Seq<String>,
    upto: int,
    c: FileContext,
    m: int,
) -> bool {
    &&& 0 <= m < upto
    &&& c.file@ == context_record(files[m]@, contents[m]@)
    &&& c.absolute_path == absolute_paths[m]
    &&& views(c.lines@) == text_lines(contents[m]@)
    &&& forall|n: int| m < n < upto ==> files[n].relative_path@ != files[m].relative_path@
}

/// `c` is the context of the last of the first `upto` files with its path.
pub open spec fn sourced(
    files: Seq<FileRecord>,
    absolute_paths: Seq<String>,
    contents: Seq<String>,
    upto: int,
    c: FileContext,
) -> bool {
    exists|m: int| context_source(files, absolute_paths, contents, upto, c, m)
}

/// The contexts of the files, one per path in path order (a later file with
/// the same path replaces an earlier one), from their paths on disk and
/// contents.
pub fn build_file_contexts(
    files: &Vec<FileRecord>,
    absolute_paths: &Vec<String>,
    contents: &Vec<String>,
) -> (r: Vec<FileContext>)
    requires
        absolute_paths@.len() == files@.len(),
        contents@.len() == files@.len(),
    ensures
        contexts_wf(r@),
        forall|p: Seq<char>|
            context_keys(r@).contains(p) <==> exists|k: int|
                0 <= k < files@.len() && (#[trigger] files@[k]).relative_path@ == p,
        forall|k: int|
            0 <= k < r@.len() ==> sourced(files@, absolute_paths@, contents@, files@.len() as int, #[trigger] r@[k]),
{
    let mut contexts: Vec<FileContext> = Vec::new();
    let mut i: usize = 0;
    while i < files.len()
        invariant
            i <= files@.len(),
            absolute_paths@.len() == files@.len(),
            contents@.len() == files@.len(),
            contexts_wf(contexts@),
            forall|p: Seq<char>|
                context_keys(contexts@).contains(p) <==> exists|k: int|
                    0 <= k < i && (#[trigger] files@[k]).relative_path@ == p,
            forall|k: int|
                0 <= k < contexts@.len() ==> sourced(files@, absolute_paths@, contents@, i as int, #[trigger] contexts@[k]),
        decreases files@.len() - i,
    {
        let ctx = file_context(&files[i], absolute_paths[i].clone(), contents[i].as_str());
        let key = ctx.file.relative_path.as_str();
        let ghost kb = context_keys(contexts@);
        let ghost cb = contexts@;
        let (pos, found) = context_position(&contexts, key);
        let ghost next: int = i + 1;
        proof {
            assert(ctx.file.relative_path@ == files@[i as int].relative_path@) by {
                assert(ctx.file@.relative_path == files@[i as int]@.relative_path);
            }
            assert(context_source(files@, absolute_paths@, contents@, i + 1, ctx, i as int));
        }
        if found {
            contexts.set(pos, ctx);
            proof {
                assert(context_keys(contexts@) =~= kb);
                assert forall|k: int|
                    0 <= k < contexts@.len() implies sourced(files@, absolute_paths@, contents@, next, #[trigger] contexts@[k]) by {
                    if k == pos {
                        assert(context_source(files@, absolute_paths@, contents@, i + 1, contexts@[k], i as int));
                    } else {
                        assert(contexts@[k] == cb[k]);
                        let m = choose|m: int| context_source(files@, absolute_paths@, contents@, i as int, cb[k], m);
                        assert(kb[k] != key@);
                        assert(files@[m].relative_path@ == kb[k]) by {
                            assert(cb[k].file@.relative_path == context_record(files@[m]@, contents@[m]@).relative_path);
                        }
                        assert(context_source(files@, absolute_paths@, contents@, i + 1, contexts@[k], m));
                    }
                }
                assert forall|p: Seq<char>|
                    context_keys(contexts@).contains(p) <==> exists|k: int|
                        0 <= k < i + 1 && (#[trigger] files@[k]).relative_path@ == p by {
                    if p == key@ {
                        assert(files@[i as int].relative_path@ == p);
                    }
                }
            }
        } else {
            contexts.insert(pos, ctx);
            proof {
                assert(context_keys(contexts@) =~= kb.insert(pos as int, key@));
                assert forall|x: int, y: int|
                    0 <= x < y < context_keys(contexts@).len() implies text_lt(
                    #[trigger] context_keys(contexts@)[x],
                    #[trigger] context_keys(contexts@)[y],
                ) by {
                    if x == pos && y > pos {
                        lemma_text_lt_trichotomy(kb[pos as int], key@);
                        if y - 1 > pos {
                            lemma_text_lt_transitive(key@, kb[pos as int], kb[y - 1]);
                        }
                    }
                }
                assert forall|k: int|
                    0 <= k < contexts@.len() implies sourced(files@, absolute_paths@, contents@, next, #[trigger] contexts@[k]) by {
                    if k == pos {
                        assert(context_source(files@, absolute_paths@, contents@, i + 1, contexts@[k], i as int));
                    } else {
                        let j = if k < pos {
                            k
                        } else {
                            k - 1
                        };
                        assert(contexts@[k] == cb[j]);
                        let m = choose|m: int| context_source(files@, absolute_paths@, contents@, i as int, cb[j], m);
                        assert(kb[j] != key@);
                        assert(files@[m].relative_path@ == kb[j]) by {
                            assert(cb[j].file@.relative_path == context_record(files@[m]@, contents@[m]@).relative_path);
                        }
                        assert(context_source(files@, absolute_paths@, contents@, i + 1, contexts@[k], m));
                    }
                }
                assert forall|p: Seq<char>|
                    context_keys(contexts@).contains(p) <==> exists|k: int|
                        0 <= k < i + 1 && (#[trigger] files@[k]).relative_path@ == p by {
                    if p == key@ {
                        assert(files@[i as int].relative_path@ == p);
                        assert(context_keys(contexts@)[pos as int] == p);
                    } else {
                        if kb.contains(p) {
                            let k = choose|k: int| 0 <= k < kb.len() && kb[k] == p;
                            if k < pos {
                                assert(context_keys(contexts@)[k] == p);
                            } else {
                                assert(context_keys(contexts@)[k + 1] == p);
                            }
                        }
                        if context_keys(contexts@).contains(p) {
                            let k = choose|k: int|
                                0 <= k < context_keys(contexts@).len() && context_keys(contexts@)[k] == p;
                            if k < pos {
                                assert(kb[k] == p);
                            } else if k > pos {
                                assert(kb[k - 1] == p);
                            }
                        }
                    }
                }
            }
        }
        i += 1;
        proof {
            assert forall|k: int|
                0 <= k < contexts@.len() implies sourced(files@, absolute_paths@, contents@, i as int, #[trigger] contexts@[k]) by {
                let m = choose|m: int| context_source(files@, absolute_paths@, contents@, next, contexts@[k], m);
                assert(context_source(files@, absolute_paths@, contents@, i as int, contexts@[k], m));
            }
        }
    }
    proof {
        let len = files@.len() as int;
        assert forall|k: int|
            0 <= k < contexts@.len() implies sourced(files@, absolute_paths@, contents@, len, #[trigger] contexts@[k]) by {
            let m = choose|m: int| context_source(files@, absolute_paths@, contents@, i as int, contexts@[k], m);
            assert(context_source(files@, absolute_paths@, contents@, len, contexts@[k], m));
        }
    }
    contexts
}

/// Position of the first context whose path is not below `key`, and
/// whether it is `key`.
pub fn context_position(contexts: &Vec<FileContext>, key: &str) -> (r: (usize, bool))
    requires
        contexts_wf(contexts@),
    ensures
        r.0 <= contexts@.len(),
        forall|i: int| 0 <= i < r.0 ==> text_lt(#[trigger] context_keys(contexts@)[i], key@),
        r.0 < contexts@.len() ==> !text_lt(context_keys(contexts@)[r.0 as int], key@),
        r.1 <==> (r.0 < contexts@.len() && context_keys(contexts@)[r.0 as int] == key@),
        r.1 <==> context_keys(contexts@).contains(key@),
{
    let ghost names = context_keys(contexts@);
    let mut i: usize = 0;
    while i < contexts.len()
        invariant
            names == context_keys(contexts@),
            strictly_sorted(names),
            i <= names.len(),
            forall|k: int| 0 <= k < i ==> text_lt(#[trigger] names[k], key@),
        decreases names.len() - i,
    {
        if !str_lt(contexts[i].file.relative_path.as_str(), key) {
            let found = str_eq(contexts[i].file.relative_path.as_str(), key);
            proof {
                assert(names[i as int] == contexts@[i as int].file.relative_path@);
                if !found {
                    assert forall|k: int| 0 <= k < names.len() implies names[k] != key@ by {
                        if k < i {
                            lemma_text_lt_irreflexive(key@);
                        } else if k > i {
                            lemma_text_lt_trichotomy(names[i as int], key@);
                            lemma_text_lt_transitive(key@, names[i as int], names[k]);
                            lemma_text_lt_irreflexive(key@);
                        }
                    }
                }
            }
            return (i, found);
        }
        i += 1;
    }
    proof {
        assert forall|k: int| 0 <= k < names.len() implies names[k] != key@ by {
            lemma_text_lt_irreflexive(key@);
        }
    }
    (i, false)
}

// ---------------------------------------------------------------------------
// Filters
// ---------------------------------------------------------------------------

/// `s` with every `from` written as `to`.
pub open spec fn replace_char(s: Seq<char>, from: char, to: char) -> Seq<char> {
    s.map_values(|c: char| if c == from { to } else { c })
}

pub(crate) fn replace_char_in(s: &str, from: char, to: char) -> (r: String)
    ensures
        r@ == replace_char(s@, from, to),
{
    let v = chars_of(s);
    let mut r = String::new();
    let mut i: usize = 0;
    while i < v.len()
        invariant
            i <= v@.len(),
            v@ == s@,
            r@ =~= replace_char(v@.take(i as int), from, to),
        decreases v@.len() - i,
    {
        push_char(&mut r, if v[i] == from { to } else { v[i] });
        i += 1;
    }
    proof {
        assert(v@.take(v@.len() as int) =~= v@);
    }
    r
}

/// A path pattern selects a path: a blank pattern selects every path;
/// otherwise the pattern, with `\` or `/` separators on either side, must
/// match the whole path.
pub open spec fn path_hit(pattern: Seq<char>, path: Seq<char>) -> bool {
    let forward = replace_char(path, '\\', '/');
    let backward = replace_char(path, '/', '\\');
    let pattern_forward = replace_char(pattern, '\\', '/');
    ||| all_ws(pattern)
    ||| full_match(pattern, path)
    ||| full_match(pattern, forward)
    ||| full_match(pattern, backward)
    ||| full_match(pattern_forward, forward)
    ||| full_match(pattern_forward, backward)
}

/// A content pattern selects a file: a blank pattern selects every file;
/// otherwise it must match some line as a whole.
pub open spec fn content_hit(pattern: Seq<char>, lines: Seq<Seq<char>>) -> bool {
    all_ws(pattern) || exists|k: int| 0 <= k < lines.len() && full_match(pattern, #[trigger] lines[k])
}

/// A filter selects a file when both its patterns do.
pub open spec fn filter_hit(f: SourceFileFilterConfig, c: FileContext) -> bool {
    path_hit(f.path_pattern@, c.absolute_path@) && content_hit(f.content_pattern@, views(c.lines@))
}

fn blank(s: &str) -> (b: bool)
    ensures
        b == all_ws(s@),
{
    let v = chars_of(s);
    is_blank(v.as_slice())
}

/// Whether a path pattern selects a path.
pub fn path_matches(pattern: &str, path: &str) -> (b: bool)
    ensures
        b == path_hit(pattern@, path@),
{
    if blank(pattern) {
        return true;
    }
    let forward = replace_char_in(path, '\\', '/');
    let backward = replace_char_in(path, '/', '\\');
    let pattern_forward = replace_char_in(pattern, '\\', '/');
    matches_entire(pattern, path) || matches_entire(pattern, forward.as_str()) || matches_entire(
        pattern,
        backward.as_str(),
    ) || matches_entire(pattern_forward.as_str(), forward.as_str()) || matches_entire(
        pattern_forward.as_str(),
        backward.as_str(),
    )
}

/// Whether a content pattern selects a file with these lines.
pub fn content_matches(pattern: &str, lines: &Vec<String>) -> (b: bool)
    ensures
        b == content_hit(pattern@, views(lines@)),
{
    if blank(pattern) {
        return true;
    }
    let mut i: usize = 0;
    while i < lines.len()
        invariant
            i <= lines@.len(),
            forall|k: int| 0 <= k < i ==> !full_match(pattern@, #[trigger] views(lines@)[k]),
        decreases lines@.len() - i,
    {
        if matches_entire(pattern, lines[i].as_str()) {
            proof {
                assert(full_match(pattern@, views(lines@)[i as int]));
            }
            return true;
        }
        i += 1;
    }
    false
}

/// Whether a filter selects a file.
pub fn filter_matches(filter: &SourceFileFilterConfig, context: &FileContext) -> (b: bool)
    ensures
        b == filter_hit(*filter, *context),
{
    path_matches(filter.path_pattern.as_str(), context.absolute_path.as_str()) && content_matches(
        filter.content_pattern.as_str(),
        &context.lines,
    )
}

/// A file belongs to an aspect when it is listed by path or selected by a
/// filter, and no exception filter selects it.
pub open spec fn in_aspect(aspect: NamedSourceCodeAspectConfig, c: FileContext) -> bool {
    let listed = views(aspect.files@).contains(c.file.relative_path@);
    let selected = exists|k: int|
        0 <= k < aspect.source_file_filters@.len() && !aspect.source_file_filters@[k].exception
            && filter_hit(#[trigger] aspect.source_file_filters@[k], c);
    let excepted = exists|k: int|
        0 <= k < aspect.source_file_filters@.len() && aspect.source_file_filters@[k].exception
            && filter_hit(#[trigger] aspect.source_file_filters@[k], c);
    (listed || selected) && !excepted
}

/// The paths of the files in an aspect.
pub open spec fn aspect_paths(contexts: Seq<FileContext>, aspect: NamedSourceCodeAspectConfig) -> Set<Seq<char>> {
    Set::new(
        |p: Seq<char>|
            exists|k: int|
                0 <= k < contexts.len() && (#[trigger] contexts[k]).file.relative_path@ == p && in_aspect(
                    aspect,
                    contexts[k],
                ),
    )
}

/// Whether a file is in an aspect.
fn belongs_to_aspect(aspect: &NamedSourceCodeAspectConfig, context: &FileContext) -> (b: bool)
    ensures
        b == in_aspect(*aspect, *context),
{
    let mut included = contains_string(&aspect.files, &context.file.relative_path);
    let mut excluded = false;
    let mut k: usize = 0;
    let ghost filters = aspect.source_file_filters@;
    while k < aspect.source_file_filters.len()
        invariant
            k <= filters.len(),
            filters == aspect.source_file_filters@,
            included <==> (views(aspect.files@).contains(context.file.relative_path@) || exists|j: int|
                0 <= j < k && !filters[j].exception && filter_hit(#[trigger] filters[j], *context)),
            excluded <==> exists|j: int|
                0 <= j < k && filters[j].exception && filter_hit(#[trigger] filters[j], *context),
        decreases filters.len() - k,
    {
        let filter = &aspect.source_file_filters[k];
        if filter_matches(filter, context) {
            if filter.exception {
                excluded = true;
            } else {
                included = true;
            }
        }
        k += 1;
    }
    included && !excluded
}

/// The paths of the files in an aspect, in order.
pub fn match_aspect(contexts: &Vec<FileContext>, aspect: &NamedSourceCodeAspectConfig) -> (r: PathSet)
    ensures
        r.wf(),
        r.members().to_set() == aspect_paths(contexts@, *aspect),
{
    let mut matches = PathSet::new();
    let mut i: usize = 0;
    while i < contexts.len()
        invariant
            i <= contexts@.len(),
            matches.wf(),
            matches.members().to_set() == aspect_paths(contexts@.take(i as int), *aspect),
        decreases contexts@.len() - i,
    {
        let ghost before = matches.members().to_set();
        let ghost pre = contexts@.take(i as int);
        let ghost post = contexts@.take(i + 1);
        let hit = belongs_to_aspect(aspect, &contexts[i]);
        if hit {
            matches.insert(contexts[i].file.relative_path.as_str());
        }
        proof {
            assert forall|p: Seq<char>| #[trigger] aspect_paths(post, *aspect).contains(p) <==> matches.members().to_set().contains(p) by {
                if aspect_paths(post, *aspect).contains(p) {
                    let k = choose|k: int|
                        0 <= k < post.len() && (#[trigger] post[k]).file.relative_path@ == p && in_aspect(*aspect, post[k]);
                    if k < i {
                        assert(pre[k] == post[k]);
                        assert(aspect_paths(pre, *aspect).contains(p));
                    }
                }
                if before.contains(p) {
                    let k = choose|k: int|
                        0 <= k < pre.len() && (#[trigger] pre[k]).file.relative_path@ == p && in_aspect(*aspect, pre[k]);
                    assert(post[k] == pre[k]);
                }
                if hit && p == contexts@[i as int].file.relative_path@ {
                    assert(post[i as int] == contexts@[i as int]);
                }
            }
            assert(aspect_paths(post, *aspect) =~= matches.members().to_set());
        }
        i += 1;
    }
    proof {
        assert(contexts@.take(contexts@.len() as int) =~= contexts@);
    }
    matches
}

/// Removes from `target` every member of `removed`.
pub fn remove_paths(target: &mut PathSet, removed: &PathSet)
    requires
        old(target).wf(),
    ensures
        final(target).wf(),
        final(target).members().to_set() == old(target).members().to_set().difference(
            removed.members().to_set(),
        ),
{
    let mut i: usize = 0;
    while i < removed.items.len()
        invariant
            i <= removed.members().len(),
            target.wf(),
            target.members().to_set() == old(target).members().to_set().difference(
                removed.members().take(i as int).to_set(),
            ),
        decreases removed.members().len() - i,
    {
        let ghost before = target.members().to_set();
        target.remove(removed.items[i].as_str());
        proof {
            assert(removed.members()[i as int] == removed.items@[i as int]@);
            assert(removed.members().take(i + 1).to_set() =~= removed.members().take(i as int).to_set().insert(
                removed.members()[i as int],
            )) by {
                assert(removed.members().take(i + 1) =~= removed.members().take(i as int).push(removed.members()[i as int]));
                removed.members().take(i as int).lemma_push_to_set_commute(removed.members()[i as int]);
            }
            assert(target.members().to_set() =~= old(target).members().to_set().difference(
                removed.members().take(i + 1).to_set(),
            ));
        }
        i += 1;
    }
    proof {
        assert(removed.members().take(removed.members().len() as int) =~= removed.members());
    }
}


// ---------------------------------------------------------------------------
// Scopes
// ---------------------------------------------------------------------------

/// The files of each scope. A file is in at most one of main, test and
/// build-and-deployment, and none of these shares a file with generated or
/// other.
#[derive(Debug, Clone, Default)]
pub struct ScopeFiles {
    pub main: PathSet,
    pub test: PathSet,
    pub generated: PathSet,
    pub build_and_deployment: PathSet,
    pub other: PathSet,
}

impl ScopeFiles {
    pub open spec fn wf(&self) -> bool {
        &&& self.main.wf()
        &&& self.test.wf()
        &&& self.generated.wf()
        &&& self.build_and_deployment.wf()
        &&& self.other.wf()
    }
}

/// Why a classification was refused.
#[derive(Debug, Clone, PartialEq, Eq)]
pub enum ScopeError {
    /// A scope holds a path that no analysed file has.
    UnknownScopePath { path: String },
}

/// Generated files: those the generated aspect selects.
pub open spec fn generated_scope(contexts: Seq<FileContext>, config: SokratesConfig) -> Set<Seq<char>> {
    aspect_paths(contexts, config.generated)
}

/// Other files: those the other aspect selects.
pub open spec fn other_scope(contexts: Seq<FileContext>, config: SokratesConfig) -> Set<Seq<char>> {
    aspect_paths(contexts, config.other)
}

/// Test files: selected by the test aspect, and neither other nor generated.
pub open spec fn test_scope(contexts: Seq<FileContext>, config: SokratesConfig) -> Set<Seq<char>> {
    aspect_paths(contexts, config.test).difference(other_scope(contexts, config)).difference(
        generated_scope(contexts, config),
    )
}

/// Build and deployment files: selected by their aspect, and neither other,
/// generated nor selected by the test aspect.
pub open spec fn build_scope(contexts: Seq<FileContext>, config: SokratesConfig) -> Set<Seq<char>> {
    aspect_paths(contexts, config.build_and_deployment).difference(other_scope(contexts, config)).difference(
        generated_scope(contexts, config),
    ).difference(test_scope(contexts, config))
}

/// Main files: selected by the main aspect and by none of the others.
pub open spec fn main_scope(contexts: Seq<FileContext>, config: SokratesConfig) -> Set<Seq<char>> {
    aspect_paths(contexts, config.main).difference(aspect_paths(contexts, config.test)).difference(
        generated_scope(contexts, config),
    ).difference(aspect_paths(contexts, config.build_and_deployment)).difference(other_scope(contexts, config))
}

/// A file that an exception filter of an aspect selects is never among the
/// aspect's paths, whatever its other filters or listed files say; in
/// particular it is never a main file when the main aspect excepts it.
pub proof fn lemma_exception_excludes(
    contexts: Seq<FileContext>,
    config: SokratesConfig,
    aspect: NamedSourceCodeAspectConfig,
    i: int,
    k: int,
)
    requires
        contexts_wf(contexts),
        0 <= i < contexts.len(),
        0 <= k < aspect.source_file_filters@.len(),
        aspect.source_file_filters@[k].exception,
        filter_hit(aspect.source_file_filters@[k], contexts[i]),
    ensures
        !aspect_paths(contexts, aspect).contains(contexts[i].file.relative_path@),
        aspect == config.main ==> !main_scope(contexts, config).contains(contexts[i].file.relative_path@),
{
    let p = contexts[i].file.relative_path@;
    if aspect_paths(contexts, aspect).contains(p) {
        let j = choose|j: int|
            0 <= j < contexts.len() && (#[trigger] contexts[j]).file.relative_path@ == p && in_aspect(aspect, contexts[j]);
        let keys = context_keys(contexts);
        assert(keys[i] == p && keys[j] == p);
        if i < j {
            assert(text_lt(keys[i], keys[j]));
        } else if j < i {
            assert(text_lt(keys[j], keys[i]));
        }
        lemma_text_lt_irreflexive(p);
        assert(i == j);
        assert(!in_aspect(aspect, contexts[i]));
    }
}

/// The scopes do not overlap: main, test, and build and deployment files
/// share no path with each other or with the generated and other files.
/// (A path that both the generated and the other aspect select stays in
/// both of those scopes.)
pub proof fn lemma_scopes_disjoint(contexts: Seq<FileContext>, config: SokratesConfig)
    ensures
        main_scope(contexts, config).disjoint(test_scope(contexts, config)),
        main_scope(contexts, config).disjoint(generated_scope(contexts, config)),
        main_scope(contexts, config).disjoint(build_scope(contexts, config)),
        main_scope(contexts, config).disjoint(other_scope(contexts, config)),
        test_scope(contexts, config).disjoint(generated_scope(contexts, config)),
        test_scope(contexts, config).disjoint(build_scope(contexts, config)),
        test_scope(contexts, config).disjoint(other_scope(contexts, config)),
        build_scope(contexts, config).disjoint(generated_scope(contexts, config)),
        build_scope(contexts, config).disjoint(other_scope(contexts, config)),
{
}

/// Every path that some aspect selects lands in some scope, and no scope
/// holds a path that no aspect selects.
pub proof fn lemma_scopes_cover(contexts: Seq<FileContext>, config: SokratesConfig)
    ensures
        main_scope(contexts, config) + test_scope(contexts, config) + generated_scope(contexts, config)
            + build_scope(contexts, config) + other_scope(contexts, config) == aspect_paths(contexts, config.main)
            + aspect_paths(contexts, config.test) + aspect_paths(contexts, config.generated) + aspect_paths(
            contexts,
            config.build_and_deployment,
        ) + aspect_paths(contexts, config.other),
{
    assert(main_scope(contexts, config) + test_scope(contexts, config) + generated_scope(contexts, config)
        + build_scope(contexts, config) + other_scope(contexts, config) =~= aspect_paths(contexts, config.main)
        + aspect_paths(contexts, config.test) + aspect_paths(contexts, config.generated) + aspect_paths(
        contexts,
        config.build_and_deployment,
    ) + aspect_paths(contexts, config.other));
}

/// The paths of the analysed files.
pub open spec fn known_paths(files: Seq<FileRecord>) -> Set<Seq<char>> {
    Set::new(|p: Seq<char>| exists|k: int| 0 <= k < files.len() && (#[trigger] files[k]).relative_path@ == p)
}

/// The five scopes hold only analysed files.
pub open spec fn scopes_known(contexts: Seq<FileContext>, config: SokratesConfig, files: Seq<FileRecord>) -> bool {
    &&& main_scope(contexts, config).subset_of(known_paths(files))
    &&& test_scope(contexts, config).subset_of(known_paths(files))
    &&& generated_scope(contexts, config).subset_of(known_paths(files))
    &&& build_scope(contexts, config).subset_of(known_paths(files))
    &&& other_scope(contexts, config).subset_of(known_paths(files))
}

/// Whether some file has path `p`.
fn is_known_path(files: &Vec<FileRecord>, p: &str) -> (b: bool)
    ensures
        b == known_paths(files@).contains(p@),
{
    let mut i: usize = 0;
    while i < files.len()
        invariant
            i <= files@.len(),
            forall|k: int| 0 <= k < i ==> (#[trigger] files@[k]).relative_path@ != p@,
        decreases files@.len() - i,
    {
        if str_eq(files[i].relative_path.as_str(), p) {
            return true;
        }
        i += 1;
    }
    false
}

/// `p` is the first path of `s`, in text order, that no analysed file has.
pub open spec fn least_unknown(s: Set<Seq<char>>, known: Set<Seq<char>>, p: Seq<char>) -> bool {
    &&& s.contains(p)
    &&& !known.contains(p)
    &&& forall|q: Seq<char>| #[trigger] s.contains(q) && !known.contains(q) ==> !text_lt(q, p)
}

/// The path that a refusal names: the first unknown path of the first
/// scope, in the order main, test, generated, build and deployment, other,
/// that holds one.
pub open spec fn refused_path(contexts: Seq<FileContext>, config: SokratesConfig, files: Seq<FileRecord>, p: Seq<char>) -> bool {
    let known = known_paths(files);
    if !main_scope(contexts, config).subset_of(known) {
        least_unknown(main_scope(contexts, config), known, p)
    } else if !test_scope(contexts, config).subset_of(known) {
        least_unknown(test_scope(contexts, config), known, p)
    } else if !generated_scope(contexts, config).subset_of(known) {
        least_unknown(generated_scope(contexts, config), known, p)
    } else if !build_scope(contexts, config).subset_of(known) {
        least_unknown(build_scope(contexts, config), known, p)
    } else {
        least_unknown(other_scope(contexts, config), known, p)
    }
}

/// The first member of `set` that no file has as its path.
fn first_unknown(set: &PathSet, files: &Vec<FileRecord>) -> (r: Option<String>)
    requires
        set.wf(),
    ensures
        r is None <==> set.members().to_set().subset_of(known_paths(files@)),
        r matches Some(p) ==> least_unknown(set.members().to_set(), known_paths(files@), p@),
{
    let mut i: usize = 0;
    while i < set.items.len()
        invariant
            set.wf(),
            i <= set.members().len(),
            forall|k: int| 0 <= k < i ==> known_paths(files@).contains(#[trigger] set.members()[k]),
        decreases set.members().len() - i,
    {
        if !is_known_path(files, set.items[i].as_str()) {
            let ghost p = set.members()[i as int];
            proof {
                assert(set.members()[i as int] == set.items@[i as int]@);
                assert(set.members().to_set().contains(p));
                assert forall|q: Seq<char>|
                    #[trigger] set.members().to_set().contains(q) && !known_paths(files@).contains(q) implies !text_lt(
                    q,
                    p,
                ) by {
                    let j = choose|j: int| 0 <= j < set.members().len() && set.members()[j] == q;
                    if j != i {
                        assert(j > i);
                        lemma_text_lt_trichotomy(p, q);
                        assert(text_lt(set.members()[i as int], set.members()[j]));
                    } else {
                        lemma_text_lt_irreflexive(p);
                    }
                }
            }
            return Some(set.items[i].clone());
        }
        i += 1;
    }
    proof {
        assert forall|p: Seq<char>| set.members().to_set().contains(p) implies known_paths(files@).contains(p) by {
            let k = choose|k: int| 0 <= k < set.members().len() && set.members()[k] == p;
        }
    }
    None
}

/// Classifies the files into scopes by the configured aspects. A path
/// selected by several aspects is kept in one scope only: other and
/// generated win over test, test over build and deployment, and every other
/// aspect over main. Refused when a scope holds a path that no analysed file
/// has, naming the first such path of the first such scope.
pub fn classify_scopes(contexts: &Vec<FileContext>, files: &Vec<FileRecord>, config: &SokratesConfig) -> (r:
    Result<ScopeFiles, ScopeError>)
    ensures
        r is Ok <==> scopes_known(contexts@, *config, files@),
        r matches Ok(s) ==> {
            &&& s.wf()
            &&& s.main.members().to_set() == main_scope(contexts@, *config)
            &&& s.test.members().to_set() == test_scope(contexts@, *config)
            &&& s.generated.members().to_set() == generated_scope(contexts@, *config)
            &&& s.build_and_deployment.members().to_set() == build_scope(contexts@, *config)
            &&& s.other.members().to_set() == other_scope(contexts@, *config)
        },
        r matches Err(ScopeError::UnknownScopePath { path }) ==> refused_path(contexts@, *config, files@, path@),
{
    let mut main = match_aspect(contexts, &config.main);
    let mut test = match_aspect(contexts, &config.test);
    let generated = match_aspect(contexts, &config.generated);
    let mut build = match_aspect(contexts, &config.build_and_deployment);
    let other = match_aspect(contexts, &config.other);
    let ghost test_aspect = test.members().to_set();
    let ghost build_aspect = build.members().to_set();
    remove_paths(&mut main, &test);
    remove_paths(&mut main, &generated);
    remove_paths(&mut main, &build);
    remove_paths(&mut main, &other);
    remove_paths(&mut build, &other);
    remove_paths(&mut build, &generated);
    remove_paths(&mut build, &test);
    remove_paths(&mut test, &other);
    remove_paths(&mut test, &generated);
    proof {
        assert(build.members().to_set() =~= build_aspect.difference(other_scope(contexts@, *config)).difference(
            generated_scope(contexts@, *config)).difference(test_aspect));
        assert(build.members().to_set() =~= build_scope(contexts@, *config));
    }
    let scopes = ScopeFiles { main, test, generated, build_and_deployment: build, other };
    match first_unknown(&scopes.main, files) {
        Some(path) => { return Err(ScopeError::UnknownScopePath { path }); },
        None => {},
    }
    match first_unknown(&scopes.test, files) {
        Some(path) => { return Err(ScopeError::UnknownScopePath { path }); },
        None => {},
    }
    match first_unknown(&scopes.generated, files) {
        Some(path) => { return Err(ScopeError::UnknownScopePath { path }); },
        None => {},
    }
    match first_unknown(&scopes.build_and_deployment, files) {
        Some(path) => { return Err(ScopeError::UnknownScopePath { path }); },
        None => {},
    }
    match first_unknown(&scopes.other, files) {
        Some(path) => { return Err(ScopeError::UnknownScopePath { path }); },
        None => {},
    }
    Ok(scopes)
}

/// The scope a logical decomposition is computed over, by its name; main
/// for any name but `test`, `generated`, `buildAndDeployment` and `other`.
pub open spec fn named_scope(scopes: ScopeFiles, scope: Seq<char>) -> PathSet {
    if scope == "test"@ {
        scopes.test
    } else if scope == "generated"@ {
        scopes.generated
    } else if scope == "buildAndDeployment"@ {
        scopes.build_and_deployment
    } else if scope == "other"@ {
        scopes.other
    } else {
        scopes.main
    }
}

/// The files of the scope named `scope`.
pub fn scope_paths<'a>(scopes: &'a ScopeFiles, scope: &str) -> (r: &'a PathSet)
    ensures
        *r == named_scope(*scopes, scope@),
{
    if str_eq(scope, "test") {
        &scopes.test
    } else if str_eq(scope, "generated") {
        &scopes.generated
    } else if str_eq(scope, "buildAndDeployment") {
        &scopes.build_and_deployment
    } else if str_eq(scope, "other") {
        &scopes.other
    } else {
        &scopes.main
    }
}

} // verus!
