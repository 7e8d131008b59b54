//! Tag rules: which files a rule tags, and the evidence a found tag lists.
use vstd::prelude::*;

use crate::config::TagRuleConfig;
use crate::duplication::join_lines;
use crate::ir::{record_views, FileRecord, FileRecordView};
use crate::java::join;
use crate::pattern::{full_match, matches_entire};
use crate::text::{
    copy_string, copy_strings, decimal, lemma_text_lt_transitive, lemma_text_lt_trichotomy, push_decimal, push_str, str_lt,
    text_lt, views,
};

verus! {

/// How many tagged paths the evidence of a tag lists before it only counts
/// the rest.
pub const TAG_EVIDENCE_LIMIT: usize = 20;

/// Whether some pattern of `patterns` matches all of `path`.
pub open spec fn any_full_match(patterns: Seq<Seq<char>>, path: Seq<char>) -> bool
    decreases patterns.len(),
{
    patterns.len() > 0 && (any_full_match(patterns.drop_last(), path) || full_match(patterns.last(), path))
}

/// Whether a rule with these path patterns and exclusion patterns tags
/// `path`: some path pattern matches it and no exclusion pattern does.
pub open spec fn tags_path(includes: Seq<Seq<char>>, excludes: Seq<Seq<char>>, path: Seq<char>) -> bool {
    any_full_match(includes, path) && !any_full_match(excludes, path)
}

/// The path patterns of a rule, as text.
pub open spec fn rule_includes(rule: TagRuleConfig) -> Seq<Seq<char>> {
    views(rule.path_patterns@)
}

/// The exclusion patterns of a rule, as text.
pub open spec fn rule_excludes(rule: TagRuleConfig) -> Seq<Seq<char>> {
    views(rule.exclude_path_patterns@)
}

/// Whether some pattern matches all of `path`.
fn matches_any(patterns: &Vec<String>, path: &str) -> (b: bool)
    ensures
        b == any_full_match(views(patterns@), path@),
{
    let ghost ps = views(patterns@);
    let mut found = false;
    let mut i: usize = 0;
    while i < patterns.len()
        invariant
            i <= patterns@.len(),
            ps == views(patterns@),
            found == any_full_match(ps.take(i as int), path@),
        decreases patterns@.len() - i,
    {
        proof {
            assert(ps.take(i + 1).drop_last() =~= ps.take(i as int));
            assert(ps.take(i + 1).last() == patterns@[i as int]@);
        }
        if !found && matches_entire(patterns[i].as_str(), path) {
            found = true;
        }
        i += 1;
    }
    proof {
        assert(ps.take(patterns@.len() as int) =~= ps);
    }
    found
}

/// Whether `tag_rule` tags the file at `path`.
pub fn tag_rule_matches_path(tag_rule: &TagRuleConfig, path: &str) -> (b: bool)
    ensures
        b == tags_path(rule_includes(*tag_rule), rule_excludes(*tag_rule), path@),
{
    matches_any(&tag_rule.path_patterns, path) && !matches_any(&tag_rule.exclude_path_patterns, path)
}

/// The paths of the files that a rule tags, in file order.
pub open spec fn tagged_paths(fs: Seq<FileRecordView>, includes: Seq<Seq<char>>, excludes: Seq<Seq<char>>) -> Seq<
    Seq<char>,
>
    decreases fs.len(),
{
    if fs.len() == 0 {
        Seq::empty()
    } else {
        let rest = tagged_paths(fs.drop_last(), includes, excludes);
        if tags_path(includes, excludes, fs.last().relative_path) {
            rest.push(fs.last().relative_path)
        } else {
            rest
        }
    }
}

/// `sorted` with `p` placed after every text that does not order after it.
pub open spec fn insert_text(sorted: Seq<Seq<char>>, p: Seq<char>) -> Seq<Seq<char>>
    decreases sorted.len(),
{
    if sorted.len() == 0 {
        seq![p]
    } else if text_lt(p, sorted.last()) {
        insert_text(sorted.drop_last(), p).push(sorted.last())
    } else {
        sorted.push(p)
    }
}

/// The texts in ascending order.
pub open spec fn sorted_texts(ps: Seq<Seq<char>>) -> Seq<Seq<char>>
    decreases ps.len(),
{
    if ps.len() == 0 {
        ps
    } else {
        insert_text(sorted_texts(ps.drop_last()), ps.last())
    }
}

proof fn lemma_insert_text_at(sorted: Seq<Seq<char>>, p: Seq<char>, pos: int)
    requires
        0 <= pos <= sorted.len(),
        forall|k: int| pos <= k < sorted.len() ==> text_lt(p, #[trigger] sorted[k]),
        pos > 0 ==> !text_lt(p, sorted[pos - 1]),
    ensures
        insert_text(sorted, p) == sorted.take(pos).push(p) + sorted.skip(pos),
    decreases sorted.len(),
{
    if sorted.len() == 0 {
        assert(sorted.take(pos).push(p) + sorted.skip(pos) =~= seq![p]);
    } else if pos == sorted.len() {
        assert(sorted.take(pos).push(p) + sorted.skip(pos) =~= sorted.push(p));
    } else {
        lemma_insert_text_at(sorted.drop_last(), p, pos);
        assert(sorted.drop_last().take(pos).push(p) + sorted.drop_last().skip(pos) + seq![sorted.last()]
            =~= sorted.take(pos).push(p) + sorted.skip(pos));
    }
}

/// Each text orders no earlier than the ones before it.
pub open spec fn ascending(s: Seq<Seq<char>>) -> bool {
    forall|i: int, j: int| 0 <= i < j < s.len() ==> !text_lt(#[trigger] s[j], #[trigger] s[i])
}

proof fn lemma_insert_text(sorted: Seq<Seq<char>>, p: Seq<char>)
    requires
        ascending(sorted),
    ensures
        ascending(insert_text(sorted, p)),
        insert_text(sorted, p).to_multiset() == sorted.to_multiset().insert(p),
    decreases sorted.len(),
{
    broadcast use vstd::seq_lib::group_to_multiset_ensures;

    if sorted.len() == 0 {
        assert(seq![p] =~= Seq::<Seq<char>>::empty().push(p));
    } else {
        let rest = sorted.drop_last();
        let last = sorted.last();
        assert(sorted =~= rest.push(last));
        if text_lt(p, last) {
            lemma_insert_text(rest, p);
            let ins = insert_text(rest, p);
            assert forall|i: int, j: int| 0 <= i < j < ins.push(last).len() implies !text_lt(
                #[trigger] ins.push(last)[j],
                #[trigger] ins.push(last)[i],
            ) by {
                if j == ins.len() {
                    let x = ins[i];
                    assert(ins.contains(x));
                    assert(ins.to_multiset().count(x) > 0);
                    if x == p {
                        lemma_text_lt_trichotomy(p, last);
                    } else {
                        assert(rest.to_multiset().count(x) > 0);
                        assert(rest.contains(x));
                        let k = choose|k: int| 0 <= k < rest.len() && rest[k] == x;
                        assert(sorted[k] == x);
                        assert(sorted[sorted.len() - 1] == last);
                    }
                } else {
                    assert(ins.push(last)[i] == ins[i]);
                    assert(ins.push(last)[j] == ins[j]);
                }
            }
        } else {
            assert forall|i: int, j: int| 0 <= i < j < sorted.push(p).len() implies !text_lt(
                #[trigger] sorted.push(p)[j],
                #[trigger] sorted.push(p)[i],
            ) by {
                if j == sorted.len() {
                    let x = sorted[i];
                    if i < sorted.len() - 1 {
                        assert(!text_lt(sorted[sorted.len() - 1], sorted[i]));
                    }
                    lemma_text_lt_trichotomy(last, x);
                    if text_lt(p, x) && text_lt(x, last) {
                        lemma_text_lt_transitive(p, x, last);
                    }
                } else {
                    assert(sorted.push(p)[i] == sorted[i]);
                    assert(sorted.push(p)[j] == sorted[j]);
                }
            }
        }
    }
}

proof fn lemma_sorted_texts(ps: Seq<Seq<char>>)
    ensures
        ascending(sorted_texts(ps)),
        sorted_texts(ps).to_multiset() == ps.to_multiset(),
    decreases ps.len(),
{
    broadcast use vstd::seq_lib::group_to_multiset_ensures;

    if ps.len() > 0 {
        lemma_sorted_texts(ps.drop_last());
        lemma_insert_text(sorted_texts(ps.drop_last()), ps.last());
        assert(ps =~= ps.drop_last().push(ps.last()));
    }
}

proof fn lemma_tagged_paths_tagged(fs: Seq<FileRecordView>, includes: Seq<Seq<char>>, excludes: Seq<Seq<char>>)
    ensures
        forall|k: int|
            0 <= k < tagged_paths(fs, includes, excludes).len() ==> tags_path(
                includes,
                excludes,
                #[trigger] tagged_paths(fs, includes, excludes)[k],
            ),
    decreases fs.len(),
{
    if fs.len() > 0 {
        let rest = tagged_paths(fs.drop_last(), includes, excludes);
        lemma_tagged_paths_tagged(fs.drop_last(), includes, excludes);
        assert forall|k: int|
            0 <= k < tagged_paths(fs, includes, excludes).len() implies tags_path(
            includes,
            excludes,
            #[trigger] tagged_paths(fs, includes, excludes)[k],
        ) by {
            if k < rest.len() {
                assert(rest[k] == tagged_paths(fs, includes, excludes)[k]);
            }
        }
    }
}

/// The evidence of a tag lists the paths its rule tags in ascending order:
/// each path of a tagged file as often as the files have it, and no other.
pub proof fn lemma_tagged_ascending(fs: Seq<FileRecordView>, rule: TagRuleConfig)
    ensures
        ascending(rule_tagged(fs, rule)),
        rule_tagged(fs, rule).to_multiset() == tagged_paths(fs, rule_includes(rule), rule_excludes(rule)).to_multiset(),
        forall|p: Seq<char>|
            #[trigger] rule_tagged(fs, rule).contains(p) ==> tags_path(rule_includes(rule), rule_excludes(rule), p),
{
    broadcast use vstd::seq_lib::group_to_multiset_ensures;

    let t = tagged_paths(fs, rule_includes(rule), rule_excludes(rule));
    lemma_sorted_texts(t);
    lemma_tagged_paths_tagged(fs, rule_includes(rule), rule_excludes(rule));
    assert forall|p: Seq<char>| #[trigger] rule_tagged(fs, rule).contains(p) implies tags_path(
        rule_includes(rule),
        rule_excludes(rule),
        p,
    ) by {
        assert(rule_tagged(fs, rule).to_multiset().count(p) > 0);
        assert(t.contains(p));
        let k = choose|k: int| 0 <= k < t.len() && t[k] == p;
    }
}

/// The paths a rule tags, in ascending order.
pub open spec fn rule_tagged(fs: Seq<FileRecordView>, rule: TagRuleConfig) -> Seq<Seq<char>> {
    sorted_texts(tagged_paths(fs, rule_includes(rule), rule_excludes(rule)))
}

/// The evidence of a tag: the first tagged paths, one per line, and a count
/// of the others.
pub open spec fn tag_evidence(m: Seq<Seq<char>>) -> Seq<char> {
    if m.len() > TAG_EVIDENCE_LIMIT {
        join(m.take(TAG_EVIDENCE_LIMIT as int), seq!['\n']) + "\n...\n(found "@ + decimal(
            (m.len() - TAG_EVIDENCE_LIMIT) as nat,
        ) + " more files)"@
    } else {
        join(m, seq!['\n'])
    }
}

/// The paths of `files` that `rule` tags, in ascending order.
fn tagged_sorted(files: &Vec<FileRecord>, rule: &TagRuleConfig) -> (r: Vec<String>)
    ensures
        views(r@) == rule_tagged(record_views(files@), *rule),
{
    let ghost fs = record_views(files@);
    let ghost inc = rule_includes(*rule);
    let ghost exc = rule_excludes(*rule);
    let mut sorted: Vec<String> = Vec::new();
    let mut i: usize = 0;
    while i < files.len()
        invariant
            i <= files@.len(),
            fs == record_views(files@),
            inc == rule_includes(*rule),
            exc == rule_excludes(*rule),
            views(sorted@) == sorted_texts(tagged_paths(fs.take(i as int), inc, exc)),
        decreases files@.len() - i,
    {
        proof {
            assert(fs.take(i + 1).drop_last() =~= fs.take(i as int));
            assert(fs.take(i + 1).last() == files@[i as int]@);
        }
        let path = files[i].relative_path.as_str();
        proof {
            assert(path@ == fs[i as int].relative_path);
            assert(fs.take(i + 1).last() == fs[i as int]);
        }
        let ghost prev = views(sorted@);
        if tag_rule_matches_path(rule, path) {
            let mut pos = sorted.len();
            while pos > 0 && str_lt(path, sorted[pos - 1].as_str())
                invariant
                    pos <= sorted@.len(),
                    forall|k: int| pos <= k < sorted@.len() ==> text_lt(path@, #[trigger] views(sorted@)[k]),
                decreases pos,
            {
                pos -= 1;
            }
            proof {
                lemma_insert_text_at(views(sorted@), path@, pos as int);
            }
            let ghost before = views(sorted@);
            sorted.insert(pos, copy_string(&files[i].relative_path));
            proof {
                assert(views(sorted@) =~= before.take(pos as int).push(path@) + before.skip(pos as int));
            }
        }
        proof {
            if tags_path(inc, exc, path@) {
                let t = tagged_paths(fs.take(i as int), inc, exc);
                assert(tagged_paths(fs.take(i + 1), inc, exc) == t.push(path@));
                assert(t.push(path@).drop_last() =~= t);
                assert(sorted_texts(t.push(path@)) == insert_text(sorted_texts(t), path@));
            } else {
                assert(tagged_paths(fs.take(i + 1), inc, exc) == tagged_paths(fs.take(i as int), inc, exc));
                assert(views(sorted@) == prev);
            }
        }
        i += 1;
    }
    proof {
        assert(fs.take(files@.len() as int) =~= fs);
    }
    sorted
}

/// The evidence text of the tagged paths `matched`.
fn tag_evidence_text(matched: &Vec<String>) -> (r: String)
    ensures
        r@ == tag_evidence(views(matched@)),
{
    let n = matched.len();
    let shown_count = if n > TAG_EVIDENCE_LIMIT {
        TAG_EVIDENCE_LIMIT
    } else {
        n
    };
    let mut shown: Vec<String> = Vec::new();
    let mut i: usize = 0;
    while i < shown_count
        invariant
            i <= shown_count <= matched@.len(),
            shown@ =~= matched@.take(i as int),
        decreases shown_count - i,
    {
        shown.push(copy_string(&matched[i]));
        i += 1;
    }
    let mut evidence = join_lines(&shown);
    proof {
        assert(views(shown@) =~= views(matched@).take(shown_count as int));
        if n <= TAG_EVIDENCE_LIMIT {
            assert(views(matched@).take(shown_count as int) =~= views(matched@));
        }
    }
    if n > TAG_EVIDENCE_LIMIT {
        push_str(&mut evidence, "\n...\n(found ");
        push_decimal(&mut evidence, n - TAG_EVIDENCE_LIMIT);
        push_str(&mut evidence, " more files)");
    }
    evidence
}

/// A tag found in the repository: its rule and the files it tags.
pub struct FoundTagExport {
    pub tag_rule: TagRuleConfig,
    pub evidence: String,
}

/// Whether two tag rules have equal fields.
pub open spec fn same_rule(a: TagRuleConfig, b: TagRuleConfig) -> bool {
    &&& a.tag@ == b.tag@
    &&& a.color@ == b.color@
    &&& a.path_patterns@ == b.path_patterns@
    &&& a.exclude_path_patterns@ == b.exclude_path_patterns@
}

/// A copy of a tag rule.
pub fn copy_tag_rule(rule: &TagRuleConfig) -> (r: TagRuleConfig)
    ensures
        same_rule(r, *rule),
{
    TagRuleConfig {
        tag: copy_string(&rule.tag),
        color: copy_string(&rule.color),
        path_patterns: copy_strings(&rule.path_patterns),
        exclude_path_patterns: copy_strings(&rule.exclude_path_patterns),
    }
}

/// The tags found in the files: for each rule that tags at least one file,
/// in rule order, the rule and the evidence of its tagged paths.
pub open spec fn found_tags(fs: Seq<FileRecordView>, rules: Seq<TagRuleConfig>) -> Seq<(TagRuleConfig, Seq<char>)>
    decreases rules.len(),
{
    if rules.len() == 0 {
        Seq::empty()
    } else {
        let rest = found_tags(fs, rules.drop_last());
        let m = rule_tagged(fs, rules.last());
        if m.len() == 0 {
            rest
        } else {
            rest.push((rules.last(), tag_evidence(m)))
        }
    }
}

/// Whether `r` lists exactly the tags `expected`.
pub open spec fn lists_tags(r: Seq<FoundTagExport>, expected: Seq<(TagRuleConfig, Seq<char>)>) -> bool {
    &&& r.len() == expected.len()
    &&& forall|k: int|
        0 <= k < r.len() ==> same_rule((#[trigger] r[k]).tag_rule, expected[k].0) && r[k].evidence@
            == expected[k].1
}

/// The tags that `tag_rules` find in `files`.
pub fn build_found_tags(files: &Vec<FileRecord>, tag_rules: &Vec<TagRuleConfig>) -> (r: Vec<FoundTagExport>)
    ensures
        lists_tags(r@, found_tags(record_views(files@), tag_rules@)),
{
    let ghost fs = record_views(files@);
    let mut out: Vec<FoundTagExport> = Vec::new();
    let mut j: usize = 0;
    while j < tag_rules.len()
        invariant
            j <= tag_rules@.len(),
            fs == record_views(files@),
            lists_tags(out@, found_tags(fs, tag_rules@.take(j as int))),
        decreases tag_rules@.len() - j,
    {
        proof {
            assert(tag_rules@.take(j + 1).drop_last() =~= tag_rules@.take(j as int));
            assert(tag_rules@.take(j + 1).last() == tag_rules@[j as int]);
        }
        let matched = tagged_sorted(files, &tag_rules[j]);
        if matched.len() > 0 {
            let evidence = tag_evidence_text(&matched);
            let ghost before = out@;
            out.push(FoundTagExport { tag_rule: copy_tag_rule(&tag_rules[j]), evidence });
            proof {
                let expected = found_tags(fs, tag_rules@.take(j + 1));
                assert(expected == found_tags(fs, tag_rules@.take(j as int)).push(
                    (tag_rules@[j as int], tag_evidence(views(matched@))),
                ));
                assert forall|k: int| 0 <= k < out@.len() implies same_rule((#[trigger] out@[k]).tag_rule, expected[k].0)
                    && out@[k].evidence@ == expected[k].1 by {
                    if k < before.len() {
                        assert(out@[k] == before[k]);
                    }
                }
            }
        }
        j += 1;
    }
    proof {
        assert(tag_rules@.take(tag_rules@.len() as int) =~= tag_rules@);
    }
    out
}

} // verus!
