//! The text reports: file lists, unit and dependency listings, file names
//! of the reports, and small fixed texts.
use vstd::prelude::*;

use crate::config::RangeConfig;
use crate::decompositions::LogicalDecompositionExport;
use crate::export::{
    component_label, file_has_component, selected_file_records, selected_records, unit_views, UnitView,
};
use crate::ir::{copy_file_record, record_views, FileRecord, FileRecordView, Unit};
use crate::names::{file_system_safe, safe_file_system_name};
use crate::pathset::{str_eq, PathSet};
use crate::scopes::{contexts_wf, FileContext};
use crate::text::{
    copy_string, decimal, digit_char, push_char, push_decimal, push_str, str_lt, text_lt, views,
};

verus! {

// ---------------------------------------------------------------------------
// File lists
// ---------------------------------------------------------------------------

/// The rows of a file list: path, tab, lines of code, line break.
pub open spec fn file_rows(fs: Seq<FileRecordView>) -> Seq<char>
    decreases fs.len(),
{
    if fs.len() == 0 {
        Seq::empty()
    } else {
        file_rows(fs.drop_last()) + fs.last().relative_path + seq!['\t'] + decimal(fs.last().lines_of_code) + seq![
            '\n',
        ]
    }
}

/// The rows of a file list with an empty last column.
pub open spec fn open_file_rows(fs: Seq<FileRecordView>) -> Seq<char>
    decreases fs.len(),
{
    if fs.len() == 0 {
        Seq::empty()
    } else {
        open_file_rows(fs.drop_last()) + fs.last().relative_path + seq!['\t'] + decimal(fs.last().lines_of_code)
            + seq!['\t', '\n']
    }
}

/// `sorted` with `f` placed after every file whose path does not order after
/// its path.
pub open spec fn insert_by_path(sorted: Seq<FileRecordView>, f: FileRecordView) -> Seq<FileRecordView>
    decreases sorted.len(),
{
    if sorted.len() == 0 {
        seq![f]
    } else if text_lt(f.relative_path, sorted.last().relative_path) {
        insert_by_path(sorted.drop_last(), f).push(sorted.last())
    } else {
        sorted.push(f)
    }
}

/// The files ordered by path (a stable sort).
pub open spec fn sorted_by_path(fs: Seq<FileRecordView>) -> Seq<FileRecordView>
    decreases fs.len(),
{
    if fs.len() == 0 {
        fs
    } else {
        insert_by_path(sorted_by_path(fs.drop_last()), fs.last())
    }
}

pub(crate) proof fn lemma_insert_by_path_at(sorted: Seq<FileRecordView>, f: FileRecordView, pos: int)
    requires
        0 <= pos <= sorted.len(),
        forall|k: int| pos <= k < sorted.len() ==> text_lt(f.relative_path, (#[trigger] sorted[k]).relative_path),
        pos > 0 ==> !text_lt(f.relative_path, sorted[pos - 1].relative_path),
    ensures
        insert_by_path(sorted, f) == sorted.take(pos).push(f) + sorted.skip(pos),
    decreases sorted.len(),
{
    if sorted.len() == 0 {
        assert(sorted.take(pos).push(f) + sorted.skip(pos) =~= seq![f]);
    } else if pos == sorted.len() {
        assert(sorted.take(pos).push(f) + sorted.skip(pos) =~= sorted.push(f));
    } else {
        lemma_insert_by_path_at(sorted.drop_last(), f, pos);
        assert(sorted.drop_last().take(pos).push(f) + sorted.drop_last().skip(pos) + seq![sorted.last()]
            =~= sorted.take(pos).push(f) + sorted.skip(pos));
    }
}

fn push_rows(content: &mut String, files: &Vec<FileRecord>, open: bool)
    ensures
        final(content)@ == old(content)@ + if open {
            open_file_rows(record_views(files@))
        } else {
            file_rows(record_views(files@))
        },
{
    let ghost start = content@;
    let ghost fs = record_views(files@);
    let mut i: usize = 0;
    while i < files.len()
        invariant
            i <= files@.len(),
            fs == record_views(files@),
            content@ == start + if open {
                open_file_rows(fs.take(i as int))
            } else {
                file_rows(fs.take(i as int))
            },
        decreases files@.len() - i,
    {
        proof {
            assert(fs.take(i + 1).drop_last() =~= fs.take(i as int));
            assert(fs.take(i + 1).last() == files@[i as int]@);
        }
        let ghost before = content@;
        push_str(content, files[i].relative_path.as_str());
        push_char(content, '\t');
        push_decimal(content, files[i].lines_of_code);
        if open {
            push_char(content, '\t');
        }
        push_char(content, '\n');
        proof {
            if open {
                assert(content@ =~= start + open_file_rows(fs.take(i + 1)));
            } else {
                assert(content@ =~= start + file_rows(fs.take(i + 1)));
            }
        }
        i += 1;
    }
    proof {
        assert(fs.take(files@.len() as int) =~= fs);
    }
}

/// The file list of an aspect: a header, then the selected files ordered by
/// path with their lines of code.
pub open spec fn aspect_file_list(fs: Seq<FileRecordView>) -> Seq<char> {
    "Path\tLines of Code\n"@ + file_rows(sorted_by_path(fs))
}

/// The file list of the selected files.
pub fn build_aspect_file_list_text(files: &Vec<FileRecord>, contexts: &Vec<FileContext>, selected_paths: &PathSet) -> (r:
    String)
    requires
        contexts_wf(contexts@),
        selected_paths.wf(),
    ensures
        r@ == aspect_file_list(selected_records(files@, contexts@, *selected_paths)),
{
    let selected = selected_file_records(files, contexts, selected_paths);
    let ghost fs = record_views(selected@);
    let mut sorted: Vec<FileRecord> = Vec::new();
    let mut i: usize = 0;
    while i < selected.len()
        invariant
            i <= selected@.len(),
            fs == record_views(selected@),
            record_views(sorted@) == sorted_by_path(fs.take(i as int)),
        decreases selected@.len() - i,
    {
        proof {
            assert(fs.take(i + 1).drop_last() =~= fs.take(i as int));
            assert(fs.take(i + 1).last() == selected@[i as int]@);
        }
        let f = copy_file_record(&selected[i]);
        let mut pos = sorted.len();
        while pos > 0 && str_lt(f.relative_path.as_str(), sorted[pos - 1].relative_path.as_str())
            invariant
                pos <= sorted@.len(),
                forall|k: int|
                    pos <= k < sorted@.len() ==> text_lt(f@.relative_path, (#[trigger] record_views(sorted@)[k]).relative_path),
            decreases pos,
        {
            pos -= 1;
        }
        proof {
            lemma_insert_by_path_at(record_views(sorted@), f@, pos as int);
        }
        let ghost before = record_views(sorted@);
        sorted.insert(pos, f);
        proof {
            assert(record_views(sorted@) =~= before.take(pos as int).push(f@) + before.skip(pos as int));
        }
        i += 1;
    }
    proof {
        assert(fs.take(selected@.len() as int) =~= fs);
    }
    let mut content = String::new();
    push_str(&mut content, "Path\tLines of Code\n");
    push_rows(&mut content, &sorted, false);
    proof {
        assert(content@ =~= aspect_file_list(fs));
    }
    content
}

/// The file name of an aspect's file list.
pub open spec fn aspect_list_name(name: Seq<char>, prefix: Seq<char>, suffix: Seq<char>) -> Seq<char> {
    "aspect_"@ + file_system_safe(prefix + name) + suffix + ".txt"@
}

/// The file name of the list of an aspect named `name`.
pub fn aspect_file_list_name(name: &str, prefix: &str, suffix: &str) -> (r: String)
    ensures
        r@ == aspect_list_name(name@, prefix@, suffix@),
{
    let mut joined = String::new();
    push_str(&mut joined, prefix);
    push_str(&mut joined, name);
    let mut r = String::new();
    push_str(&mut r, "aspect_");
    let safe = safe_file_system_name(joined.as_str());
    push_str(&mut r, safe.as_str());
    push_str(&mut r, suffix);
    push_str(&mut r, ".txt");
    r
}

/// The prefix of the file lists of a decomposition's components.
pub fn component_file_prefix(logical_decomposition_name: &str) -> (r: String)
    ensures
        r@ == "component_"@ + logical_decomposition_name@ + "_"@,
{
    let mut r = String::new();
    push_str(&mut r, "component_");
    push_str(&mut r, logical_decomposition_name);
    push_str(&mut r, "_");
    r
}

/// The prefix of the file lists of a concern group's concerns.
pub fn concern_file_prefix(concern_group: &str) -> (r: String)
    ensures
        r@ == "concern_"@ + concern_group@ + "_"@,
{
    let mut r = String::new();
    push_str(&mut r, "concern_");
    push_str(&mut r, concern_group);
    push_str(&mut r, "_");
    r
}

/// The paths of the files in scope labelled with a component.
pub fn component_selected_paths(files: &Vec<FileRecord>, scope_paths: &PathSet, decomposition: &str, component: &str) -> (r:
    PathSet)
    requires
        scope_paths.wf(),
    ensures
        r.wf(),
        forall|p: Seq<char>|
            #![trigger r.has(p)]
            r.has(p) <==> exists|k: int|
                0 <= k < files@.len() && (#[trigger] files@[k]).relative_path@ == p && scope_paths.has(p)
                    && views(files@[k].components@).contains(component_label(decomposition@, component@)),
{
    let mut r = PathSet::new();
    let mut i: usize = 0;
    while i < files.len()
        invariant
            i <= files@.len(),
            scope_paths.wf(),
            r.wf(),
            forall|p: Seq<char>|
                #![trigger r.has(p)]
                r.has(p) <==> exists|k: int|
                    0 <= k < i && (#[trigger] files@[k]).relative_path@ == p && scope_paths.has(p) && views(
                        files@[k].components@,
                    ).contains(component_label(decomposition@, component@)),
        decreases files@.len() - i,
    {
        let ghost old_r = r;
        let path = files[i].relative_path.as_str();
        let hit = scope_paths.contains(path) && file_has_component(&files[i], decomposition, component);
        if hit {
            r.insert(path);
        }
        proof {
            assert forall|p: Seq<char>|
                #![trigger r.has(p)]
                r.has(p) <==> exists|k: int|
                    0 <= k < i + 1 && (#[trigger] files@[k]).relative_path@ == p && scope_paths.has(p) && views(
                        files@[k].components@,
                    ).contains(component_label(decomposition@, component@)) by {
                assert(r.members().to_set().contains(p) == r.has(p));
                assert(old_r.members().to_set().contains(p) == old_r.has(p));
                if hit && p == path@ {
                    assert(files@[i as int].relative_path@ == p);
                }
            }
        }
        i += 1;
    }
    r
}

/// The list of the main files.
pub fn build_main_files_text(main_files: &Vec<FileRecord>) -> (r: String)
    ensures
        r@ == "path\t# lines of code\n"@ + file_rows(record_views(main_files@)),
{
    let mut content = String::new();
    push_str(&mut content, "path\t# lines of code\n");
    push_rows(&mut content, main_files, false);
    content
}

/// The list of the main files with history columns, of which there is no
/// history: the header alone.
pub fn build_main_files_with_history_text(_main_files: &Vec<FileRecord>) -> (r: String)
    ensures
        r@ == "path\t# lines of code\t# active days\tdays since first update\tdays since last update\t# commits\t# contributors\tfirst updated\tlast updated\tfirst contributor\tlast contributor\n"@,
{
    "path\t# lines of code\t# active days\tdays since first update\tdays since last update\t# commits\t# contributors\tfirst updated\tlast updated\tfirst contributor\tlast contributor\n".to_owned()
}

/// The list of the main files without history: rows with an empty last
/// column.
pub fn build_main_files_without_history_text(main_files: &Vec<FileRecord>) -> (r: String)
    ensures
        r@ == "path\t# lines of code\n"@ + open_file_rows(record_views(main_files@)),
{
    let mut content = String::new();
    push_str(&mut content, "path\t# lines of code\n");
    push_rows(&mut content, main_files, true);
    content
}

/// The contributors list, of which there is no history: the header alone.
pub fn build_contributors_text() -> (r: String)
    ensures
        r@ == "Contributor\t#commits (all time)\t#commits (30 days)\t#commits (90 days)\t#commits (180 days)\t#commits (365 days)\tfirst commit\tlast commit\n"@,
{
    "Contributor\t#commits (all time)\t#commits (30 days)\t#commits (90 days)\t#commits (180 days)\t#commits (365 days)\tfirst commit\tlast commit\n".to_owned()
}

/// The temporal dependencies list, of which there is no history: the header
/// alone.
pub fn build_temporal_dependencies_text() -> (r: String)
    ensures
        r@ == "file 1\tfile 2\t# same commits\t# commits file 1\t# commits file 2\n"@,
{
    "file 1\tfile 2\t# same commits\t# commits file 1\t# commits file 2\n".to_owned()
}

/// The members of a set of paths, in order.
pub fn sorted_paths(paths: &PathSet) -> (r: Vec<String>)
    ensures
        views(r@) == paths.members(),
{
    crate::text::copy_strings(&paths.items)
}

/// A desired range as `[min - max] ±tolerance`.
pub fn range_text_description(range: &RangeConfig) -> (r: String)
    ensures
        r@ == "["@ + range.min@ + " - "@ + range.max@ + "] ±"@ + range.tolerance@,
{
    let mut r = String::new();
    push_str(&mut r, "[");
    push_str(&mut r, range.min.as_str());
    push_str(&mut r, " - ");
    push_str(&mut r, range.max.as_str());
    push_str(&mut r, "] ±");
    push_str(&mut r, range.tolerance.as_str());
    r
}

// ---------------------------------------------------------------------------
// Numbers
// ---------------------------------------------------------------------------

/// The digits with a comma before each digit (but the first) that starts a
/// group of three up to the end; the first `i` digits.
pub open spec fn grouped_prefix(d: Seq<char>, i: int) -> Seq<char>
    decreases i,
{
    if i <= 0 {
        Seq::empty()
    } else {
        grouped_prefix(d, i - 1) + if i - 1 > 0 && (d.len() - (i - 1)) % 3 == 0 {
            seq![',', d[i - 1]]
        } else {
            seq![d[i - 1]]
        }
    }
}

/// The digits grouped in threes by commas.
pub open spec fn grouped(d: Seq<char>) -> Seq<char> {
    grouped_prefix(d, d.len() as int)
}

/// `n` in decimal, as characters.
fn decimal_u64(n: u64) -> (r: Vec<char>)
    ensures
        r@ == decimal(n as nat),
    decreases n,
{
    if n < 10 {
        let c = ((48 + n) as u8) as char;
        proof {
            assert(c == digit_char(n as nat));
        }
        vec![c]
    } else {
        let mut r = decimal_u64(n / 10);
        let c = ((48 + n % 10) as u8) as char;
        proof {
            assert(c == digit_char((n % 10) as nat));
        }
        r.push(c);
        r
    }
}

/// The magnitude of a signed value.
pub open spec fn magnitude(value: i64) -> nat {
    if value < 0 {
        (-value) as nat
    } else {
        value as nat
    }
}

/// An integer with its digits grouped in threes by commas, and a leading
/// `-` when negative.
pub fn format_grouped_i64(value: i64) -> (r: String)
    requires
        value > i64::MIN,
    ensures
        r@ == (if value < 0 {
            seq!['-']
        } else {
            Seq::empty()
        }) + grouped(decimal(magnitude(value))),
{
    let negative = value < 0;
    let abs: u64 = if negative {
        (-value) as u64
    } else {
        value as u64
    };
    let digits = decimal_u64(abs);
    let n = digits.len();
    let mut r = String::new();
    if negative {
        push_char(&mut r, '-');
    }
    let ghost start = r@;
    let mut i: usize = 0;
    while i < n
        invariant
            i <= n,
            n == digits@.len(),
            r@ == start + grouped_prefix(digits@, i as int),
        decreases n - i,
    {
        if i > 0 && (n - i) % 3 == 0 {
            push_char(&mut r, ',');
        }
        push_char(&mut r, digits[i]);
        proof {
            assert(r@ =~= start + grouped_prefix(digits@, i + 1));
        }
        i += 1;
    }
    proof {
        assert(abs == magnitude(value));
    }
    r
}

// ---------------------------------------------------------------------------
// Units
// ---------------------------------------------------------------------------

/// The listing of one unit, numbered `id`.
pub open spec fn unit_entry(id: nat, u: UnitView) -> Seq<char> {
    "id: "@ + decimal(id) + "\n"@ + "unit: "@ + u.short_name + "\n"@ + "file: "@ + u.relative_file_name + "\n"@
        + "start line: "@ + decimal(u.start_line) + "\n"@ + "end line: "@ + decimal(u.end_line) + "\n"@ + "size: "@
        + decimal(u.lines_of_code) + " LOC\n"@ + "McCabe index: "@ + decimal(u.mc_cabe_index) + "\n"@
        + "number of parameters: "@ + decimal(u.number_of_parameters) + "\n\n"@
}

/// The listings of the units, numbered from 1.
pub open spec fn units_text(us: Seq<UnitView>) -> Seq<char>
    decreases us.len(),
{
    if us.len() == 0 {
        Seq::empty()
    } else {
        units_text(us.drop_last()) + unit_entry(us.len(), us.last())
    }
}

fn push_labelled(content: &mut String, label: &str, n: usize, end: &str)
    ensures
        final(content)@ == old(content)@ + label@ + decimal(n as nat) + end@,
{
    push_str(content, label);
    push_decimal(content, n);
    push_str(content, end);
    proof {
        assert(final(content)@ =~= old(content)@ + label@ + decimal(n as nat) + end@);
    }
}

fn push_text_line(content: &mut String, label: &str, text: &str)
    ensures
        final(content)@ == old(content)@ + label@ + text@ + "\n"@,
{
    push_str(content, label);
    push_str(content, text);
    push_str(content, "\n");
    proof {
        assert(final(content)@ =~= old(content)@ + label@ + text@ + "\n"@);
    }
}

#[verifier::rlimit(100)]
#[verifier::spinoff_prover]
fn push_unit_entry(content: &mut String, id: usize, u: &Unit)
    ensures
        final(content)@ == old(content)@ + unit_entry(id as nat, u@),
{
    let ghost start = content@;
    push_labelled(content, "id: ", id, "\n");
    let ghost a = content@;
    push_text_line(content, "unit: ", u.short_name.as_str());
    push_text_line(content, "file: ", u.relative_file_name.as_str());
    let ghost b = content@;
    push_labelled(content, "start line: ", u.start_line, "\n");
    push_labelled(content, "end line: ", u.end_line, "\n");
    let ghost c = content@;
    push_labelled(content, "size: ", u.lines_of_code, " LOC\n");
    push_labelled(content, "McCabe index: ", u.mc_cabe_index, "\n");
    push_labelled(content, "number of parameters: ", u.number_of_parameters, "\n\n");
    proof {
        assert(content@ =~= start + unit_entry(id as nat, u@));
    }
}

/// The listings of the units, numbered from 1.
pub fn build_units_text(units: &Vec<Unit>) -> (r: String)
    ensures
        r@ == units_text(unit_views(units@)),
{
    let ghost us = unit_views(units@);
    let mut content = String::new();
    let mut i: usize = 0;
    while i < units.len()
        invariant
            i <= units@.len(),
            us == unit_views(units@),
            content@ == units_text(us.take(i as int)),
        decreases units@.len() - i,
    {
        proof {
            assert(us.take(i + 1).drop_last() =~= us.take(i as int));
            assert(us.take(i + 1).last() == units@[i as int]@);
        }
        push_unit_entry(&mut content, i + 1, &units[i]);
        proof {
            assert(content@ =~= units_text(us.take(i + 1)));
        }
        i += 1;
    }
    proof {
        assert(us.take(units@.len() as int) =~= us);
    }
    content
}

// ---------------------------------------------------------------------------
// Dependencies
// ---------------------------------------------------------------------------

/// The file name prefix of a dependency report: the decomposition, and the
/// two components when both are given.
pub open spec fn dependencies_prefix(from: Seq<char>, to: Seq<char>, decomposition: Seq<char>) -> Seq<char> {
    "dependencies_"@ + file_system_safe(decomposition) + if from.len() > 0 && to.len() > 0 {
        "_"@ + file_system_safe(from + "_"@ + to)
    } else {
        Seq::empty()
    }
}

/// The file name prefix of a dependency report.
pub fn dependencies_file_name_prefix(from_component: &str, to_component: &str, logical_decomposition_name: &str) -> (r:
    String)
    ensures
        r@ == dependencies_prefix(from_component@, to_component@, logical_decomposition_name@),
{
    let mut r = String::new();
    push_str(&mut r, "dependencies_");
    let safe = safe_file_system_name(logical_decomposition_name);
    push_str(&mut r, safe.as_str());
    let from_chars = crate::text::chars_of(from_component);
    let to_chars = crate::text::chars_of(to_component);
    if from_chars.len() > 0 && to_chars.len() > 0 {
        let mut pair = String::new();
        push_str(&mut pair, from_component);
        push_str(&mut pair, "_");
        push_str(&mut pair, to_component);
        push_str(&mut r, "_");
        let safe_pair = safe_file_system_name(pair.as_str());
        push_str(&mut r, safe_pair.as_str());
    } else {
        proof {
            assert(r@ =~= r@ + Seq::<char>::empty());
        }
    }
    r
}

/// The report entry of one piece of evidence of a dependency.
pub open spec fn evidence_entry(from: Seq<char>, to: Seq<char>, path: Seq<char>, evidence: Seq<char>) -> Seq<char> {
    "from: "@ + from + "\n"@ + "to: "@ + to + "\nevidence:\n"@ + " - file: \""@ + path + "\"\n"@ + "   contains \""@
        + evidence + "\"\n\n"@
}

/// The entries of the evidence of dependency `d`.
pub open spec fn evidence_entries(
    from: Seq<char>,
    to: Seq<char>,
    evidence: Seq<crate::decompositions::ComponentDependencyEvidenceExport>,
) -> Seq<char>
    decreases evidence.len(),
{
    if evidence.len() == 0 {
        Seq::empty()
    } else {
        evidence_entries(from, to, evidence.drop_last()) + evidence_entry(
            from,
            to,
            evidence.last().path_from@,
            evidence.last().evidence@,
        )
    }
}

/// The dependency report: the evidence of each dependency, or only of the
/// one between the filtered components when a filter is given.
pub open spec fn dependencies_report(
    deps: Seq<crate::decompositions::ComponentDependencyExport>,
    filter_from: Seq<char>,
    filter_to: Seq<char>,
) -> Seq<char>
    decreases deps.len(),
{
    if deps.len() == 0 {
        Seq::empty()
    } else {
        let d = deps.last();
        let skipped = (filter_from.len() > 0 || filter_to.len() > 0) && (d.from_component@ != filter_from
            || d.to_component@ != filter_to);
        dependencies_report(deps.drop_last(), filter_from, filter_to) + if skipped {
            Seq::empty()
        } else {
            evidence_entries(d.from_component@, d.to_component@, d.evidence@)
        }
    }
}

/// The dependency report of a decomposition.
pub fn build_dependencies_text(logical_decomposition: &LogicalDecompositionExport, filter_from: &str, filter_to: &str) -> (r:
    String)
    ensures
        r@ == dependencies_report(logical_decomposition.component_dependencies@, filter_from@, filter_to@),
{
    let deps = &logical_decomposition.component_dependencies;
    let filtered = crate::text::chars_of(filter_from).len() > 0 || crate::text::chars_of(filter_to).len() > 0;
    let mut content = String::new();
    let mut i: usize = 0;
    while i < deps.len()
        invariant
            i <= deps@.len(),
            filtered == (filter_from@.len() > 0 || filter_to@.len() > 0),
            content@ == dependencies_report(deps@.take(i as int), filter_from@, filter_to@),
        decreases deps@.len() - i,
    {
        proof {
            assert(deps@.take(i + 1).drop_last() =~= deps@.take(i as int));
            assert(deps@.take(i + 1).last() == deps@[i as int]);
        }
        let d = &deps[i];
        let skipped = filtered && (!str_eq(d.from_component.as_str(), filter_from) || !str_eq(
            d.to_component.as_str(),
            filter_to,
        ));
        let ghost before = content@;
        if !skipped {
            let mut k: usize = 0;
            while k < d.evidence.len()
                invariant
                    k <= d.evidence@.len(),
                    content@ == before + evidence_entries(d.from_component@, d.to_component@, d.evidence@.take(k as int)),
                decreases d.evidence@.len() - k,
            {
                proof {
                    assert(d.evidence@.take(k + 1).drop_last() =~= d.evidence@.take(k as int));
                    assert(d.evidence@.take(k + 1).last() == d.evidence@[k as int]);
                }
                let e = &d.evidence[k];
                push_str(&mut content, "from: ");
                push_str(&mut content, d.from_component.as_str());
                push_str(&mut content, "\n");
                push_str(&mut content, "to: ");
                push_str(&mut content, d.to_component.as_str());
                push_str(&mut content, "\nevidence:\n");
                push_str(&mut content, " - file: \"");
                push_str(&mut content, e.path_from.as_str());
                push_str(&mut content, "\"\n");
                push_str(&mut content, "   contains \"");
                push_str(&mut content, e.evidence.as_str());
                push_str(&mut content, "\"\n\n");
                proof {
                    assert(content@ =~= before + evidence_entries(
                        d.from_component@,
                        d.to_component@,
                        d.evidence@.take(k + 1),
                    ));
                }
                k += 1;
            }
            proof {
                assert(d.evidence@.take(d.evidence@.len() as int) =~= d.evidence@);
            }
        } else {
            proof {
                assert(content@ =~= before + Seq::<char>::empty());
            }
        }
        i += 1;
    }
    proof {
        assert(deps@.take(deps@.len() as int) =~= deps@);
    }
    content
}

// ---------------------------------------------------------------------------
// Execution times
// ---------------------------------------------------------------------------

/// The duration of a processing step.
#[derive(Debug, Clone, PartialEq, Eq)]
pub struct ProcessingTimeExport {
    pub processing: String,
    pub start_ms: u64,
    pub end_ms: u64,
    pub duration_ms: u64,
}

/// The processing times of an export: everything, and saving the data,
/// which ends after the duration (capped at `u64::MAX`).
pub fn build_execution_times(export_started_at: u64, export_duration_ms: u64) -> (r: Vec<ProcessingTimeExport>)
    ensures
        r@.len() == 2,
        r@[0].processing@ == "everything"@,
        r@[0].start_ms == export_started_at,
        r@[0].end_ms == 0,
        r@[0].duration_ms == export_duration_ms,
        r@[1].processing@ == "saving data"@,
        r@[1].start_ms == export_started_at,
        r@[1].end_ms == (if export_started_at + export_duration_ms <= u64::MAX {
            (export_started_at + export_duration_ms) as u64
        } else {
            u64::MAX
        }),
        r@[1].duration_ms == export_duration_ms,
{
    let mut r: Vec<ProcessingTimeExport> = Vec::new();
    r.push(
        ProcessingTimeExport {
            processing: "everything".to_owned(),
            start_ms: export_started_at,
            end_ms: 0,
            duration_ms: export_duration_ms,
        },
    );
    r.push(
        ProcessingTimeExport {
            processing: "saving data".to_owned(),
            start_ms: export_started_at,
            end_ms: export_started_at.saturating_add(export_duration_ms),
            duration_ms: export_duration_ms,
        },
    );
    r
}

} // verus!
