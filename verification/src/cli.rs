//! Repository walking decisions: which files are analysed, how their paths
//! are written, which component a Java file belongs to, and how the Java
//! results are merged back into the file list.
use vstd::prelude::*;

use crate::config::SokratesConfig;
use crate::deps::JavaAnalysisError;
use crate::export::UnitView;
use crate::ir::{
    copy_file_record, record_views, ComponentDependency, Dependency, FileRecord, FileRecordView, ParseDiagnostic, Unit,
};
use crate::java::{join, JavaSourceInput};
use crate::pathset::{str_eq, PathSet};
use crate::ir::{Metadata, RepositoryAnalysis};
use crate::reports::{insert_by_path, lemma_insert_by_path_at, sorted_by_path};
use crate::repository::analyze_repository as analyze_java_repository;
use crate::scopes::{replace_char, replace_char_in};
use crate::text::{
    chars_of, copy_string, lemma_split_on_nonempty, lemma_text_lt_irreflexive, lemma_text_lt_transitive,
    lemma_text_lt_trichotomy, lower, push_char, push_str, split_chars, split_on, str_lt, string_of, text_lt, to_lower,
    views,
};
use crate::units::{insert_unit_by_size, line_count, sort_by_size};

verus! {

// ---------------------------------------------------------------------------
// Extensions
// ---------------------------------------------------------------------------

/// The configured extensions in lower case (none without a configuration).
pub open spec fn extension_set(config: Option<SokratesConfig>) -> Set<Seq<char>> {
    match config {
        Some(c) => Set::new(|e: Seq<char>| exists|k: int| 0 <= k < c.extensions@.len() && lower(#[trigger] c.extensions@[k]@) == e),
        None => Set::empty(),
    }
}

/// The configured extensions, in lower case and in order.
pub fn normalized_extensions(config: Option<&SokratesConfig>) -> (r: PathSet)
    ensures
        r.wf(),
        r.members().to_set() == extension_set(
            match config {
                Some(c) => Some(*c),
                None => None,
            },
        ),
{
    let mut r = PathSet::new();
    match config {
        None => {
            proof {
                assert(r.members().to_set() =~= Set::<Seq<char>>::empty());
            }
        },
        Some(c) => {
            let mut k: usize = 0;
            while k < c.extensions.len()
                invariant
                    k <= c.extensions@.len(),
                    r.wf(),
                    forall|e: Seq<char>|
                        #[trigger] r.members().to_set().contains(e) <==> exists|j: int|
                            0 <= j < k && lower(#[trigger] c.extensions@[j]@) == e,
                decreases c.extensions@.len() - k,
            {
                let e = to_lower(c.extensions[k].as_str());
                r.insert(e.as_str());
                proof {
                    assert forall|x: Seq<char>| #[trigger] r.members().to_set().contains(x) implies exists|j: int|
                        0 <= j < k + 1 && lower(#[trigger] c.extensions@[j]@) == x by {
                        if x == e@ {
                            assert(lower(c.extensions@[k as int]@) == x);
                        }
                    }
                }
                k += 1;
            }
            proof {
                assert(r.members().to_set() =~= extension_set(Some(*c)));
            }
        },
    }
    r
}

/// A file is analysed when no extensions are configured, or when its
/// extension (compared in lower case) is one of them.
pub fn is_included_file(extension: Option<&str>, extensions: &PathSet) -> (b: bool)
    requires
        extensions.wf(),
    ensures
        b == (extensions.members().len() == 0 || match extension {
            Some(e) => extensions.has(lower(e@)),
            None => false,
        }),
{
    if extensions.len() == 0 {
        return true;
    }
    match extension {
        Some(e) => {
            let lowered = to_lower(e);
            extensions.contains(lowered.as_str())
        },
        None => false,
    }
}

// ---------------------------------------------------------------------------
// Paths
// ---------------------------------------------------------------------------

/// Path components joined by `/`, each with `\` written as `/`.
pub open spec fn normalized_path(components: Seq<Seq<char>>) -> Seq<char> {
    join(components.map_values(|c: Seq<char>| replace_char(c, '\\', '/')), seq!['/'])
}

/// A path from its components: joined by `/`, backslashes written as `/`.
pub fn normalize_path(components: &Vec<String>) -> (r: String)
    ensures
        r@ == normalized_path(views(components@)),
{
    let ghost cs = views(components@).map_values(|c: Seq<char>| replace_char(c, '\\', '/'));
    let mut r = String::new();
    let mut i: usize = 0;
    while i < components.len()
        invariant
            i <= components@.len(),
            cs == views(components@).map_values(|c: Seq<char>| replace_char(c, '\\', '/')),
            r@ == join(cs.take(i as int), seq!['/']),
        decreases components@.len() - i,
    {
        proof {
            assert(cs.take(i + 1).drop_last() =~= cs.take(i as int));
            assert(cs.take(i + 1).last() == replace_char(components@[i as int]@, '\\', '/'));
        }
        if i > 0 {
            push_char(&mut r, '/');
        }
        let part = replace_char_in(components[i].as_str(), '\\', '/');
        push_str(&mut r, part.as_str());
        proof {
            if i == 0 {
                assert(cs.take(1).len() == 1);
                assert(r@ =~= cs.take(1)[0]);
            } else {
                assert(r@ =~= join(cs.take(i as int), seq!['/']) + seq!['/'] + cs.take(i + 1).last());
            }
        }
        i += 1;
    }
    proof {
        assert(cs.take(components@.len() as int) =~= cs);
    }
    r
}

/// The record of a newly found file: its normalized relative path, its
/// extension in lower case (empty without one), and nothing measured yet.
pub fn to_file_record(relative_components: &Vec<String>, extension: Option<&str>) -> (r: FileRecord)
    ensures
        r@.relative_path == normalized_path(views(relative_components@)),
        r@.extension == match extension {
            Some(e) => lower(e@),
            None => Seq::empty(),
        },
        r.lines_of_code == 0,
        r.components@.len() == 0,
        r.concerns@.len() == 0,
        r.units_count == 0,
        r.units_mc_cabe_index_sum == 0,
        r.lines_of_code_in_units == 0,
{
    let extension = match extension {
        Some(e) => to_lower(e),
        None => String::new(),
    };
    FileRecord {
        relative_path: normalize_path(relative_components),
        extension,
        lines_of_code: 0,
        components: Vec::new(),
        concerns: Vec::new(),
        units_count: 0,
        units_mc_cabe_index_sum: 0,
        lines_of_code_in_units: 0,
    }
}

/// The non-empty `/`-separated segments of a path, in order.
pub open spec fn path_segments(parts: Seq<Seq<char>>) -> Seq<Seq<char>>
    decreases parts.len(),
{
    if parts.len() == 0 {
        Seq::empty()
    } else if parts.last().len() == 0 {
        path_segments(parts.drop_last())
    } else {
        path_segments(parts.drop_last()).push(parts.last())
    }
}

/// The segments a relative path is resolved by, below the root: its
/// non-empty `/`-separated parts.
pub fn relative_path_segments(relative_path: &str) -> (r: Vec<String>)
    ensures
        views(r@) == path_segments(split_on(relative_path@, '/')),
{
    let chars = chars_of(relative_path);
    let parts = split_chars(chars.as_slice(), '/');
    let ghost pv = parts@.map_values(|l: Vec<char>| l@);
    let mut r: Vec<String> = Vec::new();
    let mut i: usize = 0;
    while i < parts.len()
        invariant
            i <= parts@.len(),
            pv == parts@.map_values(|l: Vec<char>| l@),
            views(r@) == path_segments(pv.take(i as int)),
        decreases parts@.len() - i,
    {
        proof {
            assert(pv.take(i + 1).drop_last() =~= pv.take(i as int));
            assert(pv.take(i + 1).last() == parts@[i as int]@);
        }
        if parts[i].len() > 0 {
            let ghost before = views(r@);
            let s = string_of(parts[i].as_slice());
            r.push(s);
            proof {
                assert(views(r@) =~= before.push(s@));
            }
        }
        i += 1;
    }
    proof {
        assert(pv.take(parts@.len() as int) =~= pv);
    }
    r
}

// ---------------------------------------------------------------------------
// Components and Java inputs
// ---------------------------------------------------------------------------

/// The component label a file gets from the first logical decomposition:
/// its name (`primary` when unnamed or absent), `::`, and the file's first
/// path segments up to the decomposition's folder depth (1 when unset);
/// no label without a configuration or when those segments are empty.
pub open spec fn derived_components(relative_path: Seq<char>, config: Option<SokratesConfig>) -> Seq<Seq<char>> {
    match config {
        None => Seq::empty(),
        Some(c) => {
            let first = if c.logical_decompositions@.len() > 0 {
                Some(c.logical_decompositions@[0])
            } else {
                None
            };
            let name = match first {
                Some(d) => if d.name@.len() > 0 {
                    d.name@
                } else {
                    "primary"@
                },
                None => "primary"@,
            };
            let depth: nat = match first {
                Some(d) => if d.components_folder_depth > 0 {
                    d.components_folder_depth as nat
                } else {
                    1
                },
                None => 1,
            };
            let parts = split_on(relative_path, '/');
            let taken = if depth < parts.len() {
                parts.take(depth as int)
            } else {
                parts
            };
            let component = join(taken, seq!['/']);
            if component.len() == 0 {
                Seq::empty()
            } else {
                seq![name + "::"@ + component]
            }
        },
    }
}

/// The component labels of a file.
pub fn derive_components(relative_path: &str, config: Option<&SokratesConfig>) -> (r: Vec<String>)
    ensures
        views(r@) == derived_components(
            relative_path@,
            match config {
                Some(c) => Some(*c),
                None => None,
            },
        ),
{
    let c = match config {
        None => {
            return Vec::new();
        },
        Some(c) => c,
    };
    let name = if c.logical_decompositions.len() > 0 && chars_of(c.logical_decompositions[0].name.as_str()).len() > 0 {
        copy_string(&c.logical_decompositions[0].name)
    } else {
        "primary".to_owned()
    };
    let depth: usize = if c.logical_decompositions.len() > 0 && c.logical_decompositions[0].components_folder_depth > 0 {
        c.logical_decompositions[0].components_folder_depth
    } else {
        1
    };
    let chars = chars_of(relative_path);
    let parts = split_chars(chars.as_slice(), '/');
    let ghost pv = parts@.map_values(|l: Vec<char>| l@);
    let n = if depth < parts.len() {
        depth
    } else {
        parts.len()
    };
    let mut component: Vec<char> = Vec::new();
    let mut i: usize = 0;
    while i < n
        invariant
            i <= n,
            n <= parts@.len(),
            pv == parts@.map_values(|l: Vec<char>| l@),
            component@ == join(pv.take(i as int), seq!['/']),
        decreases n - i,
    {
        proof {
            assert(pv.take(i + 1).drop_last() =~= pv.take(i as int));
            assert(pv.take(i + 1).last() == parts@[i as int]@);
        }
        if i > 0 {
            component.push('/');
        }
        let part = &parts[i];
        let ghost start = component@;
        let mut j: usize = 0;
        while j < part.len()
            invariant
                j <= part@.len(),
                component@ == start + part@.take(j as int),
            decreases part@.len() - j,
        {
            component.push(part[j]);
            proof {
                assert(part@.take(j + 1) =~= part@.take(j as int).push(part@[j as int]));
            }
            j += 1;
        }
        proof {
            assert(part@.take(part@.len() as int) =~= part@);
            if i == 0 {
                assert(pv.take(1).len() == 1);
                assert(component@ =~= pv.take(1)[0]);
            } else {
                assert(component@ =~= join(pv.take(i as int), seq!['/']) + seq!['/'] + pv.take(i + 1).last());
            }
        }
        i += 1;
    }
    proof {
        if n == parts@.len() {
            assert(pv.take(n as int) =~= pv);
        }
    }
    if component.len() == 0 {
        return Vec::new();
    }
    let mut label = String::new();
    push_str(&mut label, name.as_str());
    push_str(&mut label, "::");
    let text = string_of(component.as_slice());
    push_str(&mut label, text.as_str());
    let mut r: Vec<String> = Vec::new();
    r.push(label);
    proof {
        assert(views(r@) =~= seq![label@]);
    }
    r
}

/// The input of the Java analysis for a Java file with source `source`: the
/// file's path and extension, its lines (as `str::lines` counts them) and
/// its component labels.
pub fn java_source_input(file: &FileRecord, source: String, config: Option<&SokratesConfig>) -> (r: JavaSourceInput)
    ensures
        r.relative_path@ == file.relative_path@,
        r.source@ == source@,
        r.file.relative_path@ == file.relative_path@,
        r.file.extension@ == file.extension@,
        r.file.lines_of_code == line_count(source@),
        views(r.file.components@) == derived_components(
            file.relative_path@,
            match config {
                Some(c) => Some(*c),
                None => None,
            },
        ),
        r.file.concerns@.len() == 0,
        r.file.units_count == 0,
        r.file.units_mc_cabe_index_sum == 0,
        r.file.lines_of_code_in_units == 0,
{
    let components = derive_components(file.relative_path.as_str(), config);
    let lines_of_code = crate::units::count_lines(source.as_str());
    JavaSourceInput {
        relative_path: copy_string(&file.relative_path),
        file: FileRecord {
            relative_path: copy_string(&file.relative_path),
            extension: copy_string(&file.extension),
            lines_of_code,
            components,
            concerns: Vec::new(),
            units_count: 0,
            units_mc_cabe_index_sum: 0,
            lines_of_code_in_units: 0,
        },
        source,
    }
}

// ---------------------------------------------------------------------------
// Merging results
// ---------------------------------------------------------------------------

/// The last update for `path`, if any.
pub open spec fn last_update(updates: Seq<FileRecord>, path: Seq<char>) -> Option<FileRecordView>
    decreases updates.len(),
{
    if updates.len() == 0 {
        None
    } else if updates.last().relative_path@ == path {
        Some(updates.last()@)
    } else {
        last_update(updates.drop_last(), path)
    }
}

fn find_update(updates: &Vec<FileRecord>, path: &str) -> (r: Option<usize>)
    ensures
        match r {
            Some(k) => k < updates@.len() && last_update(updates@, path@) == Some(updates@[k as int]@),
            None => last_update(updates@, path@) is None,
        },
{
    let mut i: usize = updates.len();
    proof {
        assert(updates@.take(i as int) =~= updates@);
    }
    while i > 0
        invariant
            i <= updates@.len(),
            last_update(updates@, path@) == last_update(updates@.take(i as int), path@),
        decreases i,
    {
        proof {
            assert(updates@.take(i as int).drop_last() =~= updates@.take(i - 1));
            assert(updates@.take(i as int).last() == updates@[i - 1]);
        }
        if str_eq(updates[i - 1].relative_path.as_str(), path) {
            return Some(i - 1);
        }
        i -= 1;
    }
    None
}

/// Replaces every file that has an update by its last update.
pub fn merge_file_records(files: &mut Vec<FileRecord>, updates: Vec<FileRecord>)
    ensures
        final(files)@.len() == old(files)@.len(),
        forall|k: int|
            0 <= k < final(files)@.len() ==> (#[trigger] final(files)@[k])@ == match last_update(
                updates@,
                old(files)@[k].relative_path@,
            ) {
                Some(u) => u,
                None => old(files)@[k]@,
            },
{
    let ghost initial = files@;
    let mut k: usize = 0;
    while k < files.len()
        invariant
            k <= files@.len(),
            files@.len() == initial.len(),
            forall|m: int| k <= m < files@.len() ==> files@[m] == initial[m],
            forall|m: int|
                0 <= m < k ==> (#[trigger] files@[m])@ == match last_update(updates@, initial[m].relative_path@) {
                    Some(u) => u,
                    None => initial[m]@,
                },
        decreases files@.len() - k,
    {
        match find_update(&updates, files[k].relative_path.as_str()) {
            Some(u) => {
                let c = copy_file_record(&updates[u]);
                files.set(k, c);
            },
            None => {},
        }
        k += 1;
    }
}

/// The Java part of a repository analysis.
pub struct LanguageResults {
    pub files: Vec<FileRecord>,
    pub units: Vec<Unit>,
    pub dependencies: Vec<Dependency>,
    pub component_dependencies: Vec<ComponentDependency>,
    pub diagnostics: Vec<ParseDiagnostic>,
}

/// The Java analysis of the inputs (none when there are none), its units
/// ordered by decreasing size.
pub fn analyze_language_specifics(java_inputs: &Vec<JavaSourceInput>) -> (r: Result<LanguageResults, JavaAnalysisError>)
    ensures
        java_inputs@.len() == 0 ==> (r matches Ok(l) && l.files@.len() == 0 && l.units@.len() == 0
            && l.dependencies@.len() == 0 && l.component_dependencies@.len() == 0 && l.diagnostics@.len() == 0),
        r is Ok <==> crate::repository::repository_analysable(java_inputs@),
        java_inputs@.len() > 0 ==> (r matches Ok(l) ==> exists|a: crate::repository::JavaRepositoryAnalysis|
            {
                &&& crate::repository::java_analysis_of(a, java_inputs@)
                &&& l.files == a.files
                &&& l.units@ == sort_by_size(a.units@)
                &&& l.dependencies == a.dependencies
                &&& l.component_dependencies == a.component_dependencies
                &&& l.diagnostics == a.diagnostics
            }),
{
    if java_inputs.len() == 0 {
        return Ok(
            LanguageResults {
                files: Vec::new(),
                units: Vec::new(),
                dependencies: Vec::new(),
                component_dependencies: Vec::new(),
                diagnostics: Vec::new(),
            },
        );
    }
    let analysis = match analyze_java_repository(java_inputs.as_slice()) {
        Ok(a) => a,
        Err(e) => return Err(e),
    };
    let ghost a = analysis;
    let crate::repository::JavaRepositoryAnalysis { files, units, dependencies, component_dependencies, diagnostics } =
        analysis;
    let mut sorted: Vec<Unit> = Vec::new();
    let mut remaining = units;
    let ghost all = remaining@;
    let total = remaining.len();
    let mut u: usize = 0;
    while remaining.len() > 0
        invariant
            u <= all.len(),
            remaining@.len() + u == all.len(),
            all.len() == total,
            remaining@ == all.skip(u as int),
            sorted@ == sort_by_size(all.take(u as int)),
        decreases remaining@.len(),
    {
        let unit = remaining.remove(0);
        proof {
            assert(unit == all[u as int]);
            assert(remaining@ =~= all.skip(u + 1));
            assert(all.take(u + 1).drop_last() =~= all.take(u as int));
            assert(all.take(u + 1).last() == unit);
        }
        insert_unit_by_size(&mut sorted, unit);
        u += 1;
    }
    proof {
        assert(all.take(u as int) =~= all);
    }
    Ok(LanguageResults { files, units: sorted, dependencies, component_dependencies, diagnostics })
}

/// Directory names whose contents the file walk skips: version control,
/// the analyzer's own output, and build and package folders.
pub open spec fn skipped_directory(name: Seq<char>) -> bool {
    name == ".git"@ || name == "_sokrates"@ || name == "_sokrates_landscape"@ || name == "node_modules"@ || name
        == "target"@
}

/// Whether the file walk enters an entry: every file, and every directory
/// but the skipped ones.
pub fn should_visit_entry(is_dir: bool, name: &str) -> (b: bool)
    ensures
        b == (!is_dir || !skipped_directory(name@)),
{
    if !is_dir {
        return true;
    }
    !(str_eq(name, ".git") || str_eq(name, "_sokrates") || str_eq(name, "_sokrates_landscape") || str_eq(
        name,
        "node_modules",
    ) || str_eq(name, "target"))
}

/// The files without a repeated path: of files that follow each other with
/// the same path, the first stays.
pub open spec fn dedup_paths(fs: Seq<FileRecordView>) -> Seq<FileRecordView>
    decreases fs.len(),
{
    if fs.len() == 0 {
        fs
    } else {
        let rest = dedup_paths(fs.drop_last());
        if rest.len() > 0 && rest.last().relative_path == fs.last().relative_path {
            rest
        } else {
            rest.push(fs.last())
        }
    }
}

/// Some file has path `p`.
pub open spec fn has_path(fs: Seq<FileRecordView>, p: Seq<char>) -> bool {
    exists|k: int| 0 <= k < fs.len() && (#[trigger] fs[k]).relative_path == p
}

/// No file's path orders before the path of a file ahead of it.
pub open spec fn ascending_by_path(fs: Seq<FileRecordView>) -> bool {
    forall|i: int, j: int|
        0 <= i < j < fs.len() ==> !text_lt((#[trigger] fs[j]).relative_path, (#[trigger] fs[i]).relative_path)
}

/// The paths strictly increase.
pub open spec fn strictly_by_path(fs: Seq<FileRecordView>) -> bool {
    forall|i: int, j: int|
        0 <= i < j < fs.len() ==> text_lt((#[trigger] fs[i]).relative_path, (#[trigger] fs[j]).relative_path)
}

proof fn lemma_insert_by_path_sorted(sorted: Seq<FileRecordView>, f: FileRecordView)
    requires
        ascending_by_path(sorted),
    ensures
        ascending_by_path(insert_by_path(sorted, f)),
        insert_by_path(sorted, f).to_multiset() == sorted.to_multiset().insert(f),
    decreases sorted.len(),
{
    broadcast use vstd::seq_lib::group_to_multiset_ensures;

    if sorted.len() == 0 {
        assert(seq![f] =~= Seq::<FileRecordView>::empty().push(f));
    } else {
        let rest = sorted.drop_last();
        let last = sorted.last();
        assert(sorted =~= rest.push(last));
        if text_lt(f.relative_path, last.relative_path) {
            lemma_insert_by_path_sorted(rest, f);
            let ins = insert_by_path(rest, f);
            assert forall|i: int, j: int| 0 <= i < j < ins.push(last).len() implies !text_lt(
                (#[trigger] ins.push(last)[j]).relative_path,
                (#[trigger] ins.push(last)[i]).relative_path,
            ) by {
                if j == ins.len() {
                    let x = ins[i];
                    assert(ins.contains(x));
                    assert(ins.to_multiset().count(x) > 0);
                    if x == f {
                        lemma_text_lt_trichotomy(f.relative_path, last.relative_path);
                    } else {
                        assert(rest.to_multiset().count(x) > 0);
                        assert(rest.contains(x));
                        let k = choose|k: int| 0 <= k < rest.len() && rest[k] == x;
                        assert(sorted[k] == x);
                        assert(sorted[sorted.len() - 1] == last);
                    }
                } else {
                    assert(ins.push(last)[i] == ins[i]);
                    assert(ins.push(last)[j] == ins[j]);
                }
            }
        } else {
            assert forall|i: int, j: int| 0 <= i < j < sorted.push(f).len() implies !text_lt(
                (#[trigger] sorted.push(f)[j]).relative_path,
                (#[trigger] sorted.push(f)[i]).relative_path,
            ) by {
                if j == sorted.len() {
                    let x = sorted[i].relative_path;
                    if i < sorted.len() - 1 {
                        assert(!text_lt(sorted[sorted.len() - 1].relative_path, sorted[i].relative_path));
                    }
                    lemma_text_lt_trichotomy(last.relative_path, x);
                    if text_lt(f.relative_path, x) && text_lt(x, last.relative_path) {
                        lemma_text_lt_transitive(f.relative_path, x, last.relative_path);
                    }
                } else {
                    assert(sorted.push(f)[i] == sorted[i]);
                    assert(sorted.push(f)[j] == sorted[j]);
                }
            }
        }
    }
}

proof fn lemma_sorted_by_path(fs: Seq<FileRecordView>)
    ensures
        ascending_by_path(sorted_by_path(fs)),
        sorted_by_path(fs).to_multiset() == fs.to_multiset(),
    decreases fs.len(),
{
    broadcast use vstd::seq_lib::group_to_multiset_ensures;

    if fs.len() > 0 {
        lemma_sorted_by_path(fs.drop_last());
        lemma_insert_by_path_sorted(sorted_by_path(fs.drop_last()), fs.last());
        assert(fs =~= fs.drop_last().push(fs.last()));
    }
}

proof fn lemma_dedup_paths(fs: Seq<FileRecordView>)
    requires
        ascending_by_path(fs),
    ensures
        strictly_by_path(dedup_paths(fs)),
        forall|p: Seq<char>| has_path(dedup_paths(fs), p) <==> has_path(fs, p),
    decreases fs.len(),
{
    if fs.len() > 0 {
        let s = fs.drop_last();
        let l = fs.last();
        let r = dedup_paths(s);
        assert forall|i: int, j: int| 0 <= i < j < s.len() implies !text_lt(
            (#[trigger] s[j]).relative_path,
            (#[trigger] s[i]).relative_path,
        ) by {
            assert(s[i] == fs[i] && s[j] == fs[j]);
        }
        lemma_dedup_paths(s);
        if r.len() > 0 {
            assert(has_path(r, r.last().relative_path)) by {
                assert(r[r.len() - 1].relative_path == r.last().relative_path);
            }
            let k = choose|k: int| 0 <= k < s.len() && (#[trigger] s[k]).relative_path == r.last().relative_path;
            assert(fs[k] == s[k]);
            assert(fs[fs.len() - 1] == l);
            assert(!text_lt(l.relative_path, r.last().relative_path));
        }
        if r.len() > 0 && r.last().relative_path == l.relative_path {
            assert forall|p: Seq<char>| has_path(dedup_paths(fs), p) <==> has_path(fs, p) by {
                if has_path(fs, p) {
                    let k = choose|k: int| 0 <= k < fs.len() && (#[trigger] fs[k]).relative_path == p;
                    if k < s.len() {
                        assert(s[k] == fs[k]);
                        assert(has_path(s, p));
                    } else {
                        assert(r[r.len() - 1].relative_path == p);
                    }
                }
                if has_path(r, p) {
                    assert(has_path(s, p));
                    let k = choose|k: int| 0 <= k < s.len() && (#[trigger] s[k]).relative_path == p;
                    assert(fs[k] == s[k]);
                }
            }
        } else {
            let res = r.push(l);
            if r.len() > 0 {
                lemma_text_lt_trichotomy(l.relative_path, r.last().relative_path);
            }
            assert forall|i: int, j: int| 0 <= i < j < res.len() implies text_lt(
                (#[trigger] res[i]).relative_path,
                (#[trigger] res[j]).relative_path,
            ) by {
                if j == r.len() {
                    assert(res[j] == l);
                    assert(res[i] == r[i]);
                    if i < r.len() - 1 {
                        assert(text_lt(r[i].relative_path, r[r.len() - 1].relative_path));
                        lemma_text_lt_transitive(r[i].relative_path, r.last().relative_path, l.relative_path);
                    }
                } else {
                    assert(res[i] == r[i] && res[j] == r[j]);
                }
            }
            assert forall|p: Seq<char>| has_path(res, p) <==> has_path(fs, p) by {
                if has_path(fs, p) {
                    let k = choose|k: int| 0 <= k < fs.len() && (#[trigger] fs[k]).relative_path == p;
                    if k < s.len() {
                        assert(s[k] == fs[k]);
                        assert(has_path(s, p));
                        let m = choose|m: int| 0 <= m < r.len() && (#[trigger] r[m]).relative_path == p;
                        assert(res[m] == r[m]);
                    } else {
                        assert(res[r.len() as int] == l);
                    }
                }
                if has_path(res, p) {
                    let m = choose|m: int| 0 <= m < res.len() && (#[trigger] res[m]).relative_path == p;
                    if m < r.len() {
                        assert(res[m] == r[m]);
                        assert(has_path(r, p));
                        assert(has_path(s, p));
                        let k = choose|k: int| 0 <= k < s.len() && (#[trigger] s[k]).relative_path == p;
                        assert(fs[k] == s[k]);
                    } else {
                        assert(fs[fs.len() - 1] == l);
                    }
                }
            }
        }
    }
}

/// The found files come out each path once, in strictly ascending path
/// order, and every path found is among them.
pub proof fn lemma_files_unique_and_ordered(fs: Seq<FileRecordView>)
    ensures
        strictly_by_path(dedup_paths(sorted_by_path(fs))),
        forall|p: Seq<char>| has_path(dedup_paths(sorted_by_path(fs)), p) <==> has_path(fs, p),
{
    broadcast use vstd::seq_lib::group_to_multiset_ensures;

    let sorted = sorted_by_path(fs);
    lemma_sorted_by_path(fs);
    lemma_dedup_paths(sorted);
    assert forall|p: Seq<char>| has_path(sorted, p) <==> has_path(fs, p) by {
        if has_path(sorted, p) {
            let k = choose|k: int| 0 <= k < sorted.len() && (#[trigger] sorted[k]).relative_path == p;
            assert(sorted.contains(sorted[k]));
            assert(sorted.to_multiset().count(sorted[k]) > 0);
            assert(fs.contains(sorted[k]));
        }
        if has_path(fs, p) {
            let k = choose|k: int| 0 <= k < fs.len() && (#[trigger] fs[k]).relative_path == p;
            assert(fs.contains(fs[k]));
            assert(fs.to_multiset().count(fs[k]) > 0);
            assert(sorted.contains(fs[k]));
        }
    }
}

/// The found files ordered by path (a stable sort), each path once.
pub fn sort_and_dedup_files(files: Vec<FileRecord>) -> (r: Vec<FileRecord>)
    ensures
        record_views(r@) == dedup_paths(sorted_by_path(record_views(files@))),
{
    let ghost fs = record_views(files@);
    let mut sorted: Vec<FileRecord> = Vec::new();
    let mut i: usize = 0;
    while i < files.len()
        invariant
            i <= files@.len(),
            fs == record_views(files@),
            record_views(sorted@) == sorted_by_path(fs.take(i as int)),
        decreases files@.len() - i,
    {
        proof {
            assert(fs.take(i + 1).drop_last() =~= fs.take(i as int));
            assert(fs.take(i + 1).last() == files@[i as int]@);
        }
        let f = copy_file_record(&files[i]);
        let mut pos = sorted.len();
        while pos > 0 && str_lt(f.relative_path.as_str(), sorted[pos - 1].relative_path.as_str())
            invariant
                pos <= sorted@.len(),
                forall|k: int|
                    pos <= k < sorted@.len() ==> text_lt(f@.relative_path, (#[trigger] record_views(sorted@)[k]).relative_path),
            decreases pos,
        {
            pos -= 1;
        }
        proof {
            lemma_insert_by_path_at(record_views(sorted@), f@, pos as int);
        }
        let ghost before = record_views(sorted@);
        sorted.insert(pos, f);
        proof {
            assert(record_views(sorted@) =~= before.take(pos as int).push(f@) + before.skip(pos as int));
        }
        i += 1;
    }
    proof {
        assert(fs.take(files@.len() as int) =~= fs);
    }
    let ghost sv = record_views(sorted@);
    let mut unique: Vec<FileRecord> = Vec::new();
    let mut j: usize = 0;
    while j < sorted.len()
        invariant
            j <= sorted@.len(),
            sv == record_views(sorted@),
            record_views(unique@) == dedup_paths(sv.take(j as int)),
        decreases sorted@.len() - j,
    {
        proof {
            assert(sv.take(j + 1).drop_last() =~= sv.take(j as int));
            assert(sv.take(j + 1).last() == sorted@[j as int]@);
        }
        let n = unique.len();
        let repeated = n > 0 && str_eq(unique[n - 1].relative_path.as_str(), sorted[j].relative_path.as_str());
        if !repeated {
            let ghost before = record_views(unique@);
            unique.push(copy_file_record(&sorted[j]));
            proof {
                assert(record_views(unique@) =~= before.push(sorted@[j as int]@));
            }
        }
        j += 1;
    }
    proof {
        assert(sv.take(sorted@.len() as int) =~= sv);
    }
    unique
}

/// The repository analysis of the found files (ordered and each path once)
/// and the Java results: the files with the Java measurements merged in, the
/// summary counting them, and the units, dependencies and diagnostics of the
/// Java analysis.
pub fn assemble_repository_analysis(metadata: Metadata, files: Vec<FileRecord>, language: LanguageResults) -> (r:
    RepositoryAnalysis)
    ensures
        r.metadata == metadata,
        r.summary.total_files == files@.len(),
        r.files@.len() == files@.len(),
        forall|k: int|
            0 <= k < r.files@.len() ==> (#[trigger] r.files@[k])@ == match last_update(
                language.files@,
                files@[k].relative_path@,
            ) {
                Some(u) => u,
                None => files@[k]@,
            },
        forall|k: int| 0 <= k < r.files@.len() ==> (#[trigger] r.files@[k]).relative_path@ == files@[k].relative_path@,
        strictly_by_path(record_views(files@)) ==> strictly_by_path(record_views(r.files@)),
        r.units == language.units,
        r.dependencies == language.dependencies,
        r.component_dependencies == language.component_dependencies,
        r.diagnostics == language.diagnostics,
{
    let LanguageResults { files: updates, units, dependencies, component_dependencies, diagnostics } = language;
    let mut merged = files;
    merge_file_records(&mut merged, updates);
    let mut analysis = RepositoryAnalysis::with_files(metadata, merged);
    analysis.units = units;
    analysis.dependencies = dependencies;
    analysis.component_dependencies = component_dependencies;
    analysis.diagnostics = diagnostics;
    proof {
        assert forall|k: int| 0 <= k < analysis.files@.len() implies (#[trigger] analysis.files@[k]).relative_path@
            == files@[k].relative_path@ by {
            lemma_last_update_path(updates@, files@[k].relative_path@);
        }
        if strictly_by_path(record_views(files@)) {
            assert forall|i: int, j: int| 0 <= i < j < record_views(analysis.files@).len() implies text_lt(
                (#[trigger] record_views(analysis.files@)[i]).relative_path,
                (#[trigger] record_views(analysis.files@)[j]).relative_path,
            ) by {
                lemma_last_update_path(updates@, files@[i].relative_path@);
                lemma_last_update_path(updates@, files@[j].relative_path@);
                assert(record_views(files@)[i] == files@[i]@);
                assert(record_views(files@)[j] == files@[j]@);
            }
        }
    }
    analysis
}

proof fn lemma_last_update_path(updates: Seq<FileRecord>, path: Seq<char>)
    ensures
        last_update(updates, path) matches Some(u) ==> u.relative_path == path,
    decreases updates.len(),
{
    if updates.len() > 0 {
        lemma_last_update_path(updates.drop_last(), path);
    }
}

} // verus!
