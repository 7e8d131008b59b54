//! The analysis of a set of Java sources: per-file metrics, units, package
//! and component dependencies.
use vstd::prelude::*;

use crate::components::{
    all_links_covered, component_dependencies_of, component_dependency_ok, lemma_no_self_dependency, decomposition_set, extract_component_dependencies, triple_lt,
};
use crate::deps::{
    dependencies_of, dependency_at, dependency_of_some_pair, extract_package_dependencies, pair_lt, JavaAnalysisError,
};
use crate::ir::{
    copy_file_record, ComponentDependency, Dependency, DependencyAnchor, FileRecord, FileRecordView,
    ParseDiagnostic, Unit,
};
use crate::java::{
    anchor_names, anchor_pattern, anchors_of, cleaned_loc, cleaned_lines_of_code, collect_dependency_anchors,
    declared_package, declares_package, lemma_anchor_declared, JavaSourceInput,
};
use crate::pattern::{anchored, regex_compiles};
use crate::pathset::{str_eq, strictly_sorted};
use crate::text::{
    copy_string, copy_strings, lemma_text_lt_irreflexive, lemma_text_lt_transitive,
    lemma_text_lt_trichotomy, str_lt, text_lt, views,
};
use crate::syntax::{grammar_accepted, SupportedLanguage};
use crate::units::{analyze_file, insert_unit_by_size, java_file_analysis, java_units_buildable, sort_by_size};
use crate::java::JavaFileAnalysis;

verus! {

/// The outcome of analysing a set of Java sources.
#[derive(Debug, Default)]
pub struct JavaRepositoryAnalysis {
    pub files: Vec<FileRecord>,
    pub units: Vec<Unit>,
    pub dependencies: Vec<Dependency>,
    pub component_dependencies: Vec<ComponentDependency>,
    pub diagnostics: Vec<ParseDiagnostic>,
}

/// `usize` addition that stops at the largest value.
pub open spec fn sat(n: nat) -> nat {
    if n > usize::MAX {
        usize::MAX as nat
    } else {
        n
    }
}

/// The units that belong to file `key`: how many, their summed McCabe
/// indices and their summed sizes.
pub open spec fn unit_totals(units: Seq<Unit>, key: Seq<char>) -> (nat, nat, nat)
    decreases units.len(),
{
    if units.len() == 0 {
        (0, 0, 0)
    } else {
        let (c, m, l) = unit_totals(units.drop_last(), key);
        let u = units.last();
        if u.relative_file_name@ == key {
            (c + 1, m + u.mc_cabe_index as nat, l + u.lines_of_code as nat)
        } else {
            (c, m, l)
        }
    }
}

/// A file record with the totals of its units added (stopping at the
/// largest `usize`).
pub open spec fn with_unit_totals(f: FileRecordView, units: Seq<Unit>, key: Seq<char>) -> FileRecordView {
    let (c, m, l) = unit_totals(units, key);
    FileRecordView {
        units_count: sat(f.units_count + c),
        units_mc_cabe_index_sum: sat(f.units_mc_cabe_index_sum + m),
        lines_of_code_in_units: sat(f.lines_of_code_in_units + l),
        ..f
    }
}

/// The file record of the last input with path `key`.
pub open spec fn last_file(inputs: Seq<JavaSourceInput>, key: Seq<char>) -> Option<FileRecordView>
    decreases inputs.len(),
{
    if inputs.len() == 0 {
        None
    } else if inputs.last().relative_path@ == key {
        Some(inputs.last().file@)
    } else {
        last_file(inputs.drop_last(), key)
    }
}

/// `files` are the file records of `inputs` with their units' totals: one
/// per distinct input path, in path order, taken from the last input with
/// that path.
pub open spec fn file_records_of(inputs: Seq<JavaSourceInput>, units: Seq<Unit>, files: Seq<FileRecord>) -> bool {
    exists|keys: Seq<Seq<char>>|
        {
            &&& strictly_sorted(keys)
            &&& keys.len() == files.len()
            &&& forall|key: Seq<char>|
                keys.contains(key) <==> exists|k: int|
                    0 <= k < inputs.len() && (#[trigger] inputs[k]).relative_path@ == key
            &&& forall|k: int|
                0 <= k < keys.len() ==> last_file(inputs, #[trigger] keys[k]) is Some && files[k]@
                    == with_unit_totals(last_file(inputs, keys[k])->0, units, keys[k])
        }
}

/// Position of the first key not below `key`, and whether it is `key`.
fn key_position(keys: &Vec<String>, key: &str) -> (r: (usize, bool))
    requires
        strictly_sorted(views(keys@)),
    ensures
        r.0 <= keys@.len(),
        forall|i: int| 0 <= i < r.0 ==> text_lt(#[trigger] views(keys@)[i], key@),
        r.0 < keys@.len() ==> !text_lt(views(keys@)[r.0 as int], key@),
        r.1 <==> (r.0 < keys@.len() && views(keys@)[r.0 as int] == key@),
        r.1 <==> views(keys@).contains(key@),
{
    let ghost names = views(keys@);
    let mut i: usize = 0;
    while i < keys.len()
        invariant
            names == views(keys@),
            strictly_sorted(names),
            i <= names.len(),
            forall|k: int| 0 <= k < i ==> text_lt(#[trigger] names[k], key@),
        decreases names.len() - i,
    {
        if !str_lt(keys[i].as_str(), key) {
            let found = str_eq(keys[i].as_str(), key);
            proof {
                assert(names[i as int] == keys@[i as int]@);
                if !found {
                    assert forall|k: int| 0 <= k < names.len() implies names[k] != key@ by {
                        if k < i {
                            lemma_text_lt_irreflexive(key@);
                        } else if k > i {
                            lemma_text_lt_trichotomy(names[i as int], key@);
                            lemma_text_lt_transitive(key@, names[i as int], names[k]);
                            lemma_text_lt_irreflexive(key@);
                        }
                    }
                }
            }
            return (i, found);
        }
        i += 1;
    }
    proof {
        assert forall|k: int| 0 <= k < names.len() implies names[k] != key@ by {
            lemma_text_lt_irreflexive(key@);
        }
    }
    (i, false)
}

/// The inputs' file records, one per distinct path in path order, with the
/// number, summed McCabe index and summed size of the units in each.
#[verifier::rlimit(60)]
pub fn build_file_records(inputs: &[JavaSourceInput], units: &Vec<Unit>) -> (r: Vec<FileRecord>)
    ensures
        file_records_of(inputs@, units@, r@),
{
    let mut keys: Vec<String> = Vec::new();
    let mut files: Vec<FileRecord> = Vec::new();
    let mut i: usize = 0;
    while i < inputs.len()
        invariant
            i <= inputs@.len(),
            strictly_sorted(views(keys@)),
            keys@.len() == files@.len(),
            forall|key: Seq<char>|
                views(keys@).contains(key) <==> exists|k: int|
                    0 <= k < i && (#[trigger] inputs@[k]).relative_path@ == key,
            forall|k: int|
                0 <= k < keys@.len() ==> last_file(inputs@.take(i as int), #[trigger] views(keys@)[k])
                    == Some(files@[k]@),
        decreases inputs@.len() - i,
    {
        let ghost pre = inputs@.take(i as int);
        let ghost post = inputs@.take(i + 1);
        proof {
            assert(post.drop_last() =~= pre);
            assert(post.last() == inputs@[i as int]);
        }
        let key = inputs[i].relative_path.as_str();
        let (pos, found) = key_position(&keys, key);
        let ghost kb = views(keys@);
        let ghost fb = files@;
        let record = copy_file_record(&inputs[i].file);
        if found {
            files.set(pos, record);
            proof {
                assert forall|k: int|
                    0 <= k < keys@.len() implies last_file(post, #[trigger] views(keys@)[k]) == Some(files@[k]@) by {
                    if k != pos {
                        assert(kb[k] != key@);
                    }
                }
                assert forall|n: Seq<char>|
                    views(keys@).contains(n) <==> exists|k: int|
                        0 <= k < i + 1 && (#[trigger] inputs@[k]).relative_path@ == n by {
                    if n == key@ {
                        assert(inputs@[i as int].relative_path@ == n);
                    }
                }
            }
        } else {
            keys.insert(pos, key.to_owned());
            files.insert(pos, record);
            proof {
                assert(views(keys@) =~= kb.insert(pos as int, key@));
                assert forall|x: int, y: int|
                    0 <= x < y < views(keys@).len() implies text_lt(
                    #[trigger] views(keys@)[x],
                    #[trigger] views(keys@)[y],
                ) by {
                    if x == pos && y > pos {
                        lemma_text_lt_trichotomy(kb[pos as int], key@);
                        if y - 1 > pos {
                            lemma_text_lt_transitive(key@, kb[pos as int], kb[y - 1]);
                        }
                    }
                }
                assert forall|k: int|
                    0 <= k < keys@.len() implies last_file(post, #[trigger] views(keys@)[k]) == Some(files@[k]@) by {
                    if k < pos {
                        assert(views(keys@)[k] == kb[k]);
                        assert(files@[k] == fb[k]);
                        assert(kb[k] != key@);
                    } else if k > pos {
                        assert(views(keys@)[k] == kb[k - 1]);
                        assert(files@[k] == fb[k - 1]);
                        assert(kb[k - 1] != key@);
                    }
                }
                assert forall|n: Seq<char>|
                    views(keys@).contains(n) <==> exists|k: int|
                        0 <= k < i + 1 && (#[trigger] inputs@[k]).relative_path@ == n by {
                    if n == key@ {
                        assert(inputs@[i as int].relative_path@ == n);
                        assert(views(keys@)[pos as int] == n);
                    } else {
                        if kb.contains(n) {
                            let k = choose|k: int| 0 <= k < kb.len() && kb[k] == n;
                            if k < pos {
                                assert(views(keys@)[k] == n);
                            } else {
                                assert(views(keys@)[k + 1] == n);
                            }
                        }
                        if views(keys@).contains(n) {
                            let k = choose|k: int| 0 <= k < views(keys@).len() && views(keys@)[k] == n;
                            if k < pos {
                                assert(kb[k] == n);
                            } else if k > pos {
                                assert(kb[k - 1] == n);
                            }
                        }
                    }
                }
            }
        }
        i += 1;
    }
    proof {
        assert(inputs@.take(inputs@.len() as int) =~= inputs@);
        assert forall|k: int| 0 <= k < keys@.len() implies with_unit_totals(
            last_file(inputs@, #[trigger] views(keys@)[k])->0,
            units@.take(0),
            views(keys@)[k],
        ) == files@[k]@ by {
            assert(units@.take(0) =~= Seq::<Unit>::empty());
        }
    }
    let ghost initial = files@;
    let mut j: usize = 0;
    while j < units.len()
        invariant
            j <= units@.len(),
            strictly_sorted(views(keys@)),
            keys@.len() == files@.len(),
            forall|key: Seq<char>|
                views(keys@).contains(key) <==> exists|k: int|
                    0 <= k < inputs@.len() && (#[trigger] inputs@[k]).relative_path@ == key,
            forall|k: int|
                0 <= k < keys@.len() ==> last_file(inputs@, #[trigger] views(keys@)[k]) is Some && files@[k]@
                    == with_unit_totals(last_file(inputs@, views(keys@)[k])->0, units@.take(j as int), views(keys@)[k]),
        decreases units@.len() - j,
    {
        proof {
            assert(units@.take(j + 1).drop_last() =~= units@.take(j as int));
            assert(units@.take(j + 1).last() == units@[j as int]);
        }
        let unit = &units[j];
        let (pos, found) = key_position(&keys, unit.relative_file_name.as_str());
        if found {
            let ghost fb = files@;
            let mut record = files.remove(pos);
            record.units_count = record.units_count.saturating_add(1);
            record.units_mc_cabe_index_sum = record.units_mc_cabe_index_sum.saturating_add(unit.mc_cabe_index);
            record.lines_of_code_in_units = record.lines_of_code_in_units.saturating_add(unit.lines_of_code);
            files.insert(pos, record);
            proof {
                assert forall|k: int|
                    0 <= k < keys@.len() implies last_file(inputs@, #[trigger] views(keys@)[k]) is Some && files@[k]@
                        == with_unit_totals(last_file(inputs@, views(keys@)[k])->0, units@.take(j + 1), views(keys@)[k]) by {
                    if k != pos {
                        assert(files@[k] == fb[k]);
                        assert(views(keys@)[k] != unit.relative_file_name@);
                    } else {
                        assert(views(keys@)[k] == unit.relative_file_name@);
                    }
                }
            }
        } else {
            proof {
                assert forall|k: int|
                    0 <= k < keys@.len() implies last_file(inputs@, #[trigger] views(keys@)[k]) is Some && files@[k]@
                        == with_unit_totals(last_file(inputs@, views(keys@)[k])->0, units@.take(j + 1), views(keys@)[k]) by {
                    assert(views(keys@)[k] != unit.relative_file_name@);
                }
            }
        }
        j += 1;
    }
    proof {
        assert(units@.take(units@.len() as int) =~= units@);
        assert(forall|key: Seq<char>| #[trigger] views(keys@).contains(key) <==> views(keys@).contains(key));
    }
    files
}

/// The input with its lines of code recounted from the source, comments
/// and blank lines left out.
pub open spec fn normalized_input(a: JavaSourceInput, b: JavaSourceInput) -> bool {
    &&& b.relative_path@ == a.relative_path@
    &&& b.source@ == a.source@
    &&& b.file@ == FileRecordView { lines_of_code: cleaned_loc(a.source@), ..a.file@ }
}

fn normalize_repository_input(input: &JavaSourceInput) -> (r: JavaSourceInput)
    ensures
        normalized_input(*input, r),
{
    let mut file = copy_file_record(&input.file);
    file.lines_of_code = cleaned_lines_of_code(input.source.as_str());
    JavaSourceInput {
        relative_path: copy_string(&input.relative_path),
        source: copy_string(&input.source),
        file,
    }
}

/// `a` is the analysis of one file: its path, source and components, read
/// through the syntax tree of its source.
pub open spec fn analyzed_file(a: JavaFileAnalysis, input: JavaSourceInput) -> bool {
    java_file_analysis(a, input.relative_path@, input.source@, views(input.file.components@))
}

/// The units of all the per-file analyses, file after file.
pub open spec fn all_units(files: Seq<JavaFileAnalysis>) -> Seq<Unit>
    decreases files.len(),
{
    if files.len() == 0 {
        Seq::empty()
    } else {
        all_units(files.drop_last()) + files.last().units@
    }
}

/// The diagnostics of all the per-file analyses, file after file.
pub open spec fn all_diagnostics(files: Seq<JavaFileAnalysis>) -> Seq<ParseDiagnostic>
    decreases files.len(),
{
    if files.len() == 0 {
        Seq::empty()
    } else {
        all_diagnostics(files.drop_last()) + files.last().diagnostics@
    }
}

proof fn lemma_sort_by_size_append(prefix: Seq<Unit>, more: Seq<Unit>, k: int)
    requires
        0 <= k < more.len(),
    ensures
        sort_by_size(prefix + more.take(k + 1)) == crate::units::insert_by_size(
            sort_by_size(prefix + more.take(k)),
            more[k],
        ),
{
    assert((prefix + more.take(k + 1)).drop_last() =~= prefix + more.take(k));
    assert((prefix + more.take(k + 1)).last() == more[k]);
}

/// `a` is the analysis of the inputs: each file's lines of code counted
/// without comments and blank lines, its units (all files' units ordered by
/// decreasing size), per-file unit totals, package dependencies between the
/// packages the files declare, and the component dependencies they imply.
pub open spec fn java_analysis_of(a: JavaRepositoryAnalysis, inputs: Seq<JavaSourceInput>) -> bool {
    exists|
            normalized: Seq<JavaSourceInput>,
            per_file: Seq<JavaFileAnalysis>,
            anchors: Seq<DependencyAnchor>,
        |
            {
                &&& normalized.len() == inputs.len()
                &&& per_file.len() == inputs.len()
                &&& forall|k: int|
                    0 <= k < inputs.len() ==> normalized_input(inputs[k], #[trigger] normalized[k])
                        && analyzed_file(per_file[k], normalized[k])
                &&& a.units@ == sort_by_size(all_units(per_file))
                &&& a.diagnostics@ == all_diagnostics(per_file)
                &&& file_records_of(normalized, a.units@, a.files@)
                &&& anchors_of(normalized, anchors)
                &&& dependencies_of(normalized, anchors, a.dependencies@)
                &&& forall|x: int, y: int|
                    0 <= x < y < a.component_dependencies@.len() ==> triple_lt(
                        #[trigger] a.component_dependencies@[x].decomposition@,
                        a.component_dependencies@[x].from_component@,
                        a.component_dependencies@[x].to_component@,
                        #[trigger] a.component_dependencies@[y].decomposition@,
                        a.component_dependencies@[y].from_component@,
                        a.component_dependencies@[y].to_component@,
                    )
                &&& forall|k: int|
                    0 <= k < a.component_dependencies@.len() ==> decomposition_set(a.dependencies@).contains(
                        (#[trigger] a.component_dependencies@[k]).decomposition@,
                    ) && component_dependency_ok(
                        a.dependencies@,
                        a.component_dependencies@[k].decomposition@,
                        a.component_dependencies@[k],
                    )
                &&& all_links_covered(a.dependencies@, a.component_dependencies@)
            }
}

proof fn lemma_last_file_origin(inputs: Seq<JavaSourceInput>, key: Seq<char>)
    requires
        last_file(inputs, key) is Some,
    ensures
        exists|j: int|
            0 <= j < inputs.len() && (#[trigger] inputs[j]).relative_path@ == key && last_file(inputs, key)
                == Some(inputs[j].file@),
    decreases inputs.len(),
{
    if inputs.last().relative_path@ != key {
        lemma_last_file_origin(inputs.drop_last(), key);
        let j = choose|j: int|
            0 <= j < inputs.drop_last().len() && (#[trigger] inputs.drop_last()[j]).relative_path@ == key
                && last_file(inputs.drop_last(), key) == Some(inputs.drop_last()[j].file@);
        assert(inputs[j] == inputs.drop_last()[j]);
    } else {
        assert(inputs[inputs.len() - 1] == inputs.last());
    }
}

/// The file record a repository analysis gives for input `i`: its record
/// with lines of code counted without comments and blank lines, and the
/// totals of the units in its file added.
pub open spec fn input_file_record(i: JavaSourceInput, units: Seq<Unit>) -> FileRecordView {
    with_unit_totals(FileRecordView { lines_of_code: cleaned_loc(i.source@), ..i.file@ }, units, i.relative_path@)
}

/// When the inputs have distinct paths, each also their record's path, a
/// repository analysis has one file record per input, strictly ordered by
/// path, each the input's record with its lines of code recounted and its
/// units' totals added.
pub proof fn lemma_repository_files(a: JavaRepositoryAnalysis, inputs: Seq<JavaSourceInput>)
    requires
        java_analysis_of(a, inputs),
        forall|i: int, j: int|
            0 <= i < j < inputs.len() ==> (#[trigger] inputs[i]).relative_path@ != (#[trigger] inputs[j]).relative_path@,
        forall|i: int| 0 <= i < inputs.len() ==> (#[trigger] inputs[i]).file.relative_path@ == inputs[i].relative_path@,
    ensures
        a.files@.len() == inputs.len(),
        forall|x: int, y: int|
            0 <= x < y < a.files@.len() ==> text_lt(
                (#[trigger] a.files@[x]).relative_path@,
                (#[trigger] a.files@[y]).relative_path@,
            ),
        forall|k: int|
            0 <= k < a.files@.len() ==> exists|i: int|
                0 <= i < inputs.len() && (#[trigger] a.files@[k])@ == input_file_record(inputs[i], a.units@),
{
    let (normalized, per_file, anchors) = choose|
            normalized: Seq<JavaSourceInput>,
            per_file: Seq<JavaFileAnalysis>,
            anchors: Seq<DependencyAnchor>,
        |
            {
                &&& normalized.len() == inputs.len()
                &&& per_file.len() == inputs.len()
                &&& forall|k: int|
                    0 <= k < inputs.len() ==> normalized_input(inputs[k], #[trigger] normalized[k])
                        && analyzed_file(per_file[k], normalized[k])
                &&& a.units@ == sort_by_size(all_units(per_file))
                &&& a.diagnostics@ == all_diagnostics(per_file)
                &&& file_records_of(normalized, a.units@, a.files@)
                &&& anchors_of(normalized, anchors)
                &&& dependencies_of(normalized, anchors, a.dependencies@)
                &&& forall|x: int, y: int|
                    0 <= x < y < a.component_dependencies@.len() ==> triple_lt(
                        #[trigger] a.component_dependencies@[x].decomposition@,
                        a.component_dependencies@[x].from_component@,
                        a.component_dependencies@[x].to_component@,
                        #[trigger] a.component_dependencies@[y].decomposition@,
                        a.component_dependencies@[y].from_component@,
                        a.component_dependencies@[y].to_component@,
                    )
                &&& forall|k: int|
                    0 <= k < a.component_dependencies@.len() ==> decomposition_set(a.dependencies@).contains(
                        (#[trigger] a.component_dependencies@[k]).decomposition@,
                    ) && component_dependency_ok(
                        a.dependencies@,
                        a.component_dependencies@[k].decomposition@,
                        a.component_dependencies@[k],
                    )
                &&& all_links_covered(a.dependencies@, a.component_dependencies@)
            };
    let keys = choose|keys: Seq<Seq<char>>|
        {
            &&& strictly_sorted(keys)
            &&& keys.len() == a.files@.len()
            &&& forall|key: Seq<char>|
                keys.contains(key) <==> exists|k: int|
                    0 <= k < normalized.len() && (#[trigger] normalized[k]).relative_path@ == key
            &&& forall|k: int|
                0 <= k < keys.len() ==> last_file(normalized, #[trigger] keys[k]) is Some && a.files@[k]@
                    == with_unit_totals(last_file(normalized, keys[k])->0, a.units@, keys[k])
        };
    // Each record is the record of the input whose path is its key.
    assert forall|k: int| 0 <= k < a.files@.len() implies a.files@[k].relative_path@ == keys[k] && exists|i: int|
        0 <= i < inputs.len() && (#[trigger] a.files@[k])@ == input_file_record(inputs[i], a.units@) by {
        let key = keys[k];
        lemma_last_file_origin(normalized, key);
        let j = choose|j: int|
            0 <= j < normalized.len() && (#[trigger] normalized[j]).relative_path@ == key && last_file(normalized, key)
                == Some(normalized[j].file@);
        assert(normalized_input(inputs[j], normalized[j]));
        assert(a.files@[k]@ == input_file_record(inputs[j], a.units@));
    }
    assert forall|x: int, y: int| 0 <= x < y < a.files@.len() implies text_lt(
        (#[trigger] a.files@[x]).relative_path@,
        (#[trigger] a.files@[y]).relative_path@,
    ) by {
        assert(a.files@[x].relative_path@ == keys[x]);
        assert(a.files@[y].relative_path@ == keys[y]);
    }
    // As many keys as inputs: both are the inputs' distinct paths.
    let paths = inputs.map_values(|i: JavaSourceInput| i.relative_path@);
    assert(keys.no_duplicates()) by {
        assert forall|i: int, j: int| 0 <= i < keys.len() && 0 <= j < keys.len() && i != j implies keys[i] != keys[j] by {
            lemma_text_lt_irreflexive(keys[i]);
            if i < j {
                assert(text_lt(keys[i], keys[j]));
            } else {
                assert(text_lt(keys[j], keys[i]));
            }
        }
    }
    assert(paths.no_duplicates()) by {
        assert forall|i: int, j: int| 0 <= i < paths.len() && 0 <= j < paths.len() && i != j implies paths[i] != paths[j] by {
            if i < j {
                assert(inputs[i].relative_path@ != inputs[j].relative_path@);
            } else {
                assert(inputs[j].relative_path@ != inputs[i].relative_path@);
            }
        }
    }
    assert(keys.to_set() =~= paths.to_set()) by {
        assert forall|key: Seq<char>| keys.to_set().contains(key) implies paths.to_set().contains(key) by {
            assert(keys.contains(key));
            let k = choose|k: int| 0 <= k < normalized.len() && (#[trigger] normalized[k]).relative_path@ == key;
            assert(normalized_input(inputs[k], normalized[k]));
            assert(paths[k] == key);
        }
        assert forall|key: Seq<char>| paths.to_set().contains(key) implies keys.to_set().contains(key) by {
            assert(paths.contains(key));
            let k = choose|k: int| 0 <= k < paths.len() && paths[k] == key;
            assert(normalized_input(inputs[k], normalized[k]));
            assert(normalized[k].relative_path@ == key);
            assert(keys.contains(key));
        }
    }
    keys.unique_seq_to_set();
    paths.unique_seq_to_set();
}

/// In a repository analysis, the package dependencies are strictly ordered
/// by (from, to), each links two different packages as its anchors name
/// them, is of kind `package` and has evidence; the component dependencies
/// are strictly ordered by (decomposition, from, to), each counts its
/// evidence and links two different components, and they are the complete
/// list that the package dependencies determine.
pub proof fn lemma_repository_dependencies(a: JavaRepositoryAnalysis, inputs: Seq<JavaSourceInput>)
    requires
        java_analysis_of(a, inputs),
    ensures
        forall|x: int, y: int|
            0 <= x < y < a.dependencies@.len() ==> pair_lt(
                #[trigger] a.dependencies@[x].from@,
                a.dependencies@[x].to@,
                #[trigger] a.dependencies@[y].from@,
                a.dependencies@[y].to@,
            ),
        forall|k: int|
            0 <= k < a.dependencies@.len() ==> {
                let d = #[trigger] a.dependencies@[k];
                &&& d.from@ != d.to@
                &&& d.kind@ == "package"@
                &&& d.from@ == d.from_anchor.anchor@
                &&& d.to@ == d.to_anchor.anchor@
                &&& d.from_files@.len() > 0
            },
        forall|x: int, y: int|
            0 <= x < y < a.component_dependencies@.len() ==> triple_lt(
                #[trigger] a.component_dependencies@[x].decomposition@,
                a.component_dependencies@[x].from_component@,
                a.component_dependencies@[x].to_component@,
                #[trigger] a.component_dependencies@[y].decomposition@,
                a.component_dependencies@[y].from_component@,
                a.component_dependencies@[y].to_component@,
            ),
        forall|k: int|
            0 <= k < a.component_dependencies@.len() ==> {
                let c = #[trigger] a.component_dependencies@[k];
                &&& c.count == c.evidence@.len()
                &&& c.from_component@ != c.to_component@
            },
        component_dependencies_of(a.dependencies@, a.component_dependencies@),
{
    let (normalized, per_file, anchors) = choose|
            normalized: Seq<JavaSourceInput>,
            per_file: Seq<JavaFileAnalysis>,
            anchors: Seq<DependencyAnchor>,
        |
            {
                &&& normalized.len() == inputs.len()
                &&& per_file.len() == inputs.len()
                &&& forall|k: int|
                    0 <= k < inputs.len() ==> normalized_input(inputs[k], #[trigger] normalized[k])
                        && analyzed_file(per_file[k], normalized[k])
                &&& a.units@ == sort_by_size(all_units(per_file))
                &&& a.diagnostics@ == all_diagnostics(per_file)
                &&& file_records_of(normalized, a.units@, a.files@)
                &&& anchors_of(normalized, anchors)
                &&& dependencies_of(normalized, anchors, a.dependencies@)
                &&& forall|x: int, y: int|
                    0 <= x < y < a.component_dependencies@.len() ==> triple_lt(
                        #[trigger] a.component_dependencies@[x].decomposition@,
                        a.component_dependencies@[x].from_component@,
                        a.component_dependencies@[x].to_component@,
                        #[trigger] a.component_dependencies@[y].decomposition@,
                        a.component_dependencies@[y].from_component@,
                        a.component_dependencies@[y].to_component@,
                    )
                &&& forall|k: int|
                    0 <= k < a.component_dependencies@.len() ==> decomposition_set(a.dependencies@).contains(
                        (#[trigger] a.component_dependencies@[k]).decomposition@,
                    ) && component_dependency_ok(
                        a.dependencies@,
                        a.component_dependencies@[k].decomposition@,
                        a.component_dependencies@[k],
                    )
                &&& all_links_covered(a.dependencies@, a.component_dependencies@)
            };
    assert forall|k: int| 0 <= k < a.dependencies@.len() implies {
        let d = #[trigger] a.dependencies@[k];
        &&& d.from@ != d.to@
        &&& d.kind@ == "package"@
        &&& d.from@ == d.from_anchor.anchor@
        &&& d.to@ == d.to_anchor.anchor@
        &&& d.from_files@.len() > 0
    } by {
        let d = a.dependencies@[k];
        assert(dependency_of_some_pair(normalized, anchors, d));
        let (p, q) = choose|p: int, q: int| #[trigger] dependency_at(normalized, anchors, d, p, q);
        let names = anchor_names(anchors);
        assert(names[p] == anchors[p].anchor@);
        assert(names[q] == anchors[q].anchor@);
        if p < q {
            assert(text_lt(names[p], names[q]));
        } else {
            assert(text_lt(names[q], names[p]));
        }
        lemma_text_lt_irreflexive(names[p]);
    }
    assert forall|k: int| 0 <= k < a.component_dependencies@.len() implies {
        let c = #[trigger] a.component_dependencies@[k];
        &&& c.count == c.evidence@.len()
        &&& c.from_component@ != c.to_component@
    } by {
        let c = a.component_dependencies@[k];
        lemma_no_self_dependency(a.dependencies@, c.decomposition@, c);
    }
}

/// Every package that an input declares has a dependency pattern that
/// compiles.
pub open spec fn package_patterns_compile(inputs: Seq<JavaSourceInput>) -> bool {
    forall|k: int|
        0 <= k < inputs.len() ==> match #[trigger] declared_package(inputs[k]) {
            Some((n, _)) => regex_compiles(anchored(anchor_pattern(n))),
            None => true,
        }
}

/// The analysis of `inputs` succeeds: when there are inputs, tree-sitter
/// accepts the Java grammar; every unit of every file can be built from its
/// declaration node; and every declared package's dependency pattern
/// compiles.
pub open spec fn repository_analysable(inputs: Seq<JavaSourceInput>) -> bool {
    &&& inputs.len() > 0 ==> grammar_accepted(SupportedLanguage::Java)
    &&& forall|k: int| 0 <= k < inputs.len() ==> java_units_buildable(#[trigger] inputs[k].source@)
    &&& package_patterns_compile(inputs)
}

proof fn lemma_patterns_compile(
    inputs: Seq<JavaSourceInput>,
    normalized: Seq<JavaSourceInput>,
    anchors: Seq<DependencyAnchor>,
)
    requires
        normalized.len() == inputs.len(),
        forall|k: int| 0 <= k < inputs.len() ==> normalized_input(inputs[k], #[trigger] normalized[k]),
        anchors_of(normalized, anchors),
    ensures
        package_patterns_compile(inputs) <==> forall|p: int, k: int|
            0 <= p < anchors.len() && 0 <= k < anchors[p].dependency_patterns@.len() ==> regex_compiles(
                anchored(#[trigger] anchors[p].dependency_patterns@[k]@),
            ),
{
    let all_compile = forall|p: int, k: int|
        0 <= p < anchors.len() && 0 <= k < anchors[p].dependency_patterns@.len() ==> regex_compiles(
            anchored(#[trigger] anchors[p].dependency_patterns@[k]@),
        );
    if package_patterns_compile(inputs) {
        assert forall|p: int, k: int|
            0 <= p < anchors.len() && 0 <= k < anchors[p].dependency_patterns@.len() implies regex_compiles(
            anchored(#[trigger] anchors[p].dependency_patterns@[k]@),
        ) by {
            let name = anchors[p].anchor@;
            assert(views(anchors[p].dependency_patterns@) == seq![anchor_pattern(name)]);
            assert(views(anchors[p].dependency_patterns@)[k] == anchors[p].dependency_patterns@[k]@);
            lemma_anchor_declared(normalized, name);
            let j = choose|j: int| 0 <= j < normalized.len() && #[trigger] declares_package(normalized[j], name);
            assert(normalized_input(inputs[j], normalized[j]));
            assert(declared_package(inputs[j]) == declared_package(normalized[j]));
        }
    }
    if all_compile {
        assert forall|k: int| 0 <= k < inputs.len() implies match #[trigger] declared_package(inputs[k]) {
            Some((n, _)) => regex_compiles(anchored(anchor_pattern(n))),
            None => true,
        } by {
            assert(normalized_input(inputs[k], normalized[k]));
            assert(declared_package(inputs[k]) == declared_package(normalized[k]));
            if let Some((n, _)) = declared_package(inputs[k]) {
                assert(declares_package(normalized[k], n));
                lemma_anchor_declared(normalized, n);
                assert(anchor_names(anchors).contains(n));
                let p = choose|p: int| 0 <= p < anchor_names(anchors).len() && anchor_names(anchors)[p] == n;
                assert(anchors[p].anchor@ == n);
                assert(views(anchors[p].dependency_patterns@) == seq![anchor_pattern(n)]);
                assert(views(anchors[p].dependency_patterns@)[0] == anchors[p].dependency_patterns@[0]@);
                assert(regex_compiles(anchored(anchors[p].dependency_patterns@[0]@)));
            }
        }
    }
}

/// The analysis of a set of Java sources: each file's lines of code counted
/// without comments and blank lines, its units (all files' units ordered by
/// decreasing size), per-file unit totals, package dependencies between the
/// packages the files declare, and the component dependencies they imply.
pub fn analyze_repository(inputs: &[JavaSourceInput]) -> (r: Result<JavaRepositoryAnalysis, JavaAnalysisError>)
    ensures
        r is Ok <==> repository_analysable(inputs@),
        r matches Ok(a) ==> java_analysis_of(a, inputs@),
{
    let mut normalized: Vec<JavaSourceInput> = Vec::new();
    let mut i: usize = 0;
    while i < inputs.len()
        invariant
            i <= inputs@.len(),
            normalized@.len() == i,
            forall|k: int| 0 <= k < i ==> normalized_input(inputs@[k], #[trigger] normalized@[k]),
        decreases inputs@.len() - i,
    {
        normalized.push(normalize_repository_input(&inputs[i]));
        i += 1;
    }
    let mut units: Vec<Unit> = Vec::new();
    let mut diagnostics: Vec<ParseDiagnostic> = Vec::new();
    let ghost mut per_file: Seq<JavaFileAnalysis> = Seq::empty();
    let mut f: usize = 0;
    while f < normalized.len()
        invariant
            f <= normalized@.len(),
            normalized@.len() == inputs@.len(),
            per_file.len() == f,
            forall|k: int| 0 <= k < inputs@.len() ==> normalized_input(inputs@[k], #[trigger] normalized@[k]),
            forall|k: int| 0 <= k < f ==> java_units_buildable(#[trigger] inputs@[k].source@),
            f > 0 ==> grammar_accepted(SupportedLanguage::Java),
            forall|k: int| 0 <= k < f ==> analyzed_file(#[trigger] per_file[k], normalized@[k]),
            units@ == sort_by_size(all_units(per_file)),
            diagnostics@ == all_diagnostics(per_file),
        decreases normalized@.len() - f,
    {
        let input = &normalized[f];
        let analysis = match analyze_file(
            input.relative_path.as_str(),
            input.source.as_str(),
            copy_strings(&input.file.components),
        ) {
            Ok(a) => a,
            Err(e) => {
                proof {
                    assert(normalized_input(inputs@[f as int], normalized@[f as int]));
                    assert(!java_units_buildable(inputs@[f as int].source@) || !grammar_accepted(
                        SupportedLanguage::Java,
                    ));
                }
                return Err(e);
            },
        };
        proof {
            assert(normalized_input(inputs@[f as int], normalized@[f as int]));
            assert(java_units_buildable(inputs@[f as int].source@));
        }
        let ghost prefix = all_units(per_file);
        let ghost file_units = analysis.units@;
        proof {
            let next = per_file.push(analysis);
            assert(next.drop_last() =~= per_file);
            assert(all_units(next) == prefix + file_units);
            assert(all_diagnostics(next) == all_diagnostics(per_file) + analysis.diagnostics@);
            assert(prefix + file_units.take(0) =~= prefix);
            per_file = next;
        }
        let JavaFileAnalysis { units: file_unit_vec, diagnostics: mut file_diagnostics } = analysis;
        diagnostics.append(&mut file_diagnostics);
        let mut file_unit_vec = file_unit_vec;
        let mut u: usize = 0;
        let file_unit_count = file_unit_vec.len();
        while file_unit_vec.len() > 0
            invariant
                file_units.len() == file_unit_count,
                u <= file_units.len(),
                file_unit_vec@ == file_units.skip(u as int),
                units@ == sort_by_size(prefix + file_units.take(u as int)),
            decreases file_unit_vec@.len(),
        {
            proof {
                lemma_sort_by_size_append(prefix, file_units, u as int);
            }
            let unit = file_unit_vec.remove(0);
            proof {
                assert(unit == file_units[u as int]);
                assert(file_unit_vec@ =~= file_units.skip(u + 1));
            }
            insert_unit_by_size(&mut units, unit);
            u += 1;
        }
        proof {
            assert(u == file_units.len());
        }
        proof {
            assert(file_units.take(file_units.len() as int) =~= file_units);
        }
        f += 1;
    }
    let files = build_file_records(normalized.as_slice(), &units);
    let anchors = collect_dependency_anchors(normalized.as_slice());
    proof {
        lemma_patterns_compile(inputs@, normalized@, anchors@);
    }
    let dependencies = match extract_package_dependencies(normalized.as_slice(), &anchors) {
        Ok(d) => d,
        Err(e) => return Err(e),
    };
    let component_dependencies = extract_component_dependencies(&dependencies);
    Ok(JavaRepositoryAnalysis { files, units, dependencies, component_dependencies, diagnostics })
}

} // verus!
