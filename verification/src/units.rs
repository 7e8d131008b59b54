//! Units (methods, constructors, static initializers) of a Java file and
//! their metrics.
use vstd::prelude::*;
use vstd::string::StringSliceAdditionalSpecFns;
use vstd::utf8::{decode_utf8, encode_utf8, is_char_boundary};

use crate::deps::JavaAnalysisError;
use crate::ir::{DiagnosticSeverity, ParseDiagnostic, Unit};
use crate::java::{calculate_mcabe_index, join, mcabe_index, normalize_whitespace, words, JavaFileAnalysis};
use crate::syntax::{
    collect_unit_nodes, grammar_accepted, grammar_of, is_unit_kind, node_readings, parse, parse_reading, parsed_unit_readings,
    unit_readings, NodeReading, SupportedLanguage, TreeReading, UnitNode,
};
use crate::text::{
    chars_of, copy_string, copy_strings, decimal, lines, lines_of, push_decimal, push_str, string_of,
    views,
};

verus! {

/// The text between two byte offsets of `s`, when both are in range, in
/// order and on character boundaries (what `str::get(start..end)` gives).
fn str_slice(s: &str, start: usize, end: usize) -> (r: Option<&str>)
    ensures
        r is Some <==> (start <= end <= s.spec_bytes().len() && is_char_boundary(
            s.spec_bytes(),
            start as int,
        ) && is_char_boundary(s.spec_bytes(), end as int)),
        r matches Some(t) ==> t.spec_bytes() == s.spec_bytes().subrange(start as int, end as int),
{
    let n = s.as_bytes().len();
    if start <= end && end <= n && s.is_char_boundary(start) && s.is_char_boundary(end) {
        let ghost bytes = s.spec_bytes();
        proof {
            vstd::utf8::encode_utf8_valid_utf8(s@);
        }
        let (_, rest) = s.split_at(start);
        let ghost tail = rest.spec_bytes();
        proof {
            vstd::utf8::valid_utf8_split(bytes, start as int);
            vstd::utf8::encode_utf8_valid_utf8(rest@);
            let d = end - start;
            if d == 0 {
            } else if end == n {
                vstd::utf8::is_char_boundary_start_end_of_seq(tail);
                assert(tail.len() == d);
            } else {
                vstd::utf8::is_char_boundary_iff_not_is_continuation_byte(bytes, end as int);
                vstd::utf8::is_char_boundary_iff_not_is_continuation_byte(tail, d as int);
                assert(tail[d as int] == bytes[end as int]);
            }
        }
        let (mid, _) = rest.split_at(end - start);
        proof {
            assert(mid.spec_bytes() =~= bytes.subrange(start as int, end as int));
        }
        Some(mid)
    } else {
        None
    }
}

/// The text of `source` between two byte offsets of its UTF-8 encoding.
pub open spec fn byte_text(source: Seq<char>, start: int, end: int) -> Option<Seq<char>> {
    let bytes = encode_utf8(source);
    if start <= end <= bytes.len() && is_char_boundary(bytes, start) && is_char_boundary(bytes, end) {
        Some(decode_utf8(bytes.subrange(start, end)))
    } else {
        None
    }
}

pub(crate) fn text_between(source: &str, start: usize, end: usize) -> (r: Option<Vec<char>>)
    ensures
        match r {
            Some(t) => byte_text(source@, start as int, end as int) == Some(t@),
            None => byte_text(source@, start as int, end as int) is None,
        },
{
    match str_slice(source, start, end) {
        Some(t) => {
            let chars = chars_of(t);
            proof {
                vstd::utf8::encode_utf8_decode_utf8(t@);
            }
            Some(chars)
        },
        None => None,
    }
}

/// The name a unit is listed under: `static` for a static initializer,
/// otherwise its declaration header up to the parameters with whitespace
/// collapsed, followed by `()`.
pub open spec fn unit_short_name(source: Seq<char>, node: NodeReading) -> Option<Seq<char>> {
    if node.0 == "static_initializer"@ {
        Some("static"@)
    } else {
        match node.2 {
            None => None,
            Some((params_start, _)) => match byte_text(
                source,
                node.1.start_byte as int,
                params_start as int,
            ) {
                None => None,
                Some(header) => Some(join(words(header), seq![' ']) + "()"@),
            },
        }
    }
}

/// The kind a unit is reported as.
pub open spec fn unit_kind_label(kind: Seq<char>) -> Seq<char> {
    if kind == "method_declaration"@ {
        "method"@
    } else if kind == "constructor_declaration"@ {
        "constructor"@
    } else if kind == "static_initializer"@ {
        "static"@
    } else {
        kind
    }
}

/// A unit can be built from the node: its name and text can be read and its
/// lines counted.
pub open spec fn unit_buildable(source: Seq<char>, node: NodeReading) -> bool {
    &&& unit_short_name(source, node) is Some
    &&& byte_text(source, node.1.start_byte as int, node.1.end_byte as int) is Some
    &&& node.1.start.row <= node.1.end.row < usize::MAX
}

/// `u` is the unit that `node` of file `path` describes.
pub open spec fn unit_built(
    u: Unit,
    path: Seq<char>,
    source: Seq<char>,
    file_lines_count: nat,
    components: Seq<Seq<char>>,
    node: NodeReading,
) -> bool {
    let name = unit_short_name(source, node)->0;
    let text = byte_text(source, node.1.start_byte as int, node.1.end_byte as int)->0;
    let start_line = node.1.start.row + 1;
    let end_line = node.1.end.row + 1;
    &&& u.id@ == path + seq![':'] + decimal(start_line as nat) + seq![':'] + name
    &&& u.kind@ == unit_kind_label(node.0)
    &&& u.name@ == name
    &&& u.short_name@ == name
    &&& u.long_name@.len() == 0
    &&& u.relative_file_name@ == path
    &&& u.file_lines_count == file_lines_count
    &&& views(u.components@) == components
    &&& u.start_line == start_line
    &&& u.end_line == end_line
    &&& u.lines_of_code == end_line - start_line + 1
    &&& u.mc_cabe_index == crate::concerns::capped(mcabe_index(text))
    &&& u.number_of_parameters == match node.2 {
        Some((_, count)) => count,
        None => 0,
    }
    &&& u.number_of_literals == 0
    &&& u.number_of_statements == 0
    &&& u.number_of_expressions == 0
}

/// The unit a declaration node describes.
pub fn build_unit(
    relative_path: &str,
    source: &str,
    file_lines_count: usize,
    components: &Vec<String>,
    node: &UnitNode,
) -> (r: Result<Unit, JavaAnalysisError>)
    ensures
        match r {
            Ok(u) => unit_buildable(source@, node@) && unit_built(
                u,
                relative_path@,
                source@,
                file_lines_count as nat,
                views(components@),
                node@,
            ),
            Err(e) => !unit_buildable(source@, node@) && e == JavaAnalysisError::MalformedUnit,
        },
{
    proof {
        reveal_strlit("static_initializer");
        reveal_strlit("static");
    }
    let short_name: String = if crate::pathset::str_eq(node.kind.as_str(), "static_initializer") {
        "static".to_owned()
    } else {
        match node.parameters {
            None => return Err(JavaAnalysisError::MalformedUnit),
            Some((params_start, _)) => match text_between(source, node.span.start_byte, params_start) {
                None => return Err(JavaAnalysisError::MalformedUnit),
                Some(header) => {
                    let collapsed = normalize_whitespace(header.as_slice());
                    let mut name = string_of(collapsed.as_slice());
                    push_str(&mut name, "()");
                    name
                },
            },
        }
    };
    let text = match text_between(source, node.span.start_byte, node.span.end_byte) {
        Some(t) => t,
        None => return Err(JavaAnalysisError::MalformedUnit),
    };
    if node.span.start.row > node.span.end.row || node.span.end.row
        == usize::MAX {
        return Err(JavaAnalysisError::MalformedUnit);
    }
    let start_line = node.span.start.row + 1;
    let end_line = node.span.end.row + 1;
    let kind: &str = if crate::pathset::str_eq(node.kind.as_str(), "method_declaration") {
        "method"
    } else if crate::pathset::str_eq(node.kind.as_str(), "constructor_declaration") {
        "constructor"
    } else if crate::pathset::str_eq(node.kind.as_str(), "static_initializer") {
        "static"
    } else {
        node.kind.as_str()
    };
    let mut id = relative_path.to_owned();
    push_str(&mut id, ":");
    push_decimal(&mut id, start_line);
    push_str(&mut id, ":");
    push_str(&mut id, short_name.as_str());
    proof {
        reveal_strlit(":");
        assert(id@ =~= relative_path@ + seq![':'] + decimal(start_line as nat) + seq![':'] + short_name@);
    }
    let comps = copy_strings(components);
    proof {
        assert(views(comps@) =~= views(components@));
    }
    let u = Unit {
        id,
        kind: kind.to_owned(),
        name: copy_string(&short_name),
        short_name,
        long_name: String::new(),
        relative_file_name: relative_path.to_owned(),
        file_lines_count,
        components: comps,
        start_line,
        end_line,
        lines_of_code: end_line - start_line + 1,
        mc_cabe_index: calculate_mcabe_index(text.as_slice()),
        number_of_parameters: match node.parameters {
            Some((_, count)) => count,
            None => 0,
        },
        number_of_literals: 0,
        number_of_statements: 0,
        number_of_expressions: 0,
    };
    Ok(u)
}

/// `sorted` with `u` placed after every unit at least as long.
pub open spec fn insert_by_size(sorted: Seq<Unit>, u: Unit) -> Seq<Unit>
    decreases sorted.len(),
{
    if sorted.len() == 0 {
        seq![u]
    } else if sorted.last().lines_of_code >= u.lines_of_code {
        sorted.push(u)
    } else {
        insert_by_size(sorted.drop_last(), u).push(sorted.last())
    }
}

/// Units ordered by decreasing size, units of equal size keeping their
/// order (a stable sort).
pub open spec fn sort_by_size(units: Seq<Unit>) -> Seq<Unit>
    decreases units.len(),
{
    if units.len() == 0 {
        units
    } else {
        insert_by_size(sort_by_size(units.drop_last()), units.last())
    }
}

/// No unit is larger than one before it.
pub open spec fn by_decreasing_size(us: Seq<Unit>) -> bool {
    forall|i: int, j: int| 0 <= i < j < us.len() ==> (#[trigger] us[j]).lines_of_code <= (#[trigger] us[i]).lines_of_code
}

proof fn lemma_insert_by_size(sorted: Seq<Unit>, u: Unit)
    requires
        by_decreasing_size(sorted),
    ensures
        by_decreasing_size(insert_by_size(sorted, u)),
        insert_by_size(sorted, u).to_multiset() == sorted.to_multiset().insert(u),
    decreases sorted.len(),
{
    broadcast use vstd::seq_lib::group_to_multiset_ensures;

    if sorted.len() == 0 {
        assert(seq![u] =~= Seq::<Unit>::empty().push(u));
    } else {
        let rest = sorted.drop_last();
        let last = sorted.last();
        assert(sorted =~= rest.push(last));
        if last.lines_of_code < u.lines_of_code {
            lemma_insert_by_size(rest, u);
            let ins = insert_by_size(rest, u);
            assert forall|i: int, j: int| 0 <= i < j < ins.push(last).len() implies (#[trigger] ins.push(
                last,
            )[j]).lines_of_code <= (#[trigger] ins.push(last)[i]).lines_of_code by {
                if j == ins.len() {
                    let x = ins[i];
                    assert(ins.contains(x));
                    assert(ins.to_multiset().count(x) > 0);
                    if x != u {
                        assert(rest.to_multiset().count(x) > 0);
                        assert(rest.contains(x));
                        let k = choose|k: int| 0 <= k < rest.len() && rest[k] == x;
                        assert(sorted[k] == x);
                        assert(sorted[sorted.len() - 1] == last);
                    }
                } else {
                    assert(ins.push(last)[i] == ins[i]);
                    assert(ins.push(last)[j] == ins[j]);
                }
            }
        } else {
            assert forall|i: int, j: int| 0 <= i < j < sorted.push(u).len() implies (#[trigger] sorted.push(
                u,
            )[j]).lines_of_code <= (#[trigger] sorted.push(u)[i]).lines_of_code by {
                if j == sorted.len() {
                    if i < sorted.len() - 1 {
                        assert(sorted[sorted.len() - 1].lines_of_code <= sorted[i].lines_of_code);
                    }
                } else {
                    assert(sorted.push(u)[i] == sorted[i]);
                    assert(sorted.push(u)[j] == sorted[j]);
                }
            }
        }
    }
}

/// Units come out by decreasing size: no unit is larger than one before
/// it, and they are exactly the units given.
pub proof fn lemma_sort_by_size(units: Seq<Unit>)
    ensures
        by_decreasing_size(sort_by_size(units)),
        sort_by_size(units).to_multiset() == units.to_multiset(),
    decreases units.len(),
{
    broadcast use vstd::seq_lib::group_to_multiset_ensures;

    if units.len() > 0 {
        lemma_sort_by_size(units.drop_last());
        lemma_insert_by_size(sort_by_size(units.drop_last()), units.last());
        assert(units =~= units.drop_last().push(units.last()));
    }
}

proof fn lemma_insert_by_size_at(sorted: Seq<Unit>, u: Unit, pos: int)
    requires
        0 <= pos <= sorted.len(),
        forall|k: int| pos <= k < sorted.len() ==> (#[trigger] sorted[k]).lines_of_code < u.lines_of_code,
        pos > 0 ==> sorted[pos - 1].lines_of_code >= u.lines_of_code,
    ensures
        insert_by_size(sorted, u) == sorted.take(pos).push(u) + sorted.skip(pos),
    decreases sorted.len(),
{
    if sorted.len() == 0 {
        assert(sorted.take(pos).push(u) + sorted.skip(pos) =~= seq![u]);
    } else if pos == sorted.len() {
        assert(sorted.take(pos).push(u) + sorted.skip(pos) =~= sorted.push(u));
    } else {
        lemma_insert_by_size_at(sorted.drop_last(), u, pos);
        assert(sorted.drop_last().take(pos).push(u) + sorted.drop_last().skip(pos) + seq![sorted.last()]
            =~= sorted.take(pos).push(u) + sorted.skip(pos));
    }
}

/// Places `u` after every unit at least as long.
pub fn insert_unit_by_size(sorted: &mut Vec<Unit>, u: Unit)
    ensures
        final(sorted)@ == insert_by_size(old(sorted)@, u),
{
    let mut pos = sorted.len();
    while pos > 0 && sorted[pos - 1].lines_of_code < u.lines_of_code
        invariant
            pos <= sorted@.len(),
            sorted@ == old(sorted)@,
            forall|k: int| pos <= k < sorted@.len() ==> (#[trigger] sorted@[k]).lines_of_code < u.lines_of_code,
        decreases pos,
    {
        pos -= 1;
    }
    proof {
        lemma_insert_by_size_at(sorted@, u, pos as int);
    }
    let ghost before = sorted@;
    sorted.insert(pos, u);
    proof {
        assert(sorted@ =~= before.take(pos as int).push(u) + before.skip(pos as int));
    }
}

/// The number of lines `str::lines` yields (a trailing `\r` of a line does
/// not change the count).
pub open spec fn line_count(source: Seq<char>) -> nat {
    lines(source).len()
}

/// The number of lines of `source`, as `str::lines` counts them.
pub fn count_lines(source: &str) -> (n: usize)
    ensures
        n == line_count(source@),
{
    let chars = chars_of(source);
    let ls = lines_of(chars.as_slice());
    proof {
        assert(ls@.map_values(|l: Vec<char>| l@).len() == ls@.len());
    }
    ls.len()
}

/// `a` is the analysis of file `path` whose syntax tree has the unit nodes
/// `nodes` (in pre-order) and reports errors when `has_errors`: one unit per
/// node, ordered by decreasing size with ties in tree order, and a warning
/// when the tree has errors.
pub open spec fn file_analysis_of(
    a: JavaFileAnalysis,
    relative_path: Seq<char>,
    source: Seq<char>,
    components: Seq<Seq<char>>,
    has_errors: bool,
    nodes: Seq<NodeReading>,
) -> bool {
    &&& exists|built: Seq<Unit>|
        {
            &&& built.len() == nodes.len()
            &&& forall|k: int|
                0 <= k < built.len() ==> unit_built(
                    #[trigger] built[k],
                    relative_path,
                    source,
                    line_count(source),
                    components,
                    nodes[k],
                )
            &&& a.units@ == sort_by_size(built)
        }
    &&& a.diagnostics@.len() == if has_errors {
        1int
    } else {
        0int
    }
    &&& has_errors ==> a.diagnostics@[0].message@ == "Tree-sitter reported syntax errors while parsing Java source."@
        && a.diagnostics@[0].relative_path@ == relative_path && a.diagnostics@[0].severity
        == DiagnosticSeverity::Warning
}

/// The units of one Java file and its parse diagnostics, given the unit
/// nodes of its syntax tree in pre-order and whether the parser reported
/// errors; units are ordered by decreasing size, ties in tree order.
pub fn analyze_file_nodes(
    relative_path: &str,
    source: &str,
    components: &Vec<String>,
    has_errors: bool,
    nodes: &Vec<UnitNode>,
) -> (r: Result<JavaFileAnalysis, JavaAnalysisError>)
    ensures
        r is Ok <==> forall|k: int| 0 <= k < nodes@.len() ==> unit_buildable(source@, #[trigger] nodes@[k]@),
        r matches Err(e) ==> e == JavaAnalysisError::MalformedUnit,
        r matches Ok(a) ==> file_analysis_of(
            a,
            relative_path@,
            source@,
            views(components@),
            has_errors,
            node_readings(nodes@),
        ),
{
    let chars = chars_of(source);
    let ls = lines_of(chars.as_slice());
    let file_lines_count = ls.len();
    proof {
        assert(ls@.map_values(|l: Vec<char>| l@).len() == ls@.len());
    }
    let mut diagnostics: Vec<ParseDiagnostic> = Vec::new();
    if has_errors {
        diagnostics.push(
            ParseDiagnostic {
                message: "Tree-sitter reported syntax errors while parsing Java source.".to_owned(),
                relative_path: relative_path.to_owned(),
                severity: DiagnosticSeverity::Warning,
            },
        );
    }
    let mut units: Vec<Unit> = Vec::new();
    let ghost mut built: Seq<Unit> = Seq::empty();
    let mut k: usize = 0;
    while k < nodes.len()
        invariant
            k <= nodes@.len(),
            file_lines_count == line_count(source@),
            built.len() == k,
            forall|m: int| 0 <= m < k ==> unit_buildable(source@, #[trigger] nodes@[m]@),
            forall|m: int|
                0 <= m < k ==> unit_built(
                    #[trigger] built[m],
                    relative_path@,
                    source@,
                    line_count(source@),
                    views(components@),
                    nodes@[m]@,
                ),
            units@ == sort_by_size(built),
        decreases nodes@.len() - k,
    {
        match build_unit(relative_path, source, file_lines_count, components, &nodes[k]) {
            Ok(u) => {
                let ghost prev = built;
                proof {
                    built = built.push(u);
                    assert(built.drop_last() =~= prev);
                }
                insert_unit_by_size(&mut units, u);
            },
            Err(e) => {
                return Err(e);
            },
        }
        k += 1;
    }
    Ok(JavaFileAnalysis { units, diagnostics })
}

/// The syntax tree reading of a Java source.
pub open spec fn java_reading(source: Seq<char>) -> TreeReading {
    parse_reading(grammar_of(SupportedLanguage::Java), source)
}

/// The unit nodes of a Java source's syntax tree, in pre-order.
pub open spec fn java_unit_readings(source: Seq<char>) -> Seq<NodeReading> {
    parsed_unit_readings(grammar_of(SupportedLanguage::Java), source)
}

/// Every unit of a Java source can be built from its declaration node.
pub open spec fn java_units_buildable(source: Seq<char>) -> bool {
    forall|k: int|
        0 <= k < java_unit_readings(source).len() ==> unit_buildable(source, #[trigger] java_unit_readings(source)[k])
}

/// `a` is the analysis of Java file `relative_path` with text `source`: the
/// units of the unit nodes of its syntax tree, and a warning when the tree
/// reports syntax errors.
pub open spec fn java_file_analysis(
    a: JavaFileAnalysis,
    relative_path: Seq<char>,
    source: Seq<char>,
    components: Seq<Seq<char>>,
) -> bool {
    file_analysis_of(a, relative_path, source, components, java_reading(source).0, java_unit_readings(source))
}

/// What holds of each unit of file `path`: it names the file and its
/// components, counts the file's lines, spans at least one line, has an
/// index of at least one, is a method, constructor or static initializer,
/// and its id is the path, the start line and the short name.
pub open spec fn unit_well_formed(u: Unit, path: Seq<char>, source: Seq<char>, components: Seq<Seq<char>>) -> bool {
    &&& u.relative_file_name@ == path
    &&& views(u.components@) == components
    &&& u.file_lines_count == line_count(source)
    &&& 1 <= u.start_line <= u.end_line
    &&& u.lines_of_code == u.end_line - u.start_line + 1
    &&& u.mc_cabe_index >= 1
    &&& (u.kind@ == "method"@ || u.kind@ == "constructor"@ || u.kind@ == "static"@)
    &&& u.id@ == path + seq![':'] + decimal(u.start_line as nat) + seq![':'] + u.short_name@
}

proof fn lemma_unit_readings_kinds(rs: Seq<NodeReading>)
    ensures
        forall|k: int| 0 <= k < unit_readings(rs).len() ==> is_unit_kind(#[trigger] unit_readings(rs)[k].0),
    decreases rs.len(),
{
    if rs.len() > 0 {
        let prev = unit_readings(rs.drop_last());
        lemma_unit_readings_kinds(rs.drop_last());
        assert forall|k: int| 0 <= k < unit_readings(rs).len() implies is_unit_kind(
            #[trigger] unit_readings(rs)[k].0,
        ) by {
            if k < prev.len() {
                assert(unit_readings(rs)[k] == prev[k]);
            }
        }
    }
}

/// A file's analysis has one unit per unit node of the source's syntax
/// tree, ordered by decreasing size, each well formed.
pub proof fn lemma_file_units(a: JavaFileAnalysis, path: Seq<char>, source: Seq<char>, components: Seq<Seq<char>>)
    requires
        java_file_analysis(a, path, source, components),
        java_units_buildable(source),
    ensures
        a.units@.len() == java_unit_readings(source).len(),
        by_decreasing_size(a.units@),
        forall|i: int| 0 <= i < a.units@.len() ==> unit_well_formed(#[trigger] a.units@[i], path, source, components),
{
    broadcast use vstd::seq_lib::group_to_multiset_ensures;

    let nodes = java_unit_readings(source);
    let built = choose|built: Seq<Unit>|
        {
            &&& built.len() == nodes.len()
            &&& forall|k: int|
                0 <= k < built.len() ==> unit_built(
                    #[trigger] built[k],
                    path,
                    source,
                    line_count(source),
                    components,
                    nodes[k],
                )
            &&& a.units@ == sort_by_size(built)
        };
    lemma_sort_by_size(built);
    lemma_unit_readings_kinds(parse_reading(grammar_of(SupportedLanguage::Java), source).2);
    assert(a.units@.to_multiset().len() == built.to_multiset().len());
    assert forall|i: int| 0 <= i < a.units@.len() implies unit_well_formed(
        #[trigger] a.units@[i],
        path,
        source,
        components,
    ) by {
        let u = a.units@[i];
        assert(a.units@.to_multiset().count(u) > 0);
        assert(built.contains(u));
        let k = choose|k: int| 0 <= k < built.len() && built[k] == u;
        assert(unit_built(built[k], path, source, line_count(source), components, nodes[k]));
        assert(unit_buildable(source, nodes[k]));
        assert(is_unit_kind(nodes[k].0));
    }
}

/// A file's analysis warns, once and with the file's path, exactly when the
/// source's syntax tree reports errors.
pub proof fn lemma_file_diagnostics(a: JavaFileAnalysis, path: Seq<char>, source: Seq<char>, components: Seq<Seq<char>>)
    requires
        java_file_analysis(a, path, source, components),
    ensures
        a.diagnostics@.len() == 0 <==> !java_reading(source).0,
        java_reading(source).0 ==> a.diagnostics@.len() == 1
            && a.diagnostics@[0].message@ == "Tree-sitter reported syntax errors while parsing Java source."@
            && a.diagnostics@[0].relative_path@ == path && a.diagnostics@[0].severity == DiagnosticSeverity::Warning,
{
}

/// The units and diagnostics of one Java file, read from its syntax tree;
/// refused when tree-sitter does not accept the Java grammar, or when a
/// unit's declaration cannot be read.
pub fn analyze_file(relative_path: &str, source: &str, components: Vec<String>) -> (r: Result<
    JavaFileAnalysis,
    JavaAnalysisError,
>)
    ensures
        (r matches Err(JavaAnalysisError::ParserUnavailable)) <==> !grammar_accepted(SupportedLanguage::Java),
        r is Ok <==> grammar_accepted(SupportedLanguage::Java) && java_units_buildable(source@),
        r matches Ok(a) ==> java_file_analysis(a, relative_path@, source@, views(components@)),
        r matches Err(e) ==> e == JavaAnalysisError::ParserUnavailable || e == JavaAnalysisError::MalformedUnit,
{
    let document = match parse(SupportedLanguage::Java, source.to_owned()) {
        Ok(d) => d,
        Err(_) => return Err(JavaAnalysisError::ParserUnavailable),
    };
    let has_errors = document.has_errors();
    let nodes = collect_unit_nodes(document.tree());
    let r = analyze_file_nodes(relative_path, source, &components, has_errors, &nodes);
    proof {
        let rd = java_reading(source@);
        assert(node_readings(nodes@) == unit_readings(rd.2));
        assert(has_errors == rd.0);
        assert forall|k: int| 0 <= k < nodes@.len() implies #[trigger] nodes@[k]@ == java_unit_readings(source@)[k] by {
            assert(node_readings(nodes@)[k] == nodes@[k]@);
        }
    }
    r
}

} // verus!
