//! Languages the analyzer parses, and the syntax trees it reads units from.
use vstd::prelude::*;
use streaming_iterator::StreamingIterator;

use crate::pathset::str_eq;
use crate::text::{lower, string_of, to_lower};
use crate::units::{byte_text, text_between};

verus! {

#[verifier::external_type_specification]
#[verifier::external_body]
pub struct ExParser(tree_sitter::Parser);

#[verifier::external_type_specification]
#[verifier::external_body]
pub struct ExTree(tree_sitter::Tree);

#[verifier::external_type_specification]
#[verifier::external_body]
pub struct ExLanguage(tree_sitter::Language);

#[verifier::external_type_specification]
#[verifier::external_body]
pub struct ExNode<'a>(tree_sitter::Node<'a>);

/// A language the analyzer can parse.
#[derive(Debug, Clone, Copy, PartialEq, Eq, Structural)]
pub enum SupportedLanguage {
    Java,
}

impl SupportedLanguage {
    /// The language of files with the given extension, in any case.
    pub fn from_extension(extension: &str) -> (r: Option<Self>)
        ensures
            r is Some <==> lower(extension@) == "java"@,
            r matches Some(l) ==> l == SupportedLanguage::Java,
    {
        let lowered = to_lower(extension);
        if str_eq(lowered.as_str(), "java") {
            Some(SupportedLanguage::Java)
        } else {
            None
        }
    }

    /// `tree_sitter_java::LANGUAGE`, the Java grammar.
    #[verifier::external_body]
    pub fn grammar(self) -> (r: tree_sitter::Language)
        ensures
            r == grammar_of(self),
    {
        match self {
            SupportedLanguage::Java => tree_sitter_java::LANGUAGE.into(),
        }
    }

    /// The language's name.
    pub fn name(self) -> (r: &'static str)
        ensures
            r@ == "java"@,
    {
        match self {
            SupportedLanguage::Java => "java",
        }
    }
}

/// A place in source text: zero-based row and column.
#[derive(Debug, Clone, PartialEq, Eq)]
pub struct SourcePosition {
    pub row: usize,
    pub column: usize,
}

/// The extent of a syntax node: byte offsets and positions.
#[derive(Debug, Clone, PartialEq, Eq)]
pub struct SourceSpan {
    pub start_byte: usize,
    pub end_byte: usize,
    pub start: SourcePosition,
    pub end: SourcePosition,
}

/// A node captured by a syntax query.
#[derive(Debug, Clone, PartialEq, Eq)]
pub struct CaptureMatch {
    pub capture_name: String,
    pub kind: String,
    pub text: String,
    pub span: SourceSpan,
}

/// Why source text could not be parsed.
#[derive(Debug, Clone, Copy, PartialEq, Eq)]
pub enum ParseError {
    /// The parser rejected the grammar.
    IncompatibleGrammar,
    /// The parser returned no tree.
    NoTree,
}

/// What `tree_sitter_java::LANGUAGE` converted into a
/// `tree_sitter::Language` is, for a supported language.
pub uninterp spec fn grammar_of(language: SupportedLanguage) -> tree_sitter::Language;

/// Whether `tree_sitter::Parser::set_language` accepts a grammar: whether
/// the grammar's ABI version is one that this tree-sitter supports.
pub uninterp spec fn language_accepted(grammar: tree_sitter::Language) -> bool;

/// What `tree_sitter::Parser::language` of a parser is: the grammar it was
/// last given, if any.
pub uninterp spec fn parser_language(parser: tree_sitter::Parser) -> Option<tree_sitter::Language>;

/// Whether `tree_sitter::Parser::included_ranges` of a parser is the single
/// default range, which spans the whole text.
pub uninterp spec fn parser_whole_text(parser: tree_sitter::Parser) -> bool;

/// What a syntax tree that `tree_sitter::Parser::parse` gives for a text
/// with a grammar reads as (`tree_reading`): parsing depends on the grammar
/// and the text alone.
pub uninterp spec fn parse_reading(grammar: tree_sitter::Language, text: Seq<char>) -> TreeReading;

/// What `tree_sitter::Parser::timeout_micros` of a parser is.
pub uninterp spec fn parser_timeout(parser: tree_sitter::Parser) -> u64;

/// Whether `tree_sitter::Parser::cancellation_flag` of a parser is `Some`.
pub uninterp spec fn parser_has_cancellation_flag(parser: tree_sitter::Parser) -> bool;

/// Whether tree-sitter accepts the grammar of `language`.
pub open spec fn grammar_accepted(language: SupportedLanguage) -> bool {
    language_accepted(grammar_of(language))
}

/// A parser that has a grammar, reads the whole text and has no timeout
/// and no cancellation flag: one whose `parse` returns a tree.
pub open spec fn parser_ready(parser: tree_sitter::Parser) -> bool {
    &&& parser_language(parser) is Some
    &&& parser_whole_text(parser)
    &&& parser_timeout(parser) == 0
    &&& !parser_has_cancellation_flag(parser)
}

/// `tree_sitter::Parser::new`: a parser without a language, timeout or
/// cancellation flag, reading the whole text.
#[verifier::external_body]
fn parser_create() -> (r: tree_sitter::Parser)
    ensures
        parser_language(r) is None,
        parser_whole_text(r),
        parser_timeout(r) == 0,
        !parser_has_cancellation_flag(r),
{
    tree_sitter::Parser::new()
}

/// `tree_sitter::Parser::set_language`: whether the parser accepted the
/// grammar, which it then has; its included ranges, timeout and
/// cancellation flag stay.
#[verifier::external_body]
fn parser_set_language(parser: &mut tree_sitter::Parser, grammar: &tree_sitter::Language) -> (r: bool)
    ensures
        r == language_accepted(*grammar),
        r ==> parser_language(*final(parser)) == Some(*grammar),
        parser_whole_text(*final(parser)) == parser_whole_text(*old(parser)),
        parser_timeout(*final(parser)) == parser_timeout(*old(parser)),
        parser_has_cancellation_flag(*final(parser)) == parser_has_cancellation_flag(*old(parser)),
{
    parser.set_language(grammar).is_ok()
}

/// `tree_sitter::Parser::parse` of a whole text, without an earlier tree.
/// When the parser has a language, reads the whole text and has neither a
/// timeout nor a cancellation flag, it returns a tree, which reads as the
/// parse of the text with that language.
#[verifier::external_body]
fn parser_parse(parser: &mut tree_sitter::Parser, source: &str) -> (r: Option<tree_sitter::Tree>)
    ensures
        parser_ready(*old(parser)) ==> (r matches Some(t) && tree_reading(&t) == parse_reading(
            parser_language(*old(parser))->0,
            source@,
        )),
{
    parser.parse(source, None)
}

/// A parser set up for `language`: refused when tree-sitter does not accept
/// its grammar.
pub fn new_parser(language: SupportedLanguage) -> (r: Result<tree_sitter::Parser, ParseError>)
    ensures
        r is Ok <==> grammar_accepted(language),
        r matches Ok(p) ==> parser_ready(p) && parser_language(p) == Some(grammar_of(language)),
        r matches Err(e) ==> e == ParseError::IncompatibleGrammar,
{
    let mut parser = parser_create();
    let grammar = language.grammar();
    if parser_set_language(&mut parser, &grammar) {
        Ok(parser)
    } else {
        Err(ParseError::IncompatibleGrammar)
    }
}

/// Source text and its syntax tree.
pub struct ParsedDocument {
    language: SupportedLanguage,
    source: String,
    tree: tree_sitter::Tree,
}

/// Parses `source` as `language`: refused when tree-sitter does not accept
/// the language's grammar.
pub fn parse(language: SupportedLanguage, source: String) -> (r: Result<ParsedDocument, ParseError>)
    ensures
        r is Ok <==> grammar_accepted(language),
        r matches Ok(d) ==> d.spec_language() == language && d.source_text() == source@ && tree_reading(
            &d.syntax_tree(),
        ) == parse_reading(grammar_of(language), source@),
        r matches Err(e) ==> e == ParseError::IncompatibleGrammar,
{
    let mut parser = match new_parser(language) {
        Ok(p) => p,
        Err(e) => return Err(e),
    };
    match parser_parse(&mut parser, source.as_str()) {
        Some(tree) => Ok(ParsedDocument { language, source, tree }),
        None => Err(ParseError::NoTree),
    }
}

impl ParsedDocument {
    pub closed spec fn source_text(&self) -> Seq<char> {
        self.source@
    }

    pub closed spec fn spec_language(&self) -> SupportedLanguage {
        self.language
    }

    pub fn language(&self) -> (r: SupportedLanguage)
        ensures
            r == self.spec_language(),
    {
        self.language
    }

    pub fn source(&self) -> (r: &str)
        ensures
            r@ == self.source_text(),
    {
        self.source.as_str()
    }

    pub closed spec fn syntax_tree(&self) -> tree_sitter::Tree {
        self.tree
    }

    pub fn tree(&self) -> (r: &tree_sitter::Tree)
        ensures
            *r == self.syntax_tree(),
    {
        &self.tree
    }

    /// The kind of the tree's root node.
    pub fn root_kind(&self) -> (r: &'static str)
        ensures
            r@ == kind_of(root_node_of(&self.syntax_tree())),
    {
        node_kind(tree_root(&self.tree))
    }

    /// Whether the parser reported syntax errors anywhere in the tree.
    pub fn has_errors(&self) -> (r: bool)
        ensures
            r == has_error_at(root_node_of(&self.syntax_tree())),
    {
        node_has_error(tree_root(&self.tree))
    }
}

/// What `tree_sitter::Tree::root_node` returns: the tree's root node.
pub uninterp spec fn root_node_of(tree: &tree_sitter::Tree) -> tree_sitter::Node<'_>;

/// What `tree_sitter::Node::kind` returns: the node's grammar kind.
pub uninterp spec fn kind_of(node: tree_sitter::Node<'_>) -> Seq<char>;

/// What `tree_sitter::Node::has_error` returns: whether the node or a node
/// below it is a syntax error.
pub uninterp spec fn has_error_at(node: tree_sitter::Node<'_>) -> bool;

/// What `tree_sitter::Node::start_byte` returns.
pub uninterp spec fn start_byte_of(node: tree_sitter::Node<'_>) -> usize;

/// What `tree_sitter::Node::end_byte` returns.
pub uninterp spec fn end_byte_of(node: tree_sitter::Node<'_>) -> usize;

/// What `tree_sitter::Node::start_position` returns, as (row, column).
pub uninterp spec fn start_point_of(node: tree_sitter::Node<'_>) -> (usize, usize);

/// What `tree_sitter::Node::end_position` returns, as (row, column).
pub uninterp spec fn end_point_of(node: tree_sitter::Node<'_>) -> (usize, usize);

/// What `tree_sitter::Node::child_by_field_name` returns for a field name.
pub uninterp spec fn field_child_of(node: tree_sitter::Node<'_>, field: Seq<char>) -> Option<tree_sitter::Node<'_>>;

/// What `tree_sitter::Node::named_child_count` returns.
pub uninterp spec fn named_child_count_of(node: tree_sitter::Node<'_>) -> usize;

/// What `tree_sitter::Node::descendant_count` returns: the number of nodes
/// at and below the node.
pub uninterp spec fn descendant_count_of(node: tree_sitter::Node<'_>) -> usize;

/// `tree_sitter::Tree::root_node`.
#[verifier::external_body]
fn tree_root<'a>(tree: &'a tree_sitter::Tree) -> (r: tree_sitter::Node<'a>)
    ensures
        r == root_node_of(tree),
{
    tree.root_node()
}

/// `tree_sitter::Node::kind`.
#[verifier::external_body]
fn node_kind(node: tree_sitter::Node<'_>) -> (r: &'static str)
    ensures
        r@ == kind_of(node),
{
    node.kind()
}

/// `tree_sitter::Node::has_error`.
#[verifier::external_body]
fn node_has_error(node: tree_sitter::Node<'_>) -> (r: bool)
    ensures
        r == has_error_at(node),
{
    node.has_error()
}

/// `tree_sitter::Node::start_byte`.
#[verifier::external_body]
fn node_start_byte(node: tree_sitter::Node<'_>) -> (r: usize)
    ensures
        r == start_byte_of(node),
{
    node.start_byte()
}

/// `tree_sitter::Node::end_byte`.
#[verifier::external_body]
fn node_end_byte(node: tree_sitter::Node<'_>) -> (r: usize)
    ensures
        r == end_byte_of(node),
{
    node.end_byte()
}

/// `tree_sitter::Node::start_position`, as (row, column).
#[verifier::external_body]
fn node_start_position(node: tree_sitter::Node<'_>) -> (r: (usize, usize))
    ensures
        r == start_point_of(node),
{
    let p = node.start_position();
    (p.row, p.column)
}

/// `tree_sitter::Node::end_position`, as (row, column).
#[verifier::external_body]
fn node_end_position(node: tree_sitter::Node<'_>) -> (r: (usize, usize))
    ensures
        r == end_point_of(node),
{
    let p = node.end_position();
    (p.row, p.column)
}

/// `tree_sitter::Node::child_by_field_name`.
#[verifier::external_body]
fn node_field<'a>(node: tree_sitter::Node<'a>, field: &str) -> (r: Option<tree_sitter::Node<'a>>)
    ensures
        r == field_child_of(node, field@),
{
    node.child_by_field_name(field)
}

/// `tree_sitter::Node::named_child_count`.
#[verifier::external_body]
fn node_named_child_count(node: tree_sitter::Node<'_>) -> (r: usize)
    ensures
        r == named_child_count_of(node),
{
    node.named_child_count()
}

/// `tree_sitter::Node::descendant_count`: the node and all nodes below it.
#[verifier::external_body]
fn node_descendant_count(node: tree_sitter::Node<'_>) -> (r: usize)
    ensures
        r == descendant_count_of(node),
{
    node.descendant_count()
}

/// The node that a cursor made by `tree_sitter::Tree::walk` reaches with
/// `tree_sitter::TreeCursor::goto_descendant(index)`: the root's descendant
/// with that pre-order index, the root itself being the first.
pub uninterp spec fn descendant_of(tree: &tree_sitter::Tree, index: usize) -> tree_sitter::Node<'_>;

/// `tree_sitter::Tree::walk`, then `tree_sitter::TreeCursor::goto_descendant`
/// and `tree_sitter::TreeCursor::node`: the root's descendant with the given
/// pre-order index.
#[verifier::external_body]
fn tree_descendant<'a>(tree: &'a tree_sitter::Tree, index: usize) -> (r: tree_sitter::Node<'a>)
    ensures
        r == descendant_of(tree, index),
{
    let mut cursor = tree.walk();
    cursor.goto_descendant(index);
    cursor.node()
}

/// The byte offsets and positions that tree-sitter reports for a node.
pub open spec fn span_of(node: tree_sitter::Node<'_>) -> SourceSpan {
    SourceSpan {
        start_byte: start_byte_of(node),
        end_byte: end_byte_of(node),
        start: SourcePosition { row: start_point_of(node).0, column: start_point_of(node).1 },
        end: SourcePosition { row: end_point_of(node).0, column: end_point_of(node).1 },
    }
}

/// The byte offsets and positions a node spans.
pub fn node_span(node: tree_sitter::Node<'_>) -> (r: SourceSpan)
    ensures
        r == span_of(node),
{
    let (start_row, start_column) = node_start_position(node);
    let (end_row, end_column) = node_end_position(node);
    SourceSpan {
        start_byte: node_start_byte(node),
        end_byte: node_end_byte(node),
        start: SourcePosition { row: start_row, column: start_column },
        end: SourcePosition { row: end_row, column: end_column },
    }
}

/// What the unit analysis reads of a declaration node.
#[derive(Debug, Clone, PartialEq, Eq)]
pub struct UnitNode {
    /// The node kind: a method, constructor or static initializer.
    pub kind: String,
    pub span: SourceSpan,
    /// Where the parameter list starts, and how many parameters it holds.
    pub parameters: Option<(usize, usize)>,
}

impl View for UnitNode {
    type V = NodeReading;

    open spec fn view(&self) -> NodeReading {
        (self.kind@, self.span, self.parameters)
    }
}

/// Node kinds that are units.
pub open spec fn is_unit_kind(kind: Seq<char>) -> bool {
    kind == "method_declaration"@ || kind == "constructor_declaration"@ || kind == "static_initializer"@
}

/// Whether a node kind is a unit kind.
pub fn unit_kind(kind: &str) -> (b: bool)
    ensures
        b == is_unit_kind(kind@),
{
    str_eq(kind, "method_declaration") || str_eq(kind, "constructor_declaration") || str_eq(
        kind,
        "static_initializer",
    )
}

/// What the analysis reads of a node: its kind, its span, and where its
/// parameter list starts with how many parameters it holds.
pub type NodeReading = (Seq<char>, SourceSpan, Option<(usize, usize)>);

/// What the analysis reads of a tree: whether its root reports syntax
/// errors, the root's kind, and the reading of every node in pre-order,
/// the root first.
pub type TreeReading = (bool, Seq<char>, Seq<NodeReading>);

/// The parameter list of a node, if it has one: where it starts and how
/// many parameters it holds.
pub open spec fn parameters_of(node: tree_sitter::Node<'_>) -> Option<(usize, usize)> {
    match field_child_of(node, "parameters"@) {
        Some(p) => Some((start_byte_of(p), named_child_count_of(p))),
        None => None,
    }
}

/// What the analysis reads of a node.
pub open spec fn node_reading(node: tree_sitter::Node<'_>) -> NodeReading {
    (kind_of(node), span_of(node), parameters_of(node))
}

/// What the analysis reads of a tree.
pub open spec fn tree_reading(tree: &tree_sitter::Tree) -> TreeReading {
    (
        has_error_at(root_node_of(tree)),
        kind_of(root_node_of(tree)),
        Seq::new(
            descendant_count_of(root_node_of(tree)) as nat,
            |i: int| node_reading(descendant_of(tree, i as usize)),
        ),
    )
}

/// The readings of unit nodes among `rs`, in order.
pub open spec fn unit_readings(rs: Seq<NodeReading>) -> Seq<NodeReading>
    decreases rs.len(),
{
    if rs.len() == 0 {
        Seq::empty()
    } else if is_unit_kind(rs.last().0) {
        unit_readings(rs.drop_last()).push(rs.last())
    } else {
        unit_readings(rs.drop_last())
    }
}

/// The unit nodes of the tree that parsing `text` with `grammar` gives.
pub open spec fn parsed_unit_readings(grammar: tree_sitter::Language, text: Seq<char>) -> Seq<NodeReading> {
    unit_readings(parse_reading(grammar, text).2)
}

/// The readings of a sequence of unit nodes.
pub open spec fn node_readings(nodes: Seq<UnitNode>) -> Seq<NodeReading> {
    nodes.map_values(|n: UnitNode| n@)
}

/// The declaration nodes of a syntax tree, in pre-order.
pub fn collect_unit_nodes(tree: &tree_sitter::Tree) -> (r: Vec<UnitNode>)
    ensures
        node_readings(r@) == unit_readings(tree_reading(tree).2),
        forall|k: int| 0 <= k < r@.len() ==> is_unit_kind((#[trigger] r@[k]).kind@),
{
    let root = tree_root(tree);
    let count = node_descendant_count(root);
    let ghost rs = tree_reading(tree).2;
    let mut nodes: Vec<UnitNode> = Vec::new();
    let mut index: usize = 0;
    while index < count
        invariant
            index <= count,
            count == rs.len(),
            rs == tree_reading(tree).2,
            node_readings(nodes@) == unit_readings(rs.take(index as int)),
            forall|k: int| 0 <= k < nodes@.len() ==> is_unit_kind((#[trigger] nodes@[k]).kind@),
        decreases count - index,
    {
        let node = tree_descendant(tree, index);
        let kind = node_kind(node);
        proof {
            assert(rs.take(index + 1).drop_last() =~= rs.take(index as int));
            assert(rs.take(index + 1).last() == node_reading(node));
        }
        if unit_kind(kind) {
            let parameters = match node_field(node, "parameters") {
                Some(p) => Some((node_start_byte(p), node_named_child_count(p))),
                None => None,
            };
            let u = UnitNode { kind: kind.to_owned(), span: node_span(node), parameters };
            let ghost before = nodes@;
            nodes.push(u);
            proof {
                assert(u@ == node_reading(node));
                assert(node_readings(nodes@) =~= node_readings(before).push(u@));
            }
        }
        index += 1;
    }
    proof {
        assert(rs.take(count as int) =~= rs);
    }
    nodes
}

/// Why a syntax query could not be run.
#[derive(Debug, Clone, Copy, PartialEq, Eq)]
pub enum QueryCaptureError {
    /// The query does not compile for the document's language.
    InvalidQuery,
    /// A capture names no capture of the query.
    UnknownCapture,
    /// A captured node's bytes are not text of the document.
    UnreadableCapture,
}

/// Whether `tree_sitter::Query::new` compiles a query text for a grammar.
pub uninterp spec fn query_compiles(grammar: tree_sitter::Language, query_text: Seq<char>) -> bool;

/// What `tree_sitter::Query::capture_names` returns, in order, for the
/// query that `tree_sitter::Query::new` compiles from a text for a grammar.
pub uninterp spec fn capture_names_of(grammar: tree_sitter::Language, query_text: Seq<char>) -> Seq<Seq<char>>;

/// What a new `tree_sitter::QueryCursor` finds with `matches` of the query
/// compiled from a text for a grammar, on a node and the bytes of a source,
/// advanced until it ends: the captures of each match in turn, as (capture
/// index, node).
pub uninterp spec fn matches_of(
    grammar: tree_sitter::Language,
    query_text: Seq<char>,
    node: tree_sitter::Node<'_>,
    source: Seq<char>,
) -> Seq<Seq<(u32, tree_sitter::Node<'_>)>>;

/// `tree_sitter::Query::new` for a grammar and a query text; when it
/// compiles, `tree_sitter::Query::capture_names` as owned strings, and the
/// captures of each match that a new `tree_sitter::QueryCursor` finds with
/// `matches` on a node and the bytes of `source`, advanced with
/// `StreamingIterator::next` until it ends, as (capture index, node).
#[verifier::external_body]
fn run_query<'t>(
    grammar: &tree_sitter::Language,
    query_text: &str,
    node: tree_sitter::Node<'t>,
    source: &'t str,
) -> (r: Option<(Vec<String>, Vec<Vec<(u32, tree_sitter::Node<'t>)>>)>)
    ensures
        r is Some <==> query_compiles(*grammar, query_text@),
        r matches Some((names, ms)) ==> crate::text::views(names@) == capture_names_of(*grammar, query_text@)
            && ms@.map_values(|m: Vec<(u32, tree_sitter::Node<'t>)>| m@) == matches_of(
            *grammar,
            query_text@,
            node,
            source@,
        ),
{
    let query = tree_sitter::Query::new(grammar, query_text).ok()?;
    let names = query.capture_names().iter().map(|name| name.to_string()).collect();
    let mut cursor = tree_sitter::QueryCursor::new();
    let mut matches = cursor.matches(&query, node, source.as_bytes());
    let mut all = Vec::new();
    while let Some(found) = matches.next() {
        all.push(found.captures.iter().map(|capture| (capture.index, capture.node)).collect());
    }
    Some((names, all))
}

/// The captures of all matches, one match after another.
pub open spec fn all_captures<'t>(ms: Seq<Seq<(u32, tree_sitter::Node<'t>)>>) -> Seq<(u32, tree_sitter::Node<'t>)>
    decreases ms.len(),
{
    if ms.len() == 0 {
        Seq::empty()
    } else {
        all_captures(ms.drop_last()) + ms.last()
    }
}

/// A capture names a capture of the query, and its node's bytes are text of
/// the source.
pub open spec fn capture_readable(c: (u32, tree_sitter::Node<'_>), names: Seq<Seq<char>>, source: Seq<char>) -> bool {
    &&& (c.0 as int) < names.len()
    &&& byte_text(source, start_byte_of(c.1) as int, end_byte_of(c.1) as int) is Some
}

/// Why a capture cannot be read.
pub open spec fn capture_failure(c: (u32, tree_sitter::Node<'_>), names: Seq<Seq<char>>) -> QueryCaptureError {
    if (c.0 as int) < names.len() {
        QueryCaptureError::UnreadableCapture
    } else {
        QueryCaptureError::UnknownCapture
    }
}

/// `m` reports capture `c`: the capture's name, the node's kind, span and
/// text.
pub open spec fn capture_reported(m: CaptureMatch, c: (u32, tree_sitter::Node<'_>), names: Seq<Seq<char>>, source: Seq<char>) -> bool {
    &&& m.capture_name@ == names[c.0 as int]
    &&& m.kind@ == kind_of(c.1)
    &&& m.span == span_of(c.1)
    &&& byte_text(source, m.span.start_byte as int, m.span.end_byte as int) == Some(m.text@)
}

/// The outcome of reading captures `caps` of a query with capture names
/// `names`: all of them reported in order, or the failure of the first
/// capture that cannot be read.
pub open spec fn captures_outcome(
    r: Result<Vec<CaptureMatch>, QueryCaptureError>,
    names: Seq<Seq<char>>,
    caps: Seq<(u32, tree_sitter::Node<'_>)>,
    source: Seq<char>,
) -> bool {
    match r {
        Ok(cs) => cs@.len() == caps.len() && forall|k: int|
            0 <= k < caps.len() ==> capture_reported(#[trigger] cs@[k], caps[k], names, source),
        Err(e) => exists|n: int|
            0 <= n < caps.len() && (forall|k: int| 0 <= k < n ==> capture_readable(#[trigger] caps[k], names, source))
                && !capture_readable(caps[n], names, source) && e == capture_failure(caps[n], names),
    }
}

proof fn lemma_all_captures_prefix<'t>(ms: Seq<Seq<(u32, tree_sitter::Node<'t>)>>, a: int)
    requires
        0 <= a <= ms.len(),
    ensures
        all_captures(ms.take(a)).len() <= all_captures(ms).len(),
        forall|k: int|
            0 <= k < all_captures(ms.take(a)).len() ==> #[trigger] all_captures(ms)[k] == all_captures(ms.take(a))[k],
    decreases ms.len(),
{
    if a == ms.len() {
        assert(ms.take(a) =~= ms);
    } else {
        assert(ms.drop_last().take(a) =~= ms.take(a));
        lemma_all_captures_prefix(ms.drop_last(), a);
    }
}

proof fn lemma_all_captures_step<'t>(ms: Seq<Seq<(u32, tree_sitter::Node<'t>)>>, i: int)
    requires
        0 <= i < ms.len(),
    ensures
        all_captures(ms.take(i + 1)) == all_captures(ms.take(i)) + ms[i],
{
    assert(ms.take(i + 1).drop_last() =~= ms.take(i));
}

/// The nodes that `query_source` captures in the document, match by match,
/// with the capture's name, the node's kind, its text and its span; refused
/// when the query does not compile for the document's language, and at the
/// first capture that names no capture of the query or whose bytes are not
/// text of the document.
pub fn query_captures(document: &ParsedDocument, query_source: &str) -> (r: Result<Vec<CaptureMatch>, QueryCaptureError>)
    ensures
        (r matches Err(QueryCaptureError::InvalidQuery)) <==> !query_compiles(
            grammar_of(document.spec_language()),
            query_source@,
        ),
        query_compiles(grammar_of(document.spec_language()), query_source@) ==> captures_outcome(
            r,
            capture_names_of(grammar_of(document.spec_language()), query_source@),
            all_captures(
                matches_of(
                    grammar_of(document.spec_language()),
                    query_source@,
                    root_node_of(&document.syntax_tree()),
                    document.source_text(),
                ),
            ),
            document.source_text(),
        ),
        r matches Ok(cs) ==> forall|k: int|
            0 <= k < cs.len() ==> byte_text(
                document.source_text(),
                (#[trigger] cs[k]).span.start_byte as int,
                cs[k].span.end_byte as int,
            ) == Some(cs[k].text@),
{
    let grammar = document.language.grammar();
    let (names, matches) = match run_query(&grammar, query_source, tree_root(&document.tree), document.source.as_str()) {
        Some(found) => found,
        None => return Err(QueryCaptureError::InvalidQuery),
    };
    let ghost ms = matches@.map_values(|m: Vec<(u32, tree_sitter::Node<'_>)>| m@);
    let ghost caps = all_captures(ms);
    let ghost nm = crate::text::views(names@);
    let ghost src = document.source_text();
    proof {
        assert(ms.take(0) =~= Seq::<Seq<(u32, tree_sitter::Node<'_>)>>::empty());
    }
    let mut results: Vec<CaptureMatch> = Vec::new();
    let mut i: usize = 0;
    while i < matches.len()
        invariant
            i <= matches@.len(),
            query_compiles(grammar_of(document.spec_language()), query_source@),
            ms == matches@.map_values(|m: Vec<(u32, tree_sitter::Node<'_>)>| m@),
            ms == matches_of(
                grammar_of(document.spec_language()),
                query_source@,
                root_node_of(&document.syntax_tree()),
                document.source_text(),
            ),
            caps == all_captures(ms),
            nm == crate::text::views(names@),
            nm == capture_names_of(grammar_of(document.spec_language()), query_source@),
            src == document.source_text(),
            results@.len() == all_captures(ms.take(i as int)).len(),
            results@.len() <= caps.len(),
            forall|k: int| 0 <= k < results@.len() ==> capture_readable(#[trigger] caps[k], nm, src),
            forall|k: int| 0 <= k < results@.len() ==> capture_reported(#[trigger] results@[k], caps[k], nm, src),
        decreases matches@.len() - i,
    {
        let captures = &matches[i];
        let ghost done = all_captures(ms.take(i as int));
        proof {
            lemma_all_captures_step(ms, i as int);
            lemma_all_captures_prefix(ms, i + 1);
            assert(ms[i as int] == captures@);
        }
        let mut j: usize = 0;
        while j < captures.len()
            invariant
                i < matches@.len(),
                j <= captures@.len(),
                query_compiles(grammar_of(document.spec_language()), query_source@),
                ms == matches@.map_values(|m: Vec<(u32, tree_sitter::Node<'_>)>| m@),
                ms == matches_of(
                grammar_of(document.spec_language()),
                query_source@,
                root_node_of(&document.syntax_tree()),
                document.source_text(),
            ),
                caps == all_captures(ms),
                captures@ == ms[i as int],
                done == all_captures(ms.take(i as int)),
                all_captures(ms.take(i + 1)) == done + captures@,
                all_captures(ms.take(i + 1)).len() <= caps.len(),
                forall|k: int|
                    0 <= k < all_captures(ms.take(i + 1)).len() ==> #[trigger] caps[k] == all_captures(
                        ms.take(i + 1),
                    )[k],
                nm == crate::text::views(names@),
                nm == capture_names_of(grammar_of(document.spec_language()), query_source@),
                src == document.source_text(),
                results@.len() == done.len() + j,
                forall|k: int| 0 <= k < results@.len() ==> capture_readable(#[trigger] caps[k], nm, src),
                forall|k: int| 0 <= k < results@.len() ==> capture_reported(#[trigger] results@[k], caps[k], nm, src),
            decreases captures@.len() - j,
        {
            let (index, node) = captures[j];
            let ghost n = done.len() + j;
            proof {
                assert((done + captures@)[n] == captures@[j as int]);
                assert(caps[n] == (index, node));
            }
            let position = index as usize;
            if position >= names.len() {
                proof {
                    assert(captures_outcome(Err(QueryCaptureError::UnknownCapture), nm, caps, src));
                }
                return Err(QueryCaptureError::UnknownCapture);
            }
            let span = node_span(node);
            let text = match text_between(document.source.as_str(), span.start_byte, span.end_byte) {
                Some(t) => string_of(t.as_slice()),
                None => {
                    proof {
                        assert(captures_outcome(Err(QueryCaptureError::UnreadableCapture), nm, caps, src));
                    }
                    return Err(QueryCaptureError::UnreadableCapture);
                },
            };
            let ghost before = results@;
            let name = names[position].clone();
            let kind = node_kind(node).to_owned();
            proof {
                assert(name@ == nm[position as int]);
            }
            let m = CaptureMatch { capture_name: name, kind, text, span };
            proof {
                assert(capture_readable(caps[n], nm, src));
                assert(capture_reported(m, caps[n], nm, src));
            }
            results.push(m);
            proof {
                assert forall|k: int| 0 <= k < results@.len() implies capture_reported(
                    #[trigger] results@[k],
                    caps[k],
                    nm,
                    src,
                ) by {
                    if k < before.len() {
                        assert(results@[k] == before[k]);
                    }
                }
            }
            j += 1;
        }
        i += 1;
    }
    proof {
        assert(ms.take(ms.len() as int) =~= ms);
        assert(captures_outcome(Ok(results), nm, caps, src));
    }
    Ok(results)
}

} // verus!
