//! Parsing: `rowl`'s parser and its comment map.

use crate::ast::Ontology;
use crate::layout::{course_of, head, law_heads_are_parsable, parsable, trace, Course};
use crate::places::{places_in, read_places};
use crate::problem::{all_reported, findings, findings_from, Finding, FindingView};
use crate::text::texts;
use crate::types::SourceSpan;
use rowl::comment::CommentMap;
use vstd::prelude::*;
use vstd::utf8::encode_utf8;

verus! {

// ── Outside types ─────────────────────────────────────────────────────────────

/// `rowl::ast::PackageFile`, opaque.
#[verifier::external_type_specification]
#[verifier::external_body]
pub struct ExPackageFile(rowl::ast::PackageFile);

/// `rowl::comment::Comment`, opaque.
#[verifier::external_type_specification]
#[verifier::external_body]
pub struct ExComment(rowl::comment::Comment);

/// `rowl::comment::CommentMap`, opaque.
#[verifier::external_type_specification]
#[verifier::external_body]
pub struct ExCommentMap(rowl::comment::CommentMap);

/// What parsing a text gives: a syntax tree if it can be parsed, and findings.
pub uninterp spec fn parse_outcome(text: Seq<char>) -> (
    Option<rowl::ast::OntologyFile>,
    Seq<FindingView>,
);

/// The comments that the lexer meets while a text is parsed.
pub uninterp spec fn comments_in(text: Seq<char>) -> Seq<rowl::comment::Comment>;

/// What parsing a text as a package manifest gives: the manifest, or the finding.
pub uninterp spec fn manifest_outcome(text: Seq<char>) -> Result<
    rowl::ast::PackageFile,
    Seq<FindingView>,
>;

/// The texts of the comments that a comment map holds before a node, by the node's span.
pub uninterp spec fn leading_texts(map: CommentMap) -> Map<SourceSpan, Seq<Seq<char>>>;

/// The texts that `CommentMap::build` puts before each node of a file.
pub uninterp spec fn attached_texts(
    file: rowl::ast::OntologyFile,
    comments: Seq<rowl::comment::Comment>,
) -> Map<SourceSpan, Seq<Seq<char>>>;

// ── Texts that a parser comes back from ───────────────────────────────────────

/// What a parser can reach of a text, with a character behind it that cannot be read. A parser
/// that reads on from there stops at that character.
pub open spec fn cut_off(text: Seq<char>) -> Seq<char> {
    head(text).push('$')
}

/// What a parser can reach of a text, with a line break behind it.
pub open spec fn broken_off(text: Seq<char>) -> Seq<char> {
    head(text).push('\n')
}

/// The byte behind what a parser can reach of a text.
pub open spec fn reach(text: Seq<char>) -> int {
    encode_utf8(head(text)).len() as int
}

/// The byte at which a parser's first finding starts, if it has a place.
pub open spec fn found_at(problems: Seq<FindingView>) -> Option<int> {
    if problems.len() > 0 {
        match problems[0].span {
            Some(s) => Some(s.start.offset as int),
            None => None,
        }
    } else {
        None
    }
}

/// Where the ontology parser stops in a text.
pub open spec fn ontology_stop(text: Seq<char>) -> Option<int> {
    found_at(parse_outcome(text).1)
}

/// Where the manifest parser stops in a text.
pub open spec fn manifest_stop(text: Seq<char>) -> Option<int> {
    match manifest_outcome(text) {
        Ok(_) => None,
        Err(d) => found_at(d),
    }
}

/// Whether the ontology parser comes back from a text. Its lexer panics at a gap that it
/// cannot follow, so an error of syntax must stop the parser before that. In a gap that the
/// text ends in, the lexer still hands out the line break, and the parser may stop there; what
/// it then finds lies in the line before or at the break.
pub open spec fn parser_returns(text: Seq<char>) -> bool {
    match course_of(text) {
        Course::Whole => true,
        Course::Unreadable => true,
        Course::Lost => ontology_stop(cut_off(text)) matches Some(at) && at < reach(text),
        Course::Dangling => ontology_stop(broken_off(text)) matches Some(at) && at <= reach(text),
    }
}

/// Whether the manifest parser comes back from a text. It panics on the empty text, where it
/// looks for the line of the error. In a gap that the text ends in, it may stop at the line
/// break; a field that it does not know it finds only behind the break.
pub open spec fn manifest_parser_returns(text: Seq<char>) -> bool {
    text.len() > 0 && match course_of(text) {
        Course::Whole => true,
        Course::Unreadable => true,
        Course::Lost => manifest_stop(cut_off(text)) matches Some(at) && at < reach(text),
        Course::Dangling => {
            ||| manifest_stop(cut_off(text)) matches Some(at) && at < reach(text)
            ||| manifest_stop(broken_off(text)) == Some(reach(text))
        },
    }
}

// ── Outside calls ─────────────────────────────────────────────────────────────

/// `rowl::parser::parse_ontology`, with its findings in unified form: a tree and no
/// finding, or no tree and one finding. It reads token by token and stops at the first error:
/// a token that the grammar does not take, or a piece that its lexer cannot read. The lexer
/// panics on a layout that it cannot follow, once the parser gets there.
#[verifier::external_body]
pub(crate) fn run_parser(text: &str) -> (r: (
    Option<rowl::ast::OntologyFile>,
    Vec<dolfin_diagnostic::Diagnostic>,
))
    requires
        parser_returns(text@),
    ensures
        (r.0, all_reported(r.1@)) == parse_outcome(text@),
        r.1@.len() == if r.0 is Some { 0int } else { 1 },
{
    let p = rowl::parser::parse_ontology(text);
    let problems = p.unified_diagnostics();
    (p.ontology, problems)
}

/// `rowl::parser::parse_ontology_with_comments` parses as `parse_ontology` does and keeps
/// the comments.
#[verifier::external_body]
pub(crate) fn run_parser_with_comments(text: &str) -> (r: (
    Option<rowl::ast::OntologyFile>,
    Vec<dolfin_diagnostic::Diagnostic>,
    Vec<rowl::comment::Comment>,
))
    requires
        parser_returns(text@),
    ensures
        (r.0, all_reported(r.1@)) == parse_outcome(text@),
        r.1@.len() == if r.0 is Some { 0int } else { 1 },
        r.2@ == comments_in(text@),
{
    let p = rowl::parser::parse_ontology_with_comments(text);
    let problems = p.result.unified_diagnostics();
    (p.result.ontology, problems, p.comments)
}

/// `rowl::parser::parse_package` gives the manifest or an error, which becomes one
/// finding in unified form. It panics on the empty text, where it looks for the line of the
/// error, and its lexer on a layout that it cannot follow, once the parser gets there.
#[verifier::external_body]
pub(crate) fn run_manifest_parser(text: &str) -> (r: Result<
    rowl::ast::PackageFile,
    Vec<dolfin_diagnostic::Diagnostic>,
>)
    requires
        manifest_parser_returns(text@),
    ensures
        match r {
            Ok(p) => manifest_outcome(text@) == Ok::<_, Seq<FindingView>>(p),
            Err(d) => manifest_outcome(text@) == Err::<rowl::ast::PackageFile, _>(
                all_reported(d@),
            ) && d@.len() == 1,
        },
{
    match rowl::parser::parse_package(text) {
        Ok(p) => Ok(p),
        Err(e) => {
            let d = (*e).into_diagnostic();
            Err(rowl::error::ParseResult::failure(vec![d]).unified_diagnostics())
        },
    }
}

/// `CommentMap::build` attaches comments to the nodes of a file.
#[verifier::external_body]
pub(crate) fn build_comment_map(
    file: &rowl::ast::OntologyFile,
    comments: Vec<rowl::comment::Comment>,
) -> (r: CommentMap)
    ensures
        leading_texts(r) == attached_texts(*file, comments@),
{
    CommentMap::build(file, comments)
}

/// `CommentMap::default` holds no comment.
#[verifier::external_body]
pub(crate) fn empty_comment_map() -> (r: CommentMap)
    ensures
        leading_texts(r) == no_comments(),
{
    CommentMap::default()
}

/// `CommentMap::leading_comments` gives the comments before a node, none if there is no
/// entry for its span.
#[verifier::external_body]
pub(crate) fn leading_comments(map: &CommentMap, s: SourceSpan) -> (r: Vec<String>)
    ensures
        texts(r@) == comments_before(leading_texts(*map), s),
{
    let start = rowl::error::Location {
        line: s.start.line, column: s.start.column, offset: s.start.offset,
    };
    let end = rowl::error::Location {
        line: s.end.line, column: s.end.column, offset: s.end.offset,
    };
    map.leading_comments(&rowl::error::Span { start, end }).iter().map(|c| c.text.clone()).collect()
}

/// No comment before any node.
pub open spec fn no_comments() -> Map<SourceSpan, Seq<Seq<char>>> {
    Map::empty()
}

/// The comments before the node at `s`.
pub open spec fn comments_before(
    leading: Map<SourceSpan, Seq<Seq<char>>>,
    s: SourceSpan,
) -> Seq<Seq<char>> {
    if leading.contains_key(s) {
        leading[s]
    } else {
        Seq::empty()
    }
}

// ── Parse results ─────────────────────────────────────────────────────────────

/// The parsed file, if the text could be parsed, and the findings of the parser.
pub struct ParseResult {
    pub ontology: Option<Ontology>,
    pub diagnostics: Vec<Finding>,
}

/// Contents of a [`ParseResult`]: the syntax tree and the findings.
pub struct ParseView {
    pub tree: Option<rowl::ast::OntologyFile>,
    pub problems: Seq<FindingView>,
}

impl View for ParseResult {
    type V = ParseView;

    open spec fn view(&self) -> ParseView {
        ParseView {
            tree: match self.ontology {
                Some(o) => Some(o.tree),
                None => None,
            },
            problems: findings(self.diagnostics@),
        }
    }
}

impl ParseResult {
    /// The outline, if there is one, describes the tree.
    pub open spec fn wf(&self) -> bool {
        self.ontology matches Some(o) ==> o.wf()
    }

    /// The places of the names of rules are those that the text has.
    pub open spec fn placed(&self, text: Seq<char>) -> bool {
        self.ontology matches Some(o) ==> o.places@ == places_in(text)
    }
}

/// The parse of an ontology text.
pub open spec fn ontology_parse(text: Seq<char>) -> ParseView {
    ParseView { tree: parse_outcome(text).0, problems: parse_outcome(text).1 }
}

/// The parse of a package manifest: never a tree, and a finding where it is malformed.
pub open spec fn manifest_parse(text: Seq<char>) -> ParseView {
    ParseView {
        tree: None,
        problems: match manifest_outcome(text) {
            Ok(_) => Seq::empty(),
            Err(d) => d,
        },
    }
}

/// The manifest, if the text is one.
pub open spec fn manifest_of(text: Seq<char>) -> Option<rowl::ast::PackageFile> {
    match manifest_outcome(text) {
        Ok(p) => Some(p),
        Err(_) => None,
    }
}

/// The comments before each node of a text's syntax tree, none if it has no tree.
pub open spec fn leading_in(text: Seq<char>) -> Map<SourceSpan, Seq<Seq<char>>> {
    match parse_outcome(text).0 {
        Some(f) => attached_texts(f, comments_in(text)),
        None => no_comments(),
    }
}

/// The byte at which the first finding starts, if it has a place.
fn first_place(problems: &Vec<dolfin_diagnostic::Diagnostic>) -> (r: Option<usize>)
    ensures
        found_at(all_reported(problems@)) == match r {
            Some(at) => Some(at as int),
            None => None,
        },
{
    let found = findings_from(problems);
    assert(findings(found@).len() == found@.len());
    if found.len() == 0 {
        return None;
    }
    assert(findings(found@)[0] == found@[0]@);
    match found[0].span {
        Some(s) => Some(s.start.offset),
        None => None,
    }
}

/// Where the ontology parser stops in a text that is `head` with `c` behind it.
fn find_ontology_stop(head: &str, c: char) -> (r: Option<usize>)
    requires
        parsable(head@.push(c)),
    ensures
        ontology_stop(head@.push(c)) == match r {
            Some(at) => Some(at as int),
            None => None,
        },
{
    let mut source = head.to_owned();
    source.push(c);
    let (_tree, problems) = run_parser(source.as_str());
    first_place(&problems)
}

/// Where the manifest parser stops in a text that is `head` with `c` behind it.
fn find_manifest_stop(head: &str, c: char) -> (r: Option<usize>)
    requires
        parsable(head@.push(c)),
    ensures
        manifest_stop(head@.push(c)) == match r {
            Some(at) => Some(at as int),
            None => None,
        },
{
    let mut source = head.to_owned();
    source.push(c);
    match run_manifest_parser(source.as_str()) {
        Ok(_) => None,
        Err(problems) => first_place(&problems),
    }
}

/// Whether the ontology parser comes back from a text.
pub fn does_parser_return(text: &str) -> (r: bool)
    ensures
        r == parser_returns(text@),
{
    let (course, head) = trace(text);
    let reach: usize = head.as_str().as_bytes().len();
    proof {
        law_heads_are_parsable(text@);
    }
    match course {
        Course::Whole => true,
        Course::Unreadable => true,
        Course::Lost => match find_ontology_stop(head.as_str(), '$') {
            Some(at) => at < reach,
            None => false,
        },
        Course::Dangling => match find_ontology_stop(head.as_str(), '\n') {
            Some(at) => at <= reach,
            None => false,
        },
    }
}

/// Whether the manifest parser comes back from a text.
pub fn does_manifest_parser_return(text: &str) -> (r: bool)
    ensures
        r == manifest_parser_returns(text@),
{
    if text.is_empty() {
        return false;
    }
    let (course, head) = trace(text);
    let reach: usize = head.as_str().as_bytes().len();
    proof {
        law_heads_are_parsable(text@);
    }
    match course {
        Course::Whole => {
            return true;
        },
        Course::Unreadable => {
            return true;
        },
        Course::Lost => {},
        Course::Dangling => {
            if let Some(at) = find_manifest_stop(head.as_str(), '\n') {
                if at == reach {
                    return true;
                }
            }
        },
    }
    match find_manifest_stop(head.as_str(), '$') {
        Some(at) => at < reach,
        None => false,
    }
}

/// The syntax tree of a text, if it can be parsed.
pub fn parse_tree(text: &str) -> (r: Option<Ontology>)
    requires
        parser_returns(text@),
    ensures
        match r {
            Some(o) => o.wf() && ontology_parse(text@).tree == Some(o.tree) && o.places@
                == places_in(text@),
            None => ontology_parse(text@).tree is None,
        },
{
    let (tree, _problems) = run_parser(text);
    match tree {
        Some(f) => Some(Ontology::of(f, read_places(text))),
        None => None,
    }
}

/// Parses a text and attaches its comments.
pub fn parse_document(text: &str) -> (r: (ParseResult, CommentMap))
    requires
        parser_returns(text@),
    ensures
        r.0.wf(),
        r.0@ == ontology_parse(text@),
        r.0.placed(text@),
        leading_texts(r.1) == leading_in(text@),
        r.0.diagnostics@.len() == if r.0.ontology is Some { 0int } else { 1 },
{
    let (tree, problems, comments) = run_parser_with_comments(text);
    let diagnostics = findings_from(&problems);
    proof {
        assert(findings(diagnostics@).len() == all_reported(problems@).len());
    }
    match tree {
        Some(f) => {
            let map = build_comment_map(&f, comments);
            (ParseResult { ontology: Some(Ontology::of(f, read_places(text))), diagnostics }, map)
        },
        None => (ParseResult { ontology: None, diagnostics }, empty_comment_map()),
    }
}

/// Parses a package manifest.
pub fn parse_package_manifest(text: &str) -> (r: (ParseResult, Option<rowl::ast::PackageFile>))
    requires
        manifest_parser_returns(text@),
    ensures
        r.0.wf(),
        r.0@ == manifest_parse(text@),
        r.0.placed(text@),
        r.1 == manifest_of(text@),
        r.0.diagnostics@.len() == if r.1 is Some { 0int } else { 1 },
{
    match run_manifest_parser(text) {
        Ok(p) => {
            let r = ParseResult { ontology: None, diagnostics: Vec::new() };
            assert(r@.problems =~= Seq::empty());
            (r, Some(p))
        },
        Err(d) => {
            let diagnostics = findings_from(&d);
            proof {
                assert(findings(diagnostics@).len() == all_reported(d@).len());
            }
            (ParseResult { ontology: None, diagnostics }, None)
        },
    }
}

} // verus!
