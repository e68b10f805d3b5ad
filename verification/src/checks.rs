//! Semantic analysis, lint rules and reference search of the Dolfin toolchain.

use crate::ast::{parsed_span, span_parts};
use crate::index::{index_files, index_symbols, SymbolView};
use crate::problem::{
    all_reported, findings, findings_from, CodeView, Finding, FindingView, FixEditView, Severity,
};
use crate::text::texts;
use crate::types::SourceSpan;
use dolfin_analysis::SymbolIndex;
use dolfin_lint::PackageKnowledge;
use vstd::multiset::Multiset;
use vstd::prelude::*;

verus! {

// ── Outside types and results ─────────────────────────────────────────────────

/// `dolfin_lint::PackageKnowledge`, opaque.
#[verifier::external_type_specification]
#[verifier::external_body]
pub struct ExPackageKnowledge(dolfin_lint::PackageKnowledge);

/// The files, each under its namespace, that a knowledge base was built from.
pub uninterp spec fn knowledge_files(k: PackageKnowledge) -> Seq<
    (Seq<Seq<char>>, rowl::ast::OntologyFile),
>;

/// The syntax trees that a knowledge base keeps by file.
pub uninterp spec fn knowledge_trees(k: PackageKnowledge) -> Map<
    Seq<char>,
    rowl::ast::OntologyFile,
>;

/// The findings of the semantic analysis of a file against a symbol table: unresolved types
/// and duplicate declarations in the order of the source, circular inheritance in any order,
/// and misused types in the order of the source.
pub uninterp spec fn analysis_outcome(
    file: rowl::ast::OntologyFile,
    symbols: Map<Seq<char>, SymbolView>,
) -> (Seq<FindingView>, Multiset<FindingView>, Seq<FindingView>);

/// Whether a list is made of a first part, a middle part in any order and a last part.
pub open spec fn made_of(
    s: Seq<FindingView>,
    parts: (Seq<FindingView>, Multiset<FindingView>, Seq<FindingView>),
) -> bool {
    let (first, middle, last) = parts;
    exists|m: Seq<FindingView>| s == first + m + last && #[trigger] m.to_multiset() == middle
}

/// A finding whose edits are in no order.
pub struct LooseFinding {
    pub severity: Severity,
    pub code: CodeView,
    pub message: Seq<char>,
    pub span: Option<SourceSpan>,
    pub fix: Option<(Seq<char>, Multiset<FixEditView>)>,
}

/// A finding apart from the order of its edits.
pub open spec fn loose(d: FindingView) -> LooseFinding {
    LooseFinding {
        severity: d.severity,
        code: d.code,
        message: d.message,
        span: d.span,
        fix: match d.fix {
            Some(f) => Some((f.description, f.edits.to_multiset())),
            None => None,
        },
    }
}

/// Findings apart from their order and that of their edits.
pub open spec fn all_loose(v: Seq<FindingView>) -> Multiset<LooseFinding> {
    Seq::new(v.len(), |i: int| loose(v[i])).to_multiset()
}

/// What the default lint rules report on a file with the given text and name, in a package
/// with the given files and trees. The order of findings on variables and on circular
/// inheritance is left open, and so is that of the edits of a fix.
pub uninterp spec fn lint_outcome(
    file: rowl::ast::OntologyFile,
    text: Seq<char>,
    name: Seq<char>,
    files: Seq<(Seq<Seq<char>>, rowl::ast::OntologyFile)>,
    trees: Map<Seq<char>, rowl::ast::OntologyFile>,
) -> Multiset<LooseFinding>;

/// The places in a file that refer to `target` by name.
pub uninterp spec fn references_in(
    file: rowl::ast::OntologyFile,
    target: Seq<char>,
) -> Seq<SourceSpan>;

// ── Outside calls ─────────────────────────────────────────────────────────────

/// `dolfin_analysis::analyze_with_index` checks a file against an index and hands the
/// index back. It walks a hash table for circular inheritance, so the order of these findings
/// is not stated.
#[verifier::external_body]
pub(crate) fn run_analysis(file: &rowl::ast::OntologyFile, index: &SymbolIndex) -> (r: (
    SymbolIndex,
    Vec<dolfin_diagnostic::Diagnostic>,
))
    ensures
        index_files(r.0) == index_files(*index),
        index_symbols(r.0) == index_symbols(*index),
        made_of(all_reported(r.1@), analysis_outcome(*file, index_symbols(*index))),
{
    let a = dolfin_analysis::analyze_with_index(file.clone(), index.clone());
    (a.index, a.diagnostics)
}

/// `PackageKnowledge::from_asts` collects the names of the given files; it keeps no tree.
#[verifier::external_body]
pub(crate) fn knowledge_of(files: &Vec<(Vec<String>, &rowl::ast::OntologyFile)>) -> (r:
    PackageKnowledge)
    ensures
        knowledge_files(r) == named_files(files@),
        knowledge_trees(r).dom().is_empty(),
{
    let named: Vec<(rowl::ast::QualifiedName, &rowl::ast::OntologyFile)> = files.iter()
        .map(|f| (rowl::ast::QualifiedName { parts: f.0.clone(), span: None }, f.1))
        .collect();
    PackageKnowledge::from_asts(named.iter().map(|f| (&f.0, f.1)))
}

/// Puts a copy of a tree into the public map `PackageKnowledge::all_asts`.
#[verifier::external_body]
pub(crate) fn knowledge_keep(k: &mut PackageKnowledge, name: &str, file: &rowl::ast::OntologyFile)
    ensures
        knowledge_files(*final(k)) == knowledge_files(*old(k)),
        knowledge_trees(*final(k)) == knowledge_trees(*old(k)).insert(name@, *file),
{
    k.all_asts.insert(name.to_owned(), file.clone());
}

/// `LintEngine::check_with_knowledge` runs the rules of `LintEngine::with_default_rules` on
/// one file. It walks hash tables, so only what is found is stated, not in which order.
#[verifier::external_body]
pub(crate) fn run_lint(
    file: &rowl::ast::OntologyFile,
    text: &str,
    name: &str,
    k: &PackageKnowledge,
) -> (r: Vec<dolfin_diagnostic::Diagnostic>)
    ensures
        all_loose(all_reported(r@)) == lint_outcome(
            *file,
            text@,
            name@,
            knowledge_files(*k),
            knowledge_trees(*k),
        ),
{
    dolfin_lint::engine::LintEngine::with_default_rules().check_with_knowledge(file, text, name, k)
}

/// `find_references_in_file` lists the places in a file that name `target`.
#[verifier::external_body]
pub(crate) fn find_references(file: &rowl::ast::OntologyFile, target: &str) -> (r: Vec<
    rowl::error::Span,
>)
    ensures
        Seq::new(r@.len(), |i: int| parsed_span(r@[i])) == references_in(*file, target@),
{
    dolfin_analysis::references::find_references_in_file(file, target)
}

/// The namespaces and trees of a list of files.
pub open spec fn named_files(v: Seq<(Vec<String>, &rowl::ast::OntologyFile)>) -> Seq<
    (Seq<Seq<char>>, rowl::ast::OntologyFile),
> {
    Seq::new(v.len(), |i: int| (texts(v[i].0@), *v[i].1))
}

// ── Plain results ─────────────────────────────────────────────────────────────

/// The places in a file that refer to `target`, as plain spans.
pub fn reference_spans(file: &rowl::ast::OntologyFile, target: &str) -> (r: Vec<SourceSpan>)
    ensures
        r@ == references_in(*file, target@),
{
    let found = find_references(file, target);
    let mut out: Vec<SourceSpan> = Vec::new();
    let mut i: usize = 0;
    while i < found.len()
        invariant
            i <= found.len(),
            out.len() == i,
            forall|j: int| 0 <= j < i ==> #[trigger] out@[j] == parsed_span(found@[j]),
        decreases found.len() - i,
    {
        out.push(span_parts(&found[i]));
        i = i + 1;
    }
    assert(out@ =~= Seq::new(found@.len(), |i: int| parsed_span(found@[i])));
    out
}

/// Semantic analysis of a document: the index it was made with and the findings.
pub struct Analysis {
    pub index: SymbolIndex,
    pub diagnostics: Vec<Finding>,
}

/// Analyses a file against an index.
pub fn analyze(file: &rowl::ast::OntologyFile, index: &SymbolIndex) -> (r: Analysis)
    ensures
        index_files(r.index) == index_files(*index),
        index_symbols(r.index) == index_symbols(*index),
        made_of(findings(r.diagnostics@), analysis_outcome(*file, index_symbols(*index))),
{
    let (index, problems) = run_analysis(file, index);
    Analysis { index, diagnostics: findings_from(&problems) }
}

/// Runs the default lint rules on a file.
pub fn lint(
    file: &rowl::ast::OntologyFile,
    text: &str,
    name: &str,
    k: &PackageKnowledge,
) -> (r: Vec<Finding>)
    ensures
        all_loose(findings(r@)) == lint_outcome(
            *file,
            text@,
            name@,
            knowledge_files(*k),
            knowledge_trees(*k),
        ),
{
    findings_from(&run_lint(file, text, name, k))
}

} // verus!
