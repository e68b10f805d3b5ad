//! Per-document state.

use crate::checks::Analysis;
use crate::index::{index_view, IndexView};
use crate::parsing::{leading_texts, ParseResult, ParseView};
use crate::problem::{findings, Finding, FindingView};
use crate::rope::rope_text;
use crate::text::texts;
use crate::types::SourceSpan;
use ropey::Rope;
use rowl::comment::CommentMap;
use vstd::prelude::*;

verus! {

/// Per-document state: rope buffer, parse result, semantic analysis and lint findings.
pub struct Document {
    /// Source text as a rope, for fast position queries.
    pub rope: Rope,
    /// Parse result: a syntax tree, or findings.
    pub parse: ParseResult,
    /// Semantic analysis. `None` when there is no syntax tree.
    pub analysis: Option<Analysis>,
    /// Findings of the default lint rules.
    pub lint: Vec<Finding>,
    /// Package manifest, if this document is one and could be parsed.
    pub package: Option<rowl::ast::PackageFile>,
    /// Namespace taken from the path of the file below the workspace root. `None` when
    /// the root is unknown or the path has no namespace.
    pub namespace: Option<Vec<String>>,
    /// Comments attached to syntax nodes, which hovers show as descriptions.
    pub comment_map: CommentMap,
}

/// Contents of an [`Analysis`].
pub struct AnalysisView {
    pub index: IndexView,
    pub problems: Seq<FindingView>,
}

/// Contents of a [`Document`].
pub struct DocumentView {
    pub text: Seq<char>,
    pub parse: ParseView,
    pub analysis: Option<AnalysisView>,
    pub lint: Seq<FindingView>,
    pub package: Option<rowl::ast::PackageFile>,
    pub namespace: Option<Seq<Seq<char>>>,
    pub comments: Map<SourceSpan, Seq<Seq<char>>>,
}

impl View for Analysis {
    type V = AnalysisView;

    open spec fn view(&self) -> AnalysisView {
        AnalysisView { index: index_view(self.index), problems: findings(self.diagnostics@) }
    }
}

impl View for Document {
    type V = DocumentView;

    open spec fn view(&self) -> DocumentView {
        DocumentView {
            text: rope_text(self.rope),
            parse: self.parse@,
            analysis: match self.analysis {
                Some(a) => Some(a@),
                None => None,
            },
            lint: findings(self.lint@),
            package: self.package,
            namespace: namespace_view(self.namespace),
            comments: leading_texts(self.comment_map),
        }
    }
}

/// Contents of an optional namespace.
pub open spec fn namespace_view(n: Option<Vec<String>>) -> Option<Seq<Seq<char>>> {
    match n {
        Some(parts) => Some(texts(parts@)),
        None => None,
    }
}

impl Document {
    /// The outline, if there is one, describes the syntax tree, and the places of names are
    /// those that the text has.
    pub open spec fn wf(&self) -> bool {
        self.parse.wf() && self.parse.placed(rope_text(self.rope))
    }
}

} // verus!
