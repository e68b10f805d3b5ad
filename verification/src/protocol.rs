//! Messages: what requests and notifications carry and what is answered.

use crate::codeaction::{action_views, ActionKind, CodeAction, CodeActionView};
use crate::codelens::{lens_views, CodeLens, CodeLensView};
use crate::completion::{item_views, CompletionItem, CompletionItemView};
use crate::diagnostics::{lsp_views, LspDiagnostic, LspDiagnosticView};
use crate::edits::{EditView, WorkspaceEdit};
use crate::hover::{hover_view, Hover, HoverView};
use crate::references::{file_ranges, FileRange, FileRangeView};
use crate::semantic::{legend, token_modifiers, token_types, Legend, SemanticToken, SemanticTokens};
use crate::symbols::{symbol_views, DocumentSymbol, DocumentSymbolView};
use crate::text::{opt_text, same, texts};
use crate::types::{Position, Range};
use crate::uri::url_text;
use crate::world::{provided_views, DiscoveredFile};
use lsp_types::Url;
use std::path::PathBuf;
use vstd::prelude::*;

verus! {

// ── Methods ───────────────────────────────────────────────────────────────────

/// The requests that are told apart.
#[derive(Clone, Copy, PartialEq, Eq, Debug, Structural)]
pub enum RequestKind {
    Initialize,
    Shutdown,
    Hover,
    Completion,
    SemanticTokens,
    Definition,
    References,
    DocumentSymbol,
    CodeAction,
    PrepareRename,
    Rename,
    CodeLens,
    Unknown,
}

/// The request that a method names.
pub open spec fn request_named(method: Seq<char>) -> RequestKind {
    if method == "initialize"@ {
        RequestKind::Initialize
    } else if method == "shutdown"@ {
        RequestKind::Shutdown
    } else if method == "textDocument/hover"@ {
        RequestKind::Hover
    } else if method == "textDocument/completion"@ {
        RequestKind::Completion
    } else if method == "textDocument/semanticTokens/full"@ {
        RequestKind::SemanticTokens
    } else if method == "textDocument/definition"@ {
        RequestKind::Definition
    } else if method == "textDocument/references"@ {
        RequestKind::References
    } else if method == "textDocument/documentSymbol"@ {
        RequestKind::DocumentSymbol
    } else if method == "textDocument/codeAction"@ {
        RequestKind::CodeAction
    } else if method == "textDocument/prepareRename"@ {
        RequestKind::PrepareRename
    } else if method == "textDocument/rename"@ {
        RequestKind::Rename
    } else if method == "textDocument/codeLens"@ {
        RequestKind::CodeLens
    } else {
        RequestKind::Unknown
    }
}

/// Each method names its request.
pub(crate) proof fn lemma_request_methods()
    ensures
        request_named("initialize"@) == RequestKind::Initialize,
        request_named("shutdown"@) == RequestKind::Shutdown,
        request_named("textDocument/hover"@) == RequestKind::Hover,
        request_named("textDocument/completion"@) == RequestKind::Completion,
        request_named("textDocument/semanticTokens/full"@) == RequestKind::SemanticTokens,
        request_named("textDocument/definition"@) == RequestKind::Definition,
        request_named("textDocument/references"@) == RequestKind::References,
        request_named("textDocument/documentSymbol"@) == RequestKind::DocumentSymbol,
        request_named("textDocument/codeAction"@) == RequestKind::CodeAction,
        request_named("textDocument/prepareRename"@) == RequestKind::PrepareRename,
        request_named("textDocument/rename"@) == RequestKind::Rename,
        request_named("textDocument/codeLens"@) == RequestKind::CodeLens,
{
    reveal_strlit("initialize");
    assert("initialize"@.len() == 10);
    reveal_strlit("shutdown");
    assert("shutdown"@.len() == 8);
    reveal_strlit("textDocument/hover");
    assert("textDocument/hover"@.len() == 18);
    reveal_strlit("textDocument/completion");
    assert("textDocument/completion"@.len() == 23);
    reveal_strlit("textDocument/semanticTokens/full");
    assert("textDocument/semanticTokens/full"@.len() == 32);
    reveal_strlit("textDocument/definition");
    assert("textDocument/definition"@.len() == 23);
    reveal_strlit("textDocument/references");
    assert("textDocument/references"@.len() == 23);
    reveal_strlit("textDocument/documentSymbol");
    assert("textDocument/documentSymbol"@.len() == 27);
    reveal_strlit("textDocument/codeAction");
    assert("textDocument/codeAction"@.len() == 23);
    reveal_strlit("textDocument/prepareRename");
    assert("textDocument/prepareRename"@.len() == 26);
    reveal_strlit("textDocument/rename");
    assert("textDocument/rename"@.len() == 19);
    reveal_strlit("textDocument/codeLens");
    assert("textDocument/codeLens"@.len() == 21);
    assert("textDocument/definition"@[13] != "textDocument/completion"@[13]);
    assert("textDocument/references"@[13] != "textDocument/completion"@[13]);
    assert("textDocument/references"@[13] != "textDocument/definition"@[13]);
    assert("textDocument/codeAction"@[15] != "textDocument/completion"@[15]);
    assert("textDocument/codeAction"@[13] != "textDocument/definition"@[13]);
    assert("textDocument/codeAction"@[13] != "textDocument/references"@[13]);
}

/// The request that a method names.
pub fn request_kind(method: &str) -> (r: RequestKind)
    ensures
        r == request_named(method@),
{
    if same(method, "initialize") {
        RequestKind::Initialize
    } else if same(method, "shutdown") {
        RequestKind::Shutdown
    } else if same(method, "textDocument/hover") {
        RequestKind::Hover
    } else if same(method, "textDocument/completion") {
        RequestKind::Completion
    } else if same(method, "textDocument/semanticTokens/full") {
        RequestKind::SemanticTokens
    } else if same(method, "textDocument/definition") {
        RequestKind::Definition
    } else if same(method, "textDocument/references") {
        RequestKind::References
    } else if same(method, "textDocument/documentSymbol") {
        RequestKind::DocumentSymbol
    } else if same(method, "textDocument/codeAction") {
        RequestKind::CodeAction
    } else if same(method, "textDocument/prepareRename") {
        RequestKind::PrepareRename
    } else if same(method, "textDocument/rename") {
        RequestKind::Rename
    } else if same(method, "textDocument/codeLens") {
        RequestKind::CodeLens
    } else {
        RequestKind::Unknown
    }
}

/// The notifications that are told apart.
#[derive(Clone, Copy, PartialEq, Eq, Debug, Structural)]
pub enum NotificationKind {
    Initialized,
    DidOpen,
    DidChange,
    DidClose,
    IndexFiles,
    WatchedFiles,
    WorkspaceFolders,
    Unknown,
}

/// The notification that a method names.
pub open spec fn notification_named(method: Seq<char>) -> NotificationKind {
    if method == "initialized"@ {
        NotificationKind::Initialized
    } else if method == "textDocument/didOpen"@ {
        NotificationKind::DidOpen
    } else if method == "textDocument/didChange"@ {
        NotificationKind::DidChange
    } else if method == "textDocument/didClose"@ {
        NotificationKind::DidClose
    } else if method == "dolfin/indexFiles"@ {
        NotificationKind::IndexFiles
    } else if method == "workspace/didChangeWatchedFiles"@ {
        NotificationKind::WatchedFiles
    } else if method == "workspace/didChangeWorkspaceFolders"@ {
        NotificationKind::WorkspaceFolders
    } else {
        NotificationKind::Unknown
    }
}

/// The notification that a method names.
pub fn notification_kind(method: &str) -> (r: NotificationKind)
    ensures
        r == notification_named(method@),
{
    if same(method, "initialized") {
        NotificationKind::Initialized
    } else if same(method, "textDocument/didOpen") {
        NotificationKind::DidOpen
    } else if same(method, "textDocument/didChange") {
        NotificationKind::DidChange
    } else if same(method, "textDocument/didClose") {
        NotificationKind::DidClose
    } else if same(method, "dolfin/indexFiles") {
        NotificationKind::IndexFiles
    } else if same(method, "workspace/didChangeWatchedFiles") {
        NotificationKind::WatchedFiles
    } else if same(method, "workspace/didChangeWorkspaceFolders") {
        NotificationKind::WorkspaceFolders
    } else {
        NotificationKind::Unknown
    }
}

// ── Parameters ────────────────────────────────────────────────────────────────

/// What a request carries.
pub enum RequestParams {
    /// Nothing that could be read as the parameters of the method.
    Malformed,
    /// The workspace folders, in order.
    Folders(Vec<Url>),
    /// A document.
    Of { uri: Url },
    /// A position in a document.
    At { uri: Url, position: Position },
    /// A range in a document.
    Within { uri: Url, range: Range },
    /// A position in a document and a new name for what stands there.
    Renaming { uri: Url, position: Position, new_name: String },
}

/// Contents of [`RequestParams`].
pub enum RequestParamsView {
    Malformed,
    Folders(Seq<Seq<char>>),
    Of { uri: Seq<char> },
    At { uri: Seq<char>, position: Position },
    Within { uri: Seq<char>, range: Range },
    Renaming { uri: Seq<char>, position: Position, new_name: Seq<char> },
}

/// The texts of a list of URLs.
pub open spec fn url_texts(v: Seq<Url>) -> Seq<Seq<char>> {
    Seq::new(v.len(), |i: int| url_text(v[i]))
}

impl View for RequestParams {
    type V = RequestParamsView;

    open spec fn view(&self) -> RequestParamsView {
        match *self {
            RequestParams::Malformed => RequestParamsView::Malformed,
            RequestParams::Folders(v) => RequestParamsView::Folders(url_texts(v@)),
            RequestParams::Of { uri } => RequestParamsView::Of { uri: url_text(uri) },
            RequestParams::At { uri, position } => RequestParamsView::At {
                uri: url_text(uri),
                position,
            },
            RequestParams::Within { uri, range } => RequestParamsView::Within {
                uri: url_text(uri),
                range,
            },
            RequestParams::Renaming { uri, position, new_name } => RequestParamsView::Renaming {
                uri: url_text(uri),
                position,
                new_name: new_name@,
            },
        }
    }
}

/// What happened to a watched file.
#[derive(Clone, Copy, PartialEq, Eq, Debug, Structural)]
pub enum ChangeKind {
    Created,
    Changed,
    Deleted,
    Other,
}

/// A change of a watched file, with its text on disk if it could be read.
pub struct FileChange {
    pub uri: Url,
    pub kind: ChangeKind,
    pub on_disk: Option<String>,
}

/// Contents of a [`FileChange`].
pub struct FileChangeView {
    pub uri: Seq<char>,
    pub kind: ChangeKind,
    pub on_disk: Option<Seq<char>>,
}

impl View for FileChange {
    type V = FileChangeView;

    open spec fn view(&self) -> FileChangeView {
        FileChangeView {
            uri: url_text(self.uri),
            kind: self.kind,
            on_disk: opt_text(self.on_disk),
        }
    }
}

/// Contents of a list of file changes.
pub open spec fn change_views(v: Seq<FileChange>) -> Seq<FileChangeView> {
    Seq::new(v.len(), |i: int| v[i]@)
}

/// What a notification carries.
pub enum NotificationParams {
    /// Nothing that could be read as the parameters of the method.
    Malformed,
    /// An opened document.
    Open { uri: Url, text: String },
    /// The texts of a document after each of its changes.
    Change { uri: Url, texts: Vec<String> },
    /// A closed document, with its text on disk if it could be read.
    Close { uri: Url, on_disk: Option<String> },
    /// Files that are not open, and the root that their namespaces are relative to.
    Files { root: Url, files: Vec<(Url, String)> },
    /// Changes on disk.
    Watched(Vec<FileChange>),
    /// Workspace folders that were added.
    Added(Vec<Url>),
}

/// Contents of [`NotificationParams`].
pub enum NotificationParamsView {
    Malformed,
    Open { uri: Seq<char>, text: Seq<char> },
    Change { uri: Seq<char>, texts: Seq<Seq<char>> },
    Close { uri: Seq<char>, on_disk: Option<Seq<char>> },
    Files { root: Seq<char>, files: Seq<(Seq<char>, Seq<char>)> },
    Watched(Seq<FileChangeView>),
    Added(Seq<Seq<char>>),
}

impl View for NotificationParams {
    type V = NotificationParamsView;

    open spec fn view(&self) -> NotificationParamsView {
        match *self {
            NotificationParams::Malformed => NotificationParamsView::Malformed,
            NotificationParams::Open { uri, text } => NotificationParamsView::Open {
                uri: url_text(uri),
                text: text@,
            },
            NotificationParams::Change { uri, texts: t } => NotificationParamsView::Change {
                uri: url_text(uri),
                texts: texts(t@),
            },
            NotificationParams::Close { uri, on_disk } => NotificationParamsView::Close {
                uri: url_text(uri),
                on_disk: opt_text(on_disk),
            },
            NotificationParams::Files { root, files } => NotificationParamsView::Files {
                root: url_text(root),
                files: provided_views(files@),
            },
            NotificationParams::Watched(v) => NotificationParamsView::Watched(change_views(v@)),
            NotificationParams::Added(v) => NotificationParamsView::Added(url_texts(v@)),
        }
    }
}

/// A search for files below a directory, with what it found if it succeeded.
pub struct Scan {
    pub root: PathBuf,
    pub discovered: Option<Vec<DiscoveredFile>>,
}

// ── Capabilities ──────────────────────────────────────────────────────────────

/// How documents are synchronised.
#[derive(Clone, Copy, PartialEq, Eq, Debug, Structural)]
pub enum SyncKind {
    /// Each change carries the whole text.
    Full,
}

/// What the server offers.
#[derive(PartialEq, Eq, Debug)]
pub struct ServerCapabilities {
    pub text_document_sync: SyncKind,
    pub hover: bool,
    pub completion_triggers: Vec<String>,
    pub definition: bool,
    pub references: bool,
    pub document_symbol: bool,
    pub code_action_kinds: Vec<ActionKind>,
    pub code_action_resolve: bool,
    pub rename_prepare: bool,
    pub code_lens_resolve: bool,
    pub token_legend: Legend,
    pub tokens_full: bool,
    pub tokens_range: bool,
    pub workspace_folders: bool,
    pub folder_changes: bool,
}

impl ServerCapabilities {
    /// What the server offers: full synchronisation, hover, completion after a blank, a
    /// colon or a dot, definitions, references, symbols, quick fixes, rename with a check,
    /// lenses, tokens of whole documents, and workspace folders that may change.
    pub open spec fn offered(&self) -> bool {
        &&& self.text_document_sync == SyncKind::Full
        &&& self.hover
        &&& texts(self.completion_triggers@) == seq![" "@, ":"@, "."@]
        &&& self.definition
        &&& self.references
        &&& self.document_symbol
        &&& self.code_action_kinds@ == seq![ActionKind::QuickFix]
        &&& !self.code_action_resolve
        &&& self.rename_prepare
        &&& !self.code_lens_resolve
        &&& self.token_legend.token_types@ == token_types()
        &&& self.token_legend.token_modifiers@ == token_modifiers()
        &&& self.tokens_full
        &&& !self.tokens_range
        &&& self.workspace_folders
        &&& self.folder_changes
    }
}

/// What the server offers.
pub fn server_capabilities() -> (r: ServerCapabilities)
    ensures
        r.offered(),
{
    let completion_triggers: Vec<String> = vec![" ".to_owned(), ":".to_owned(), ".".to_owned()];
    let code_action_kinds: Vec<ActionKind> = vec![ActionKind::QuickFix];
    proof {
        assert(texts(completion_triggers@) =~= seq![" "@, ":"@, "."@]);
        assert(code_action_kinds@ =~= seq![ActionKind::QuickFix]);
    }
    ServerCapabilities {
        text_document_sync: SyncKind::Full,
        hover: true,
        completion_triggers,
        definition: true,
        references: true,
        document_symbol: true,
        code_action_kinds,
        code_action_resolve: false,
        rename_prepare: true,
        code_lens_resolve: false,
        token_legend: legend(),
        tokens_full: true,
        tokens_range: false,
        workspace_folders: true,
        folder_changes: true,
    }
}

// ── Responses ─────────────────────────────────────────────────────────────────

/// What a request is answered. A variant that holds `None` stands for null, as `Null` does.
pub enum Response {
    Null,
    Initialized(ServerCapabilities),
    Hover(Option<Hover>),
    Completion(Option<Vec<CompletionItem>>),
    Tokens(Option<SemanticTokens>),
    Definition(Option<FileRange>),
    References(Option<Vec<FileRange>>),
    Symbols(Option<Vec<DocumentSymbol>>),
    Actions(Vec<CodeAction>),
    Prepared(Option<Range>),
    Renamed(Option<WorkspaceEdit>),
    Lenses(Option<Vec<CodeLens>>),
}

/// Contents of a [`Response`].
pub enum ResponseView {
    Null,
    Initialized,
    Hover(Option<HoverView>),
    Completion(Option<Seq<CompletionItemView>>),
    Tokens(Option<Seq<SemanticToken>>),
    Definition(Option<FileRangeView>),
    References(Option<Seq<FileRangeView>>),
    Symbols(Option<Seq<DocumentSymbolView>>),
    Actions(Seq<CodeActionView>),
    Prepared(Option<Range>),
    Renamed(Option<Map<Seq<char>, Seq<EditView>>>),
    Lenses(Option<Seq<CodeLensView>>),
}

impl View for Response {
    type V = ResponseView;

    open spec fn view(&self) -> ResponseView {
        match *self {
            Response::Null => ResponseView::Null,
            Response::Initialized(_) => ResponseView::Initialized,
            Response::Hover(h) => ResponseView::Hover(hover_view(h)),
            Response::Completion(c) => ResponseView::Completion(
                match c {
                    Some(v) => Some(item_views(v@)),
                    None => None,
                },
            ),
            Response::Tokens(t) => ResponseView::Tokens(
                match t {
                    Some(t) => Some(t.data@),
                    None => None,
                },
            ),
            Response::Definition(d) => ResponseView::Definition(
                match d {
                    Some(p) => Some(p@),
                    None => None,
                },
            ),
            Response::References(v) => ResponseView::References(
                match v {
                    Some(v) => Some(file_ranges(v@)),
                    None => None,
                },
            ),
            Response::Symbols(v) => ResponseView::Symbols(
                match v {
                    Some(v) => Some(symbol_views(v@)),
                    None => None,
                },
            ),
            Response::Actions(v) => ResponseView::Actions(action_views(v@)),
            Response::Prepared(r) => ResponseView::Prepared(r),
            Response::Renamed(e) => ResponseView::Renamed(
                match e {
                    Some(e) => Some(e@),
                    None => None,
                },
            ),
            Response::Lenses(v) => ResponseView::Lenses(
                match v {
                    Some(v) => Some(lens_views(v@)),
                    None => None,
                },
            ),
        }
    }
}

/// A `textDocument/publishDiagnostics` notification.
pub struct Notification {
    pub method: String,
    pub uri: String,
    pub diagnostics: Vec<LspDiagnostic>,
}

/// Contents of a [`Notification`].
pub struct NotificationView {
    pub method: Seq<char>,
    pub uri: Seq<char>,
    pub diagnostics: Seq<LspDiagnosticView>,
}

impl View for Notification {
    type V = NotificationView;

    open spec fn view(&self) -> NotificationView {
        NotificationView {
            method: self.method@,
            uri: self.uri@,
            diagnostics: lsp_views(self.diagnostics@),
        }
    }
}

/// Contents of a list of notifications.
pub open spec fn notification_views(v: Seq<Notification>) -> Seq<NotificationView> {
    Seq::new(v.len(), |i: int| v[i]@)
}

} // verus!
