//! The dispatcher: routes requests and notifications to the language features.
//!
//! The transport decodes parameters by the kind of message, reads from disk what a message
//! needs, and encodes what comes back.

use crate::codeaction::{self, actions};
use crate::codelens::{self, lenses};
use crate::completion::{self, completes};
use crate::diagnostics::{
    collect, document_diagnostics, law_offset_between_characters, lsp_views, offset_at, offset_of,
    LspDiagnostic, LspDiagnosticView,
};
use crate::document::DocumentView;
use crate::goto::{self, definition};
use crate::hover::{self, hover};
use crate::keyed::{get, has_key, key_at, lemma_place, place};
use crate::layout::{is_laid_out, laid_out};
use crate::paths::{file_path, url_may_be_path};
use crate::protocol::{
    change_views, lemma_request_methods, notification_kind, notification_named,
    notification_views, request_kind, request_named, server_capabilities, ChangeKind, FileChange,
    FileChangeView, Notification, NotificationKind, NotificationParams, NotificationParamsView,
    NotificationView, RequestKind, RequestParams, RequestParamsView, Response, ResponseView, Scan,
};
use crate::references::{
    file_ranges, found, search, target, target_at, target_readable, FileRangeView,
};
use crate::rename::{self, renameable, renamed};
use crate::rope::rope_string;
use crate::semantic::{document_tokens, encoded, full_tokens};
use crate::symbols::{self, outline};
use crate::text::texts;
use crate::types::{Position, Range};
use crate::uri::{url_str, url_text};
use crate::words::{
    check_word, check_word_start, has_word, has_word_start, law_ascii_has_word,
};
use crate::workspace::{
    all_scannable, bare, closable, consistent, empty_world, known_files, legible, lemma_disk_keeps_documents,
    may_close, may_open, may_reload, may_remove, may_scan, may_update,
    providable, provided, reloadable, scannable, Host, WorldView,
};
use crate::world::{opt_discovered, opt_url, World};
use lsp_types::Url;
use std::path::PathBuf;
use vstd::prelude::*;
use vstd::utf8::{is_ascii_chars, is_ascii_chars_encode_utf8};

verus! {

// ── Results ───────────────────────────────────────────────────────────────────

/// Result of handling one message.
pub struct DispatchResult {
    /// The answer to a request; notifications have none.
    pub response: Option<Response>,
    /// What the server sends on its own account.
    pub notifications: Vec<Notification>,
}

impl DispatchResult {
    /// An answer and nothing else.
    pub fn response_only(v: Response) -> (r: DispatchResult)
        ensures
            r.response == Some(v),
            r.notifications@.len() == 0,
    {
        DispatchResult { response: Some(v), notifications: Vec::new() }
    }

    /// Notifications and no answer.
    pub fn notify_only(notifications: Vec<Notification>) -> (r: DispatchResult)
        ensures
            r.response is None,
            r.notifications == notifications,
    {
        DispatchResult { response: None, notifications }
    }

    /// The answer null.
    pub fn null_response() -> (r: DispatchResult)
        ensures
            r.response == Some(Response::Null),
            r.notifications@.len() == 0,
    {
        DispatchResult::response_only(Response::Null)
    }
}

// ── State ─────────────────────────────────────────────────────────────────────

/// The state of a server.
pub struct LspState {
    pub world: World,
    pub workspace_root: Option<Url>,
}

/// Contents of an [`LspState`].
pub struct StateView {
    pub world: WorldView,
    pub workspace_root: Option<Seq<char>>,
}

impl View for LspState {
    type V = StateView;

    open spec fn view(&self) -> StateView {
        StateView { world: self.world@, workspace_root: opt_url(self.workspace_root) }
    }
}

// ── Requests ──────────────────────────────────────────────────────────────────

/// Whether the words that a request reads are made of whole characters, and the text that it
/// highlights can be followed to its end.
pub open spec fn readable(w: WorldView, kind: RequestKind, p: RequestParamsView) -> bool {
    match (kind, p) {
        (RequestKind::Completion, RequestParamsView::At { uri, position }) => get(w.docs, uri)
            matches Some(d) ==> has_word_start(d.text, offset_at(d.text, position)),
        (RequestKind::SemanticTokens, RequestParamsView::Of { uri }) => get(w.docs, uri)
            matches Some(d) ==> laid_out(d.text),
        (RequestKind::Definition, RequestParamsView::At { uri, position }) => get(w.docs, uri)
            matches Some(d) ==> target_readable(d, position),
        (RequestKind::References, RequestParamsView::At { uri, position }) => get(w.docs, uri)
            matches Some(d) ==> target_readable(d, position),
        (RequestKind::PrepareRename, RequestParamsView::At { uri, position }) => get(w.docs, uri)
            matches Some(d) ==> has_word(d.text, offset_at(d.text, position)),
        (RequestKind::Rename, RequestParamsView::Renaming { uri, position, .. }) => get(
            w.docs,
            uri,
        ) matches Some(d) ==> target_readable(d, position),
        _ => true,
    }
}

/// Whether `r` answers a request. A method that is not known, or parameters that do not
/// belong to it, are answered null; `initialize` needs no parameters.
pub open spec fn answers(
    w: WorldView,
    kind: RequestKind,
    p: RequestParamsView,
    r: ResponseView,
) -> bool {
    match (kind, p) {
        (RequestKind::Initialize, _) => r is Initialized,
        (RequestKind::Hover, RequestParamsView::At { uri, position }) => r == ResponseView::Hover(
            match get(w.docs, uri) {
                Some(d) => hover(d, position),
                None => None,
            },
        ),
        (RequestKind::Completion, RequestParamsView::At { uri, position }) => match get(
            w.docs,
            uri,
        ) {
            Some(d) => r matches ResponseView::Completion(Some(items)) && completes(
                d,
                position,
                items,
            ),
            None => r == ResponseView::Completion(None),
        },
        (RequestKind::SemanticTokens, RequestParamsView::Of { uri }) => r == ResponseView::Tokens(
            match get(w.docs, uri) {
                Some(d) => Some(encoded(document_tokens(d))),
                None => None,
            },
        ),
        (RequestKind::Definition, RequestParamsView::At { uri, position }) => r
            == ResponseView::Definition(
            match get(w.docs, uri) {
                Some(d) => definition(d, uri, position),
                None => None,
            },
        ),
        (RequestKind::References, RequestParamsView::At { uri, position }) => r
            == ResponseView::References(references_to(w, uri, position)),
        (RequestKind::DocumentSymbol, RequestParamsView::Of { uri }) => r == ResponseView::Symbols(
            match get(w.docs, uri) {
                Some(d) => Some(outline(d)),
                None => None,
            },
        ),
        (RequestKind::CodeAction, RequestParamsView::Within { uri, range }) => r
            == ResponseView::Actions(
            match get(w.docs, uri) {
                Some(d) => actions(d, uri, range),
                None => Seq::empty(),
            },
        ),
        (RequestKind::PrepareRename, RequestParamsView::At { uri, position }) => r
            == ResponseView::Prepared(
            match get(w.docs, uri) {
                Some(d) => renameable(d, position),
                None => None,
            },
        ),
        (RequestKind::Rename, RequestParamsView::Renaming { uri, position, new_name }) => r
            == ResponseView::Renamed(renamed(w, uri, position, new_name)),
        (RequestKind::CodeLens, RequestParamsView::Of { uri }) => r == ResponseView::Lenses(
            match get(w.docs, uri) {
                Some(d) => Some(lenses(known_files(w), uri, d)),
                None => None,
            },
        ),
        _ => r == ResponseView::Null,
    }
}

/// The references to the symbol at a position, if there are any.
pub open spec fn references_to(w: WorldView, uri: Seq<char>, position: Position) -> Option<
    Seq<FileRangeView>,
> {
    match get(w.docs, uri) {
        Some(d) => match target(d, position) {
            Some(t) => {
                let places = found(known_files(w), t);
                if places.len() == 0 {
                    None
                } else {
                    Some(places)
                }
            },
            None => None,
        },
        None => None,
    }
}

/// The workspace root after a request: `initialize` sets it to its first folder.
pub open spec fn root_after(
    root: Option<Seq<char>>,
    kind: RequestKind,
    p: RequestParamsView,
) -> Option<Seq<char>> {
    match (kind, p) {
        (RequestKind::Initialize, RequestParamsView::Folders(v)) => if v.len() > 0 {
            Some(v[0])
        } else {
            root
        },
        _ => root,
    }
}

// ── Notifications ─────────────────────────────────────────────────────────────

/// The notification that publishes the diagnostics of a document.
pub open spec fn publication(
    uri: Seq<char>,
    diagnostics: Seq<LspDiagnosticView>,
) -> NotificationView {
    NotificationView { method: "textDocument/publishDiagnostics"@, uri, diagnostics }
}

/// The notifications that publish the diagnostics of every open document.
pub open spec fn publications(w: WorldView) -> Seq<NotificationView> {
    Seq::new(
        w.docs.len(),
        |i: int| publication(w.docs[i].0, document_diagnostics(w.docs[i].1)),
    )
}

/// Whether `v` may come of a change on disk in `w`.
pub open spec fn may_change(w: WorldView, c: FileChangeView, v: WorldView) -> bool {
    match c.kind {
        ChangeKind::Created => may_reload(w, c.uri, c.on_disk, v),
        ChangeKind::Changed => may_reload(w, c.uri, c.on_disk, v),
        ChangeKind::Deleted => may_remove(w, c.uri, v),
        ChangeKind::Other => v == w,
    }
}

/// Whether each state may come of the one before by the change at its place.
pub open spec fn watch_steps(changes: Seq<FileChangeView>, states: Seq<WorldView>) -> bool {
    &&& states.len() == changes.len() + 1
    &&& forall|i: int|
        0 <= i < changes.len() ==> may_change(states[i], #[trigger] changes[i], states[i + 1])
}

/// Whether `v` may come of changes on disk in `w`, one after the other.
pub open spec fn may_watch(w: WorldView, changes: Seq<FileChangeView>, v: WorldView) -> bool {
    exists|states: Seq<WorldView>| #[trigger]
        watch_steps(changes, states) && states[0] == w && states.last() == v
}

/// Whether `v` may come of an optional search in `w`.
pub open spec fn may_search(w: WorldView, scan: Option<Scan>, v: WorldView) -> bool {
    match scan {
        Some(s) => may_scan(w, s.root, opt_discovered(s.discovered), v),
        None => v == w,
    }
}

/// Whether a notification is taken up: its method is known on the host, and its parameters
/// belong to it.
pub open spec fn taken_up(host: Host, kind: NotificationKind, p: NotificationParamsView) -> bool {
    match kind {
        NotificationKind::Initialized => true,
        NotificationKind::DidOpen => p is Open,
        NotificationKind::DidChange => p is Change,
        NotificationKind::DidClose => p is Close,
        NotificationKind::IndexFiles => true,
        NotificationKind::WatchedFiles => host == Host::Native && p is Watched,
        NotificationKind::WorkspaceFolders => p is Added,
        NotificationKind::Unknown => false,
    }
}

/// Whether what an optional search found can be taken in.
pub open spec fn searchable(w: WorldView, scan: Option<Scan>) -> bool {
    scan matches Some(s) ==> scannable(w, opt_discovered(s.discovered))
}

/// Whether the parser comes back from all texts that an optional search found.
pub open spec fn all_searchable(scan: Option<Scan>) -> bool {
    scan matches Some(s) ==> all_scannable(opt_discovered(s.discovered))
}

/// Whether a change on disk can be followed.
pub open spec fn followable(w: WorldView, c: FileChangeView) -> bool {
    match c.kind {
        ChangeKind::Created => reloadable(w, c.uri, c.on_disk),
        ChangeKind::Changed => reloadable(w, c.uri, c.on_disk),
        _ => true,
    }
}

/// Whether all changes on disk can be followed.
pub open spec fn all_followable(w: WorldView, changes: Seq<FileChangeView>) -> bool {
    forall|i: int| 0 <= i < changes.len() ==> followable(w, #[trigger] changes[i])
}

/// Whether the texts that count in a notification can be taken in.
pub open spec fn admissible(
    s: StateView,
    kind: NotificationKind,
    p: NotificationParamsView,
    scan: Option<Scan>,
) -> bool {
    match (kind, p) {
        (NotificationKind::Initialized, _) => s.workspace_root is Some ==> searchable(
            s.world,
            scan,
        ),
        (NotificationKind::DidOpen, NotificationParamsView::Open { uri, text }) => legible(
            uri,
            text,
        ),
        (NotificationKind::DidChange, NotificationParamsView::Change { uri, texts }) => texts.len()
            > 0 ==> legible(uri, texts.last()),
        (NotificationKind::DidClose, NotificationParamsView::Close { uri, on_disk }) => closable(
            s.world,
            uri,
            on_disk,
        ),
        (NotificationKind::IndexFiles, NotificationParamsView::Files { root, files }) => {
            providable(s.world, root, files)
        },
        (
            NotificationKind::WatchedFiles,
            NotificationParamsView::Watched(changes),
        ) => s.world.host == Host::Native ==> all_followable(s.world, changes),
        (NotificationKind::WorkspaceFolders, NotificationParamsView::Added(v)) => v.len() > 0
            ==> searchable(s.world, scan),
        _ => true,
    }
}

/// Whether the texts that count in a notification can be taken in, and all that a search
/// found: which of these count is not known before their paths are written as URLs.
pub open spec fn surely_admissible(
    s: StateView,
    kind: NotificationKind,
    p: NotificationParamsView,
    scan: Option<Scan>,
) -> bool {
    match (kind, p) {
        (NotificationKind::Initialized, _) => s.workspace_root is Some ==> all_searchable(scan),
        (NotificationKind::WorkspaceFolders, NotificationParamsView::Added(v)) => v.len() > 0
            ==> all_searchable(scan),
        _ => admissible(s, kind, p, scan),
    }
}

/// Whether the state `t` may come of a notification in the state `s`.
pub open spec fn may_notify(
    s: StateView,
    kind: NotificationKind,
    p: NotificationParamsView,
    scan: Option<Scan>,
    t: StateView,
) -> bool {
    match (kind, p) {
        (NotificationKind::Initialized, _) => t.workspace_root == s.workspace_root
            && if s.workspace_root is Some {
            may_search(s.world, scan, t.world)
        } else {
            t.world == s.world
        },
        (NotificationKind::DidOpen, NotificationParamsView::Open { uri, text }) => may_open(
            s.world,
            uri,
            text,
            t.world,
        ) && t.workspace_root == s.workspace_root,
        (NotificationKind::DidChange, NotificationParamsView::Change { uri, texts }) => if texts.len()
            == 0 {
            t == s
        } else {
            may_update(s.world, uri, texts.last(), t.world) && t.workspace_root
                == s.workspace_root
        },
        (NotificationKind::DidClose, NotificationParamsView::Close { uri, on_disk }) => may_close(
            s.world,
            uri,
            on_disk,
            t.world,
        ) && t.workspace_root == s.workspace_root,
        (NotificationKind::IndexFiles, NotificationParamsView::Files { root, files }) => {
            bare(t.world) == bare(
                provided(s.world, root, files),
            ) && t.workspace_root == s.workspace_root
        },
        (
            NotificationKind::WatchedFiles,
            NotificationParamsView::Watched(changes),
        ) => if s.world.host == Host::Native {
            may_watch(s.world, changes, t.world) && t.workspace_root == s.workspace_root
        } else {
            t == s
        },
        (NotificationKind::WorkspaceFolders, NotificationParamsView::Added(v)) => if v.len() > 0 {
            t.workspace_root == Some(v[0]) && may_search(s.world, scan, t.world)
        } else {
            t == s
        },
        _ => t == s,
    }
}

/// What is sent after a notification: the diagnostics of every open document if it is taken
/// up, after an empty list for a document that it closes.
pub open spec fn sent(
    host: Host,
    kind: NotificationKind,
    p: NotificationParamsView,
    after: WorldView,
) -> Seq<NotificationView> {
    if taken_up(host, kind, p) {
        match (kind, p) {
            (NotificationKind::DidClose, NotificationParamsView::Close { uri, .. }) => seq![
                publication(uri, Seq::empty()),
            ] + publications(after),
            _ => publications(after),
        }
    } else {
        Seq::empty()
    }
}

/// The directory that has to be searched before a notification is handled, as a relation:
/// what a URL stands for differs between platforms.
pub open spec fn may_want_scan(
    s: StateView,
    kind: NotificationKind,
    p: NotificationParamsView,
    dir: Option<PathBuf>,
) -> bool {
    match (kind, p) {
        (NotificationKind::Initialized, _) => match s.workspace_root {
            Some(root) => url_may_be_path(root, dir),
            None => dir is None,
        },
        (NotificationKind::WorkspaceFolders, NotificationParamsView::Added(v)) => if v.len() > 0 {
            url_may_be_path(v[0], dir)
        } else {
            dir is None
        },
        _ => dir is None,
    }
}

/// The notification that publishes the diagnostics of a document.
pub fn publish_diagnostics_notification(
    uri: &Url,
    diagnostics: Vec<LspDiagnostic>,
) -> (r: Notification)
    ensures
        r@ == publication(url_text(*uri), lsp_views(diagnostics@)),
{
    Notification {
        method: "textDocument/publishDiagnostics".to_owned(),
        uri: url_str(uri).to_owned(),
        diagnostics,
    }
}

impl LspState {
    /// The state is well formed.
    pub open spec fn wf(&self) -> bool {
        self.world.wf()
    }

    /// The state of a server on a native host that has just started.
    pub fn new() -> (r: LspState)
        ensures
            r.wf(),
            r@.world == empty_world(Host::Native),
            r@.workspace_root is None,
    {
        LspState::on(Host::Native)
    }

    /// The state of a server on a host that has just started.
    pub fn on(host: Host) -> (r: LspState)
        ensures
            r.wf(),
            r@.world == empty_world(host),
            r@.workspace_root is None,
    {
        LspState { world: World::on(host), workspace_root: None }
    }

    // ── Request dispatcher ────────────────────────────────────────────────────

    /// Whether the words that a request reads are made of whole characters, and the text that
    /// it highlights can be followed to its end.
    pub fn is_readable(&self, method: &str, params: &RequestParams) -> (r: bool)
        requires
            self.wf(),
        ensures
            r == readable(self@.world, request_named(method@), params@),
    {
        match (request_kind(method), params) {
            (RequestKind::Completion, RequestParams::At { uri, position }) => {
                match self.world.doc(uri) {
                    Some(doc) => {
                        let source = rope_string(&doc.rope);
                        check_word_start(source.as_str(), offset_of(&doc.rope, *position))
                    },
                    None => true,
                }
            },
            (RequestKind::SemanticTokens, RequestParams::Of { uri }) => {
                match self.world.doc(uri) {
                    Some(doc) => {
                        let source = rope_string(&doc.rope);
                        is_laid_out(source.as_str())
                    },
                    None => true,
                }
            },
            (RequestKind::Definition, RequestParams::At { uri, position }) => {
                self.is_target_readable(uri, *position)
            },
            (RequestKind::References, RequestParams::At { uri, position }) => {
                self.is_target_readable(uri, *position)
            },
            (RequestKind::PrepareRename, RequestParams::At { uri, position }) => {
                match self.world.doc(uri) {
                    Some(doc) => {
                        let source = rope_string(&doc.rope);
                        check_word(source.as_str(), offset_of(&doc.rope, *position))
                    },
                    None => true,
                }
            },
            (RequestKind::Rename, RequestParams::Renaming { uri, position, .. }) => {
                self.is_target_readable(uri, *position)
            },
            _ => true,
        }
    }

    /// Whether the word that a lookup at a position reads is made of whole characters.
    fn is_target_readable(&self, uri: &Url, position: Position) -> (r: bool)
        requires
            self.wf(),
        ensures
            r == (get(self@.world.docs, url_text(*uri)) matches Some(d) ==> target_readable(
                d,
                position,
            )),
    {
        match self.world.doc(uri) {
            Some(doc) => if doc.analysis.is_none() {
                true
            } else {
                let source = rope_string(&doc.rope);
                check_word(source.as_str(), offset_of(&doc.rope, position))
            },
            None => true,
        }
    }

    /// Answers a request. The words that it reads must be made of whole characters, and the
    /// text that it highlights must be such that it can be followed: [`LspState::try_request`]
    /// tests that.
    pub fn handle_request(&mut self, _id: u32, method: &str, params: RequestParams) -> (r:
        DispatchResult)
        requires
            old(self).wf(),
            readable(old(self)@.world, request_named(method@), params@),
        ensures
            final(self).wf(),
            final(self)@.world == old(self)@.world,
            final(self)@.workspace_root == root_after(
                old(self)@.workspace_root,
                request_named(method@),
                params@,
            ),
            r.notifications@.len() == 0,
            r.response is Some,
            answers(old(self)@.world, request_named(method@), params@, r.response->0@),
            r.response->0 matches Response::Initialized(c) ==> c.offered(),
    {
        match (request_kind(method), params) {
            (RequestKind::Initialize, params) => self.on_initialize(params),
            (RequestKind::Shutdown, _) => DispatchResult::null_response(),
            (RequestKind::Hover, RequestParams::At { uri, position }) => {
                let result = match self.world.doc(&uri) {
                    Some(doc) => hover::provide(doc, position),
                    None => None,
                };
                DispatchResult::response_only(Response::Hover(result))
            },
            (RequestKind::Completion, RequestParams::At { uri, position }) => {
                let result = match self.world.doc(&uri) {
                    Some(doc) => Some(completion::provide(doc, position)),
                    None => None,
                };
                DispatchResult::response_only(Response::Completion(result))
            },
            (RequestKind::SemanticTokens, RequestParams::Of { uri }) => {
                let result = match self.world.doc(&uri) {
                    Some(doc) => full_tokens(doc),
                    None => None,
                };
                DispatchResult::response_only(Response::Tokens(result))
            },
            (RequestKind::Definition, RequestParams::At { uri, position }) => {
                let result = match self.world.doc(&uri) {
                    Some(doc) => goto::provide(doc, &uri, position),
                    None => None,
                };
                DispatchResult::response_only(Response::Definition(result))
            },
            (RequestKind::References, RequestParams::At { uri, position }) => {
                let target = match self.world.doc(&uri) {
                    Some(doc) => target_at(doc, position),
                    None => None,
                };
                let result = match target {
                    Some(t) => {
                        let all_asts = self.world.all_file_asts();
                        let locations = search(&all_asts, t.as_str());
                        assert(file_ranges(locations@).len() == locations@.len());
                        if locations.len() == 0 {
                            None
                        } else {
                            Some(locations)
                        }
                    },
                    None => None,
                };
                DispatchResult::response_only(Response::References(result))
            },
            (RequestKind::DocumentSymbol, RequestParams::Of { uri }) => {
                let result = match self.world.doc(&uri) {
                    Some(doc) => Some(symbols::provide(doc)),
                    None => None,
                };
                DispatchResult::response_only(Response::Symbols(result))
            },
            (RequestKind::CodeAction, RequestParams::Within { uri, range }) => {
                let result = match self.world.doc(&uri) {
                    Some(doc) => codeaction::provide(doc, &uri, range),
                    None => {
                        let none: Vec<codeaction::CodeAction> = Vec::new();
                        assert(codeaction::action_views(none@) =~= Seq::empty());
                        none
                    },
                };
                DispatchResult::response_only(Response::Actions(result))
            },
            (RequestKind::PrepareRename, RequestParams::At { uri, position }) => {
                let result = match self.world.doc(&uri) {
                    Some(doc) => rename::prepare(doc, position),
                    None => None,
                };
                DispatchResult::response_only(Response::Prepared(result))
            },
            (RequestKind::Rename, RequestParams::Renaming { uri, position, new_name }) => {
                let result = rename::rename(&self.world, &uri, position, new_name.as_str());
                DispatchResult::response_only(Response::Renamed(result))
            },
            (RequestKind::CodeLens, RequestParams::Of { uri }) => {
                let all_asts = self.world.all_file_asts();
                let result = match self.world.doc(&uri) {
                    Some(doc) => Some(codelens::provide(&all_asts, &uri, doc)),
                    None => None,
                };
                DispatchResult::response_only(Response::Lenses(result))
            },
            _ => DispatchResult::null_response(),
        }
    }

    /// Answers a request, unless it reads a word that is not made of whole characters, or
    /// highlights a text that cannot be followed: then there is no result and nothing changes.
    pub fn try_request(&mut self, id: u32, method: &str, params: RequestParams) -> (r: Option<
        DispatchResult,
    >)
        requires
            old(self).wf(),
        ensures
            final(self).wf(),
            final(self)@.world == old(self)@.world,
            r is Some == readable(old(self)@.world, request_named(method@), params@),
            r is None ==> final(self)@ == old(self)@,
            r matches Some(result) ==> {
                &&& final(self)@.workspace_root == root_after(
                    old(self)@.workspace_root,
                    request_named(method@),
                    params@,
                )
                &&& result.notifications@.len() == 0
                &&& result.response is Some
                &&& answers(
                    old(self)@.world,
                    request_named(method@),
                    params@,
                    result.response->0@,
                )
                &&& result.response->0 matches Response::Initialized(c) ==> c.offered()
            },
    {
        if self.is_readable(method, &params) {
            Some(self.handle_request(id, method, params))
        } else {
            None
        }
    }

    /// Takes the first workspace folder as root and answers what the server offers.
    pub fn on_initialize(&mut self, params: RequestParams) -> (r: DispatchResult)
        ensures
            final(self).world == old(self).world,
            final(self)@.workspace_root == root_after(
                old(self)@.workspace_root,
                RequestKind::Initialize,
                params@,
            ),
            r.notifications@.len() == 0,
            r.response matches Some(Response::Initialized(c)) && c.offered(),
    {
        if let RequestParams::Folders(folders) = params {
            if folders.len() > 0 {
                self.workspace_root = Some(folders[0].clone());
            }
        }
        DispatchResult::response_only(Response::Initialized(server_capabilities()))
    }

    // ── Notification dispatcher ───────────────────────────────────────────────

    /// The directory that has to be searched for files before a notification is handled.
    pub fn wanted_scan(&self, method: &str, params: &NotificationParams) -> (r: Option<PathBuf>)
        ensures
            may_want_scan(self@, notification_named(method@), params@, r),
    {
        match (notification_kind(method), params) {
            (NotificationKind::Initialized, _) => match &self.workspace_root {
                Some(root) => file_path(root),
                None => None,
            },
            (NotificationKind::WorkspaceFolders, NotificationParams::Added(folders)) => {
                if folders.len() > 0 {
                    file_path(&folders[0])
                } else {
                    None
                }
            },
            _ => None,
        }
    }

    /// Whether the texts that count in a notification can be taken in, and all that a search
    /// found.
    pub fn is_admissible(&self, method: &str, params: &NotificationParams, scan: &Option<Scan>)
        -> (r: bool)
        ensures
            r == surely_admissible(self@, notification_named(method@), params@, *scan),
            r ==> admissible(self@, notification_named(method@), params@, *scan),
    {
        match (notification_kind(method), params) {
            (NotificationKind::Initialized, _) => {
                self.workspace_root.is_none() || Self::is_searchable(scan)
            },
            (NotificationKind::DidOpen, NotificationParams::Open { uri, text }) => {
                World::can_open(uri, text.as_str())
            },
            (NotificationKind::DidChange, NotificationParams::Change { uri, texts: changes }) => {
                if changes.len() > 0 {
                    let text = &changes[changes.len() - 1];
                    assert(texts(changes@).last() == text@);
                    World::can_open(uri, text.as_str())
                } else {
                    true
                }
            },
            (NotificationKind::DidClose, NotificationParams::Close { uri, on_disk }) => {
                self.world.can_close(uri, on_disk)
            },
            (NotificationKind::IndexFiles, NotificationParams::Files { root, files }) => {
                self.world.can_index(root, files)
            },
            (NotificationKind::WatchedFiles, NotificationParams::Watched(changes)) => {
                !self.world.is_native() || self.are_followable(changes)
            },
            (NotificationKind::WorkspaceFolders, NotificationParams::Added(folders)) => {
                folders.len() == 0 || Self::is_searchable(scan)
            },
            _ => true,
        }
    }

    /// Whether the parser comes back from all texts that an optional search found.
    fn is_searchable(scan: &Option<Scan>) -> (r: bool)
        ensures
            r == all_searchable(*scan),
    {
        match scan {
            Some(s) => World::can_scan(&s.discovered),
            None => true,
        }
    }

    /// Whether changes on disk can be followed.
    fn are_followable(&self, changes: &Vec<FileChange>) -> (r: bool)
        ensures
            r == all_followable(self@.world, change_views(changes@)),
    {
        let ghost views = change_views(changes@);
        let mut i: usize = 0;
        while i < changes.len()
            invariant
                i <= changes.len(),
                views == change_views(changes@),
                forall|j: int| 0 <= j < i ==> followable(self@.world, #[trigger] views[j]),
            decreases changes.len() - i,
        {
            let change = &changes[i];
            assert(views[i as int] == change@);
            let ok = match change.kind {
                ChangeKind::Created | ChangeKind::Changed => {
                    self.world.can_reload(&change.uri, &change.on_disk)
                },
                _ => true,
            };
            if !ok {
                return false;
            }
            i = i + 1;
        }
        true
    }

    /// Handles a notification. `scan` is what a search of the wanted directory found. The
    /// texts that count must be such that they can be taken in:
    /// [`LspState::try_notification`] tests that.
    pub fn handle_notification(
        &mut self,
        method: &str,
        params: NotificationParams,
        scan: Option<Scan>,
    ) -> (r: DispatchResult)
        requires
            old(self).wf(),
            admissible(old(self)@, notification_named(method@), params@, scan),
        ensures
            final(self).wf(),
            may_notify(old(self)@, notification_named(method@), params@, scan, final(self)@),
            r.response is None,
            notification_views(r.notifications@) == sent(
                old(self)@.world.host,
                notification_named(method@),
                params@,
                final(self)@.world,
            ),
    {
        match (notification_kind(method), params) {
            (NotificationKind::Initialized, _) => self.on_initialized(scan),
            (NotificationKind::DidOpen, NotificationParams::Open { uri, text }) => {
                self.world.open(uri, text);
                DispatchResult::notify_only(self.collect_all_diagnostics())
            },
            (NotificationKind::DidChange, NotificationParams::Change { uri, texts: mut changes }) => {
                let ghost all = changes@;
                if let Some(text) = changes.pop() {
                    proof {
                        assert(texts(all).last() == text@);
                    }
                    self.world.update(&uri, text);
                }
                DispatchResult::notify_only(self.collect_all_diagnostics())
            },
            (NotificationKind::DidClose, NotificationParams::Close { uri, on_disk }) => {
                let clear = publish_diagnostics_notification(&uri, Vec::new());
                self.world.close(&uri, on_disk);
                let mut notifications: Vec<Notification> = Vec::new();
                notifications.push(clear);
                let mut rest = self.collect_all_diagnostics();
                let ghost after = rest@;
                notifications.append(&mut rest);
                proof {
                    assert(clear@.diagnostics =~= Seq::empty());
                    assert(notification_views(notifications@) =~= seq![clear@]
                        + notification_views(after));
                }
                DispatchResult::notify_only(notifications)
            },
            (NotificationKind::IndexFiles, NotificationParams::Files { root, files }) => {
                self.world.index_background_files(root, files);
                DispatchResult::notify_only(self.collect_all_diagnostics())
            },
            (NotificationKind::IndexFiles, _) => {
                DispatchResult::notify_only(self.collect_all_diagnostics())
            },
            (NotificationKind::WatchedFiles, NotificationParams::Watched(changes)) => {
                if self.world.is_native() {
                    self.on_watched_files(changes);
                    DispatchResult::notify_only(self.collect_all_diagnostics())
                } else {
                    Self::nothing()
                }
            },
            (NotificationKind::WorkspaceFolders, NotificationParams::Added(folders)) => {
                if folders.len() > 0 {
                    self.workspace_root = Some(folders[0].clone());
                    self.search(scan);
                }
                DispatchResult::notify_only(self.collect_all_diagnostics())
            },
            _ => Self::nothing(),
        }
    }

    /// Handles a notification, unless it holds a text that counts and cannot be taken in, or
    /// the search found a text whose layout cannot be followed: then there is no result and
    /// nothing changes.
    pub fn try_notification(
        &mut self,
        method: &str,
        params: NotificationParams,
        scan: Option<Scan>,
    ) -> (r: Option<DispatchResult>)
        requires
            old(self).wf(),
        ensures
            final(self).wf(),
            r is Some == surely_admissible(
                old(self)@,
                notification_named(method@),
                params@,
                scan,
            ),
            r is None ==> final(self)@ == old(self)@,
            r matches Some(result) ==> {
                &&& may_notify(old(self)@, notification_named(method@), params@, scan, final(self)@)
                &&& result.response is None
                &&& notification_views(result.notifications@) == sent(
                    old(self)@.world.host,
                    notification_named(method@),
                    params@,
                    final(self)@.world,
                )
            },
    {
        if self.is_admissible(method, &params, &scan) {
            Some(self.handle_notification(method, params, scan))
        } else {
            None
        }
    }

    /// The result of a notification that is not taken up.
    fn nothing() -> (r: DispatchResult)
        ensures
            r.response is None,
            notification_views(r.notifications@) == Seq::<NotificationView>::empty(),
    {
        let none: Vec<Notification> = Vec::new();
        assert(notification_views(none@) =~= Seq::empty());
        DispatchResult::notify_only(none)
    }

    /// Takes in what a search found.
    fn search(&mut self, scan: Option<Scan>)
        requires
            old(self).wf(),
            searchable(old(self)@.world, scan),
        ensures
            final(self).wf(),
            may_search(old(self)@.world, scan, final(self)@.world),
            final(self)@.workspace_root == old(self)@.workspace_root,
    {
        if let Some(s) = scan {
            self.world.scan_workspace(s.root, s.discovered);
        }
    }

    /// Takes in what a search below the workspace root found, if there is a root.
    pub fn on_initialized(&mut self, scan: Option<Scan>) -> (r: DispatchResult)
        requires
            old(self).wf(),
            old(self)@.workspace_root is Some ==> searchable(old(self)@.world, scan),
        ensures
            final(self).wf(),
            final(self)@.workspace_root == old(self)@.workspace_root,
            if old(self)@.workspace_root is Some {
                may_search(old(self)@.world, scan, final(self)@.world)
            } else {
                final(self)@.world == old(self)@.world
            },
            r.response is None,
            notification_views(r.notifications@) == publications(final(self)@.world),
    {
        if self.workspace_root.is_some() {
            self.search(scan);
        }
        DispatchResult::notify_only(self.collect_all_diagnostics())
    }

    /// Follows changes on disk, one after the other.
    fn on_watched_files(&mut self, changes: Vec<FileChange>)
        requires
            old(self).wf(),
            all_followable(old(self)@.world, change_views(changes@)),
        ensures
            final(self).wf(),
            may_watch(old(self)@.world, change_views(changes@), final(self)@.world),
            final(self)@.workspace_root == old(self)@.workspace_root,
    {
        let ghost w = self@.world;
        let ghost root = self@.workspace_root;
        let ghost all = changes@;
        let ghost views = change_views(all);
        let ghost mut states: Seq<WorldView> = seq![w];
        for change in it: changes
            invariant
                it.seq() == all,
                views == change_views(all),
                all_followable(w, views),
                forall|k: Seq<char>| #[trigger]
                    has_key(self@.world.docs, k) == has_key(w.docs, k),
                self.wf(),
                self@.workspace_root == root,
                watch_steps(views.take(it.index() as int), states),
                states[0] == w,
                states.last() == self@.world,
        {
            let ghost n = it.index() as int;
            let ghost before = states;
            let ghost now = self@.world;
            assert(views[n] == change@);
            match change.kind {
                ChangeKind::Created | ChangeKind::Changed => {
                    self.world.reload_from_disk(&change.uri, change.on_disk);
                },
                ChangeKind::Deleted => {
                    self.world.remove_disk_file(&change.uri);
                },
                ChangeKind::Other => {},
            }
            proof {
                assert forall|k: Seq<char>| #[trigger]
                    has_key(self@.world.docs, k) == has_key(w.docs, k) by {
                    if self@.world != now {
                        lemma_disk_keeps_documents(now, change@.uri, change@.on_disk, self@.world, k);
                    }
                    assert(has_key(now.docs, k) == has_key(w.docs, k));
                }
                states = states.push(self@.world);
                assert forall|i: int| 0 <= i < n + 1 implies may_change(
                    states[i],
                    #[trigger] views.take(n + 1)[i],
                    states[i + 1],
                ) by {
                    if i < n {
                        assert(may_change(before[i], views.take(n)[i], before[i + 1]));
                    } else {
                        assert(views[n] == change@);
                    }
                }
            }
        }
        assert(views.take(views.len() as int) =~= views);
    }

    /// The notifications that publish the diagnostics of every open document.
    pub fn collect_all_diagnostics(&self) -> (r: Vec<Notification>)
        requires
            self.wf(),
        ensures
            notification_views(r@) == publications(self@.world),
    {
        let uris = self.world.all_uris();
        let mut out: Vec<Notification> = Vec::new();
        let ghost all = publications(self@.world);
        let mut i: usize = 0;
        assert(notification_views(out@) =~= all.take(0));
        while i < uris.len()
            invariant
                i <= uris@.len(),
                self.wf(),
                uris@.len() == self@.world.docs.len(),
                forall|i: int|
                    0 <= i < uris@.len() ==> url_text(#[trigger] uris@[i])
                        == self@.world.docs[i].0,
                all == publications(self@.world),
                notification_views(out@) == all.take(i as int),
            decreases uris@.len() - i,
        {
            let ghost before = notification_views(out@);
            proof {
                lemma_place(self@.world.docs, i as int);
                assert(all.take(i + 1) =~= all.take(i as int).push(all[i as int]));
            }
            if let Some(doc) = self.world.doc(&uris[i]) {
                let n = publish_diagnostics_notification(&uris[i], collect(doc));
                out.push(n);
                assert(notification_views(out@) =~= before.push(n@));
            }
            i = i + 1;
        }
        assert(all.take(all.len() as int) =~= all);
        out
    }
}

impl Default for LspState {
    fn default() -> (r: LspState)
        ensures
            r.wf(),
            r@.world == empty_world(Host::Native),
            r@.workspace_root is None,
    {
        LspState::new()
    }
}

// ── Laws ──────────────────────────────────────────────────────────────────────

/// A request with a method that is not known, or with parameters that could not be read, is
/// answered null, unless it is `initialize`; `shutdown` is answered null whatever it
/// carries.
pub proof fn law_refused_requests_are_null(
    w: WorldView,
    kind: RequestKind,
    p: RequestParamsView,
    r: ResponseView,
)
    requires
        kind == RequestKind::Unknown || kind == RequestKind::Shutdown || (p
            == RequestParamsView::Malformed && kind != RequestKind::Initialize),
    ensures
        readable(w, kind, p),
        answers(w, kind, p, r) <==> r == ResponseView::Null,
{
}

/// A request about an open ASCII document can be read and is answered with what the feature
/// gives that its method names; highlighting can be read exactly if the layout of the text can
/// be followed.
pub proof fn law_requests_reach_their_features(
    w: WorldView,
    uri: Seq<char>,
    d: DocumentView,
    position: Position,
    range: Range,
    new_name: Seq<char>,
    r: ResponseView,
)
    requires
        get(w.docs, uri) == Some(d),
        is_ascii_chars(d.text),
    ensures
        ({
            let at = RequestParamsView::At { uri, position };
            let of = RequestParamsView::Of { uri };
            let within = RequestParamsView::Within { uri, range };
            let renaming = RequestParamsView::Renaming { uri, position, new_name };
            let hovers = request_named("textDocument/hover"@);
            let completions = request_named("textDocument/completion"@);
            let highlights = request_named("textDocument/semanticTokens/full"@);
            let definitions = request_named("textDocument/definition"@);
            let uses = request_named("textDocument/references"@);
            let symbols = request_named("textDocument/documentSymbol"@);
            let fixes = request_named("textDocument/codeAction"@);
            let prepares = request_named("textDocument/prepareRename"@);
            let renames = request_named("textDocument/rename"@);
            let counts = request_named("textDocument/codeLens"@);
            &&& readable(w, hovers, at)
            &&& answers(w, hovers, at, r) <==> r == ResponseView::Hover(hover(d, position))
            &&& readable(w, completions, at)
            &&& answers(w, completions, at, r) <==> (r matches ResponseView::Completion(Some(v))
                && completes(d, position, v))
            &&& readable(w, highlights, of) <==> laid_out(d.text)
            &&& answers(w, highlights, of, r) <==> r == ResponseView::Tokens(
                Some(encoded(document_tokens(d))),
            )
            &&& readable(w, definitions, at)
            &&& answers(w, definitions, at, r) <==> r == ResponseView::Definition(
                definition(d, uri, position),
            )
            &&& readable(w, uses, at)
            &&& answers(w, uses, at, r) <==> r == ResponseView::References(
                references_to(w, uri, position),
            )
            &&& readable(w, symbols, of)
            &&& answers(w, symbols, of, r) <==> r == ResponseView::Symbols(Some(outline(d)))
            &&& readable(w, fixes, within)
            &&& answers(w, fixes, within, r) <==> r == ResponseView::Actions(
                actions(d, uri, range),
            )
            &&& readable(w, prepares, at)
            &&& answers(w, prepares, at, r) <==> r == ResponseView::Prepared(
                renameable(d, position),
            )
            &&& readable(w, renames, renaming)
            &&& answers(w, renames, renaming, r) <==> r == ResponseView::Renamed(
                renamed(w, uri, position, new_name),
            )
            &&& readable(w, counts, of)
            &&& answers(w, counts, of, r) <==> r == ResponseView::Lenses(
                Some(lenses(known_files(w), uri, d)),
            )
        }),
{
    lemma_request_methods();
    is_ascii_chars_encode_utf8(d.text);
    law_offset_between_characters(d.text, position);
    law_ascii_has_word(d.text, offset_at(d.text, position));
}

/// A request about a document that is not open is answered with nothing.
pub proof fn law_closed_documents_answer_nothing(
    w: WorldView,
    kind: RequestKind,
    uri: Seq<char>,
    position: Position,
    r: ResponseView,
)
    requires
        get(w.docs, uri) is None,
        answers(w, kind, RequestParamsView::At { uri, position }, r) || answers(
            w,
            kind,
            RequestParamsView::Of { uri },
            r,
        ),
        kind != RequestKind::Initialize,
    ensures
        match r {
            ResponseView::Null => true,
            ResponseView::Hover(h) => h is None,
            ResponseView::Completion(c) => c is None,
            ResponseView::Tokens(t) => t is None,
            ResponseView::Definition(d) => d is None,
            ResponseView::References(v) => v is None,
            ResponseView::Symbols(v) => v is None,
            ResponseView::Prepared(r) => r is None,
            ResponseView::Lenses(v) => v is None,
            _ => false,
        },
{
}

/// Where all open documents are ASCII and can be followed to their ends, every request can be
/// read.
pub proof fn law_ascii_requests_are_readable(w: WorldView, kind: RequestKind, p: RequestParamsView)
    requires
        consistent(w),
        forall|i: int| 0 <= i < w.docs.len() ==> is_ascii_chars((#[trigger] w.docs[i]).1.text),
        forall|i: int| 0 <= i < w.docs.len() ==> laid_out((#[trigger] w.docs[i]).1.text),
    ensures
        readable(w, kind, p),
{
    if let RequestParamsView::Of { uri } = p {
        if has_key(w.docs, uri) {
            assert(key_at(w.docs, place(w.docs, uri), uri));
        }
    }
    assert forall|uri: Seq<char>, position: Position|
        get(w.docs, uri) is Some implies has_word(
        (#[trigger] get(w.docs, uri))->0.text,
        #[trigger] offset_at(get(w.docs, uri)->0.text, position),
    ) && has_word_start(
        get(w.docs, uri)->0.text,
        offset_at(get(w.docs, uri)->0.text, position),
    ) by {
        let i = place(w.docs, uri);
        assert(key_at(w.docs, i, uri));
        let text = w.docs[i].1.text;
        is_ascii_chars_encode_utf8(text);
        law_offset_between_characters(text, position);
        law_ascii_has_word(text, offset_at(text, position));
    }
}

/// After a notification that is taken up, what is sent ends with the diagnostics of every
/// open document, each once.
pub proof fn law_every_document_is_published(
    host: Host,
    kind: NotificationKind,
    p: NotificationParamsView,
    after: WorldView,
    i: int,
)
    requires
        taken_up(host, kind, p),
        0 <= i < after.docs.len(),
    ensures
        sent(host, kind, p, after).contains(
            publication(after.docs[i].0, document_diagnostics(after.docs[i].1)),
        ),
        publications(after).is_suffix_of(sent(host, kind, p, after)),
        publications(after).len() == after.docs.len(),
{
    let all = sent(host, kind, p, after);
    let last = publications(after);
    let skip = all.len() - last.len();
    assert(all[skip + i] == last[i]);
    assert(all.subrange(skip, all.len() as int) =~= last);
}

} // verus!
