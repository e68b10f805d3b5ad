//! Messages: what each request and notification of the protocol does.

use crate::codeaction::ActionKind;
use crate::diagnostics::document_diagnostics;
use crate::dispatch::{
    admissible, answers, may_change, may_notify, may_want_scan, may_watch, root_after, sent,
    taken_up, watch_steps, StateView,
};
use crate::keyed::get;
use crate::layout::{flat, law_flat_is_laid_out, law_laid_out_is_parsable};
use crate::laws::workspaces::{
    background_from, handed_back, holds_text, indexed_as, law_close, law_open, law_provide,
    law_reload, law_remove, law_scan, law_update, provided_for, same_document, same_setting,
    untouched,
};
use crate::namespace::namespace_under;
use crate::parsing::parse_outcome;
use crate::paths::url_may_be_path;
use crate::protocol::{
    lemma_request_methods, notification_named, request_named, ChangeKind, FileChangeView,
    NotificationKind, NotificationParamsView, NotificationView, RequestParamsView, ResponseView,
    Scan, ServerCapabilities, SyncKind,
};
use crate::semantic::{TokenModifier, TokenType};
use crate::text::texts;
use crate::uri::url_path;
use crate::workspace::{disk_namespace_may_be, in_step, is_manifest, Host, WorldView};
use crate::world::opt_discovered;
use std::path::PathBuf;
use vstd::prelude::*;

verus! {

// ── Methods ───────────────────────────────────────────────────────────────────

/// The methods of notifications.
pub open spec fn notification_method(kind: NotificationKind) -> Seq<char> {
    match kind {
        NotificationKind::Initialized => "initialized"@,
        NotificationKind::DidOpen => "textDocument/didOpen"@,
        NotificationKind::DidChange => "textDocument/didChange"@,
        NotificationKind::DidClose => "textDocument/didClose"@,
        NotificationKind::IndexFiles => "dolfin/indexFiles"@,
        NotificationKind::WatchedFiles => "workspace/didChangeWatchedFiles"@,
        NotificationKind::WorkspaceFolders => "workspace/didChangeWorkspaceFolders"@,
        NotificationKind::Unknown => Seq::empty(),
    }
}

/// Every notification of the protocol that the server knows has its own method, and no other
/// method is one of them.
pub proof fn law_notifications_by_method(method: Seq<char>, kind: NotificationKind)
    requires
        kind != NotificationKind::Unknown,
    ensures
        notification_named(method) == kind <==> method == notification_method(kind),
{
    reveal_strlit("initialized");
    assert("initialized"@.len() == 11);
    reveal_strlit("textDocument/didOpen");
    assert("textDocument/didOpen"@.len() == 20);
    reveal_strlit("textDocument/didChange");
    assert("textDocument/didChange"@.len() == 22);
    reveal_strlit("textDocument/didClose");
    assert("textDocument/didClose"@.len() == 21);
    reveal_strlit("dolfin/indexFiles");
    assert("dolfin/indexFiles"@.len() == 17);
    reveal_strlit("workspace/didChangeWatchedFiles");
    assert("workspace/didChangeWatchedFiles"@.len() == 31);
    reveal_strlit("workspace/didChangeWorkspaceFolders");
    assert("workspace/didChangeWorkspaceFolders"@.len() == 35);
}

/// The first folder that `initialize` names becomes the root of the workspace; without folders,
/// and by any other request, the root stays.
pub proof fn law_initialize_sets_the_root(
    root: Option<Seq<char>>,
    method: Seq<char>,
    folders: Seq<Seq<char>>,
    p: RequestParamsView,
)
    ensures
        root_after(root, request_named("initialize"@), RequestParamsView::Folders(folders)) == if folders.len()
            > 0 {
            Some(folders[0])
        } else {
            root
        },
        method != "initialize"@ ==> root_after(root, request_named(method), p) == root,
        !(p is Folders) ==> root_after(root, request_named(method), p) == root,
{
    lemma_request_methods();
}

/// `initialize` is answered with the capabilities, whatever its parameters are, and nothing else
/// is.
pub proof fn law_initialize_is_answered(w: WorldView, method: Seq<char>, p: RequestParamsView, r: ResponseView)
    requires
        answers(w, request_named(method), p, r),
    ensures
        r is Initialized <==> method == "initialize"@,
{
    lemma_request_methods();
}

/// The capabilities name what the server does: documents are sent whole, hovers, completions
/// after a blank, a colon or a dot, definitions, references, symbols, quick fixes, renames with a
/// check, and tokens of whole documents by the legend.
pub proof fn law_capabilities(c: ServerCapabilities)
    requires
        c.offered(),
    ensures
        c.text_document_sync == SyncKind::Full,
        c.hover && c.definition && c.references && c.document_symbol && c.rename_prepare
            && c.tokens_full && c.workspace_folders && c.folder_changes,
        !c.code_action_resolve && !c.code_lens_resolve && !c.tokens_range,
        c.completion_triggers@.len() == 3,
        texts(c.completion_triggers@).contains(" "@),
        texts(c.completion_triggers@).contains(":"@),
        texts(c.completion_triggers@).contains("."@),
        c.code_action_kinds@ == seq![ActionKind::QuickFix],
        c.token_legend.token_modifiers@ == seq![TokenModifier::Declaration],
        c.token_legend.token_types@.len() == 9,
        forall|i: int, j: int|
            0 <= i < j < c.token_legend.token_types@.len() ==> #[trigger] c.token_legend.token_types@[i]
                != #[trigger] c.token_legend.token_types@[j],
        c.token_legend.token_types@.contains(TokenType::Variable),
        c.token_legend.token_types@.contains(TokenType::Keyword),
        c.token_legend.token_types@.contains(TokenType::Namespace),
        c.token_legend.token_types@.contains(TokenType::Class),
{
    let t = texts(c.completion_triggers@);
    assert(t[0] == " "@ && t[1] == ":"@ && t[2] == "."@);
    assert(t.len() == c.completion_triggers@.len());
    let l = c.token_legend.token_types@;
    assert(l[7] == TokenType::Variable && l[8] == TokenType::Keyword && l[0] == TokenType::Namespace
        && l[2] == TokenType::Class);
}

// ── What notifications do ─────────────────────────────────────────────────────

/// After `textDocument/didOpen` the document holds its text and is in the background no more;
/// all other files stay as they are.
pub proof fn law_did_open(
    s: StateView,
    uri: Seq<char>,
    text: Seq<char>,
    scan: Option<Scan>,
    t: StateView,
    k: Seq<char>,
)
    requires
        in_step(s.world),
        in_step(t.world),
        may_notify(
            s,
            notification_named("textDocument/didOpen"@),
            NotificationParamsView::Open { uri, text },
            scan,
            t,
        ),
    ensures
        t.workspace_root == s.workspace_root,
        holds_text(s.world, t.world, uri, text),
        get(t.world.background, uri) is None,
        k != uri ==> untouched(s.world, t.world, k),
        same_setting(s.world, t.world),
{
    law_notifications_by_method("textDocument/didOpen"@, NotificationKind::DidOpen);
    law_open(s.world, uri, text, t.world, k);
}

/// After `textDocument/didChange` the document holds the last of the texts; without texts
/// nothing changes. All other files stay as they are.
pub proof fn law_did_change(
    s: StateView,
    uri: Seq<char>,
    texts: Seq<Seq<char>>,
    scan: Option<Scan>,
    t: StateView,
    k: Seq<char>,
)
    requires
        in_step(s.world),
        in_step(t.world),
        may_notify(
            s,
            notification_named("textDocument/didChange"@),
            NotificationParamsView::Change { uri, texts },
            scan,
            t,
        ),
    ensures
        t.workspace_root == s.workspace_root,
        texts.len() == 0 ==> t == s,
        texts.len() > 0 ==> holds_text(s.world, t.world, uri, texts[texts.len() - 1]),
        t.world.background == s.world.background,
        k != uri ==> untouched(s.world, t.world, k),
        same_setting(s.world, t.world),
{
    law_notifications_by_method("textDocument/didChange"@, NotificationKind::DidChange);
    if texts.len() > 0 {
        law_update(s.world, uri, texts.last(), t.world, k);
    }
}

/// After `textDocument/didClose` the document is not open; it is in the background as
/// [`handed_back`] says. All other files stay as they are.
pub proof fn law_did_close(
    s: StateView,
    uri: Seq<char>,
    on_disk: Option<Seq<char>>,
    scan: Option<Scan>,
    t: StateView,
    k: Seq<char>,
)
    requires
        in_step(s.world),
        in_step(t.world),
        may_notify(
            s,
            notification_named("textDocument/didClose"@),
            NotificationParamsView::Close { uri, on_disk },
            scan,
            t,
        ),
    ensures
        t.workspace_root == s.workspace_root,
        get(t.world.docs, uri) is None,
        exists|ns: Option<Seq<Seq<char>>>| #[trigger]
            disk_namespace_may_be(s.world.root, uri, ns) && handed_back(
                s.world,
                uri,
                on_disk,
                ns,
                get(t.world.background, uri),
            ),
        k != uri ==> untouched(s.world, t.world, k),
        same_setting(s.world, t.world),
{
    law_notifications_by_method("textDocument/didClose"@, NotificationKind::DidClose);
    law_close(s.world, uri, on_disk, t.world, k);
}

/// After `dolfin/indexFiles` each provided file that is not open, has a namespace and can be
/// parsed is in the background; no document changes.
pub proof fn law_index_files(
    s: StateView,
    root: Seq<char>,
    files: Seq<(Seq<char>, Seq<char>)>,
    scan: Option<Scan>,
    t: StateView,
    k: Seq<char>,
    i: int,
)
    requires
        in_step(s.world),
        in_step(t.world),
        may_notify(
            s,
            notification_named("dolfin/indexFiles"@),
            NotificationParamsView::Files { root, files },
            scan,
            t,
        ),
        provided_for(s.world, root, files, k, i),
        forall|j: int| i < j ==> !#[trigger] provided_for(s.world, root, files, k, j),
    ensures
        t.workspace_root == s.workspace_root,
        same_document(get(s.world.docs, k), get(t.world.docs, k)),
        get(t.world.background, k) matches Some(b) && background_from(
            b,
            files[i].1,
            namespace_under(url_path(root), url_path(k))->0,
        ) && indexed_as(t.world, k, Some(b.tree)),
{
    law_notifications_by_method("dolfin/indexFiles"@, NotificationKind::IndexFiles);
    law_provide(s.world, root, files, t.world, k);
}

/// A search that a notification brings is taken in as [`law_scan`] says: by `initialized` where
/// there is a root, by `workspace/didChangeWorkspaceFolders` where a folder was added, which is
/// the root then.
pub proof fn law_searches_are_taken_in(
    s: StateView,
    added: Seq<Seq<char>>,
    p: NotificationParamsView,
    scan: Scan,
    t: StateView,
)
    ensures
        may_notify(s, notification_named("initialized"@), p, Some(scan), t) && s.workspace_root is Some
            ==> crate::workspace::may_scan(
            s.world,
            scan.root,
            opt_discovered(scan.discovered),
            t.world,
        ) && t.workspace_root == s.workspace_root,
        may_notify(s, notification_named("initialized"@), p, None, t) ==> t == s,
        may_notify(s, notification_named("initialized"@), p, Some(scan), t) && s.workspace_root is None
            ==> t == s,
        added.len() > 0 && may_notify(
            s,
            notification_named("workspace/didChangeWorkspaceFolders"@),
            NotificationParamsView::Added(added),
            Some(scan),
            t,
        ) ==> crate::workspace::may_scan(
            s.world,
            scan.root,
            opt_discovered(scan.discovered),
            t.world,
        ) && t.workspace_root == Some(added[0]),
        added.len() == 0 && may_notify(
            s,
            notification_named("workspace/didChangeWorkspaceFolders"@),
            NotificationParamsView::Added(added),
            Some(scan),
            t,
        ) ==> t == s,
{
    law_notifications_by_method("initialized"@, NotificationKind::Initialized);
    law_notifications_by_method(
        "workspace/didChangeWorkspaceFolders"@,
        NotificationKind::WorkspaceFolders,
    );
}

/// What one change on disk does: a created or changed file is read again, a deleted one is gone.
pub proof fn law_watched_file(
    s: StateView,
    c: FileChangeView,
    scan: Option<Scan>,
    t: StateView,
    k: Seq<char>,
)
    requires
        s.world.host == Host::Native,
        in_step(s.world),
        in_step(t.world),
        may_notify(
            s,
            notification_named("workspace/didChangeWatchedFiles"@),
            NotificationParamsView::Watched(seq![c]),
            scan,
            t,
        ),
    ensures
        t.workspace_root == s.workspace_root,
        k != c.uri ==> untouched(s.world, t.world, k),
        same_document(get(s.world.docs, c.uri), get(t.world.docs, c.uri)),
        is_manifest(c.uri) && c.kind != ChangeKind::Deleted ==> t.world == s.world,
        c.kind == ChangeKind::Other ==> t.world == s.world,
        get(s.world.docs, c.uri) is Some ==> t.world == s.world,
        c.kind == ChangeKind::Deleted && get(s.world.docs, c.uri) is None ==> get(
            t.world.background,
            c.uri,
        ) is None && indexed_as(t.world, c.uri, None),
        (c.kind == ChangeKind::Created || c.kind == ChangeKind::Changed) && get(s.world.docs, c.uri) is None
            && !is_manifest(c.uri) && c.on_disk is Some ==> exists|ns: Option<Seq<Seq<char>>>|
         #[trigger]
            disk_namespace_may_be(s.world.root, c.uri, ns) && match get(t.world.background, c.uri) {
                Some(b) => ns is Some && background_from(b, c.on_disk->0, ns->0) && indexed_as(
                    t.world,
                    c.uri,
                    Some(b.tree),
                ),
                None => ns is None || parse_outcome(c.on_disk->0).0 is None,
            },
{
    law_notifications_by_method(
        "workspace/didChangeWatchedFiles"@,
        NotificationKind::WatchedFiles,
    );
    let changes = seq![c];
    let states = choose|states: Seq<WorldView>| #[trigger]
        watch_steps(changes, states) && states[0] == s.world && states.last() == t.world;
    assert(may_change(states[0], changes[0], states[1]));
    match c.kind {
        ChangeKind::Created => law_reload(s.world, c.uri, c.on_disk, t.world, k),
        ChangeKind::Changed => law_reload(s.world, c.uri, c.on_disk, t.world, k),
        ChangeKind::Deleted => {
            law_remove(s.world, c.uri, t.world, k);
        },
        ChangeKind::Other => {},
    }
}

/// Changes on disk are followed one after the other; without changes nothing changes.
pub proof fn law_watched_files_in_turn(
    w: WorldView,
    a: Seq<FileChangeView>,
    b: Seq<FileChangeView>,
    v: WorldView,
)
    ensures
        may_watch(w, a + b, v) <==> exists|m: WorldView| #[trigger]
            may_watch(w, a, m) && may_watch(m, b, v),
        may_watch(w, Seq::empty(), v) <==> v == w,
{
    let all = a + b;
    let n = a.len() as int;
    if may_watch(w, all, v) {
        let states = choose|states: Seq<WorldView>| #[trigger]
            watch_steps(all, states) && states[0] == w && states.last() == v;
        let x = states.take(n + 1);
        let y = states.skip(n);
        assert forall|i: int| 0 <= i < a.len() implies may_change(x[i], #[trigger] a[i], x[i + 1]) by {
            assert(all[i] == a[i]);
        }
        assert forall|i: int| 0 <= i < b.len() implies may_change(y[i], #[trigger] b[i], y[i + 1]) by {
            assert(all[n + i] == b[i]);
            assert(states[n + i + 1] == y[i + 1]);
        }
        assert(watch_steps(a, x) && x[0] == w && x.last() == states[n]);
        assert(watch_steps(b, y) && y[0] == states[n] && y.last() == v);
        assert(may_watch(w, a, states[n]) && may_watch(states[n], b, v));
    }
    if exists|m: WorldView| #[trigger] may_watch(w, a, m) && may_watch(m, b, v) {
        let m = choose|m: WorldView| #[trigger] may_watch(w, a, m) && may_watch(m, b, v);
        let x = choose|states: Seq<WorldView>| #[trigger]
            watch_steps(a, states) && states[0] == w && states.last() == m;
        let y = choose|states: Seq<WorldView>| #[trigger]
            watch_steps(b, states) && states[0] == m && states.last() == v;
        let states = x + y.drop_first();
        assert forall|i: int| 0 <= i < all.len() implies may_change(
            states[i],
            #[trigger] all[i],
            states[i + 1],
        ) by {
            if i < n {
                assert(all[i] == a[i]);
                assert(states[i] == x[i] && states[i + 1] == x[i + 1]);
            } else {
                assert(all[i] == b[i - n]);
                assert(states[i] == y[i - n]);
                assert(states[i + 1] == y[i - n + 1]);
            }
        }
        assert(watch_steps(all, states) && states[0] == w);
        assert(states.last() == v);
    }
    let none = Seq::<FileChangeView>::empty();
    if may_watch(w, none, v) {
        let states = choose|states: Seq<WorldView>| #[trigger]
            watch_steps(none, states) && states[0] == w && states.last() == v;
        assert(states.len() == 1);
    }
    if v == w {
        assert(watch_steps(none, seq![w]));
        assert(seq![w].last() == v);
    }
}

/// A notification that is not known, or whose parameters could not be read, does nothing and
/// sends nothing; `initialized` and `dolfin/indexFiles` are taken up without parameters too.
pub proof fn law_unknown_notifications_do_nothing(
    s: StateView,
    method: Seq<char>,
    p: NotificationParamsView,
    scan: Option<Scan>,
    t: StateView,
)
    requires
        may_notify(s, notification_named(method), p, scan, t),
    ensures
        notification_named(method) == NotificationKind::Unknown ==> t == s && sent(
            s.world.host,
            notification_named(method),
            p,
            t.world,
        ).len() == 0,
        p is Malformed && method != "initialized"@ ==> t == s,
        p is Malformed && method != "initialized"@ && method != "dolfin/indexFiles"@ ==> sent(
            s.world.host,
            notification_named(method),
            p,
            t.world,
        ).len() == 0,
        s.world.host == Host::Web && method == "workspace/didChangeWatchedFiles"@ ==> t == s,
{
    law_notifications_by_method(method, NotificationKind::Initialized);
    law_notifications_by_method(method, NotificationKind::IndexFiles);
    law_notifications_by_method(method, NotificationKind::WatchedFiles);
}

/// Texts in which no line is indented can be taken in, whatever notification brings them; only a
/// manifest must not be empty.
pub proof fn law_flat_texts_are_admissible(
    s: StateView,
    uri: Seq<char>,
    text: Seq<char>,
    texts: Seq<Seq<char>>,
    on_disk: Option<Seq<char>>,
    scan: Option<Scan>,
)
    requires
        flat(text),
        is_manifest(uri) ==> text.len() > 0,
        texts.len() > 0 ==> texts.last() == text,
        on_disk is Some ==> on_disk == Some(text),
    ensures
        admissible(
            s,
            notification_named("textDocument/didOpen"@),
            NotificationParamsView::Open { uri, text },
            scan,
        ),
        admissible(
            s,
            notification_named("textDocument/didChange"@),
            NotificationParamsView::Change { uri, texts },
            scan,
        ),
        admissible(
            s,
            notification_named("textDocument/didClose"@),
            NotificationParamsView::Close { uri, on_disk },
            scan,
        ),
        admissible(
            s,
            notification_named("dolfin/indexFiles"@),
            NotificationParamsView::Files { root: uri, files: seq![(uri, text)] },
            scan,
        ),
{
    law_notifications_by_method("textDocument/didOpen"@, NotificationKind::DidOpen);
    law_notifications_by_method("textDocument/didChange"@, NotificationKind::DidChange);
    law_notifications_by_method("textDocument/didClose"@, NotificationKind::DidClose);
    law_notifications_by_method("dolfin/indexFiles"@, NotificationKind::IndexFiles);
    law_flat_is_laid_out(text);
    law_laid_out_is_parsable(text);
}

// ── What is sent ──────────────────────────────────────────────────────────────

/// A notification publishes the diagnostics of a document.
pub open spec fn publishes_for(n: NotificationView, uri: Seq<char>) -> bool {
    n.method == "textDocument/publishDiagnostics"@ && n.uri == uri
}

/// After a notification that is taken up the diagnostics of every open document are published,
/// each once, in the order of the documents. Before them a closed document has its diagnostics
/// taken away.
pub proof fn law_what_is_sent(
    host: Host,
    method: Seq<char>,
    p: NotificationParamsView,
    after: WorldView,
    i: int,
)
    requires
        taken_up(host, notification_named(method), p),
    ensures
        ({
            let all = sent(host, notification_named(method), p, after);
            let skip = if method == "textDocument/didClose"@ {
                1int
            } else {
                0int
            };
            &&& all.len() == skip + after.docs.len()
            &&& 0 <= i < after.docs.len() ==> {
                &&& publishes_for(all[skip + i], after.docs[i].0)
                &&& all[skip + i].diagnostics == document_diagnostics(after.docs[i].1)
            }
        }),
{
    law_notifications_by_method(method, NotificationKind::DidClose);
}

/// When a document is closed, its diagnostics are taken away first.
pub proof fn law_closed_documents_lose_their_diagnostics(
    host: Host,
    uri: Seq<char>,
    on_disk: Option<Seq<char>>,
    after: WorldView,
)
    ensures
        ({
            let all = sent(
                host,
                notification_named("textDocument/didClose"@),
                NotificationParamsView::Close { uri, on_disk },
                after,
            );
            &&& all.len() == 1 + after.docs.len()
            &&& publishes_for(all[0], uri)
            &&& all[0].diagnostics.len() == 0
        }),
{
    law_notifications_by_method("textDocument/didClose"@, NotificationKind::DidClose);
}

/// The notifications that are taken up are those with a known method whose parameters belong to
/// it; watched files count on a native host only.
pub proof fn law_what_is_taken_up(
    host: Host,
    uri: Seq<char>,
    text: Seq<char>,
    list: Seq<Seq<char>>,
    on_disk: Option<Seq<char>>,
    changes: Seq<FileChangeView>,
    p: NotificationParamsView,
)
    ensures
        taken_up(host, notification_named("initialized"@), p),
        taken_up(host, notification_named("dolfin/indexFiles"@), p),
        taken_up(
            host,
            notification_named("textDocument/didOpen"@),
            NotificationParamsView::Open { uri, text },
        ),
        taken_up(
            host,
            notification_named("textDocument/didChange"@),
            NotificationParamsView::Change { uri, texts: list },
        ),
        taken_up(
            host,
            notification_named("textDocument/didClose"@),
            NotificationParamsView::Close { uri, on_disk },
        ),
        taken_up(
            host,
            notification_named("workspace/didChangeWorkspaceFolders"@),
            NotificationParamsView::Added(list),
        ),
        taken_up(
            host,
            notification_named("workspace/didChangeWatchedFiles"@),
            NotificationParamsView::Watched(changes),
        ) <==> host == Host::Native,
{
    law_notifications_by_method("initialized"@, NotificationKind::Initialized);
    law_notifications_by_method("dolfin/indexFiles"@, NotificationKind::IndexFiles);
    law_notifications_by_method("textDocument/didOpen"@, NotificationKind::DidOpen);
    law_notifications_by_method("textDocument/didChange"@, NotificationKind::DidChange);
    law_notifications_by_method("textDocument/didClose"@, NotificationKind::DidClose);
    law_notifications_by_method(
        "workspace/didChangeWorkspaceFolders"@,
        NotificationKind::WorkspaceFolders,
    );
    law_notifications_by_method(
        "workspace/didChangeWatchedFiles"@,
        NotificationKind::WatchedFiles,
    );
}

/// A directory is searched before `initialized`, if there is a root, and before a folder is
/// added: the one that the root or the folder stands for. Nothing is searched before any other
/// notification.
pub proof fn law_what_is_searched(
    s: StateView,
    method: Seq<char>,
    p: NotificationParamsView,
    added: Seq<Seq<char>>,
    dir: Option<PathBuf>,
)
    ensures
        s.workspace_root is Some ==> (may_want_scan(s, notification_named("initialized"@), p, dir)
            <==> url_may_be_path(s.workspace_root->0, dir)),
        s.workspace_root is None ==> (may_want_scan(s, notification_named("initialized"@), p, dir)
            <==> dir is None),
        added.len() > 0 ==> (may_want_scan(
            s,
            notification_named("workspace/didChangeWorkspaceFolders"@),
            NotificationParamsView::Added(added),
            dir,
        ) <==> url_may_be_path(added[0], dir)),
        method != "initialized"@ && method != "workspace/didChangeWorkspaceFolders"@ ==> (
        may_want_scan(s, notification_named(method), p, dir) <==> dir is None),
{
    law_notifications_by_method(method, NotificationKind::Initialized);
    law_notifications_by_method(method, NotificationKind::WorkspaceFolders);
    law_notifications_by_method("initialized"@, NotificationKind::Initialized);
    law_notifications_by_method(
        "workspace/didChangeWorkspaceFolders"@,
        NotificationKind::WorkspaceFolders,
    );
}

} // verus!
