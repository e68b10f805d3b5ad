use dolfin_lsp_core::codeaction::ActionKind;
use dolfin_lsp_core::dispatch::{publish_diagnostics_notification, DispatchResult, LspState};
use dolfin_lsp_core::protocol::{
    notification_kind, request_kind, server_capabilities, ChangeKind, FileChange, Notification,
    NotificationKind, NotificationParams, RequestKind, RequestParams, Response, Scan, SyncKind,
};
use dolfin_lsp_core::types::{Position, Range};
use dolfin_lsp_core::world::{DiscoveredFile, Host};
use lsp_types::Url;
use std::path::PathBuf;

fn url(s: &str) -> Url {
    Url::parse(s).unwrap()
}

fn at(line: u32, character: u32) -> Position {
    Position { line, character }
}

fn open(state: &mut LspState, uri: &str, text: &str) -> DispatchResult {
    state.handle_notification(
        "textDocument/didOpen",
        NotificationParams::Open { uri: url(uri), text: text.to_string() },
        None,
    )
}

fn ask(state: &mut LspState, method: &str, params: RequestParams) -> Response {
    let result = state.handle_request(1, method, params);
    assert_eq!(result.notifications.len(), 0);
    result.response.unwrap()
}

fn position(line: u32, character: u32) -> RequestParams {
    RequestParams::At { uri: url("file:///w/a.dlf"), position: at(line, character) }
}

fn document() -> RequestParams {
    RequestParams::Of { uri: url("file:///w/a.dlf") }
}

fn uris(v: &[Notification]) -> Vec<&str> {
    v.iter().map(|n| n.uri.as_str()).collect()
}

const TEXT: &str = "concept Person:\n  has friend: Person\n";

#[test]
fn methods_of_requests() {
    let table = [
        ("initialize", RequestKind::Initialize),
        ("shutdown", RequestKind::Shutdown),
        ("textDocument/hover", RequestKind::Hover),
        ("textDocument/completion", RequestKind::Completion),
        ("textDocument/semanticTokens/full", RequestKind::SemanticTokens),
        ("textDocument/definition", RequestKind::Definition),
        ("textDocument/references", RequestKind::References),
        ("textDocument/documentSymbol", RequestKind::DocumentSymbol),
        ("textDocument/codeAction", RequestKind::CodeAction),
        ("textDocument/prepareRename", RequestKind::PrepareRename),
        ("textDocument/rename", RequestKind::Rename),
        ("textDocument/codeLens", RequestKind::CodeLens),
        ("textDocument/formatting", RequestKind::Unknown),
        ("", RequestKind::Unknown),
    ];
    for (method, kind) in table {
        assert_eq!(request_kind(method), kind);
    }
}

#[test]
fn methods_of_notifications() {
    let table = [
        ("initialized", NotificationKind::Initialized),
        ("textDocument/didOpen", NotificationKind::DidOpen),
        ("textDocument/didChange", NotificationKind::DidChange),
        ("textDocument/didClose", NotificationKind::DidClose),
        ("dolfin/indexFiles", NotificationKind::IndexFiles),
        ("workspace/didChangeWatchedFiles", NotificationKind::WatchedFiles),
        ("workspace/didChangeWorkspaceFolders", NotificationKind::WorkspaceFolders),
        ("textDocument/didSave", NotificationKind::Unknown),
    ];
    for (method, kind) in table {
        assert_eq!(notification_kind(method), kind);
    }
}

#[test]
fn capabilities() {
    let c = server_capabilities();
    assert_eq!(c.text_document_sync, SyncKind::Full);
    assert_eq!(c.completion_triggers, vec![" ".to_string(), ":".to_string(), ".".to_string()]);
    assert_eq!(c.code_action_kinds, vec![ActionKind::QuickFix]);
    assert!(c.hover && c.definition && c.references && c.document_symbol && c.rename_prepare);
    assert!(!c.code_action_resolve && !c.code_lens_resolve && !c.tokens_range);
    assert!(c.tokens_full && c.workspace_folders && c.folder_changes);
    assert_eq!(c.token_legend.token_types.len(), 9);
}

#[test]
fn initialize_takes_the_first_folder() {
    let mut state = LspState::new();
    assert_eq!(state.workspace_root, None);
    let folders = RequestParams::Folders(vec![url("file:///w/"), url("file:///v/")]);
    assert!(matches!(ask(&mut state, "initialize", folders), Response::Initialized(_)));
    assert_eq!(state.workspace_root, Some(url("file:///w/")));
    assert!(matches!(
        ask(&mut state, "initialize", RequestParams::Folders(vec![])),
        Response::Initialized(_)
    ));
    assert!(matches!(
        ask(&mut state, "initialize", RequestParams::Malformed),
        Response::Initialized(_)
    ));
    assert_eq!(state.workspace_root, Some(url("file:///w/")));
}

#[test]
fn refused_requests_are_answered_null() {
    let mut state = LspState::new();
    open(&mut state, "file:///w/a.dlf", TEXT);
    assert!(matches!(ask(&mut state, "shutdown", RequestParams::Malformed), Response::Null));
    assert!(matches!(ask(&mut state, "textDocument/other", document()), Response::Null));
    for method in [
        "textDocument/hover",
        "textDocument/completion",
        "textDocument/semanticTokens/full",
        "textDocument/definition",
        "textDocument/references",
        "textDocument/documentSymbol",
        "textDocument/codeAction",
        "textDocument/prepareRename",
        "textDocument/rename",
        "textDocument/codeLens",
    ] {
        assert!(matches!(ask(&mut state, method, RequestParams::Malformed), Response::Null));
    }
}

#[test]
fn requests_about_documents_that_are_not_open() {
    let mut state = LspState::new();
    assert!(matches!(ask(&mut state, "textDocument/hover", position(0, 0)), Response::Hover(None)));
    assert!(matches!(
        ask(&mut state, "textDocument/completion", position(0, 0)),
        Response::Completion(None)
    ));
    assert!(matches!(
        ask(&mut state, "textDocument/semanticTokens/full", document()),
        Response::Tokens(None)
    ));
    assert!(matches!(
        ask(&mut state, "textDocument/documentSymbol", document()),
        Response::Symbols(None)
    ));
    assert!(matches!(ask(&mut state, "textDocument/codeLens", document()), Response::Lenses(None)));
    let range = Range { start: at(0, 0), end: at(9, 9) };
    let params = RequestParams::Within { uri: url("file:///w/a.dlf"), range };
    match ask(&mut state, "textDocument/codeAction", params) {
        Response::Actions(v) => assert_eq!(v.len(), 0),
        _ => panic!("actions expected"),
    }
}

#[test]
fn requests_reach_the_features() {
    let mut state = LspState::new();
    open(&mut state, "file:///w/a.dlf", TEXT);
    match ask(&mut state, "textDocument/hover", position(1, 15)) {
        Response::Hover(Some(h)) => {
            assert_eq!(h.value, "```dolfin\nconcept Person\n```\n\n*concept* `Person`");
        }
        _ => panic!("hover expected"),
    }
    match ask(&mut state, "textDocument/completion", position(0, 3)) {
        Response::Completion(Some(v)) => assert_eq!(v[0].label, "concept"),
        _ => panic!("completion expected"),
    }
    match ask(&mut state, "textDocument/semanticTokens/full", document()) {
        Response::Tokens(Some(t)) => assert_eq!(t.data.len(), 5),
        _ => panic!("tokens expected"),
    }
    match ask(&mut state, "textDocument/definition", position(1, 15)) {
        Response::Definition(Some(p)) => assert_eq!(p.range.start, at(0, 0)),
        _ => panic!("definition expected"),
    }
    match ask(&mut state, "textDocument/references", position(0, 9)) {
        Response::References(Some(v)) => {
            assert_eq!(v.len(), 1);
            assert_eq!(v[0].range, Range { start: at(1, 14), end: at(1, 20) });
        }
        _ => panic!("references expected"),
    }
    assert!(matches!(
        ask(&mut state, "textDocument/references", position(1, 3)),
        Response::References(None)
    ));
    match ask(&mut state, "textDocument/documentSymbol", document()) {
        Response::Symbols(Some(v)) => assert_eq!(v[0].name, "Person"),
        _ => panic!("symbols expected"),
    }
    match ask(&mut state, "textDocument/prepareRename", position(0, 9)) {
        Response::Prepared(r) => {
            assert_eq!(r, Some(Range { start: at(0, 8), end: at(0, 14) }));
        }
        _ => panic!("range expected"),
    }
    let params = RequestParams::Renaming {
        uri: url("file:///w/a.dlf"),
        position: at(0, 9),
        new_name: "Human".to_string(),
    };
    match ask(&mut state, "textDocument/rename", params) {
        Response::Renamed(Some(e)) => {
            assert_eq!(e.changes.len(), 1);
            assert_eq!(e.changes[0].edits.len(), 2);
            assert_eq!(e.changes[0].edits[0].new_text, "Human");
        }
        _ => panic!("edit expected"),
    }
    match ask(&mut state, "textDocument/codeLens", document()) {
        Response::Lenses(Some(v)) => assert_eq!(v[0].command.title, "1 reference"),
        _ => panic!("lenses expected"),
    }
}

#[test]
fn words_inside_characters_are_refused() {
    let mut state = LspState::new();
    open(&mut state, "file:///w/a.dlf", "concept A\n# é\n");
    assert!(!state.is_readable("textDocument/definition", &position(1, 2)));
    assert!(state.try_request(1, "textDocument/definition", position(1, 2)).is_none());
    assert!(state.try_request(1, "textDocument/prepareRename", position(1, 2)).is_none());
    assert!(state.try_request(1, "textDocument/hover", position(1, 2)).is_some());
    assert!(state.try_request(1, "textDocument/completion", position(1, 2)).is_some());
    assert!(state.try_request(1, "textDocument/definition", position(0, 8)).is_some());
}

#[test]
fn opening_publishes_diagnostics_of_all_documents() {
    let mut state = LspState::new();
    let r = open(&mut state, "file:///w/a.dlf", "concept A:\n  has x: Missing\n");
    assert!(r.response.is_none());
    assert_eq!(uris(&r.notifications), vec!["file:///w/a.dlf"]);
    assert_eq!(r.notifications[0].method, "textDocument/publishDiagnostics");
    assert_eq!(r.notifications[0].diagnostics[0].code, "S001");
    let r = open(&mut state, "file:///w/b.dlf", "concept Missing\n");
    assert_eq!(uris(&r.notifications), vec!["file:///w/a.dlf", "file:///w/b.dlf"]);
    assert!(r.notifications[0].diagnostics.iter().all(|d| d.code != "S001"));
}

#[test]
fn the_last_change_counts() {
    let mut state = LspState::new();
    open(&mut state, "file:///w/a.dlf", "concept A\n");
    let change = |texts: &[&str]| NotificationParams::Change {
        uri: url("file:///w/a.dlf"),
        texts: texts.iter().map(|s| s.to_string()).collect(),
    };
    let r = state.handle_notification("textDocument/didChange", change(&["concept B\n", "concept C\n"]), None);
    assert_eq!(r.notifications.len(), 1);
    let doc = state.world.doc(&url("file:///w/a.dlf")).unwrap();
    assert_eq!(doc.rope.to_string(), "concept C\n");
    let r = state.handle_notification("textDocument/didChange", change(&[]), None);
    assert_eq!(r.notifications.len(), 1);
    let doc = state.world.doc(&url("file:///w/a.dlf")).unwrap();
    assert_eq!(doc.rope.to_string(), "concept C\n");
}

#[test]
fn closing_clears_diagnostics() {
    let mut state = LspState::new();
    open(&mut state, "file:///w/a.dlf", "concept concept\n");
    open(&mut state, "file:///w/b.dlf", "concept B\n");
    let params = NotificationParams::Close { uri: url("file:///w/a.dlf"), on_disk: None };
    let r = state.handle_notification("textDocument/didClose", params, None);
    assert_eq!(uris(&r.notifications), vec!["file:///w/a.dlf", "file:///w/b.dlf"]);
    assert_eq!(r.notifications[0].diagnostics.len(), 0);
    assert!(state.world.doc(&url("file:///w/a.dlf")).is_none());
}

#[test]
fn provided_files_are_indexed() {
    let mut state = LspState::on(Host::Web);
    open(&mut state, "file:///w/a.dlf", "concept A:\n  sub Animal\n");
    let params = NotificationParams::Files {
        root: url("file:///w/"),
        files: vec![(url("file:///w/zoo.dlf"), "concept Animal\n".to_string())],
    };
    let r = state.handle_notification("dolfin/indexFiles", params, None);
    assert!(r.notifications[0].diagnostics.iter().all(|d| d.code != "S001"));
    let r = state.handle_notification("dolfin/indexFiles", NotificationParams::Malformed, None);
    assert_eq!(r.notifications.len(), 1);
}

fn watched() -> NotificationParams {
    let change = |uri: &str, kind: ChangeKind, text: Option<&str>| FileChange {
        uri: url(uri),
        kind,
        on_disk: text.map(|s| s.to_string()),
    };
    NotificationParams::Watched(vec![
        change("file:///w/x.dlf", ChangeKind::Created, Some("concept X\n")),
        change("file:///w/y.dlf", ChangeKind::Changed, Some("concept Y\n")),
        change("file:///w/x.dlf", ChangeKind::Deleted, None),
        change("file:///w/z.dlf", ChangeKind::Other, Some("concept Z\n")),
    ])
}

#[test]
fn watched_files_are_followed_on_native_hosts() {
    let mut state = LspState::new();
    state.world.workspace_root = Some(PathBuf::from("/w"));
    open(&mut state, "file:///w/a.dlf", "concept A\n");
    let r = state.handle_notification("workspace/didChangeWatchedFiles", watched(), None);
    assert_eq!(r.notifications.len(), 1);
    let keys: Vec<String> = state.world.all_file_asts().into_iter().map(|f| f.key).collect();
    assert_eq!(keys, vec!["file:///w/y.dlf".to_string(), "file:///w/a.dlf".to_string()]);
    let mut web = LspState::on(Host::Web);
    open(&mut web, "file:///w/a.dlf", "concept A\n");
    let r = web.handle_notification("workspace/didChangeWatchedFiles", watched(), None);
    assert_eq!(r.notifications.len(), 0);
    assert_eq!(web.world.all_file_asts().len(), 1);
}

fn scan() -> Option<Scan> {
    Some(Scan {
        root: PathBuf::from("/w"),
        discovered: Some(vec![DiscoveredFile {
            path: PathBuf::from("/w/zoo.dlf"),
            namespace: vec!["zoo".to_string()],
            source: Some("concept Animal\n".to_string()),
        }]),
    })
}

#[test]
fn initialized_searches_below_the_root() {
    let mut state = LspState::new();
    assert_eq!(state.wanted_scan("initialized", &NotificationParams::Malformed), None);
    state.handle_notification("initialized", NotificationParams::Malformed, scan());
    assert_eq!(state.world.all_file_asts().len(), 0);
    state.workspace_root = Some(url("file:///w"));
    assert_eq!(
        state.wanted_scan("initialized", &NotificationParams::Malformed),
        Some(PathBuf::from("/w"))
    );
    let r = state.handle_notification("initialized", NotificationParams::Malformed, scan());
    assert!(r.response.is_none());
    assert_eq!(state.world.all_file_asts().len(), 1);
    state.workspace_root = Some(url("untitled:w"));
    assert_eq!(state.wanted_scan("initialized", &NotificationParams::Malformed), None);
}

#[test]
fn added_folders_become_the_root() {
    let mut state = LspState::new();
    let added = NotificationParams::Added(vec![url("file:///w"), url("file:///v")]);
    let method = "workspace/didChangeWorkspaceFolders";
    assert_eq!(state.wanted_scan(method, &added), Some(PathBuf::from("/w")));
    state.handle_notification(method, added, scan());
    assert_eq!(state.workspace_root, Some(url("file:///w")));
    assert_eq!(state.world.all_file_asts().len(), 1);
    let none = NotificationParams::Added(vec![]);
    assert_eq!(state.wanted_scan(method, &none), None);
    state.handle_notification(method, none, None);
    assert_eq!(state.workspace_root, Some(url("file:///w")));
}

#[test]
fn refused_notifications_send_nothing() {
    let mut state = LspState::new();
    open(&mut state, "file:///w/a.dlf", "concept A\n");
    for method in [
        "textDocument/didOpen",
        "textDocument/didChange",
        "textDocument/didClose",
        "workspace/didChangeWatchedFiles",
        "workspace/didChangeWorkspaceFolders",
        "textDocument/didSave",
    ] {
        let r = state.handle_notification(method, NotificationParams::Malformed, None);
        assert!(r.response.is_none());
        assert_eq!(r.notifications.len(), 0);
    }
    assert_eq!(state.world.all_uris().len(), 1);
}

#[test]
fn results_and_publications() {
    assert!(matches!(DispatchResult::null_response().response, Some(Response::Null)));
    assert!(DispatchResult::notify_only(vec![]).response.is_none());
    assert!(DispatchResult::response_only(Response::Hover(None)).response.is_some());
    let n = publish_diagnostics_notification(&url("file:///w/a.dlf"), vec![]);
    assert_eq!(n.method, "textDocument/publishDiagnostics");
    assert_eq!(n.uri, "file:///w/a.dlf");
    assert_eq!(n.diagnostics.len(), 0);
    assert_eq!(LspState::default().workspace_root, None);
}
