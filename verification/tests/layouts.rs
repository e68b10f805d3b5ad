use dolfin_lsp_core::dispatch::LspState;
use dolfin_lsp_core::layout::{is_laid_out, is_parsable, trace, Course};
use dolfin_lsp_core::lexer::scan;
use dolfin_lsp_core::parsing::{
    does_manifest_parser_return, does_parser_return, parse_document, parse_package_manifest,
    parse_tree,
};
use dolfin_lsp_core::protocol::{
    ChangeKind, FileChange, NotificationParams, RequestParams, Scan,
};
use dolfin_lsp_core::world::{DiscoveredFile, Host, World};
use lsp_types::Url;
use std::path::PathBuf;

fn url(s: &str) -> Url {
    Url::parse(s).unwrap()
}

/// A gap that the text ends in, deeper than the line before it.
const DANGLING: &str = "concept A:\n  ";

#[test]
fn texts_without_indentation_are_laid_out() {
    for text in [
        "",
        " ",
        "concept",
        "# comment",
        "concept A\nconcept B\n",
        "\"never closed",
        "\r\n\r\n# c\r\n",
        "é ∀ 😀 $",
        "@i 99999999999999999999",
    ] {
        assert!(is_laid_out(text), "{:?}", text);
        scan(text);
        parse_tree(text);
    }
}

#[test]
fn ordinary_layouts_are_laid_out() {
    for text in [
        "concept A:\n  has x: int\n",
        "concept A:\n  has x: int",
        "concept A:\n  # about x\n  has x: int\n",
        "concept A:\n  has x: int\n  # at the end\nconcept B:\n  has y: int\n",
        "concept A:\n  has x: int\n  ",
        "concept A:\n  has x: int\n      # deeper\nconcept B:\n  has y: int\n",
        "concept A:\n  # one\n    # two\n  has x: int\n",
        "concept A:\n  has x: int\n# out\n    # in\n      # in\nconcept B:\n  has y: int\n",
        "concept A:\n\t@iri_name \"x\"\n\thas x: int\n",
        "rule R:\n  match:\n    ?x a A\n  then:\n    ?x a B\n",
    ] {
        assert!(is_laid_out(text), "{:?}", text);
        assert!(scan(text).iter().all(|t| t.is_some()), "{:?}", text);
    }
    assert!(parse_tree("concept A:\n  has x: int\n").is_some());
}

#[test]
fn deeper_gaps_at_the_end_are_not_laid_out() {
    assert!(!is_laid_out(DANGLING));
    assert!(!is_laid_out("concept A:\n  # comment"));
    assert!(!is_laid_out("concept A:\n  has x: int\n    "));
    assert!(!is_laid_out("concept A:\n  $"));
    assert!(!is_laid_out("concept A:\n  \"never closed"));
    assert!(!is_laid_out("a\n    b\n  c\n  "));
    assert!(is_laid_out("a\n  b\n  "));
    assert!(is_laid_out("concept A:\n  \n"));
    assert!(is_laid_out("concept A:\n  \"closed\""));
    assert!(is_laid_out("concept A:\n  has x: int\n# out\n  "));
}

#[test]
fn gaps_that_go_deeper_twice_and_out_at_once_are_not_laid_out() {
    assert!(!is_laid_out("concept A:\n  has x: int\n    # a\n      # b\nconcept B:\n"));
    assert!(is_laid_out("concept A:\n  has x: int\n    # a\n      # b\n  has y: int\n"));
    assert!(is_laid_out("concept A:\n  has x: int\n    # a\n    # b\nconcept B:\n"));
}

#[test]
fn tabs_count_twice() {
    assert!(is_laid_out("a\n\tb\n  "));
    assert!(!is_laid_out("a\n\tb\n   "));
    assert!(is_laid_out("a\n  b\n\t"));
}

#[test]
fn line_breaks_in_literals_do_not_count() {
    let text = "a \"x\n    y\" b\n";
    assert!(is_laid_out(text));
    assert_eq!(scan(text).iter().filter(|t| t.is_some()).count(), 5);
    assert!(is_laid_out("a <x\n    y> b\n"));
    assert!(is_laid_out("a \"x\\\"\n    \""));
    assert!(!is_laid_out("a \"x\\\n    \""));
}

#[test]
fn what_cannot_be_read_does_not_end_a_gap() {
    for (text, token) in [
        ("9223372036854775807", true),
        ("9223372036854775808", false),
        ("9_223_372_036_854_775_808", false),
        ("00000000000000000000000000001", true),
        ("99999999999999999999.5", true),
        ("99999999999999999999._5", true),
        ("1.5e+99999999999999999999", true),
        ("@iri_name", true),
        ("@iri_nam", false),
        ("@i", false),
        ("@ix", true),
        ("@irx b", true),
        ("one of_", true),
        ("?", false),
        ("?_x", true),
        ("!", false),
        ("!=", true),
        ("^", false),
        ("^^", true),
        ("_", false),
    ] {
        let flat = format!("a\n{}", text);
        assert!(is_laid_out(&flat));
        assert_eq!(scan(&flat).iter().skip(2).any(|t| t.is_some()), true);
        assert_eq!(is_laid_out(&format!("a\n  {}", text)), token, "{:?}", text);
    }
    assert!(is_laid_out("a\n @ix b"));
    assert!(is_parsable("a\n @ix b"));
    scan("a\n @ix b");
    // Behind `one of` no name goes on, and what cannot be read stops a parser.
    assert!(is_parsable("one of_\n  "));
    assert!(is_parsable("one of99999999999999999999\n  "));
    assert!(!is_parsable("one office\n  "));
    assert!(is_parsable("1.5e5_\n  "));
    assert!(!is_parsable("1.5e+5\n  "));
}

#[test]
fn a_parser_goes_no_further_than_what_it_can_read() {
    for text in [
        "concept A:\n  $",
        "concept A:\n  \"never closed",
        "$ concept A:\n  ",
        "é\nconcept A:\n  has x: int\n    # a\n      # b\nconcept B\n",
        "concept A:\n  has x ! int\n    ",
    ] {
        assert!(!is_laid_out(text), "{:?}", text);
        assert!(is_parsable(text), "{:?}", text);
        assert!(parse_tree(text).is_none());
    }
    assert!(!is_parsable(DANGLING));
    assert!(!is_parsable("concept A:\n  has x: int\n    # a\n      # b\nconcept B\n$"));
    assert!(is_parsable("concept first_name:\n  has x_1: int\n"));
    assert!(!is_parsable("concept first_name:\n  "));
    assert!(does_parser_return("concept first_name:\n  has x_1: int\n"));
    assert!(!does_parser_return("concept first_name:\n  "));
}

/// Texts with an error of syntax before a gap that cannot be followed.
const STOPPED: [&str; 9] = [
    "foo\n  ",
    "concpt A:\n  ",
    "concept A:\n  has x int\n    ",
    "?x_y a b\n  ",
    // The line break itself is the error.
    "concept\n  ",
    "concept A\nconcept # a\n  # b",
    // The line break completes it.
    "rule r:\n  match:\n    ?x a A\n  then:\n    ?x a int\n      ",
    // The gap lies inside the text.
    "foo\n  bar\n    # a\n      # b\nconcept B\n",
    "concept A:\n  has x int\n    # a\n      # b\nconcept B\n",
];

#[test]
fn a_parser_goes_no_further_than_an_error_of_syntax() {
    let a = url("file:///w/a.dlf");
    for text in STOPPED {
        assert!(!is_laid_out(text), "{:?}", text);
        assert!(!is_parsable(text), "{:?}", text);
        assert!(does_parser_return(text), "{:?}", text);
        assert!(parse_tree(text).is_none());
        let (parse, _) = parse_document(text);
        assert_eq!(parse.diagnostics.len(), 1);
        assert!(World::can_open(&a, text));
        let mut world = World::new();
        world.open(a.clone(), text.to_string());
        assert_eq!(world.doc(&a).unwrap().parse.diagnostics.len(), 1);
    }
    for text in [
        DANGLING,
        "\n  ",
        "concept A:\n  has x: int\n    ",
        "concept A:\n  has x: int\n    # a\n      # b\nconcept\n",
        // The error would be found behind the gap, or at a break that does not come.
        "concept A:\n  has x: int\n    # a\n      # b\nfoo\n",
        "rule r:\n  match:\n    ?x a A\n  then:\n    ?x a int\n      # a\n        # b\nfoo\n",
    ] {
        assert!(!does_parser_return(text), "{:?}", text);
    }
}

#[test]
fn how_far_a_parser_gets() {
    assert_eq!(trace("concept A # c\n"), (Course::Whole, "concept A".to_string()));
    assert_eq!(trace("concept é\n"), (Course::Unreadable, "concept".to_string()));
    assert_eq!(trace("a # c\n  "), (Course::Dangling, "a".to_string()));
    assert_eq!(trace("a\n b\n  # c\n   # d\ne"), (Course::Lost, "a\n b".to_string()));
    assert_eq!(trace("\n  "), (Course::Dangling, String::new()));
    for text in ["a\n b\n  # c\n   # d\ne", "a <b\n  ", "a 1.\n  ", "a \"b\nc\"\r\n  ", "\n  "] {
        let (_, head) = trace(text);
        assert_eq!(trace(&format!("{}$", head)), (Course::Unreadable, head.clone()));
        assert_eq!(trace(&format!("{}\n", head)), (Course::Whole, head));
    }
}

#[test]
fn which_manifests_a_parser_comes_back_from() {
    for text in [
        "package p:\n  version \"1\"\n",
        "package p:\n  foo \"1\"\n",
        "$",
        "foo\n  ",
        "\n  ",
        "package\n  ",
        "package p:\n  version\n    ",
        "package p:\n  foo \"1\"\n  version \"1\"\n    ",
        "package p:\n  foo \"1\"\n  version \"1\"\n    # a\n      # b\nfoo",
    ] {
        assert!(does_manifest_parser_return(text), "{:?}", text);
        parse_package_manifest(text);
    }
    for text in [
        "",
        "package p:\n  ",
        "package p:\n  version \"1\"\n    ",
        "package p:\n  version \"1\"\n    # a\n      # b\nfoo",
        // The field is found to be unknown only behind the line break.
        "package p:\n  foo \"1\"\n    ",
    ] {
        assert!(!does_manifest_parser_return(text), "{:?}", text);
    }
}

#[test]
fn files_with_errors_of_syntax_are_taken_in() {
    let a = url("file:///w/a.dlf");
    let b = url("file:///w/b.dlf");
    let root = url("file:///w/");
    let good = "concept Good\n".to_string();
    for text in STOPPED {
        // Opened, changed and closed with such a text on disk.
        let mut state = LspState::new();
        state.workspace_root = Some(root.clone());
        let open = NotificationParams::Open { uri: a.clone(), text: text.to_string() };
        let result = state.try_notification("textDocument/didOpen", open, None).unwrap();
        assert_eq!(result.notifications.len(), 1);
        assert_eq!(result.notifications[0].diagnostics.len(), 1);
        let change = NotificationParams::Change { uri: a.clone(), texts: vec![text.to_string()] };
        assert!(state.try_notification("textDocument/didChange", change, None).is_some());
        let close = NotificationParams::Close { uri: a.clone(), on_disk: Some(text.to_string()) };
        let result = state.try_notification("textDocument/didClose", close, None).unwrap();
        assert_eq!(result.notifications.len(), 1);
        assert!(result.notifications[0].diagnostics.is_empty());
        assert!(state.world.all_uris().is_empty());
        assert!(state.world.all_file_asts().is_empty());

        // Found in a search: the other files are taken in.
        let file = |path: &str, source: &str| DiscoveredFile {
            path: PathBuf::from(path),
            namespace: vec!["x".to_string()],
            source: Some(source.to_string()),
        };
        let found = vec![file("/w/a.dlf", text), file("/w/b.dlf", &good)];
        let scan = Scan { root: PathBuf::from("/w"), discovered: Some(found) };
        let params = NotificationParams::Malformed;
        assert!(state.try_notification("initialized", params, Some(scan)).is_some());
        let known: Vec<String> = state.world.all_file_asts().into_iter().map(|f| f.key).collect();
        assert_eq!(known, vec![b.as_str().to_string()]);

        // Changed on disk: it is no background file any more.
        let watched = NotificationParams::Watched(vec![FileChange {
            uri: b.clone(),
            kind: ChangeKind::Changed,
            on_disk: Some(text.to_string()),
        }]);
        let method = "workspace/didChangeWatchedFiles";
        assert!(state.try_notification(method, watched, None).is_some());
        assert!(state.world.all_file_asts().is_empty());

        // Provided by the client: the other files are taken in.
        let files = vec![(a.clone(), text.to_string()), (b.clone(), good.clone())];
        let params = NotificationParams::Files { root: root.clone(), files };
        assert!(state.try_notification("dolfin/indexFiles", params, None).is_some());
        let known: Vec<String> = state.world.all_file_asts().into_iter().map(|f| f.key).collect();
        assert_eq!(known, vec![b.as_str().to_string()]);
    }
}

#[test]
fn highlighting_needs_the_whole_text() {
    let uri = url("file:///w/a.dlf");
    let mut state = LspState::new();
    let text = "$\nconcept A:\n  ".to_string();
    let open = NotificationParams::Open { uri: uri.clone(), text };
    let result = state.try_notification("textDocument/didOpen", open, None).unwrap();
    assert_eq!(result.notifications[0].diagnostics.len(), 1);
    let of = || RequestParams::Of { uri: uri.clone() };
    assert!(state.try_request(1, "textDocument/semanticTokens/full", of()).is_none());
    assert!(state.try_request(1, "textDocument/documentSymbol", of()).is_some());
}

#[test]
fn which_texts_a_workspace_takes_in() {
    let a = url("file:///w/a.dlf");
    let manifest = url("file:///w/package.dlf");
    assert!(World::can_open(&a, ""));
    assert!(!World::can_open(&manifest, ""));
    assert!(World::can_open(&manifest, "\n"));
    assert!(!World::can_open(&a, DANGLING));

    let mut world = World::new();
    let bad = Some(DANGLING.to_string());
    assert!(!world.can_close(&a, &bad));
    assert!(world.can_close(&a, &None));
    assert!(world.can_close(&manifest, &bad));
    assert!(World::on(Host::Web).can_close(&a, &bad));
    assert!(!world.can_reload(&a, &bad));
    assert!(world.can_reload(&manifest, &bad));
    world.open(a.clone(), "concept A:\n  has x: int\n".to_string());
    assert!(world.can_reload(&a, &bad));

    let b = url("file:///w/b.dlf");
    let outside = url("file:///v/b.dlf");
    let root = url("file:///w/");
    assert!(world.can_index(&root, &vec![(a, DANGLING.to_string())]));
    assert!(world.can_index(&root, &vec![(outside, DANGLING.to_string())]));
    assert!(!world.can_index(&root, &vec![(b, DANGLING.to_string())]));

    let file = |source: Option<&str>| DiscoveredFile {
        path: PathBuf::from("/w/c.dlf"),
        namespace: vec!["c".to_string()],
        source: source.map(|s| s.to_string()),
    };
    assert!(World::can_scan(&None));
    assert!(World::can_scan(&Some(vec![file(None), file(Some("concept C\n"))])));
    assert!(!World::can_scan(&Some(vec![file(None), file(Some(DANGLING))])));
}

#[test]
fn notifications_with_other_texts_change_nothing() {
    let uri = url("file:///w/a.dlf");
    let mut state = LspState::new();
    state.workspace_root = Some(url("file:///w/"));
    let good = NotificationParams::Open { uri: uri.clone(), text: "concept A\n".to_string() };
    assert!(state.try_notification("textDocument/didOpen", good, None).is_some());

    let bad = DANGLING.to_string();
    let other = url("file:///w/b.dlf");
    let scan = Scan {
        root: PathBuf::from("/w"),
        discovered: Some(vec![DiscoveredFile {
            path: PathBuf::from("/w/c.dlf"),
            namespace: vec!["c".to_string()],
            source: Some(bad.clone()),
        }]),
    };
    let refused = [
        ("textDocument/didOpen", NotificationParams::Open { uri: other.clone(), text: bad.clone() }),
        (
            "textDocument/didChange",
            NotificationParams::Change { uri: uri.clone(), texts: vec![String::new(), bad.clone()] },
        ),
        (
            "textDocument/didClose",
            NotificationParams::Close { uri: uri.clone(), on_disk: Some(bad.clone()) },
        ),
        (
            "dolfin/indexFiles",
            NotificationParams::Files {
                root: url("file:///w/"),
                files: vec![(other.clone(), bad.clone())],
            },
        ),
        (
            "workspace/didChangeWatchedFiles",
            NotificationParams::Watched(vec![FileChange {
                uri: other,
                kind: ChangeKind::Changed,
                on_disk: Some(bad.clone()),
            }]),
        ),
    ];
    for (method, params) in refused {
        assert!(!state.is_admissible(method, &params, &None), "{}", method);
        assert!(state.try_notification(method, params, None).is_none(), "{}", method);
    }
    assert!(state
        .try_notification("initialized", NotificationParams::Malformed, Some(scan))
        .is_none());
    assert_eq!(state.world.all_uris(), vec![uri.clone()]);
    assert_eq!(state.world.doc(&uri).unwrap().rope.to_string(), "concept A\n");
    let known: Vec<String> = state.world.all_file_asts().into_iter().map(|f| f.key).collect();
    assert_eq!(known, vec![uri.as_str().to_string()]);

    let last = NotificationParams::Change { uri: uri.clone(), texts: vec![bad, String::new()] };
    assert!(state.try_notification("textDocument/didChange", last, None).is_some());
    assert_eq!(state.world.doc(&uri).unwrap().rope.to_string(), "");
}
