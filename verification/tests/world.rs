use dolfin_lsp_core::problem::FindingCode;
use dolfin_lsp_core::references::{search, target_at};
use dolfin_lsp_core::types::Position;
use dolfin_lsp_core::world::{DiscoveredFile, Host, World};
use lsp_types::Url;
use std::path::PathBuf;

fn url(s: &str) -> Url {
    Url::parse(s).unwrap()
}

fn strings(v: &[&str]) -> Vec<String> {
    v.iter().map(|s| s.to_string()).collect()
}

/// The keys of all known files, in order.
fn known(world: &World) -> Vec<String> {
    world.all_file_asts().into_iter().map(|f| f.key).collect()
}

/// Whether the documents of the workspace know a name.
fn knows(world: &World, from: &Url, name: &str) -> bool {
    world.doc(from).unwrap().analysis.as_ref().unwrap().index.get(name).is_some()
}

fn unresolved(world: &World, uri: &Url) -> Vec<String> {
    world
        .with_doc(uri, |doc| {
            doc.lint
                .iter()
                .filter(|d| d.code == FindingCode::Lint("semantic/unresolved-type".to_string()))
                .map(|d| d.message.clone())
                .collect::<Vec<String>>()
        })
        .unwrap_or_default()
}

/// Two files: `human.dlf` defines `Person`, `employee.dlf` references it via a prefix.
/// After both are opened, `semantic/unresolved-type` must not fire for `human.Person` and
/// must fire for a genuinely unknown type.
#[test]
fn cross_file_unresolved_type_resolves() {
    let root = PathBuf::from("/tmp/onto");
    let human_path = root.join("human.dlf");
    let human = "concept Person:\n  has name: string\n";
    let employee_path = root.join("employee.dlf");
    let employee = "prefix human = human\nconcept Employee:\n  sub human.Person\n";

    let mut world = World::new();
    world.workspace_root = Some(root.clone());

    let human_uri = Url::from_file_path(&human_path).unwrap();
    let employee_uri = Url::from_file_path(&employee_path).unwrap();
    world.open(human_uri.clone(), human.to_string());
    world.open(employee_uri.clone(), employee.to_string());

    let employee_diags = unresolved(&world, &employee_uri);
    assert!(
        employee_diags.is_empty(),
        "unexpected unresolved-type diagnostics: {:?}",
        employee_diags
    );

    let broken_path = root.join("broken.dlf");
    let broken = "concept Broken:\n  has x: DoesNotExist\n";
    let broken_uri = Url::from_file_path(&broken_path).unwrap();
    world.open(broken_uri.clone(), broken.to_string());
    let broken_diags = unresolved(&world, &broken_uri);
    assert!(
        !broken_diags.is_empty(),
        "expected unresolved-type for DoesNotExist but got none"
    );
}

#[test]
fn types_of_other_files_resolve() {
    let mut world = World::new();
    world.workspace_root = Some(PathBuf::from("/tmp/onto"));
    let human = url("file:///tmp/onto/human.dlf");
    let employee = url("file:///tmp/onto/employee.dlf");
    world.open(employee.clone(), "prefix human\nconcept Employee:\n  sub human.Person\n".to_string());
    let doc = world.doc(&employee).unwrap();
    assert_eq!(doc.namespace, Some(strings(&["employee"])));
    assert_eq!(doc.analysis.as_ref().unwrap().diagnostics.len(), 1);
    assert!(!unresolved(&world, &employee).is_empty());
    world.open(human.clone(), "concept Person:\n  has name: string\n".to_string());
    assert_eq!(world.doc(&employee).unwrap().analysis.as_ref().unwrap().diagnostics.len(), 0);
    assert!(unresolved(&world, &employee).is_empty());
    assert!(knows(&world, &employee, "Person"));
    assert!(knows(&world, &employee, "human.Person"));
    assert!(knows(&world, &human, "employee.Employee"));
}

#[test]
fn a_new_workspace_is_empty() {
    let world = World::new();
    assert_eq!(world.all_uris().len(), 0);
    assert_eq!(known(&world).len(), 0);
    assert!(world.doc(&url("file:///w/a.dlf")).is_none());
    assert!(world.is_native());
    assert!(!World::on(Host::Web).is_native());
    assert_eq!(World::default().all_uris().len(), 0);
}

#[test]
fn opening_again_replaces_the_text() {
    let mut world = World::new();
    let a = url("file:///w/a.dlf");
    world.open(a.clone(), "concept One\n".to_string());
    world.open(a.clone(), "concept Two\n".to_string());
    assert_eq!(world.all_uris(), vec![a.clone()]);
    assert!(!knows(&world, &a, "One"));
    assert!(knows(&world, &a, "Two"));
    assert!(knows(&world, &a, "a.Two"));
}

#[test]
fn updates_reach_other_documents() {
    let mut world = World::new();
    let a = url("file:///w/a.dlf");
    let b = url("file:///w/b.dlf");
    world.open(a.clone(), "concept A\n".to_string());
    world.open(b.clone(), "concept B:\n  sub A\n".to_string());
    assert_eq!(world.doc(&b).unwrap().analysis.as_ref().unwrap().diagnostics.len(), 0);
    world.update(&a, "concept Renamed\n".to_string());
    assert_eq!(world.doc(&b).unwrap().analysis.as_ref().unwrap().diagnostics.len(), 1);
    assert_eq!(world.doc(&a).unwrap().rope.to_string(), "concept Renamed\n");
    assert_eq!(world.doc(&b).unwrap().rope.to_string(), "concept B:\n  sub A\n");
}

#[test]
fn a_broken_text_takes_its_symbols_out() {
    let mut world = World::new();
    let a = url("file:///w/a.dlf");
    let b = url("file:///w/b.dlf");
    world.open(a.clone(), "concept A\n".to_string());
    world.open(b.clone(), "concept B\n".to_string());
    world.update(&a, "concept concept\n".to_string());
    assert!(!knows(&world, &b, "A"));
    let doc = world.doc(&a).unwrap();
    assert!(doc.parse.ontology.is_none());
    assert!(doc.analysis.is_none());
    assert_eq!(doc.lint.len(), 0);
    assert_eq!(known(&world), strings(&["file:///w/b.dlf"]));
}

#[test]
fn manifests_are_not_analysed() {
    let mut world = World::new();
    let m = url("file:///w/package.dlf");
    world.open(m.clone(), "concept A\n".to_string());
    let doc = world.doc(&m).unwrap();
    assert!(doc.parse.ontology.is_none());
    assert!(doc.package.is_none());
    assert_eq!(doc.parse.diagnostics.len(), 1);
    assert!(doc.analysis.is_none());
    world.update(&m, "package zoo:\n  dolfin_version \"1\"\n  version \"1.0.0\"\n".to_string());
    let doc = world.doc(&m).unwrap();
    assert_eq!(doc.parse.diagnostics.len(), 0);
    assert_eq!(doc.package.as_ref().unwrap().version, "1.0.0");
    assert!(doc.parse.ontology.is_none());
    assert_eq!(known(&world).len(), 0);
    assert!(World::is_package_manifest(&m));
    assert!(!World::is_package_manifest(&url("file:///w/mypackage.dlf")));
    assert!(!World::is_package_manifest(&url("file:///w/package.dlf/x")));
}

#[test]
fn closing_restores_what_is_on_disk() {
    let mut world = World::new();
    world.workspace_root = Some(PathBuf::from("/w"));
    let a = url("file:///w/a.dlf");
    let b = url("file:///w/b.dlf");
    world.open(a.clone(), "concept Edited\n".to_string());
    world.open(b.clone(), "concept B\n".to_string());
    world.close(&a, Some("concept Saved\n".to_string()));
    assert!(world.doc(&a).is_none());
    assert_eq!(world.all_uris(), vec![b.clone()]);
    assert_eq!(known(&world), strings(&["file:///w/a.dlf", "file:///w/b.dlf"]));
    assert!(knows(&world, &b, "Saved"));
    assert!(!knows(&world, &b, "Edited"));
}

#[test]
fn closing_forgets_what_cannot_be_restored() {
    let mut world = World::new();
    world.workspace_root = Some(PathBuf::from("/w"));
    let b = url("file:///w/b.dlf");
    world.open(b.clone(), "concept B\n".to_string());
    let cases = [
        ("file:///w/a.dlf", None),
        ("file:///w/a.dlf", Some("concept concept\n")),
        ("file:///elsewhere/a.dlf", Some("concept A\n")),
        ("file:///w/package.dlf", Some("concept A\n")),
    ];
    for (uri, on_disk) in cases {
        let a = url(uri);
        world.open(a.clone(), "concept A\n".to_string());
        world.close(&a, on_disk.map(|s| s.to_string()));
        assert_eq!(known(&world), strings(&["file:///w/b.dlf"]));
        assert!(!knows(&world, &b, "A"));
    }
}

#[test]
fn closing_on_the_web_keeps_the_last_text() {
    let mut world = World::on(Host::Web);
    let a = url("file:///a.dlf");
    let b = url("file:///b.dlf");
    world.open(a.clone(), "concept A\n".to_string());
    world.open(b.clone(), "concept B\n".to_string());
    assert_eq!(world.doc(&a).unwrap().namespace, Some(strings(&["a"])));
    world.close(&a, None);
    assert_eq!(known(&world), strings(&["file:///a.dlf", "file:///b.dlf"]));
    assert!(knows(&world, &b, "A"));
}

#[test]
fn discovered_files_go_to_the_background() {
    let mut world = World::new();
    let a = url("file:///w/a.dlf");
    world.open(a.clone(), "concept Edited:\n  sub Animal\n".to_string());
    let file = |path: &str, ns: &[&str], source: Option<&str>| DiscoveredFile {
        path: PathBuf::from(path),
        namespace: strings(ns),
        source: source.map(|s| s.to_string()),
    };
    world.scan_workspace(
        PathBuf::from("/w"),
        Some(vec![
            file("/w/a.dlf", &["a"], Some("concept Saved\n")),
            file("/w/zoo.dlf", &["zoo"], Some("concept Animal\n")),
            file("/w/broken.dlf", &["broken"], Some("concept concept\n")),
            file("/w/gone.dlf", &["gone"], None),
            file("relative.dlf", &["relative"], Some("concept R\n")),
        ]),
    );
    assert_eq!(known(&world), strings(&["file:///w/zoo.dlf", "file:///w/a.dlf"]));
    assert!(knows(&world, &a, "Animal"));
    assert!(knows(&world, &a, "zoo.Animal"));
    assert!(!knows(&world, &a, "Saved"));
    assert_eq!(world.doc(&a).unwrap().analysis.as_ref().unwrap().diagnostics.len(), 0);
    assert_eq!(world.workspace_root, Some(PathBuf::from("/w")));
}

#[test]
fn a_failed_search_keeps_the_root() {
    let mut world = World::new();
    world.scan_workspace(PathBuf::from("/w"), None);
    assert_eq!(world.workspace_root, Some(PathBuf::from("/w")));
    assert_eq!(known(&world).len(), 0);
}

#[test]
fn opening_a_background_file_takes_over() {
    let mut world = World::new();
    let a = url("file:///w/a.dlf");
    world.scan_workspace(
        PathBuf::from("/w"),
        Some(vec![DiscoveredFile {
            path: PathBuf::from("/w/a.dlf"),
            namespace: strings(&["a"]),
            source: Some("concept Saved\n".to_string()),
        }]),
    );
    world.open(a.clone(), "concept Edited\n".to_string());
    assert_eq!(known(&world), strings(&["file:///w/a.dlf"]));
    assert!(!knows(&world, &a, "Saved"));
    assert_eq!(world.doc(&a).unwrap().namespace, Some(strings(&["a"])));
}

#[test]
fn provided_files_go_to_the_background() {
    let mut world = World::on(Host::Web);
    let open = url("file:///w/open.dlf");
    world.open(open.clone(), "concept Open:\n  sub Animal\n".to_string());
    world.index_background_files(
        url("file:///w/"),
        vec![
            (open.clone(), "concept Stale\n".to_string()),
            (url("file:///w/zoo.dlf"), "concept Animal\n".to_string()),
            (url("file:///elsewhere/x.dlf"), "concept X\n".to_string()),
            (url("file:///w/broken.dlf"), "concept concept\n".to_string()),
        ],
    );
    assert_eq!(known(&world), strings(&["file:///w/zoo.dlf", "file:///w/open.dlf"]));
    assert!(knows(&world, &open, "Animal"));
    assert!(!knows(&world, &open, "Stale"));
    assert!(!knows(&world, &open, "X"));
    assert_eq!(world.web_root, Some(url("file:///w/")));
    let later = url("file:///w/sub/later.dlf");
    world.open(later.clone(), "concept L\n".to_string());
    assert_eq!(world.doc(&later).unwrap().namespace, Some(strings(&["sub", "later"])));
}

#[test]
fn a_native_host_keeps_its_own_root() {
    let mut world = World::new();
    world.index_background_files(
        url("file:///w/"),
        vec![(url("file:///w/zoo.dlf"), "concept Animal\n".to_string())],
    );
    assert_eq!(known(&world), strings(&["file:///w/zoo.dlf"]));
    assert_eq!(world.web_root, None);
    assert_eq!(world.workspace_root, None);
}

#[test]
fn changes_on_disk_are_followed() {
    let mut world = World::new();
    world.workspace_root = Some(PathBuf::from("/w"));
    let a = url("file:///w/a.dlf");
    let b = url("file:///w/b.dlf");
    world.open(b.clone(), "concept B\n".to_string());
    world.reload_from_disk(&a, Some("concept One\n".to_string()));
    assert!(knows(&world, &b, "One"));
    world.reload_from_disk(&a, Some("concept Two\n".to_string()));
    assert!(!knows(&world, &b, "One"));
    assert!(knows(&world, &b, "Two"));
    world.reload_from_disk(&a, None);
    assert!(knows(&world, &b, "Two"));
    world.remove_disk_file(&a);
    assert!(!knows(&world, &b, "Two"));
    assert_eq!(known(&world), strings(&["file:///w/b.dlf"]));
}

#[test]
fn open_documents_do_not_follow_the_disk() {
    let mut world = World::new();
    world.workspace_root = Some(PathBuf::from("/w"));
    let a = url("file:///w/a.dlf");
    world.open(a.clone(), "concept Edited\n".to_string());
    world.reload_from_disk(&a, Some("concept Saved\n".to_string()));
    assert!(knows(&world, &a, "Edited"));
    assert!(!knows(&world, &a, "Saved"));
    world.remove_disk_file(&a);
    assert!(knows(&world, &a, "Edited"));
    world.reload_from_disk(&url("file:///w/package.dlf"), Some("concept P\n".to_string()));
    assert!(!knows(&world, &a, "P"));
}

#[test]
fn a_file_that_broke_on_disk_keeps_its_symbols() {
    let mut world = World::new();
    world.workspace_root = Some(PathBuf::from("/w"));
    let a = url("file:///w/a.dlf");
    let b = url("file:///w/b.dlf");
    world.open(b.clone(), "concept B\n".to_string());
    world.reload_from_disk(&a, Some("concept A\n".to_string()));
    world.reload_from_disk(&a, Some("concept concept\n".to_string()));
    assert_eq!(known(&world), strings(&["file:///w/b.dlf"]));
    assert!(knows(&world, &b, "A"));
}

#[test]
fn a_name_of_two_files_stays_when_one_goes() {
    let mut world = World::new();
    let a = url("file:///w/a.dlf");
    let b = url("file:///w/b.dlf");
    let c = url("file:///w/c.dlf");
    world.open(a.clone(), "concept Shared\n".to_string());
    world.open(b.clone(), "concept Shared\n".to_string());
    world.open(c.clone(), "concept C:\n  sub Shared\n".to_string());
    world.close(&b, None);
    assert!(knows(&world, &c, "Shared"));
    world.close(&a, None);
    assert!(!knows(&world, &c, "Shared"));
}

#[test]
fn documents_are_handed_to_closures() {
    let mut world = World::new();
    let a = url("file:///w/a.dlf");
    assert_eq!(world.with_doc(&a, |d| d.rope.len_chars()), None);
    world.open(a.clone(), "concept A\n".to_string());
    assert_eq!(world.with_doc(&a, |d| d.rope.len_chars()), Some(10));
}

#[test]
fn searches_span_the_background() {
    let mut world = World::new();
    world.workspace_root = Some(PathBuf::from("/w"));
    let a = url("file:///w/a.dlf");
    let b = url("file:///w/b.dlf");
    world.open(a.clone(), "concept A\n".to_string());
    world.reload_from_disk(&b, Some("concept B:\n  sub A\n".to_string()));
    let target = target_at(world.doc(&a).unwrap(), Position { line: 0, character: 8 });
    assert_eq!(target.as_deref(), Some("A"));
    let found = search(&world.all_file_asts(), "A");
    assert_eq!(found.len(), 1);
    assert_eq!(found[0].uri, b);
}

#[test]
fn keys_are_the_texts_of_urls() {
    assert_eq!(World::uri_key(&url("file:///w/a%20b.dlf")), "file:///w/a%20b.dlf");
}

#[test]
fn only_file_urls_have_a_namespace_on_disk() {
    let mut world = World::new();
    assert_eq!(world.namespace_for_uri(&url("file:///w/a.dlf")), None);
    world.workspace_root = Some(PathBuf::from("/w"));
    assert_eq!(world.namespace_for_uri(&url("file:///w/a.dlf")), Some(strings(&["a"])));
    assert_eq!(world.namespace_for_uri(&url("untitled:///w/a.dlf")), None);
    assert_eq!(world.namespace_for_uri(&url("file:///w2/a.dlf")), None);
    assert_eq!(world.namespace_for_uri(&url("file:///w/a.dlf/b.dlf")), None);
}

#[test]
fn no_known_file_occurs_twice() {
    let mut world = World::on(Host::Web);
    let a = url("file:///w/a.dlf");
    let b = url("file:///w/b.dlf");
    let text = "concept A\n".to_string();
    world.index_background_files(
        url("file:///w/"),
        vec![(a.clone(), text.clone()), (b.clone(), "concept B\n".to_string())],
    );
    world.open(a.clone(), text.clone());
    world.update(&a, "concept C\n".to_string());
    let mut keys = known(&world);
    keys.sort();
    assert_eq!(keys, strings(&[a.as_str(), b.as_str()]));
    world.close(&a, None);
    let mut keys = known(&world);
    keys.sort();
    assert_eq!(keys, strings(&[a.as_str(), b.as_str()]));
}
