use dolfin_lsp_core::namespace::{
    derive_namespace, namespace_below, namespace_from_uri_path, namespace_of_url_path,
    namespace_relative_to_root,
};
use dolfin_lsp_core::paths::PathPart;
use lsp_types::Url;
use std::path::PathBuf;

fn name(s: &str) -> PathPart {
    PathPart::Name(s.to_string())
}

fn ns(v: &[&str]) -> Option<Vec<String>> {
    Some(v.iter().map(|s| s.to_string()).collect())
}

fn url(s: &str) -> Url {
    Url::parse(s).unwrap()
}

#[test]
fn parts_become_lower_case_without_ending() {
    assert_eq!(derive_namespace(&vec![name("Zoo"), name("Cats_2.dlf")]), ns(&["zoo", "cats_2"]));
    assert_eq!(derive_namespace(&vec![PathPart::Other, name("a.dlf")]), ns(&["a"]));
}

#[test]
fn invalid_parts_give_no_namespace() {
    assert_eq!(derive_namespace(&vec![name("my-dir"), name("a.dlf")]), None);
    assert_eq!(derive_namespace(&vec![name("a.txt")]), None);
    assert_eq!(derive_namespace(&vec![name(".dlf")]), None);
    assert_eq!(derive_namespace(&vec![name("é.dlf")]), None);
    assert_eq!(derive_namespace(&vec![PathPart::Unreadable]), None);
    assert_eq!(derive_namespace(&vec![]), None);
    assert_eq!(derive_namespace(&vec![PathPart::Other]), None);
}

#[test]
fn only_the_last_name_loses_its_ending() {
    assert_eq!(derive_namespace(&vec![name("a.dlf"), name("b.dlf")]), None);
    assert_eq!(derive_namespace(&vec![name("x.dlf"), name("y")]), None);
    assert_eq!(derive_namespace(&vec![name("x"), name("y.dlf.dlf")]), None);
    assert_eq!(derive_namespace(&vec![name("x"), name("y.dlf"), PathPart::Other]), ns(&["x", "y"]));
}

#[test]
fn namespace_below_a_directory() {
    let root = PathBuf::from("/work/onto");
    let path = |s: &str| Some(PathBuf::from(s));
    assert_eq!(namespace_below(&path("/work/onto/Animals/dog.dlf"), &root), ns(&["animals", "dog"]));
    assert_eq!(namespace_below(&path("/work/onto"), &root), None);
    assert_eq!(namespace_below(&path("/work/ontology/dog.dlf"), &root), None);
    assert_eq!(namespace_below(&path("/work/onto/a b/dog.dlf"), &root), None);
    assert_eq!(namespace_below(&path("/work/onto/../dog.dlf"), &root), ns(&["dog"]));
    assert_eq!(namespace_below(&None, &root), None);
}

#[test]
fn namespace_below_a_url() {
    let root = url("file:///work/onto/");
    assert_eq!(
        namespace_relative_to_root(&root, &url("file:///work/onto/Animals/dog.dlf")),
        ns(&["animals", "dog"])
    );
    assert_eq!(namespace_relative_to_root(&root, &url("file:///other/dog.dlf")), None);
    assert_eq!(namespace_relative_to_root(&root, &url("file:///work/onto/")), None);
    assert_eq!(
        namespace_relative_to_root(&url("file:///"), &url("file:///a/b.dlf")),
        ns(&["a", "b"])
    );
}

#[test]
fn invalid_pieces_of_a_url_are_left_out() {
    assert_eq!(namespace_of_url_path("my-dir/Dog.dlf"), ns(&["dog"]));
    assert_eq!(namespace_of_url_path("a//b"), ns(&["a", "b"]));
    assert_eq!(namespace_of_url_path("%20"), None);
    assert_eq!(namespace_of_url_path(""), None);
    // The Kelvin sign has an ASCII letter as its lower case.
    assert_eq!(namespace_of_url_path("\u{212A}ey"), ns(&["key"]));
}

#[test]
fn namespace_of_a_url_alone() {
    assert_eq!(namespace_from_uri_path(&url("file:///play/Main.dlf")), ns(&["play", "main"]));
    assert_eq!(namespace_from_uri_path(&url("file:///")), None);
}
