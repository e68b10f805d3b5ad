use dolfin_lsp_core::comments::description_from_leading;
use dolfin_lsp_core::edits::{Edit, WorkspaceEdit};
use dolfin_lsp_core::semantic::RawToken;
use dolfin_lsp_core::sorting::sort;
use dolfin_lsp_core::syntax::{full_name, last_name, prefix_text, Multiplicity, Primitive, TypeName};
use dolfin_lsp_core::types::{Position, Range};
use dolfin_lsp_core::text::{decimal, ends_with, is_before, join, same, slice_text, split, starts_with};
use lsp_types::Url;

fn strings(v: &[&str]) -> Vec<String> {
    v.iter().map(|s| s.to_string()).collect()
}

#[test]
fn decimals() {
    assert_eq!(decimal(0), "0");
    assert_eq!(decimal(7), "7");
    assert_eq!(decimal(10), "10");
    assert_eq!(decimal(20306), "20306");
    assert_eq!(decimal(usize::MAX), format!("{}", usize::MAX));
}

#[test]
fn joining_and_splitting() {
    assert_eq!(join(&strings(&[]), ", "), "");
    assert_eq!(join(&strings(&["a"]), ", "), "a");
    assert_eq!(join(&strings(&["a", "", "b"]), ", "), "a, , b");
    assert_eq!(split("a/b//c", '/'), strings(&["a", "b", "", "c"]));
    assert_eq!(split("", '/'), strings(&[""]));
    assert_eq!(split("/", '/'), strings(&["", ""]));
}

#[test]
fn comparing_texts() {
    assert!(same("é", "é"));
    assert!(!same("a", "b"));
    assert!(!same("a", "ab"));
    assert!(starts_with("concept", "con"));
    assert!(starts_with("concept", ""));
    assert!(!starts_with("con", "concept"));
    assert!(!starts_with("concept", "cons"));
    assert!(ends_with("a.dlf", ".dlf"));
    assert!(!ends_with("dlf", ".dlf"));
    assert!(!ends_with("a.dlg", ".dlf"));
}

#[test]
fn texts_are_ordered_by_bytes() {
    for (a, b) in [("", "a"), ("A", "a"), ("a", "ab"), ("at_most", "b"), ("z", "é"), ("é", "名")] {
        assert!(is_before(a, b));
        assert!(!is_before(b, a));
        assert!(a < b);
    }
    assert!(!is_before("a", "a"));
}

#[test]
fn slices_of_characters() {
    let v: Vec<char> = "héllo".chars().collect();
    assert_eq!(slice_text(&v, 1, 3), "él");
    assert_eq!(slice_text(&v, 2, 2), "");
}

#[test]
fn shown_types_and_multiplicities() {
    assert_eq!(TypeName::Builtin { kind: Primitive::Text, span: None }.text(), "String");
    assert_eq!(TypeName::Builtin { kind: Primitive::Boolean, span: None }.text(), "Boolean");
    let named = TypeName::Named { parts: strings(&["human", "Person"]), span: None };
    assert_eq!(named.text(), "human.Person");
    assert_eq!(full_name(&strings(&["a", "b"])), "a.b");
    assert_eq!(last_name(&strings(&["a", "b"])), "b");
    assert_eq!(last_name(&strings(&[])), "");
    assert_eq!(Multiplicity::AtLeastOne.text(), "some");
    assert_eq!(Multiplicity::Exact(3).text(), "3");
    assert_eq!(Multiplicity::Between(1, Some(12)).text(), "1..12");
    assert_eq!(Multiplicity::Between(2, None).text(), "2..*");
    assert_eq!(prefix_text(&Some(Multiplicity::AtMostOne)), "optional ");
    assert_eq!(prefix_text(&None), "");
}

#[test]
fn descriptions_in_comments() {
    let comments = strings(&[" A person.\n @note\n", "\tLives\u{A0}here. \r\n\n  Somewhere."]);
    assert_eq!(
        description_from_leading(&comments),
        Some("A person.\nLives\u{A0}here.\nSomewhere.".to_string())
    );
    assert_eq!(description_from_leading(&strings(&[" @only", "  "])), None);
    assert_eq!(description_from_leading(&strings(&[])), None);
    assert_eq!(description_from_leading(&strings(&["\u{3000}wide\u{2003}"])), Some("wide".to_string()));
}

#[test]
fn sorting_is_stable() {
    let token = |line: u32, col: u32, len: u32| RawToken { line, col, len, token_type: 8, modifiers: 0 };
    let v = vec![token(2, 0, 1), token(0, 5, 2), token(2, 0, 3), token(0, 1, 4), token(0, 5, 5)];
    let sorted: Vec<u32> = sort(v).iter().map(|t| t.len).collect();
    assert_eq!(sorted, vec![4, 2, 5, 1, 3]);
}

#[test]
fn edits_are_grouped_by_file() {
    let at = |line: u32| Range {
        start: Position { line, character: 0 },
        end: Position { line, character: 1 },
    };
    let a = Url::parse("file:///w/a.dlf").unwrap();
    let b = Url::parse("file:///w/b.dlf").unwrap();
    let mut e = WorkspaceEdit::new();
    assert!(e.is_empty());
    e.add(&a, Edit { range: at(1), new_text: "x".to_string() });
    e.add(&b, Edit { range: at(2), new_text: "y".to_string() });
    e.add(&a, Edit { range: at(3), new_text: "z".to_string() });
    assert!(!e.is_empty());
    assert_eq!(e.changes.len(), 2);
    assert_eq!(e.changes[0].uri, a);
    let lines: Vec<u32> = e.changes[0].edits.iter().map(|x| x.range.start.line).collect();
    assert_eq!(lines, vec![1, 3]);
    assert_eq!(e.changes[1].edits[0].new_text, "y");
}

#[test]
fn blanks_at_both_ends_do_not_count() {
    let blanks = [
        '\u{9}', '\u{B}', '\u{C}', '\u{D}', ' ', '\u{85}', '\u{A0}', '\u{1680}', '\u{2000}',
        '\u{200A}', '\u{2028}', '\u{2029}', '\u{202F}', '\u{205F}', '\u{3000}',
    ];
    for c in blanks {
        let line = format!("{}a{}b{}", c, c, c);
        let text = description_from_leading(&vec![line]).unwrap();
        assert_eq!(text, format!("a{}b", c), "{:?}", c);
    }
    for c in ['\u{8}', '\u{E}', '\u{1F}', '\u{200B}', '\u{180E}', '\u{FEFF}'] {
        let line = format!("{}a", c);
        assert_eq!(description_from_leading(&vec![line.clone()]), Some(line), "{:?}", c);
    }
    let all: Vec<char> = ('\0'..='\u{10FFFF}').filter(|c| c.is_whitespace()).collect();
    let listed = |c: &char| blanks.contains(c) || ('\u{9}'..='\u{D}').contains(c)
        || ('\u{2000}'..='\u{200A}').contains(c);
    assert_eq!(all.len(), 25);
    assert!(all.iter().all(listed));
}
