use dolfin_lsp_core::completion::partial_word;
use dolfin_lsp_core::references::word_at;
use dolfin_lsp_core::rename::last_segment;
use dolfin_lsp_core::words::{check_word, check_word_start, cut_text, end_of_run, is_ident, start_of_run};

#[test]
fn identifier_characters() {
    for n in 0u8..=255 {
        let c = n as char;
        assert_eq!(is_ident(c), c.is_alphanumeric() || c == '_');
    }
    assert!(is_ident('é'));
    assert!(is_ident('名'));
    assert!(!is_ident('-'));
    assert!(!is_ident('→'));
}

#[test]
fn word_around_an_offset() {
    let text = "has first_name: Name2";
    assert_eq!(word_at(text, 0), "has");
    assert_eq!(word_at(text, 2), "has");
    assert_eq!(word_at(text, 3), "has");
    assert_eq!(word_at(text, 4), "first_name");
    assert_eq!(word_at(text, 9), "first_name");
    assert_eq!(word_at(text, 14), "first_name");
    assert_eq!(word_at(text, 15), "");
    assert_eq!(word_at(text, 16), "Name2");
    assert_eq!(word_at(text, 21), "Name2");
    assert_eq!(word_at("", 0), "");
}

#[test]
fn part_of_a_word_before_an_offset() {
    let text = "sub Per";
    assert_eq!(partial_word(text, 7), "Per");
    assert_eq!(partial_word(text, 5), "P");
    assert_eq!(partial_word(text, 4), "");
    assert_eq!(partial_word(text, 0), "");
}

#[test]
fn runs_of_identifier_bytes() {
    assert_eq!(start_of_run("ab cd", 5), 3);
    assert_eq!(end_of_run("ab cd", 0), 2);
    assert_eq!(end_of_run("ab cd", 2), 2);
}

#[test]
fn every_offset_of_an_ascii_text_has_a_word() {
    let text = "concept A:\n  has b_1: one C\n";
    for at in 0..=text.len() {
        assert!(check_word(text, at));
        assert!(check_word_start(text, at));
    }
}

#[test]
fn runs_that_end_inside_a_character_are_no_words() {
    // The first byte of `é` reads as a letter, the second does not.
    assert!(!check_word("aé", 1));
    assert!(!check_word("é", 0));
    assert!(check_word_start("aé", 1));
    assert!(check_word("a → b", 1));
}

#[test]
fn cutting_whole_characters() {
    assert_eq!(cut_text("é→x", 2, 5), "→");
    assert_eq!(cut_text("é→x", 0, 6), "é→x");
    assert_eq!(cut_text("é→x", 5, 5), "");
}

#[test]
fn last_segment_of_a_dotted_name() {
    assert_eq!(last_segment("human.Person"), "Person");
    assert_eq!(last_segment("a.b.c"), "c");
    assert_eq!(last_segment("Person"), "Person");
    assert_eq!(last_segment("a."), "");
    assert_eq!(last_segment(""), "");
}
