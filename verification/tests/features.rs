use dolfin_lsp_core::codeaction::{self, position_le, ranges_overlap, ActionKind};
use dolfin_lsp_core::codelens;
use dolfin_lsp_core::completion::{self, CompletionItem, ItemKind};
use dolfin_lsp_core::diagnostics::{collect, to_lsp};
use dolfin_lsp_core::goto;
use dolfin_lsp_core::hover;
use dolfin_lsp_core::lexer::{scan, Lexeme};
use dolfin_lsp_core::problem::{Finding, FindingCode, Fix, FixEdit, Severity};
use dolfin_lsp_core::references::{search, target_at};
use dolfin_lsp_core::rename::{declaration_spans_in_file, prepare, rename, rename_in};
use dolfin_lsp_core::semantic::{
    classify_name, encode, full_tokens, legend, push_kw, Context, RawToken, Spot, TokenModifier,
    TokenType, MOD_DECLARATION, TT_CLASS, TT_ENUM_MEMBER, TT_FUNCTION, TT_KEYWORD, TT_MACRO,
    TT_NAMESPACE, TT_TYPE, TT_VARIABLE,
};
use dolfin_lsp_core::symbols::{self, OutlineKind};
use dolfin_lsp_core::types::{Location, Position, Range, SourceSpan};
use dolfin_lsp_core::world::World;
use lsp_types::Url;

const TEXT: &str = "prefix base.core as bc\n\
                    \n\
                    # A person.\n\
                    # @internal\n\
                    #  Lives somewhere. \n\
                    concept Person:\n  has name: one string\n  has friend: Person\n\
                    \n\
                    concept Child:\n  sub Person\n\
                    \n\
                    property knows: one Person -> 2..3 Person\n\
                    \n\
                    rule friends:\n  match:\n    ?a knows ?b\n  then:\n    ?b knows ?a\n\
                    \n\
                    fact bob a Person\n";

fn url(s: &str) -> Url {
    Url::parse(s).unwrap()
}

fn opened(text: &str) -> (World, Url) {
    let uri = url("file:///w/a.dlf");
    let mut world = World::new();
    world.open(uri.clone(), text.to_string());
    (world, uri)
}

fn at(line: u32, character: u32) -> Position {
    Position { line, character }
}

fn range(a: (u32, u32), b: (u32, u32)) -> Range {
    Range { start: at(a.0, a.1), end: at(b.0, b.1) }
}

fn span(line: usize, from: usize, to: usize) -> SourceSpan {
    SourceSpan {
        start: Location { line, column: from, offset: from - 1 },
        end: Location { line, column: to, offset: to - 1 },
    }
}

fn hover_at(text: &str, line: u32, character: u32) -> Option<(String, Option<Range>)> {
    let (world, uri) = opened(text);
    hover::provide(world.doc(&uri).unwrap(), at(line, character)).map(|h| (h.value, h.range))
}

fn labels(items: &[CompletionItem]) -> Vec<&str> {
    items.iter().map(|i| i.label.as_str()).collect()
}

// ── Diagnostics ───────────────────────────────────────────────────────────────

#[test]
fn findings_as_diagnostics() {
    let d = Finding {
        severity: Severity::Warning,
        code: FindingCode::Lint("naming/pascal-case".to_string()),
        message: "rename it".to_string(),
        span: Some(span(3, 9, 12)),
        fix: None,
    };
    let l = to_lsp(&d);
    assert_eq!(l.range, range((2, 8), (2, 11)));
    assert_eq!(l.severity, Severity::Warning);
    assert_eq!(l.code, "L/naming/pascal-case");
    assert_eq!(l.source, "dolfin");
    assert_eq!(l.message, "rename it");
}

#[test]
fn findings_without_a_place_stand_at_the_start() {
    let d = Finding {
        severity: Severity::Error,
        code: FindingCode::Semantic(7),
        message: String::new(),
        span: None,
        fix: None,
    };
    assert_eq!(to_lsp(&d).range, range((0, 0), (0, 0)));
    assert_eq!(to_lsp(&d).code, "S007");
    assert_eq!(FindingCode::Semantic(42).code_str(), "S042");
    assert_eq!(FindingCode::Semantic(123).code_str(), "S123");
    assert_eq!(FindingCode::Parse(200).code_str(), "P200");
    assert_eq!(FindingCode::Parse(5).code_str(), "P5");
}

#[test]
fn a_text_that_cannot_be_parsed_has_one_diagnostic() {
    let (world, uri) = opened("concept concept\n");
    let doc = world.doc(&uri).unwrap();
    assert!(doc.parse.ontology.is_none());
    assert!(doc.analysis.is_none());
    assert_eq!(doc.parse.diagnostics.len(), 1);
    let all = collect(doc);
    assert_eq!(all.len(), 1);
    assert_eq!(all[0].severity, Severity::Error);
    assert!(all[0].code.starts_with('P'));
}

#[test]
fn analysis_comes_before_lint() {
    let (world, uri) = opened("concept A:\n  has x: Missing\n");
    let doc = world.doc(&uri).unwrap();
    let all = collect(doc);
    let n = doc.analysis.as_ref().unwrap().diagnostics.len();
    assert_eq!(n, 1);
    assert_eq!(all.len(), n + doc.lint.len());
    assert_eq!(all[0].code, "S001");
    assert_eq!(all[0].message, "type `Missing` is not declared");
    assert_eq!(all[0].range, range((1, 9), (1, 16)));
    for (d, l) in doc.lint.iter().zip(&all[n..]) {
        assert_eq!(l.code, d.code.code_str());
        assert_eq!(l.message, d.message);
    }
}

// ── Hover ─────────────────────────────────────────────────────────────────────

#[test]
fn hover_on_a_prefix() {
    assert_eq!(
        hover_at(TEXT, 0, 8),
        Some((
            "```dolfin\nprefix base.core as bc\n```\n\nAlias `bc` expands to `base.core`.".to_string(),
            Some(range((0, 7), (0, 22)))
        ))
    );
}

#[test]
fn hover_shows_the_description() {
    assert_eq!(
        hover_at(TEXT, 5, 9),
        Some(("A person.\nLives somewhere.".to_string(), Some(range((5, 0), (7, 20)))))
    );
}

#[test]
fn hover_on_slots_and_types() {
    assert_eq!(
        hover_at(TEXT, 6, 5),
        Some((
            "```dolfin\nhas name: one String\n```\n\nSlot on `Person`.".to_string(),
            Some(range((6, 2), (6, 22)))
        ))
    );
    assert_eq!(
        hover_at(TEXT, 6, 18),
        Some((
            "```dolfin\nString\n```\n\nBuilt-in primitive.".to_string(),
            Some(range((6, 16), (6, 22)))
        ))
    );
    assert_eq!(
        hover_at(TEXT, 10, 7),
        Some((
            "```dolfin\nconcept Person\n```\n\n*concept* `Person`".to_string(),
            Some(range((10, 6), (10, 12)))
        ))
    );
}

#[test]
fn hover_without_description() {
    assert_eq!(
        hover_at(TEXT, 9, 9).unwrap().0,
        "```dolfin\nconcept Child:\n  sub Person\n```\n\nNo properties."
    );
    assert_eq!(
        hover_at("concept A:\n  has x: int\n", 0, 9).unwrap().0,
        "```dolfin\nconcept A:\n  has x: Int\n```\n\n1 property."
    );
    assert_eq!(
        hover_at("concept A:\n  has x: some int\n  has y: any A\n", 0, 9).unwrap().0,
        "```dolfin\nconcept A:\n  has x: some Int\n  has y: any A\n```\n\n2 properties."
    );
    assert_eq!(
        hover_at(TEXT, 12, 10).unwrap().0,
        "```dolfin\nproperty knows: one Person → 2..3 Person\n```\n\nRelation `Person` → `Person`."
    );
    assert_eq!(
        hover_at(TEXT, 14, 6).unwrap().0,
        "```dolfin\nrule friends\n```\n\n1 pattern(s), 1 assertion(s)."
    );
    assert_eq!(hover_at(TEXT, 20, 6).unwrap().0, "```dolfin\nfact bob a Person\n```");
}

#[test]
fn hover_on_unknown_types_and_individuals() {
    let text = "concept Mood:\n  one of:\n    happy\n    sad\n\nconcept A:\n  has m: happy\n  has n: x.Y\n";
    assert_eq!(
        hover_at(text, 6, 10).unwrap().0,
        "```dolfin\nhappy\n```\n\nIndividual of `Mood`."
    );
    assert_eq!(hover_at(text, 7, 10).unwrap().0, "```dolfin\nx.Y\n```\n\n⚠ Unresolved.");
}

#[test]
fn no_hover_between_declarations() {
    assert_eq!(hover_at(TEXT, 3, 2), None);
    assert_eq!(hover_at("concept concept\n", 0, 3), None);
}

// ── Outline ───────────────────────────────────────────────────────────────────

#[test]
fn outline_of_a_file() {
    let (world, uri) = opened(TEXT);
    let all = symbols::provide(world.doc(&uri).unwrap());
    let names: Vec<&str> = all.iter().map(|s| s.name.as_str()).collect();
    assert_eq!(names, vec!["Person", "Child", "knows", "friends"]);
    assert_eq!(all[0].kind, OutlineKind::Class);
    assert_eq!(all[0].detail, None);
    assert_eq!(all[0].range, range((5, 0), (7, 20)));
    assert_eq!(all[0].selection_range, all[0].range);
    let fields = all[0].children.as_ref().unwrap();
    assert_eq!(fields.len(), 2);
    assert_eq!(fields[0].name, "name");
    assert_eq!(fields[0].detail.as_deref(), Some("String"));
    assert_eq!(fields[0].kind, OutlineKind::Field);
    assert_eq!(fields[1].range, range((7, 2), (7, 20)));
    assert_eq!(all[1].detail.as_deref(), Some("sub Person"));
    assert_eq!(all[1].children.as_ref().unwrap().len(), 0);
    assert_eq!(all[2].kind, OutlineKind::Function);
    assert_eq!(all[2].detail.as_deref(), Some("Person → Person"));
    assert_eq!(all[2].children, None);
    assert_eq!(all[3].kind, OutlineKind::Namespace);
    assert_eq!(all[3].detail.as_deref(), Some("1 pattern(s), 1 assertion(s)"));
}

#[test]
fn parents_are_listed_with_commas() {
    let (world, uri) = opened("concept A:\n  sub B, c.D\n");
    let all = symbols::provide(world.doc(&uri).unwrap());
    assert_eq!(all[0].detail.as_deref(), Some("sub B, c.D"));
}

#[test]
fn no_outline_without_a_tree() {
    let (world, uri) = opened("concept concept\n");
    assert_eq!(symbols::provide(world.doc(&uri).unwrap()).len(), 0);
}

// ── Definitions and references ────────────────────────────────────────────────

#[test]
fn definition_in_the_same_file() {
    let (world, uri) = opened(TEXT);
    let place = goto::provide(world.doc(&uri).unwrap(), &uri, at(10, 8)).unwrap();
    assert_eq!(place.uri, uri);
    assert_eq!(place.range, range((5, 0), (7, 20)));
    assert!(goto::provide(world.doc(&uri).unwrap(), &uri, at(8, 0)).is_none());
    assert!(goto::provide(world.doc(&uri).unwrap(), &uri, at(6, 13)).is_none());
}

#[test]
fn definition_in_another_file() {
    let (mut world, uri) = opened("concept Cat:\n  sub Animal\n");
    let other = url("file:///w/b.dlf");
    world.open(other.clone(), "concept Animal\n".to_string());
    let place = goto::provide(world.doc(&uri).unwrap(), &uri, at(1, 7)).unwrap();
    assert_eq!(place.uri, other);
    assert_eq!(place.range, range((0, 0), (0, 14)));
}

#[test]
fn references_in_all_files() {
    let (mut world, uri) = opened("concept Cat:\n  sub Animal\n");
    let other = url("file:///w/b.dlf");
    world.open(other.clone(), "concept Animal\n\nconcept Dog:\n  sub Animal\n".to_string());
    let target = target_at(world.doc(&uri).unwrap(), at(1, 7));
    assert_eq!(target.as_deref(), Some("Animal"));
    let found: Vec<(Url, Range)> =
        search(&world.all_file_asts(), "Animal").into_iter().map(|p| (p.uri, p.range)).collect();
    assert_eq!(found, vec![(uri, range((1, 6), (1, 12))), (other, range((3, 6), (3, 12)))]);
    assert_eq!(search(&world.all_file_asts(), "Nothing").len(), 0);
}

#[test]
fn no_target_on_unknown_words() {
    let (world, uri) = opened(TEXT);
    let doc = world.doc(&uri).unwrap();
    assert_eq!(target_at(doc, at(8, 0)), None);
    assert_eq!(target_at(doc, at(6, 13)), None);
    let (world, uri) = opened("concept concept\n");
    assert_eq!(target_at(world.doc(&uri).unwrap(), at(0, 2)), None);
}

// ── Rename ────────────────────────────────────────────────────────────────────

#[test]
fn range_of_the_word_to_rename() {
    let (world, uri) = opened(TEXT);
    let doc = world.doc(&uri).unwrap();
    assert_eq!(prepare(doc, at(12, 21)), Some(range((12, 20), (12, 26))));
    assert_eq!(prepare(doc, at(14, 5)), Some(range((14, 5), (14, 12))));
    assert_eq!(prepare(doc, at(6, 13)), None);
    assert_eq!(prepare(doc, at(8, 0)), None);
}

#[test]
fn rename_edits_declarations_and_references() {
    let (mut world, uri) = opened("concept Cat:\n  sub Animal\n");
    let other = url("file:///w/b.dlf");
    world.open(other.clone(), "concept Animal\n\nconcept Dog:\n  sub Animal\n".to_string());
    let edit = rename(&world, &uri, at(1, 7), "Beast").unwrap();
    assert_eq!(edit.changes.len(), 2);
    let of = |u: &Url| {
        let file = edit.changes.iter().find(|c| &c.uri == u).unwrap();
        assert!(file.edits.iter().all(|e| e.new_text == "Beast"));
        file.edits.iter().map(|e| e.range).collect::<Vec<Range>>()
    };
    assert_eq!(of(&uri), vec![range((1, 6), (1, 12))]);
    assert_eq!(of(&other), vec![range((0, 8), (0, 14)), range((3, 6), (3, 12))]);
}

#[test]
fn nothing_to_rename() {
    let (world, uri) = opened(TEXT);
    assert!(rename(&world, &uri, at(8, 0), "X").is_none());
    assert!(rename(&world, &url("file:///w/none.dlf"), at(0, 0), "X").is_none());
    assert!(rename_in(&world.all_file_asts(), "Nothing", "X").is_none());
}

#[test]
fn declaration_sites_match_the_simple_name() {
    let (world, uri) = opened(TEXT);
    let file = world.doc(&uri).unwrap().parse.ontology.as_ref().unwrap();
    let sites = |target: &str| {
        let spans = declaration_spans_in_file(&file.tree, &file.places, target);
        spans.iter().map(|s| s.start.line).collect::<Vec<usize>>()
    };
    assert_eq!(sites("Person"), vec![6]);
    assert_eq!(sites("human.Person"), vec![6]);
    assert_eq!(sites("knows"), vec![13]);
    assert_eq!(sites("friends"), vec![15]);
    assert_eq!(sites("bc"), Vec::<usize>::new());
    assert_eq!(sites("core"), Vec::<usize>::new());
    assert_eq!(sites("bob"), Vec::<usize>::new());
}

#[test]
fn rename_of_a_rule() {
    let (mut world, uri) = opened(TEXT);
    let edit = rename(&world, &uri, at(14, 7), "pals").unwrap();
    assert_eq!(edit.changes.len(), 1);
    assert_eq!(edit.changes[0].uri, uri);
    let ranges: Vec<Range> = edit.changes[0].edits.iter().map(|e| e.range).collect();
    assert_eq!(ranges, vec![range((14, 5), (14, 12))]);
    assert_eq!(edit.changes[0].edits[0].new_text, "pals");

    // A background file keeps the places of its rules.
    let other = url("file:///w/b.dlf");
    let rule = "rule\tfriends:\n  match:\n    ?a knows ?b\n  then:\n    ?b knows ?a\n";
    world.index_background_files(url("file:///w/"), vec![(other.clone(), rule.to_string())]);
    let edit = rename(&world, &uri, at(14, 7), "pals").unwrap();
    let file = edit.changes.iter().find(|c| c.uri == other).unwrap();
    assert_eq!(file.edits.len(), 1);
    assert_eq!(file.edits[0].range, range((0, 5), (0, 12)));
}

#[test]
fn rename_of_the_right_rule() {
    let one = |name: &str| {
        format!("rule {}:\n  match:\n    ?a a T\n  then:\n    ?a a U\n", name)
    };
    let text = format!("{}\n{}\n{}", one("first"), one("second"), one("third"));
    let (world, uri) = opened(&text);
    assert!(world.doc(&uri).unwrap().parse.ontology.is_some());
    let edit = rename(&world, &uri, at(6, 6), "X").unwrap();
    let ranges: Vec<Range> = edit.changes[0].edits.iter().map(|e| e.range).collect();
    assert_eq!(ranges, vec![range((6, 5), (6, 11))]);
}

const COLORS: &str = "concept Color:\n  one of:\n    RED\n    BLUE [code 3]\n";

#[test]
fn no_edits_for_variants_and_aliases() {
    // What uses them cannot be found, so they keep their names everywhere.
    let (world, uri) = opened(COLORS);
    assert!(world.doc(&uri).unwrap().parse.ontology.is_some());
    assert!(prepare(world.doc(&uri).unwrap(), at(2, 5)).is_some());
    assert!(rename(&world, &uri, at(2, 5), "GREEN").is_none());
    assert!(rename(&world, &uri, at(3, 5), "GREEN").is_none());
    let (world, uri) = opened(TEXT);
    assert!(prepare(world.doc(&uri).unwrap(), at(0, 21)).is_some());
    assert!(rename(&world, &uri, at(0, 21), "b").is_none());
}

// ── Code lenses ───────────────────────────────────────────────────────────────

#[test]
fn lenses_count_references() {
    let (world, uri) = opened(TEXT);
    let all = codelens::provide(&world.all_file_asts(), &uri, world.doc(&uri).unwrap());
    let titles: Vec<&str> = all.iter().map(|l| l.command.title.as_str()).collect();
    assert_eq!(titles, vec!["4 references", "0 references", "2 references", "0 references"]);
    assert_eq!(all[0].range, range((5, 0), (5, 0)));
    assert_eq!(all[0].command.command, "editor.action.showReferences");
    assert_eq!(all[0].command.uri, "file:///w/a.dlf");
    assert_eq!(all[0].command.position, at(5, 0));
    let places: Vec<Range> = all[0].command.locations.iter().map(|p| p.range).collect();
    assert_eq!(
        places,
        vec![
            range((7, 14), (7, 20)),
            range((10, 6), (10, 12)),
            range((12, 20), (12, 26)),
            range((12, 35), (12, 41)),
        ]
    );
}

#[test]
fn one_reference_is_not_plural() {
    let (world, uri) = opened("concept A\n\nconcept B:\n  sub A\n");
    let all = codelens::provide(&world.all_file_asts(), &uri, world.doc(&uri).unwrap());
    assert_eq!(all[0].command.title, "1 reference");
}

// ── Code actions ──────────────────────────────────────────────────────────────

fn finding(at: Option<SourceSpan>, edits: Vec<FixEdit>) -> Finding {
    Finding {
        severity: Severity::Warning,
        code: FindingCode::Lint("naming/pascal-case".to_string()),
        message: "m".to_string(),
        span: at,
        fix: Some(Fix { description: "Rename to `A`".to_string(), edits }),
    }
}

fn edit(file: &str, s: SourceSpan, text: &str) -> FixEdit {
    FixEdit { file: file.to_string(), span: s, replacement: text.to_string() }
}

#[test]
fn fixes_become_actions() {
    let (mut world, uri) = opened("concept a\n");
    let other = url("file:///w/b.dlf");
    world.open(other, "concept b\n".to_string());
    let doc = world.doc(&uri).unwrap();
    let with_lint = |lint: Vec<Finding>| {
        let (w, u) = opened("");
        let mut d = dolfin_lsp_core::world::Document {
            rope: ropey::Rope::from_str(""),
            parse: dolfin_lsp_core::parsing::ParseResult { ontology: None, diagnostics: vec![] },
            analysis: None,
            lint,
            package: None,
            namespace: None,
            comment_map: rowl::comment::CommentMap::default(),
        };
        d.namespace = w.doc(&u).unwrap().namespace.as_ref().map(|v| v.to_vec());
        d
    };
    let d = with_lint(vec![
        finding(
            Some(span(1, 9, 10)),
            vec![
                edit("", span(1, 9, 10), "A"),
                edit("file:///w/b.dlf", span(2, 3, 4), "B"),
                edit("no url", span(1, 1, 2), "C"),
            ],
        ),
        finding(Some(span(5, 1, 2)), vec![edit("", span(5, 1, 2), "D")]),
        finding(Some(span(1, 9, 10)), vec![]),
        finding(None, vec![edit("", span(1, 1, 2), "E")]),
        Finding {
            severity: Severity::Hint,
            code: FindingCode::Semantic(1),
            message: String::new(),
            span: Some(span(1, 9, 10)),
            fix: None,
        },
    ]);
    let actions = codeaction::provide(&d, &uri, range((0, 9), (0, 9)));
    assert_eq!(actions.len(), 2);
    assert!(actions[1].edit.is_empty());
    assert_eq!(actions[1].diagnostics, vec![to_lsp(&d.lint[2])]);
    assert_eq!(actions[0].title, "Rename to `A`");
    assert_eq!(actions[0].kind, ActionKind::QuickFix);
    assert!(actions[0].is_preferred);
    assert_eq!(actions[0].diagnostics.len(), 1);
    assert_eq!(actions[0].diagnostics[0], to_lsp(&d.lint[0]));
    let changes = &actions[0].edit.changes;
    assert_eq!(changes.len(), 2);
    assert_eq!(changes[0].uri, uri);
    let texts: Vec<&str> = changes[0].edits.iter().map(|e| e.new_text.as_str()).collect();
    assert_eq!(texts, vec!["A", "C"]);
    assert_eq!(changes[1].uri.as_str(), "file:///w/b.dlf");
    assert_eq!(changes[1].edits[0].range, range((1, 2), (1, 3)));
    let all = codeaction::provide(&d, &uri, range((0, 0), (9, 0)));
    assert_eq!(all.len(), 4);
    assert_eq!(codeaction::provide(doc, &uri, range((7, 0), (7, 0))).len(), 0);
}

#[test]
fn lint_fixes_are_offered() {
    let (world, uri) = opened("concept person\n");
    let doc = world.doc(&uri).unwrap();
    let fixable = doc.lint.iter().filter(|d| d.fix.is_some());
    let actions = codeaction::provide(doc, &uri, range((0, 0), (1, 0)));
    assert_eq!(actions.len(), fixable.count());
    assert!(actions.len() > 0);
    assert!(actions.iter().any(|a| {
        a.edit.changes.iter().any(|c| c.edits.iter().any(|e| e.new_text == "Person"))
    }));
}

#[test]
fn overlap_of_ranges() {
    let r = range((1, 2), (3, 4));
    assert!(ranges_overlap(r, range((3, 4), (5, 0))));
    assert!(ranges_overlap(r, range((0, 0), (1, 2))));
    assert!(ranges_overlap(r, range((2, 0), (2, 0))));
    assert!(!ranges_overlap(r, range((3, 5), (5, 0))));
    assert!(!ranges_overlap(r, range((0, 0), (1, 1))));
    assert!(position_le(at(1, 9), at(2, 0)));
    assert!(position_le(at(1, 1), at(1, 1)));
    assert!(!position_le(at(1, 2), at(1, 1)));
}

// ── Completion ────────────────────────────────────────────────────────────────

#[test]
fn completion_of_a_start() {
    let (world, uri) = opened(TEXT);
    let items = completion::provide(world.doc(&uri).unwrap(), at(5, 9));
    assert_eq!(
        items,
        vec![CompletionItem {
            label: "Person".to_string(),
            kind: ItemKind::Class,
            detail: "concept Person".to_string(),
        }]
    );
    let items = completion::provide(world.doc(&uri).unwrap(), at(0, 2));
    assert_eq!(labels(&items), vec!["prefix", "property"]);
    assert_eq!(items[0].kind, ItemKind::Keyword);
    assert_eq!(items[0].detail, "Declare a prefix alias");
}

#[test]
fn completion_of_nothing_lists_all_in_order() {
    let (world, uri) = opened(TEXT);
    let items = completion::provide(world.doc(&uri).unwrap(), at(1, 0));
    let expected = vec![
        "Child", "Person", "a.Child", "a.Person", "a.friends", "a.knows", "all", "any",
        "at_least", "at_most", "bc", "between", "boolean", "concept", "exactly", "float",
        "friends", "has", "int", "knows", "match", "none", "one", "optional", "prefix",
        "property", "rule", "some", "string", "sub", "then",
    ];
    assert_eq!(labels(&items), expected);
    let kind = |label: &str| items.iter().find(|i| i.label == label).unwrap().kind;
    assert_eq!(kind("bc"), ItemKind::Module);
    assert_eq!(kind("knows"), ItemKind::Function);
    assert_eq!(kind("friends"), ItemKind::Interface);
}

#[test]
fn individuals_complete_as_enum_members() {
    let (world, uri) = opened("concept Mood:\n  one of:\n    happy\n");
    let items = completion::provide(world.doc(&uri).unwrap(), at(2, 7));
    assert_eq!(labels(&items), vec!["happy"]);
    assert_eq!(items[0].kind, ItemKind::EnumMember);
}

#[test]
fn keywords_complete_without_a_tree() {
    let (world, uri) = opened("concept concept\nat");
    let items = completion::provide(world.doc(&uri).unwrap(), at(1, 2));
    assert_eq!(labels(&items), vec!["at_least", "at_most"]);
}

// ── Semantic tokens ───────────────────────────────────────────────────────────

#[test]
fn numbers_of_the_legend() {
    let l = legend();
    assert_eq!(l.token_types.len(), 9);
    assert_eq!(l.token_types[TT_NAMESPACE as usize], TokenType::Namespace);
    assert_eq!(l.token_types[TT_TYPE as usize], TokenType::Type);
    assert_eq!(l.token_types[TT_CLASS as usize], TokenType::Class);
    assert_eq!(l.token_types[3], TokenType::Enum);
    assert_eq!(l.token_types[TT_ENUM_MEMBER as usize], TokenType::EnumMember);
    assert_eq!(l.token_types[TT_FUNCTION as usize], TokenType::Function);
    assert_eq!(l.token_types[TT_MACRO as usize], TokenType::Macro);
    assert_eq!(l.token_types[TT_VARIABLE as usize], TokenType::Variable);
    assert_eq!(l.token_types[TT_KEYWORD as usize], TokenType::Keyword);
    assert_eq!(l.token_modifiers, vec![TokenModifier::Declaration]);
}

#[test]
fn tokens_of_a_file() {
    let (world, uri) = opened(TEXT);
    let data = full_tokens(world.doc(&uri).unwrap()).unwrap().data;
    let first: Vec<(u32, u32, u32, u32, u32)> = data
        .iter()
        .take(10)
        .map(|t| (t.delta_line, t.delta_start, t.length, t.token_type, t.token_modifiers_bitset))
        .collect();
    assert_eq!(
        first,
        vec![
            (0, 0, 6, TT_KEYWORD, 0),
            (0, 7, 4, TT_NAMESPACE, MOD_DECLARATION),
            (0, 10, 2, TT_KEYWORD, 0),
            (0, 3, 2, TT_NAMESPACE, MOD_DECLARATION),
            (5, 0, 7, TT_KEYWORD, 0),
            (0, 8, 6, TT_CLASS, MOD_DECLARATION),
            (1, 2, 3, TT_KEYWORD, 0),
            (0, 4, 4, TT_FUNCTION, 0),
            (0, 6, 3, TT_KEYWORD, 0),
            (0, 4, 6, TT_TYPE, 0),
        ]
    );
    assert_eq!(data.len(), 35);
}

#[test]
fn every_keyword_is_highlighted() {
    for kw in [
        "concept", "property", "rule", "prefix", "has", "package", "as", "sub", "match", "then",
        "a", "all", "none", "at_least", "at_most", "exactly", "@iri_name", "one", "any", "some",
        "optional", "key", "one of", "fact", "is", "of",
    ] {
        let (world, uri) = opened(kw);
        let data = full_tokens(world.doc(&uri).unwrap()).unwrap().data;
        assert_eq!(data.len(), 1);
        assert_eq!(data[0].token_type, TT_KEYWORD);
        assert_eq!(data[0].length as usize, kw.len());
    }
    for ty in ["string", "int", "float", "boolean"] {
        let (world, uri) = opened(ty);
        let data = full_tokens(world.doc(&uri).unwrap()).unwrap().data;
        assert_eq!((data.len(), data[0].token_type), (1, TT_TYPE));
    }
    for other in ["unknown", "42", "true", ".", ","] {
        let (world, uri) = opened(other);
        assert_eq!(full_tokens(world.doc(&uri).unwrap()).unwrap().data.len(), 0);
    }
}

#[test]
fn names_by_what_stands_before_them() {
    let lone = |ctx: Context| classify_name("x", ctx, Spot::Elsewhere, None);
    assert_eq!(lone(Context::AfterConcept), (Some(TT_CLASS), MOD_DECLARATION));
    assert_eq!(lone(Context::AfterProperty), (Some(TT_FUNCTION), MOD_DECLARATION));
    assert_eq!(lone(Context::AfterRule), (Some(TT_MACRO), MOD_DECLARATION));
    assert_eq!(lone(Context::AfterPrefix), (Some(TT_NAMESPACE), MOD_DECLARATION));
    assert_eq!(lone(Context::AfterAs), (Some(TT_NAMESPACE), MOD_DECLARATION));
    assert_eq!(lone(Context::AfterHas), (Some(TT_FUNCTION), 0));
    assert_eq!(lone(Context::Plain), (None, 0));
    let (world, uri) = opened(TEXT);
    let index = &world.doc(&uri).unwrap().analysis.as_ref().unwrap().index;
    let known = |name: &str, spot: Spot| classify_name(name, Context::Plain, spot, Some(index));
    assert_eq!(known("Person", Spot::Elsewhere), (Some(TT_CLASS), 0));
    assert_eq!(known("Person", Spot::Type), (Some(TT_TYPE), 0));
    assert_eq!(known("knows", Spot::Type), (Some(TT_FUNCTION), 0));
    assert_eq!(known("friends", Spot::Elsewhere), (Some(TT_MACRO), 0));
    assert_eq!(known("bob", Spot::Elsewhere), (None, 0));
    assert_eq!(known("x", Spot::Variant), (Some(TT_ENUM_MEMBER), MOD_DECLARATION));
    assert_eq!(known("x", Spot::Alias), (Some(TT_NAMESPACE), MOD_DECLARATION));
}

/// The absolute line and column, type and modifiers of each token.
fn tokens(text: &str) -> Vec<(u32, u32, u32, u32)> {
    let (world, uri) = opened(text);
    let (mut line, mut col) = (0, 0);
    let mut out = Vec::new();
    for t in full_tokens(world.doc(&uri).unwrap()).unwrap().data {
        col = if t.delta_line == 0 { col + t.delta_start } else { t.delta_start };
        line += t.delta_line;
        out.push((line, col, t.token_type, t.token_modifiers_bitset));
    }
    out
}

#[test]
fn concepts_where_a_type_stands() {
    let (world, uri) = opened("concept Person:\n  has friend: Person\n");
    let data = full_tokens(world.doc(&uri).unwrap()).unwrap().data;
    let last = data.last().unwrap();
    assert_eq!((last.delta_line, last.delta_start, last.length), (0, 8, 6));
    assert_eq!((last.token_type, last.token_modifiers_bitset), (TT_TYPE, 0));

    let t = tokens("concept A\n\nconcept B:\n  sub A\n\nproperty p: A -> some B\n");
    assert!(t.contains(&(0, 8, TT_CLASS, MOD_DECLARATION)));
    assert!(t.contains(&(3, 6, TT_TYPE, 0)));
    assert!(t.contains(&(5, 12, TT_TYPE, 0)));
    assert!(t.contains(&(5, 22, TT_TYPE, 0)));
}

#[test]
fn concepts_behind_a() {
    let t = tokens(
        "concept T\n\nconcept U\n\nrule R:\n  match:\n    ?x a T\n    ?x p U\n  then:\n    ?x a n.U\n\nfact f a T, U\n",
    );
    assert!(t.contains(&(6, 9, TT_TYPE, 0)));
    assert!(t.contains(&(7, 9, TT_CLASS, 0)));
    assert!(t.contains(&(9, 11, TT_TYPE, 0)));
    assert!(t.contains(&(11, 9, TT_TYPE, 0)));
    assert!(t.contains(&(11, 12, TT_TYPE, 0)));
}

#[test]
fn variants_and_aliases_are_definitions() {
    let t = tokens(COLORS);
    assert!(t.contains(&(2, 4, TT_ENUM_MEMBER, MOD_DECLARATION)));
    assert!(t.contains(&(3, 4, TT_ENUM_MEMBER, MOD_DECLARATION)));
    let t = tokens("prefix x.b.Thing\n\nconcept C:\n  has key x: int\n");
    assert!(t.contains(&(0, 11, TT_NAMESPACE, MOD_DECLARATION)));
    assert!(t.contains(&(3, 10, TT_FUNCTION, 0)));
}

#[test]
fn tokens_relative_to_each_other() {
    let mut raw: Vec<RawToken> = Vec::new();
    push_kw(&mut raw, 2, 5, 3);
    push_kw(&mut raw, 2, 9, 1);
    push_kw(&mut raw, 4, 1, 2);
    assert_eq!(raw[0].token_type, TT_KEYWORD);
    let d = encode(&raw);
    let deltas: Vec<(u32, u32)> = d.iter().map(|t| (t.delta_line, t.delta_start)).collect();
    assert_eq!(deltas, vec![(2, 5), (0, 4), (2, 1)]);
    // Adding the differences up gives the places again.
    let (mut line, mut col) = (0, 0);
    for (t, r) in d.iter().zip(&raw) {
        col = if t.delta_line == 0 { col + t.delta_start } else { t.delta_start };
        line += t.delta_line;
        assert_eq!((line, col), (r.line, r.col));
    }
}

#[test]
fn scanning_tells_names_and_errors() {
    let items = scan("concept Cat\n");
    assert_eq!(items[0].as_ref().unwrap().lexeme, Lexeme::Concept);
    let name = items[1].as_ref().unwrap();
    assert_eq!(name.lexeme, Lexeme::Name("Cat".to_string()));
    assert_eq!(name.start, Location { line: 1, column: 9, offset: 8 });
    assert_eq!(name.end, Location { line: 1, column: 12, offset: 11 });
    assert!(scan("\u{7}").iter().any(|i| i.is_none()));
}
