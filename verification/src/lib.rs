//! Transport-agnostic language-server logic for the Dolfin ontology language.
//!
//! [`world`] keeps the open documents, the files in the background and one symbol index over
//! all of them; [`workspace`] is its model. The language features work on a document:
//! [`hover`], [`completion`], [`semantic`], [`goto`], [`references`], [`rename`],
//! [`symbols`], [`codeaction`], [`codelens`] and [`diagnostics`]. [`dispatch`] routes
//! requests and notifications to them.
//!
//! Lexer, parser, semantic analysis and lint rules are those of the Dolfin toolchain. What
//! they return stands under names that the contracts speak of ([`lexer`], [`parsing`],
//! [`ast`], [`index`], [`checks`], [`problem`]), and so do text buffers ([`rope`]), URLs
//! ([`uri`]) and paths ([`paths`]). [`layout`] tells the texts that the lexer can follow; only
//! those are taken in.
//!
//! [`laws`] states what comes out of all this in terms of the files, texts and tokens that go in.

pub mod ast;
pub mod checks;
pub mod codeaction;
pub mod codelens;
pub mod comments;
pub mod completion;
pub mod diagnostics;
pub mod dispatch;
pub mod document;
pub mod edits;
pub mod goto;
pub mod hover;
pub mod index;
pub mod keyed;
pub mod laws;
pub mod layout;
pub mod lexer;
pub mod lists;
pub mod namespace;
pub mod parsing;
pub mod paths;
pub mod places;
pub mod problem;
pub mod protocol;
pub mod references;
pub mod rename;
pub mod rope;
pub mod semantic;
pub mod sorting;
pub mod symbols;
pub mod syntax;
pub mod text;
pub mod types;
pub mod uri;
pub mod words;
pub mod workspace;
pub mod world;
