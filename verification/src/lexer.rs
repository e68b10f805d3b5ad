//! Tokens of a source text: `rowl::lexer`.

use crate::layout::laid_out;
use crate::types::Location;
use vstd::prelude::*;

verus! {

// ── Plain tokens ──────────────────────────────────────────────────────────────

/// What a token is, as far as highlighting tells tokens apart.
#[derive(PartialEq, Eq, Debug)]
pub enum Lexeme {
    Concept,
    Property,
    Rule,
    Prefix,
    Has,
    Package,
    As,
    IriName,
    Sub,
    Key,
    OneOf,
    Fact,
    Match,
    Then,
    Is,
    Inverse,
    All,
    NoneOf,
    Of,
    AtLeast,
    AtMost,
    Exactly,
    Between,
    One,
    Any,
    SomeOf,
    Optional,
    StringType,
    IntType,
    FloatType,
    BooleanType,
    Name(String),
    Variable,
    Dot,
    Comma,
    /// Literals, layout and the remaining punctuation.
    Other,
}

/// Contents of a [`Lexeme`].
pub enum LexemeView {
    Concept,
    Property,
    Rule,
    Prefix,
    Has,
    Package,
    As,
    IriName,
    Sub,
    Key,
    OneOf,
    Fact,
    Match,
    Then,
    Is,
    Inverse,
    All,
    NoneOf,
    Of,
    AtLeast,
    AtMost,
    Exactly,
    Between,
    One,
    Any,
    SomeOf,
    Optional,
    StringType,
    IntType,
    FloatType,
    BooleanType,
    Name(Seq<char>),
    Variable,
    Dot,
    Comma,
    Other,
}

impl View for Lexeme {
    type V = LexemeView;

    open spec fn view(&self) -> LexemeView {
        match *self {
            Lexeme::Concept => LexemeView::Concept,
            Lexeme::Property => LexemeView::Property,
            Lexeme::Rule => LexemeView::Rule,
            Lexeme::Prefix => LexemeView::Prefix,
            Lexeme::Has => LexemeView::Has,
            Lexeme::Package => LexemeView::Package,
            Lexeme::As => LexemeView::As,
            Lexeme::IriName => LexemeView::IriName,
            Lexeme::Sub => LexemeView::Sub,
            Lexeme::Match => LexemeView::Match,
            Lexeme::Then => LexemeView::Then,
            Lexeme::Is => LexemeView::Is,
            Lexeme::All => LexemeView::All,
            Lexeme::NoneOf => LexemeView::NoneOf,
            Lexeme::AtLeast => LexemeView::AtLeast,
            Lexeme::AtMost => LexemeView::AtMost,
            Lexeme::Exactly => LexemeView::Exactly,
            Lexeme::Between => LexemeView::Between,
            Lexeme::One => LexemeView::One,
            Lexeme::Any => LexemeView::Any,
            Lexeme::SomeOf => LexemeView::SomeOf,
            Lexeme::Optional => LexemeView::Optional,
            Lexeme::StringType => LexemeView::StringType,
            Lexeme::IntType => LexemeView::IntType,
            Lexeme::FloatType => LexemeView::FloatType,
            Lexeme::BooleanType => LexemeView::BooleanType,
            Lexeme::Name(n) => LexemeView::Name(n@),
            Lexeme::Variable => LexemeView::Variable,
            Lexeme::Key => LexemeView::Key,
            Lexeme::OneOf => LexemeView::OneOf,
            Lexeme::Fact => LexemeView::Fact,
            Lexeme::Inverse => LexemeView::Inverse,
            Lexeme::Of => LexemeView::Of,
            Lexeme::Dot => LexemeView::Dot,
            Lexeme::Comma => LexemeView::Comma,
            Lexeme::Other => LexemeView::Other,
        }
    }
}

/// A token and where it stands.
#[derive(PartialEq, Eq, Debug)]
pub struct Scanned {
    pub start: Location,
    pub lexeme: Lexeme,
    pub end: Location,
}

/// Contents of a [`Scanned`] token.
pub struct ScannedView {
    pub start: Location,
    pub lexeme: LexemeView,
    pub end: Location,
}

impl View for Scanned {
    type V = ScannedView;

    open spec fn view(&self) -> ScannedView {
        ScannedView { start: self.start, lexeme: self.lexeme@, end: self.end }
    }
}

/// Contents of a list of tokens, with `None` where the text could not be read.
pub open spec fn scanned_views(v: Seq<Option<Scanned>>) -> Seq<Option<ScannedView>> {
    Seq::new(
        v.len(),
        |i: int|
            match v[i] {
                Some(s) => Some(s@),
                None => None,
            },
    )
}

// ── Reading `rowl` tokens ─────────────────────────────────────────────────────

/// `rowl::lexer::Token`, opaque.
#[verifier::external_type_specification]
#[verifier::external_body]
pub struct ExToken(rowl::lexer::Token);

/// The lexeme of a `rowl` token.
pub uninterp spec fn lexeme_of(token: rowl::lexer::Token) -> LexemeView;

/// The items that `rowl`'s lexer gives for a text: tokens, and `None` for each error.
pub uninterp spec fn lexed(text: Seq<char>) -> Seq<Option<ScannedView>>;

/// A `rowl` token and where it stands.
pub struct LexedToken {
    pub start: Location,
    pub token: rowl::lexer::Token,
    pub end: Location,
}

/// Contents of a list of lexer items.
pub open spec fn lexed_views(v: Seq<Option<LexedToken>>) -> Seq<Option<ScannedView>> {
    Seq::new(
        v.len(),
        |i: int|
            match v[i] {
                Some(t) => Some(
                    ScannedView { start: t.start, lexeme: lexeme_of(t.token), end: t.end },
                ),
                None => None,
            },
    )
}

/// Declaration words, built-in types, names and variables.
pub open spec fn leading_lexeme(l: LexemeView) -> bool {
    ||| l is Concept || l is Property || l is Rule || l is Prefix || l is Has
    ||| l is StringType || l is IntType || l is FloatType || l is BooleanType
    ||| l is Name || l is Variable
}

/// Words inside declarations and rules.
pub open spec fn inner_lexeme(l: LexemeView) -> bool {
    ||| l is Package || l is As || l is IriName || l is Sub || l is Key
    ||| l is Match || l is Then || l is Is || l is All || l is NoneOf
}

/// Words that tell how many.
pub open spec fn counting_lexeme(l: LexemeView) -> bool {
    ||| l is AtLeast || l is AtMost || l is Exactly || l is Between
    ||| l is One || l is Any || l is SomeOf || l is Optional
}

/// Words of enumerations and facts, dots and commas.
pub open spec fn joining_lexeme(l: LexemeView) -> bool {
    l is OneOf || l is Fact || l is Inverse || l is Of || l is Dot || l is Comma
}

/// `rowl::lexer::Lexer` reads a text to its end. Each item is a token with its start and
/// end, or an error. It panics on a layout that it cannot follow.
#[verifier::external_body]
pub(crate) fn run_lexer(text: &str) -> (r: Vec<Option<LexedToken>>)
    requires
        laid_out(text@),
    ensures
        lexed_views(r@) == lexed(text@),
{
    rowl::lexer::Lexer::new(text).map(|item| item.ok().map(|(s, token, e)| LexedToken {
        start: Location { line: s.line, column: s.column, offset: s.offset },
        token,
        end: Location { line: e.line, column: e.column, offset: e.offset },
    })).collect()
}

/// Tells `rowl::lexer::Token`'s declaration words, built-in types, names and variables.
#[verifier::external_body]
pub(crate) fn leading_token(t: &rowl::lexer::Token) -> (r: Option<Lexeme>)
    ensures
        match r {
            Some(l) => lexeme_of(*t) == l@ && leading_lexeme(l@),
            None => !leading_lexeme(lexeme_of(*t)),
        },
{
    match t {
        rowl::lexer::Token::Concept => Some(Lexeme::Concept),
        rowl::lexer::Token::Property => Some(Lexeme::Property),
        rowl::lexer::Token::Rule => Some(Lexeme::Rule),
        rowl::lexer::Token::Prefix => Some(Lexeme::Prefix),
        rowl::lexer::Token::Has => Some(Lexeme::Has),
        rowl::lexer::Token::TString => Some(Lexeme::StringType),
        rowl::lexer::Token::TInt => Some(Lexeme::IntType),
        rowl::lexer::Token::TFloat => Some(Lexeme::FloatType),
        rowl::lexer::Token::TBoolean => Some(Lexeme::BooleanType),
        rowl::lexer::Token::Name(n) => Some(Lexeme::Name(n.clone())),
        rowl::lexer::Token::Variable(_) => Some(Lexeme::Variable),
        _ => None,
    }
}

/// Tells `rowl::lexer::Token`'s words inside declarations and rules.
#[verifier::external_body]
pub(crate) fn inner_token(t: &rowl::lexer::Token) -> (r: Option<Lexeme>)
    ensures
        match r {
            Some(l) => lexeme_of(*t) == l@ && inner_lexeme(l@),
            None => !inner_lexeme(lexeme_of(*t)),
        },
{
    match t {
        rowl::lexer::Token::Package => Some(Lexeme::Package),
        rowl::lexer::Token::As => Some(Lexeme::As),
        rowl::lexer::Token::IriName => Some(Lexeme::IriName),
        rowl::lexer::Token::Sub => Some(Lexeme::Sub),
        rowl::lexer::Token::Key => Some(Lexeme::Key),
        rowl::lexer::Token::Match => Some(Lexeme::Match),
        rowl::lexer::Token::Then => Some(Lexeme::Then),
        rowl::lexer::Token::Is => Some(Lexeme::Is),
        rowl::lexer::Token::All => Some(Lexeme::All),
        rowl::lexer::Token::None => Some(Lexeme::NoneOf),
        _ => None,
    }
}

/// Tells `rowl::lexer::Token`'s words of number.
#[verifier::external_body]
pub(crate) fn counting_token(t: &rowl::lexer::Token) -> (r: Option<Lexeme>)
    ensures
        match r {
            Some(l) => lexeme_of(*t) == l@ && counting_lexeme(l@),
            None => !counting_lexeme(lexeme_of(*t)),
        },
{
    match t {
        rowl::lexer::Token::AtLeast => Some(Lexeme::AtLeast),
        rowl::lexer::Token::AtMost => Some(Lexeme::AtMost),
        rowl::lexer::Token::Exactly => Some(Lexeme::Exactly),
        rowl::lexer::Token::Between => Some(Lexeme::Between),
        rowl::lexer::Token::One => Some(Lexeme::One),
        rowl::lexer::Token::Any => Some(Lexeme::Any),
        rowl::lexer::Token::Some => Some(Lexeme::SomeOf),
        rowl::lexer::Token::Optional => Some(Lexeme::Optional),
        _ => None,
    }
}

/// Tells `rowl::lexer::Token`'s words of enumerations and facts, dots and commas.
#[verifier::external_body]
pub(crate) fn joining_token(t: &rowl::lexer::Token) -> (r: Option<Lexeme>)
    ensures
        match r {
            Some(l) => lexeme_of(*t) == l@ && joining_lexeme(l@),
            None => !joining_lexeme(lexeme_of(*t)),
        },
{
    match t {
        rowl::lexer::Token::OneOf => Some(Lexeme::OneOf),
        rowl::lexer::Token::Fact => Some(Lexeme::Fact),
        rowl::lexer::Token::IsInverse => Some(Lexeme::Inverse),
        rowl::lexer::Token::Of => Some(Lexeme::Of),
        rowl::lexer::Token::Dot => Some(Lexeme::Dot),
        rowl::lexer::Token::Comma => Some(Lexeme::Comma),
        _ => None,
    }
}

/// The plain value of a token.
fn lexeme_from(t: &rowl::lexer::Token) -> (r: Lexeme)
    ensures
        r@ == lexeme_of(*t),
{
    if let Some(l) = leading_token(t) {
        return l;
    }
    if let Some(l) = inner_token(t) {
        return l;
    }
    if let Some(l) = counting_token(t) {
        return l;
    }
    if let Some(l) = joining_token(t) {
        return l;
    }
    Lexeme::Other
}

/// The tokens of a text, with `None` where it could not be read.
pub fn scan(text: &str) -> (r: Vec<Option<Scanned>>)
    requires
        laid_out(text@),
    ensures
        scanned_views(r@) == lexed(text@),
{
    let items = run_lexer(text);
    let mut out: Vec<Option<Scanned>> = Vec::new();
    let mut i: usize = 0;
    while i < items.len()
        invariant
            i <= items.len(),
            out.len() == i,
            forall|j: int|
                0 <= j < i ==> scanned_views(out@)[j] == #[trigger] lexed_views(items@)[j],
        decreases items.len() - i,
    {
        let ghost before = out@;
        let item = match &items[i] {
            Some(t) => Some(Scanned { start: t.start, lexeme: lexeme_from(&t.token), end: t.end }),
            None => None,
        };
        out.push(item);
        proof {
            assert forall|j: int| 0 <= j < i + 1 implies scanned_views(out@)[j]
                == #[trigger] lexed_views(items@)[j] by {
                if j < i {
                    assert(scanned_views(before)[j] == lexed_views(items@)[j]);
                }
            }
        }
        i = i + 1;
    }
    assert(scanned_views(out@) =~= lexed_views(items@));
    out
}

} // verus!
