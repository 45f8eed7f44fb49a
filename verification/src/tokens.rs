//! The grammar of DataLang over tokens, for callers that hold a token stream
//! in place of a text.
//!
//! ```text
//! file       := item*
//! item       := "dictionary" IDENT | "import" IDENT
//!             | "term" IDENT ( "has" "{" field_ref* "}" | "{" "}" )
//!             | IDENT "{" ( field_ref | attributed_field | "trait" IDENT )* "}"
//! field_ref  := ("+" | "-") IDENT ( "::" IDENT )?
//! attributed_field := ( "#" "[" IDENT ( "<" literal )? "]" )* ( IDENT | field_ref )
//! ```

use crate::directive::{reason_no_name, reason_no_name_after_separator, reason_no_sign};
use crate::grammar::{is_reserved, missing_brace, suggestion_for};
use crate::types::{AttributeView, ErrorView, FieldRefView, ItemView};
use vstd::prelude::*;

verus! {

/// A token of a DataLang source.
#[derive(Debug, Clone)]
pub enum Token {
    /// A name or a keyword.
    Ident(String),
    /// A literal value, such as a number.
    Literal(String),
    /// `+`
    Plus,
    /// `-`
    Minus,
    /// `::`
    PathSep,
    /// `#`
    Pound,
    /// `<`
    Less,
    /// `{`
    OpenBrace,
    /// `}`
    CloseBrace,
    /// `[`
    OpenBracket,
    /// `]`
    CloseBracket,
    /// Any other token, with its text.
    Other(String),
}

/// The model of a `Token`.
pub ghost enum TokenView {
    Ident(Seq<char>),
    Literal(Seq<char>),
    Plus,
    Minus,
    PathSep,
    Pound,
    Less,
    OpenBrace,
    CloseBrace,
    OpenBracket,
    CloseBracket,
    Other(Seq<char>),
}

impl View for Token {
    type V = TokenView;

    open spec fn view(&self) -> TokenView {
        match self {
            Token::Ident(s) => TokenView::Ident(s@),
            Token::Literal(s) => TokenView::Literal(s@),
            Token::Plus => TokenView::Plus,
            Token::Minus => TokenView::Minus,
            Token::PathSep => TokenView::PathSep,
            Token::Pound => TokenView::Pound,
            Token::Less => TokenView::Less,
            Token::OpenBrace => TokenView::OpenBrace,
            Token::CloseBrace => TokenView::CloseBrace,
            Token::OpenBracket => TokenView::OpenBracket,
            Token::CloseBracket => TokenView::CloseBracket,
            Token::Other(s) => TokenView::Other(s@),
        }
    }
}

/// The models of a list of tokens.
pub open spec fn token_views(s: Seq<Token>) -> Seq<TokenView> {
    Seq::new(s.len(), |i: int| s[i]@)
}

/// The text of a token.
pub open spec fn token_text(t: TokenView) -> Seq<char> {
    match t {
        TokenView::Ident(s) => s,
        TokenView::Literal(s) => s,
        TokenView::Plus => "+"@,
        TokenView::Minus => "-"@,
        TokenView::PathSep => "::"@,
        TokenView::Pound => "#"@,
        TokenView::Less => "<"@,
        TokenView::OpenBrace => "{"@,
        TokenView::CloseBrace => "}"@,
        TokenView::OpenBracket => "["@,
        TokenView::CloseBracket => "]"@,
        TokenView::Other(s) => s,
    }
}

/// The text of the token at position `p`, or nothing behind the last token.
pub open spec fn text_at(t: Seq<TokenView>, p: int) -> Seq<char> {
    if 0 <= p < t.len() {
        token_text(t[p])
    } else {
        Seq::empty()
    }
}

/// Whether an identifier stands at position `p`.
pub open spec fn is_ident_at(t: Seq<TokenView>, p: int) -> bool {
    0 <= p < t.len() && t[p] is Ident
}

/// Whether the token `k` stands at position `p`.
pub open spec fn is_at(t: Seq<TokenView>, p: int, k: TokenView) -> bool {
    0 <= p < t.len() && t[p] == k
}

/// The error for a malformed directive, with the text of the token at `p`.
pub open spec fn bad_directive_at(t: Seq<TokenView>, p: int, reason: Seq<char>) -> ErrorView {
    ErrorView::InvalidFieldReference { field: text_at(t, p), reason }
}

/// An error, and the position of the token at which it arose: the token that
/// was not expected, or the place where one is missing. Behind the last
/// token the position is the number of tokens.
pub ghost struct LocatedError {
    pub error: ErrorView,
    pub at: int,
}

/// The failure with the error `error` at position `at`.
pub open spec fn fail<T>(error: ErrorView, at: int) -> Result<T, LocatedError> {
    Err(LocatedError { error, at })
}

/// `r` without the position of its error.
pub open spec fn without_position<T>(r: Result<T, LocatedError>) -> Result<T, ErrorView> {
    match r {
        Ok(v) => Ok(v),
        Err(l) => Err(l.error),
    }
}

/// The number of tokens of the directive that begins at position `p`.
pub open spec fn reference_len(t: Seq<TokenView>, p: int) -> int {
    if is_at(t, p + 2, TokenView::PathSep) {
        4
    } else {
        2
    }
}

/// The directive that begins at position `p`: a sign, a name, and behind
/// `::` a second name, of which the first then is the namespace.
pub open spec fn parse_reference_at(t: Seq<TokenView>, p: int) -> Result<FieldRefView, LocatedError> {
    if !is_at(t, p, TokenView::Plus) && !is_at(t, p, TokenView::Minus) {
        fail(bad_directive_at(t, p, reason_no_sign()), p)
    } else if !is_ident_at(t, p + 1) {
        fail(bad_directive_at(t, p + 1, reason_no_name()), p + 1)
    } else if is_at(t, p + 2, TokenView::PathSep) {
        if !is_ident_at(t, p + 3) {
            fail(bad_directive_at(t, p + 3, reason_no_name_after_separator()), p + 3)
        } else {
            Ok(
                FieldRefView {
                    is_included: t[p] is Plus,
                    namespace: Some(t[p + 1]->Ident_0),
                    name: t[p + 3]->Ident_0,
                    attributes: Seq::empty(),
                },
            )
        }
    } else {
        Ok(
            FieldRefView {
                is_included: t[p] is Plus,
                namespace: None,
                name: t[p + 1]->Ident_0,
                attributes: Seq::empty(),
            },
        )
    }
}

/// Whether a value for a constraint stands at position `p`.
pub open spec fn is_value_at(t: Seq<TokenView>, p: int) -> bool {
    0 <= p < t.len() && (t[p] is Literal || t[p] is Ident)
}

/// The number of tokens of the annotation that begins at position `p`.
pub open spec fn annotation_len(t: Seq<TokenView>, p: int) -> int {
    if is_at(t, p + 3, TokenView::Less) {
        6
    } else {
        4
    }
}

/// The annotation that begins with the `#` at position `p`.
pub open spec fn parse_annotation_at(t: Seq<TokenView>, p: int) -> Result<AttributeView, LocatedError> {
    if !is_at(t, p + 1, TokenView::OpenBracket) {
        fail(ErrorView::InvalidSyntax("Expected opening bracket after #"@), p + 1)
    } else if !is_ident_at(t, p + 2) {
        fail(ErrorView::MissingIdentifier("Expected attribute name"@), p + 2)
    } else if is_at(t, p + 3, TokenView::Less) {
        if !is_value_at(t, p + 4) {
            fail(ErrorView::InvalidSyntax("Expected a value after <"@), p + 4)
        } else if !is_at(t, p + 5, TokenView::CloseBracket) {
            fail(ErrorView::InvalidSyntax("Expected closing bracket after attribute"@), p + 5)
        } else {
            Ok(
                AttributeView {
                    name: t[p + 2]->Ident_0,
                    constraint: Some("< "@ + token_text(t[p + 4])),
                },
            )
        }
    } else if !is_at(t, p + 3, TokenView::CloseBracket) {
        fail(ErrorView::InvalidSyntax("Expected closing bracket after attribute"@), p + 3)
    } else {
        Ok(AttributeView { name: t[p + 2]->Ident_0, constraint: None })
    }
}

/// The body of a term or an entity in a token stream.
pub ghost struct TokenBodyView {
    /// The directives, in source order.
    pub fields: Seq<FieldRefView>,
    /// The parent named by `trait`, if any.
    pub parent: Option<Seq<char>>,
    /// The position behind the closing brace.
    pub next: int,
}

/// `r` with the directives `prefix` in front of its own.
pub open spec fn prepend_directives(
    prefix: Seq<FieldRefView>,
    r: Result<TokenBodyView, LocatedError>,
) -> Result<TokenBodyView, LocatedError> {
    match r {
        Ok(body) => Ok(TokenBodyView { fields: prefix + body.fields, ..body }),
        Err(e) => Err(e),
    }
}

/// Whether the word `trait` and a name stand at position `p`.
pub open spec fn is_parent_at(t: Seq<TokenView>, p: int) -> bool {
    is_at(t, p, TokenView::Ident("trait"@)) && is_ident_at(t, p + 1)
}

/// The body that stands at position `p`, behind its opening brace, up to
/// its closing brace. The body of a term holds directives only; where
/// `annotated` is set, the body is that of an entity and may also hold bare
/// field names, annotations in front of a field and one `trait` with the
/// name of a parent. `pending` are the annotations read so far that wait for
/// their field.
pub open spec fn parse_body_at(
    t: Seq<TokenView>,
    p: int,
    annotated: bool,
    pending: Seq<AttributeView>,
    parent: Option<Seq<char>>,
) -> Result<TokenBodyView, LocatedError>
    decreases t.len() - p,
{
    if p < 0 || p >= t.len() {
        fail(ErrorView::InvalidSyntax("Expected closing brace"@), t.len() as int)
    } else if t[p] is CloseBrace {
        if pending.len() > 0 {
            fail(ErrorView::InvalidSyntax("Expected field name after attribute"@), p)
        } else {
            Ok(TokenBodyView { fields: Seq::empty(), parent, next: p + 1 })
        }
    } else if t[p] is Plus || t[p] is Minus {
        match parse_reference_at(t, p) {
            Ok(f) => prepend_directives(
                seq![FieldRefView { attributes: pending, ..f }],
                parse_body_at(t, p + reference_len(t, p), annotated, Seq::empty(), parent),
            ),
            Err(e) => Err(e),
        }
    } else if annotated && t[p] is Pound {
        match parse_annotation_at(t, p) {
            Ok(a) => parse_body_at(t, p + annotation_len(t, p), annotated, pending.push(a), parent),
            Err(e) => Err(e),
        }
    } else if annotated && is_parent_at(t, p) {
        if parent is Some || pending.len() > 0 {
            fail(ErrorView::UnexpectedToken(text_at(t, p)), p)
        } else {
            parse_body_at(t, p + 2, annotated, pending, Some(t[p + 1]->Ident_0))
        }
    } else if annotated && t[p] is Ident {
        prepend_directives(
            seq![
                FieldRefView {
                    is_included: true,
                    namespace: None,
                    name: t[p]->Ident_0,
                    attributes: pending,
                },
            ],
            parse_body_at(t, p + 1, annotated, Seq::empty(), parent),
        )
    } else {
        fail(bad_directive_at(t, p, reason_no_sign()), p)
    }
}

/// An item and the position behind it.
pub ghost struct TokenStep {
    pub item: ItemView,
    pub next: int,
}

/// The term whose keyword stands at position `p`. The token behind the
/// term's name decides: `has` and a brace begin the body of a composite
/// term; a brace alone begins the empty body of a primitive term.
pub open spec fn parse_term_at(t: Seq<TokenView>, p: int) -> Result<TokenStep, LocatedError> {
    if !is_ident_at(t, p + 1) {
        fail(ErrorView::MissingIdentifier("Expected term name"@), p + 1)
    } else {
        let name = t[p + 1]->Ident_0;
        if is_at(t, p + 2, TokenView::Ident("has"@)) && is_at(t, p + 3, TokenView::OpenBrace) {
            match parse_body_at(t, p + 4, false, Seq::empty(), None) {
                Ok(body) => Ok(
                    TokenStep { item: ItemView::Term { name, fields: body.fields }, next: body.next },
                ),
                Err(e) => Err(e),
            }
        } else if is_at(t, p + 2, TokenView::OpenBrace) {
            if is_at(t, p + 3, TokenView::CloseBrace) {
                Ok(TokenStep { item: ItemView::Term { name, fields: Seq::empty() }, next: p + 4 })
            } else if p + 3 >= t.len() {
                fail(ErrorView::InvalidSyntax("Expected closing brace"@), p + 3)
            } else {
                fail(ErrorView::UnexpectedToken(text_at(t, p + 3)), p + 3)
            }
        } else {
            fail(
                ErrorView::InvalidSyntax(
                    "Expected 'has' keyword or opening brace after term name"@,
                ),
                p + 2,
            )
        }
    }
}

/// The entity whose name stands at position `p`.
pub open spec fn parse_entity_at(t: Seq<TokenView>, p: int) -> Result<TokenStep, LocatedError> {
    let name = t[p]->Ident_0;
    if is_reserved(name) {
        fail(ErrorView::InvalidKeyword { keyword: name, suggestion: suggestion_for(name) }, p)
    } else if !is_at(t, p + 1, TokenView::OpenBrace) {
        fail(missing_brace("struct"@, name), p + 1)
    } else {
        match parse_body_at(t, p + 2, true, Seq::empty(), None) {
            Ok(body) => Ok(
                TokenStep {
                    item: ItemView::Struct { name, fields: body.fields, parent: body.parent },
                    next: body.next,
                },
            ),
            Err(e) => Err(e),
        }
    }
}

/// The item that begins with the identifier at position `p`.
pub open spec fn parse_item_at(t: Seq<TokenView>, p: int) -> Result<TokenStep, LocatedError> {
    let word = t[p]->Ident_0;
    if word == "dictionary"@ {
        if is_ident_at(t, p + 1) {
            Ok(TokenStep { item: ItemView::Dictionary { name: t[p + 1]->Ident_0 }, next: p + 2 })
        } else {
            fail(ErrorView::MissingIdentifier("Expected dictionary name"@), p + 1)
        }
    } else if word == "import"@ {
        if is_ident_at(t, p + 1) {
            Ok(TokenStep { item: ItemView::Import { module: t[p + 1]->Ident_0 }, next: p + 2 })
        } else {
            fail(ErrorView::MissingIdentifier("Expected module name after import"@), p + 1)
        }
    } else if word == "term"@ {
        parse_term_at(t, p)
    } else {
        parse_entity_at(t, p)
    }
}

/// `r` with the items `prefix` in front of its own.
pub open spec fn prepend_parsed(
    prefix: Seq<ItemView>,
    r: Result<Seq<ItemView>, LocatedError>,
) -> Result<Seq<ItemView>, LocatedError> {
    match r {
        Ok(items) => Ok(prefix + items),
        Err(e) => Err(e),
    }
}

/// The items that begin at position `p` or behind it. Every item begins
/// with an identifier; the first error ends parsing.
pub open spec fn parse_items_at(t: Seq<TokenView>, p: int) -> Result<Seq<ItemView>, LocatedError>
    decreases t.len() - p,
{
    if p < 0 || p >= t.len() {
        Ok(Seq::empty())
    } else if !(t[p] is Ident) {
        fail(ErrorView::UnexpectedToken(text_at(t, p)), p)
    } else {
        match parse_item_at(t, p) {
            Ok(step) => if p < step.next <= t.len() {
                prepend_parsed(seq![step.item], parse_items_at(t, step.next))
            } else {
                Ok(seq![step.item])
            },
            Err(e) => Err(e),
        }
    }
}

/// The items of a token stream, or the first error in it with its
/// position.
pub open spec fn parse_located(t: Seq<TokenView>) -> Result<Seq<ItemView>, LocatedError> {
    parse_items_at(t, 0)
}

/// The items of a token stream, or the first error in it.
pub open spec fn parse_tokens(t: Seq<TokenView>) -> Result<Seq<ItemView>, ErrorView> {
    without_position(parse_located(t))
}

} // verus!
