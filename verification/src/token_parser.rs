//! The parser over tokens.

use crate::parser::{check_reserved, file_outcome, missing_brace_error, suggest};
use crate::text::str_eq;
use crate::tokens::{
    annotation_len, bad_directive_at, is_at, is_ident_at, parse_annotation_at, parse_body_at,
    parse_entity_at, parse_item_at, parse_items_at, parse_located, parse_reference_at,
    parse_term_at, parse_tokens, prepend_directives, prepend_parsed, reference_len, text_at,
    token_text, token_views, without_position, LocatedError, Token, TokenBodyView, TokenStep,
    TokenView,
};
use crate::types::{
    attribute_views, field_views, item_views, opt_view, AttributeView, DataLangFile, DataLangItem,
    ErrorView, FieldAttribute, FieldRefView, FieldReference, ItemView, ParseError,
};
use vstd::prelude::*;
use vstd::string::*;

verus! {

/// A parsed body: its directives, its parent and the position behind it.
pub struct TokenBody {
    pub fields: Vec<FieldReference>,
    pub parent: Option<String>,
    pub next: usize,
}

impl View for TokenBody {
    type V = TokenBodyView;

    open spec fn view(&self) -> TokenBodyView {
        TokenBodyView {
            fields: field_views(self.fields@),
            parent: opt_view(self.parent),
            next: self.next as int,
        }
    }
}

/// An error, and the position of the token at which it arose; behind the
/// last token, the number of tokens.
#[derive(Debug)]
pub struct Located {
    pub error: ParseError,
    pub at: usize,
}

impl View for Located {
    type V = LocatedError;

    open spec fn view(&self) -> LocatedError {
        LocatedError { error: self.error@, at: self.at as int }
    }
}

/// The model of the outcome of parsing a body.
pub open spec fn token_body_outcome(r: Result<TokenBody, Located>) -> Result<
    TokenBodyView,
    LocatedError,
> {
    match r {
        Ok(b) => Ok(b@),
        Err(e) => Err(e@),
    }
}

/// The model of the outcome of parsing one item.
pub open spec fn token_step_outcome(r: Result<(DataLangItem, usize), Located>) -> Result<
    TokenStep,
    LocatedError,
> {
    match r {
        Ok((item, next)) => Ok(TokenStep { item: item@, next: next as int }),
        Err(e) => Err(e@),
    }
}

/// The model of the outcome of parsing a directive.
pub open spec fn located_reference_outcome(r: Result<(FieldReference, usize), Located>) -> Result<
    FieldRefView,
    LocatedError,
> {
    match r {
        Ok((f, next)) => Ok(f@),
        Err(e) => Err(e@),
    }
}

/// The model of the outcome of parsing a file, with the position of an
/// error.
pub open spec fn located_file_outcome(r: Result<DataLangFile, Located>) -> Result<
    Seq<ItemView>,
    LocatedError,
> {
    match r {
        Ok(f) => Ok(f@),
        Err(e) => Err(e@),
    }
}

/// Putting nothing in front of a body leaves it as it is.
pub proof fn lemma_prepend_no_directives(r: Result<TokenBodyView, LocatedError>)
    ensures
        prepend_directives(Seq::empty(), r) == r,
{
    match r {
        Ok(b) => {
            assert(Seq::<FieldRefView>::empty() + b.fields =~= b.fields);
        },
        Err(e) => {},
    }
}

/// Putting `f` and then `prefix` in front of a body is putting `prefix` with
/// `f` at its end in front of it.
pub proof fn lemma_prepend_directive(
    prefix: Seq<FieldRefView>,
    f: FieldRefView,
    r: Result<TokenBodyView, LocatedError>,
)
    ensures
        prepend_directives(prefix, prepend_directives(seq![f], r)) == prepend_directives(
            prefix.push(f),
            r,
        ),
{
    match r {
        Ok(b) => {
            assert(prefix + (seq![f] + b.fields) =~= prefix.push(f) + b.fields);
        },
        Err(e) => {},
    }
}

/// The token `k` places behind position `p`, if there is one.
fn peek(tokens: &Vec<Token>, p: usize, k: usize) -> (r: Option<&Token>)
    ensures
        match r {
            Some(t) => p + k < tokens@.len() && t@ == token_views(tokens@)[p + k],
            None => p + k >= tokens@.len(),
        },
{
    let n = tokens.len();
    if p < n && k < n - p {
        Some(&tokens[p + k])
    } else {
        None
    }
}

/// The identifier `k` places behind position `p`, if one stands there.
fn ident_at<'a>(tokens: &'a Vec<Token>, p: usize, k: usize) -> (r: Option<&'a str>)
    ensures
        match r {
            Some(s) => is_ident_at(token_views(tokens@), p + k) && s@ == token_views(tokens@)[p
                + k]->Ident_0,
            None => !is_ident_at(token_views(tokens@), p + k),
        },
{
    match peek(tokens, p, k) {
        Some(Token::Ident(s)) => Some(s.as_str()),
        _ => None,
    }
}

/// Whether the token `want`, which is a sign or a bracket, stands `k` places
/// behind position `p`.
fn symbol_at(tokens: &Vec<Token>, p: usize, k: usize, want: &Token) -> (r: bool)
    requires
        !(want is Ident),
        !(want is Literal),
        !(want is Other),
    ensures
        r == is_at(token_views(tokens@), p + k, want@),
{
    match peek(tokens, p, k) {
        Some(t) => match (t, want) {
            (Token::Plus, Token::Plus) => true,
            (Token::Minus, Token::Minus) => true,
            (Token::PathSep, Token::PathSep) => true,
            (Token::Pound, Token::Pound) => true,
            (Token::Less, Token::Less) => true,
            (Token::OpenBrace, Token::OpenBrace) => true,
            (Token::CloseBrace, Token::CloseBrace) => true,
            (Token::OpenBracket, Token::OpenBracket) => true,
            (Token::CloseBracket, Token::CloseBracket) => true,
            _ => false,
        },
        None => false,
    }
}

/// Whether the identifier `word` stands `k` places behind position `p`.
fn word_at(tokens: &Vec<Token>, p: usize, k: usize, word: &str) -> (r: bool)
    ensures
        r == is_at(token_views(tokens@), p + k, TokenView::Ident(word@)),
{
    match ident_at(tokens, p, k) {
        Some(s) => str_eq(s, word),
        None => false,
    }
}

/// The text of a token.
fn text_of(t: &Token) -> (r: String)
    ensures
        r@ == token_text(t@),
{
    match t {
        Token::Ident(s) => s.clone(),
        Token::Literal(s) => s.clone(),
        Token::Plus => String::from_str("+"),
        Token::Minus => String::from_str("-"),
        Token::PathSep => String::from_str("::"),
        Token::Pound => String::from_str("#"),
        Token::Less => String::from_str("<"),
        Token::OpenBrace => String::from_str("{"),
        Token::CloseBrace => String::from_str("}"),
        Token::OpenBracket => String::from_str("["),
        Token::CloseBracket => String::from_str("]"),
        Token::Other(s) => s.clone(),
    }
}

/// The text of the token `k` places behind position `p`.
pub(crate) fn text_from(tokens: &Vec<Token>, p: usize, k: usize) -> (r: String)
    ensures
        r@ == text_at(token_views(tokens@), p + k),
{
    match peek(tokens, p, k) {
        Some(t) => text_of(t),
        None => String::new(),
    }
}

fn bad_directive(tokens: &Vec<Token>, p: usize, k: usize, reason: &str) -> (e: Located)
    requires
        p + k <= usize::MAX,
    ensures
        e@ == (LocatedError {
            error: bad_directive_at(token_views(tokens@), p + k, reason@),
            at: p + k,
        }),
{
    Located {
        error: ParseError::InvalidFieldReference {
            field: text_from(tokens, p, k),
            reason: String::from_str(reason),
        },
        at: p + k,
    }
}

/// The error `error` at the token `k` places behind position `p`.
fn fail_at(error: ParseError, p: usize, k: usize) -> (e: Located)
    requires
        p + k <= usize::MAX,
    ensures
        e@ == (LocatedError { error: error@, at: p + k }),
{
    Located { error, at: p + k }
}

/// Parses the directive that begins at position `p`, and gives the position
/// behind it.
fn read_reference_at(tokens: &Vec<Token>, p: usize) -> (r: Result<(FieldReference, usize), Located>)
    ensures
        located_reference_outcome(r) == parse_reference_at(token_views(tokens@), p as int),
        r matches Ok(step) ==> step.1 == p + reference_len(token_views(tokens@), p as int)
            && step.1 <= tokens@.len(),
        r matches Err(e) ==> p < tokens@.len() ==> e.at <= tokens@.len(),
{
    let n = tokens.len();
    let is_included = symbol_at(tokens, p, 0, &Token::Plus);
    if !is_included && !symbol_at(tokens, p, 0, &Token::Minus) {
        return Err(
            bad_directive(
                tokens,
                p,
                0,
                "Field references must start with + (include) or - (exclude)",
            ),
        );
    }
    let first = match ident_at(tokens, p, 1) {
        Some(s) => s,
        None => {
            return Err(bad_directive(tokens, p, 1, "Expected field name after + or -"));
        },
    };
    if symbol_at(tokens, p, 2, &Token::PathSep) {
        match ident_at(tokens, p, 3) {
            Some(second) => {
                let f = FieldReference {
                    is_included,
                    namespace: Some(String::from_str(first)),
                    name: String::from_str(second),
                    attributes: Vec::new(),
                };
                assert(f@.attributes =~= Seq::empty());
                Ok((f, p + 4))
            },
            None => Err(
                bad_directive(tokens, p, 3, "Expected field name after namespace separator ::"),
            ),
        }
    } else {
        let f = FieldReference {
            is_included,
            namespace: None,
            name: String::from_str(first),
            attributes: Vec::new(),
        };
        assert(f@.attributes =~= Seq::empty());
        Ok((f, p + 2))
    }
}

impl FieldReference {
    /// Parses the directive that begins at position `p` of a token stream,
    /// as `parse_reference_at` defines it, and gives the position behind it.
    pub fn parse(tokens: &Vec<Token>, p: usize) -> (r: Result<(FieldReference, usize), ParseError>)
        ensures
            match r {
                Ok((f, next)) => without_position(
                    parse_reference_at(token_views(tokens@), p as int),
                ) == Ok::<FieldRefView, ErrorView>(f@) && next == p + reference_len(
                    token_views(tokens@),
                    p as int,
                ) && next <= tokens@.len(),
                Err(e) => without_position(parse_reference_at(token_views(tokens@), p as int))
                    == Err::<FieldRefView, ErrorView>(e@),
            },
    {
        match read_reference_at(tokens, p) {
            Ok(step) => Ok(step),
            Err(located) => Err(located.error),
        }
    }

    /// Parses the directive that begins at position `p` of a token stream,
    /// as `parse` does, and gives with an error the position of the token
    /// at which it arose.
    pub fn parse_located(tokens: &Vec<Token>, p: usize) -> (r: Result<
        (FieldReference, usize),
        Located,
    >)
        ensures
            located_reference_outcome(r) == parse_reference_at(token_views(tokens@), p as int),
            r matches Ok(step) ==> step.1 == p + reference_len(token_views(tokens@), p as int)
                && step.1 <= tokens@.len(),
            r matches Err(e) ==> p < tokens@.len() ==> e.at <= tokens@.len(),
    {
        read_reference_at(tokens, p)
    }
}

/// Parses the annotation that begins with the `#` at position `p`.
fn read_annotation_at(tokens: &Vec<Token>, p: usize) -> (r: Result<(FieldAttribute, usize), Located>)
    requires
        p < tokens@.len(),
    ensures
        match r {
            Ok((a, next)) => parse_annotation_at(token_views(tokens@), p as int) == Ok::<
                AttributeView,
                LocatedError,
            >(a@) && next == p + annotation_len(token_views(tokens@), p as int) && next
                <= tokens@.len(),
            Err(e) => parse_annotation_at(token_views(tokens@), p as int) == Err::<
                AttributeView,
                LocatedError,
            >(e@) && e.at <= tokens@.len(),
        },
{
    let n = tokens.len();
    if !symbol_at(tokens, p, 1, &Token::OpenBracket) {
        return Err(
            fail_at(ParseError::InvalidSyntax(String::from_str("Expected opening bracket after #")), p, 1),
        );
    }
    let name = match ident_at(tokens, p, 2) {
        Some(s) => s,
        None => {
            return Err(
                fail_at(ParseError::MissingIdentifier(String::from_str("Expected attribute name")), p, 2),
            );
        },
    };
    if symbol_at(tokens, p, 3, &Token::Less) {
        let value = match peek(tokens, p, 4) {
            Some(Token::Literal(s)) => s,
            Some(Token::Ident(s)) => s,
            _ => {
                return Err(
                    fail_at(ParseError::InvalidSyntax(String::from_str("Expected a value after <")), p, 4),
                );
            },
        };
        if !symbol_at(tokens, p, 5, &Token::CloseBracket) {
            return Err(
                fail_at(
                    ParseError::InvalidSyntax(
                        String::from_str("Expected closing bracket after attribute"),
                    ),
                    p,
                    5,
                ),
            );
        }
        let mut constraint = String::from_str("< ");
        constraint.append(value.as_str());
        Ok((FieldAttribute { name: String::from_str(name), constraint: Some(constraint) }, p + 6))
    } else if !symbol_at(tokens, p, 3, &Token::CloseBracket) {
        Err(
            fail_at(
                ParseError::InvalidSyntax(String::from_str("Expected closing bracket after attribute")),
                p,
                3,
            ),
        )
    } else {
        Ok((FieldAttribute { name: String::from_str(name), constraint: None }, p + 4))
    }
}

/// Reads the body that stands at position `start`, behind its opening brace.
pub(crate) fn read_body_at(tokens: &Vec<Token>, start: usize, annotated: bool) -> (r: Result<
    TokenBody,
    Located,
>)
    requires
        start <= tokens@.len(),
    ensures
        token_body_outcome(r) == parse_body_at(
            token_views(tokens@),
            start as int,
            annotated,
            Seq::empty(),
            None,
        ),
        r matches Ok(b) ==> start < b.next <= tokens@.len(),
        r matches Err(e) ==> e.at <= tokens@.len(),
{
    let n = tokens.len();
    let ghost all = token_views(tokens@);
    let mut fields: Vec<FieldReference> = Vec::new();
    let mut pending: Vec<FieldAttribute> = Vec::new();
    let mut parent: Option<String> = None;
    let mut p: usize = start;
    proof {
        assert(field_views(fields@) =~= Seq::empty());
        assert(attribute_views(pending@) =~= Seq::empty());
        lemma_prepend_no_directives(parse_body_at(all, start as int, annotated, Seq::empty(), None));
    }
    while p < n
        invariant
            start <= p <= n,
            n == tokens@.len(),
            all == token_views(tokens@),
            prepend_directives(
                field_views(fields@),
                parse_body_at(all, p as int, annotated, attribute_views(pending@), opt_view(parent)),
            ) == parse_body_at(all, start as int, annotated, Seq::empty(), None),
        decreases n - p,
    {
        let ghost before = field_views(fields@);
        assert(all[p as int] == tokens@[p as int]@);
        match &tokens[p] {
            Token::CloseBrace => {
                if pending.len() > 0 {
                    return Err(
                        fail_at(
                            ParseError::InvalidSyntax(
                                String::from_str("Expected field name after attribute"),
                            ),
                            p,
                            0,
                        ),
                    );
                }
                assert(field_views(fields@) + Seq::<FieldRefView>::empty() =~= field_views(fields@));
                return Ok(TokenBody { fields, parent, next: p + 1 });
            },
            Token::Plus | Token::Minus => {
                match read_reference_at(tokens, p) {
                    Ok((f, next)) => {
                        let with_attributes = FieldReference {
                            is_included: f.is_included,
                            namespace: f.namespace,
                            name: f.name,
                            attributes: pending,
                        };
                        fields.push(with_attributes);
                        pending = Vec::new();
                        proof {
                            assert(field_views(fields@) =~= before.push(with_attributes@));
                            assert(attribute_views(pending@) =~= Seq::empty());
                            lemma_prepend_directive(
                                before,
                                with_attributes@,
                                parse_body_at(
                                    all,
                                    next as int,
                                    annotated,
                                    Seq::empty(),
                                    opt_view(parent),
                                ),
                            );
                        }
                        p = next;
                    },
                    Err(e) => {
                        return Err(e);
                    },
                }
            },
            Token::Pound => {
                if !annotated {
                    return Err(
                        bad_directive(
                            tokens,
                            p,
                            0,
                            "Field references must start with + (include) or - (exclude)",
                        ),
                    );
                }
                match read_annotation_at(tokens, p) {
                    Ok((a, next)) => {
                        let ghost waiting = attribute_views(pending@);
                        pending.push(a);
                        assert(attribute_views(pending@) =~= waiting.push(a@));
                        p = next;
                    },
                    Err(e) => {
                        return Err(e);
                    },
                }
            },
            Token::Ident(name) => {
                if !annotated {
                    return Err(
                        bad_directive(
                            tokens,
                            p,
                            0,
                            "Field references must start with + (include) or - (exclude)",
                        ),
                    );
                }
                let named_parent = if str_eq(name.as_str(), "trait") {
                    ident_at(tokens, p, 1)
                } else {
                    None
                };
                match named_parent {
                    Some(parent_name) => {
                        if parent.is_some() || pending.len() > 0 {
                            return Err(
                                fail_at(ParseError::UnexpectedToken(text_from(tokens, p, 0)), p, 0),
                            );
                        }
                        parent = Some(String::from_str(parent_name));
                        p = p + 2;
                    },
                    None => {
                        let bare = FieldReference {
                            is_included: true,
                            namespace: None,
                            name: name.clone(),
                            attributes: pending,
                        };
                        fields.push(bare);
                        pending = Vec::new();
                        proof {
                            assert(field_views(fields@) =~= before.push(bare@));
                            assert(attribute_views(pending@) =~= Seq::empty());
                            lemma_prepend_directive(
                                before,
                                bare@,
                                parse_body_at(all, p + 1, annotated, Seq::empty(), opt_view(parent)),
                            );
                        }
                        p = p + 1;
                    },
                }
            },
            _ => {
                return Err(
                    bad_directive(
                        tokens,
                        p,
                        0,
                        "Field references must start with + (include) or - (exclude)",
                    ),
                );
            },
        }
    }
    Err(fail_at(ParseError::InvalidSyntax(String::from_str("Expected closing brace")), n, 0))
}

/// Reads the term whose keyword stands at position `p`.
fn read_term_at(tokens: &Vec<Token>, p: usize) -> (r: Result<(DataLangItem, usize), Located>)
    requires
        p < tokens@.len(),
    ensures
        token_step_outcome(r) == parse_term_at(token_views(tokens@), p as int),
        r matches Ok(step) ==> p < step.1 <= tokens@.len(),
        r matches Err(e) ==> e.at <= tokens@.len(),
{
    let n = tokens.len();
    let name = match ident_at(tokens, p, 1) {
        Some(s) => s,
        None => {
            return Err(
                fail_at(ParseError::MissingIdentifier(String::from_str("Expected term name")), p, 1),
            );
        },
    };
    if word_at(tokens, p, 2, "has") && symbol_at(tokens, p, 3, &Token::OpenBrace) {
        match read_body_at(tokens, p + 4, false) {
            Ok(body) => Ok(
                (DataLangItem::Term { name: String::from_str(name), fields: body.fields }, body.next),
            ),
            Err(e) => Err(e),
        }
    } else if symbol_at(tokens, p, 2, &Token::OpenBrace) {
        if symbol_at(tokens, p, 3, &Token::CloseBrace) {
            let item = DataLangItem::Term { name: String::from_str(name), fields: Vec::new() };
            assert(item@ == (ItemView::Term { name: name@, fields: Seq::empty() })) by {
                assert(field_views(Seq::<FieldReference>::empty()) =~= Seq::empty());
            }
            Ok((item, p + 4))
        } else if n - p <= 3 {
            Err(fail_at(ParseError::InvalidSyntax(String::from_str("Expected closing brace")), p, 3))
        } else {
            Err(fail_at(ParseError::UnexpectedToken(text_from(tokens, p, 3)), p, 3))
        }
    } else {
        Err(
            fail_at(
                ParseError::InvalidSyntax(
                    String::from_str("Expected 'has' keyword or opening brace after term name"),
                ),
                p,
                2,
            ),
        )
    }
}

/// Reads the entity whose name `name` stands at position `p`.
fn read_entity_at(tokens: &Vec<Token>, p: usize, name: &str) -> (r: Result<
    (DataLangItem, usize),
    Located,
>)
    requires
        p < tokens@.len(),
        token_views(tokens@)[p as int] == TokenView::Ident(name@),
    ensures
        token_step_outcome(r) == parse_entity_at(token_views(tokens@), p as int),
        r matches Ok(step) ==> p < step.1 <= tokens@.len(),
        r matches Err(e) ==> e.at <= tokens@.len(),
{
    let n = tokens.len();
    if check_reserved(name) {
        return Err(
            fail_at(
                ParseError::InvalidKeyword {
                    keyword: String::from_str(name),
                    suggestion: suggest(name),
                },
                p,
                0,
            ),
        );
    }
    if !symbol_at(tokens, p, 1, &Token::OpenBrace) {
        return Err(fail_at(missing_brace_error("struct", name), p, 1));
    }
    match read_body_at(tokens, p + 2, true) {
        Ok(body) => Ok(
            (
                DataLangItem::Struct {
                    name: String::from_str(name),
                    fields: body.fields,
                    parent: body.parent,
                },
                body.next,
            ),
        ),
        Err(e) => Err(e),
    }
}

/// Reads the item that begins with the identifier `word` at position `p`.
fn read_item_at(tokens: &Vec<Token>, p: usize, word: &str) -> (r: Result<
    (DataLangItem, usize),
    Located,
>)
    requires
        p < tokens@.len(),
        token_views(tokens@)[p as int] == TokenView::Ident(word@),
    ensures
        token_step_outcome(r) == parse_item_at(token_views(tokens@), p as int),
        r matches Ok(step) ==> p < step.1 <= tokens@.len(),
        r matches Err(e) ==> e.at <= tokens@.len(),
{
    let n = tokens.len();
    if str_eq(word, "dictionary") {
        match ident_at(tokens, p, 1) {
            Some(name) => Ok((DataLangItem::Dictionary { name: String::from_str(name) }, p + 2)),
            None => Err(
                fail_at(ParseError::MissingIdentifier(String::from_str("Expected dictionary name")), p, 1),
            ),
        }
    } else if str_eq(word, "import") {
        match ident_at(tokens, p, 1) {
            Some(module) => Ok((DataLangItem::Import { module: String::from_str(module) }, p + 2)),
            None => Err(
                fail_at(
                    ParseError::MissingIdentifier(
                        String::from_str("Expected module name after import"),
                    ),
                    p,
                    1,
                ),
            ),
        }
    } else if str_eq(word, "term") {
        read_term_at(tokens, p)
    } else {
        read_entity_at(tokens, p, word)
    }
}

/// Putting `item` and then `prefix` in front of a list of items is putting
/// `prefix` with `item` at its end in front of it.
pub proof fn lemma_prepend_parsed(
    prefix: Seq<ItemView>,
    item: ItemView,
    r: Result<Seq<ItemView>, LocatedError>,
)
    ensures
        prepend_parsed(prefix, prepend_parsed(seq![item], r)) == prepend_parsed(prefix.push(item), r),
{
    match r {
        Ok(items) => {
            assert(prefix + (seq![item] + items) =~= prefix.push(item) + items);
        },
        Err(e) => {},
    }
}

impl DataLangFile {
    /// Parses a token stream into its items, in source order, or gives the
    /// first error in it and the position of the token at which it arose,
    /// as `parse_located` defines them.
    pub fn parse_located(tokens: &Vec<Token>) -> (r: Result<DataLangFile, Located>)
        ensures
            located_file_outcome(r) == parse_located(token_views(tokens@)),
            r matches Err(e) ==> e.at <= tokens@.len(),
    {
        let n = tokens.len();
        let ghost all = token_views(tokens@);
        let mut items: Vec<DataLangItem> = Vec::new();
        let mut p: usize = 0;
        proof {
            assert(item_views(items@) =~= Seq::empty());
            match parse_items_at(all, 0) {
                Ok(rest) => {
                    assert(Seq::<ItemView>::empty() + rest =~= rest);
                },
                Err(e) => {},
            }
        }
        while p < n
            invariant
                p <= n,
                n == tokens@.len(),
                all == token_views(tokens@),
                prepend_parsed(item_views(items@), parse_items_at(all, p as int)) == parse_items_at(
                    all,
                    0,
                ),
            decreases n - p,
        {
            assert(all[p as int] == tokens@[p as int]@);
            match &tokens[p] {
                Token::Ident(word) => {
                    match read_item_at(tokens, p, word.as_str()) {
                        Ok((item, next)) => {
                            let ghost before = item_views(items@);
                            items.push(item);
                            proof {
                                assert(item_views(items@) =~= before.push(item@));
                                lemma_prepend_parsed(before, item@, parse_items_at(all, next as int));
                            }
                            p = next;
                        },
                        Err(e) => {
                            return Err(e);
                        },
                    }
                },
                _ => {
                    return Err(fail_at(ParseError::UnexpectedToken(text_from(tokens, p, 0)), p, 0));
                },
            }
        }
        assert(item_views(items@) + Seq::<ItemView>::empty() =~= item_views(items@));
        Ok(DataLangFile { items })
    }

    /// Parses a token stream into its items, in source order, or gives the
    /// first error in it, as `parse_tokens` defines them.
    pub fn parse(tokens: &Vec<Token>) -> (r: Result<DataLangFile, ParseError>)
        ensures
            file_outcome(r) == parse_tokens(token_views(tokens@)),
    {
        match DataLangFile::parse_located(tokens) {
            Ok(file) => Ok(file),
            Err(located) => Err(located.error),
        }
    }
}

} // verus!
