//! The parser: from source text to the items of a file.

use crate::annotation::read_annotations;
use crate::directive::reference_outcome;
use crate::grammar::{
    after_brace, closes_on_line, find_brace, first_word_is, has_follows, has_sign,
    inline_empty_violation, is_reserved, is_skipped, line_after, missing_brace, not_a_directive,
    open_line_violation, opening_brace, parse_empty_body, parse_entity, parse_entity_body,
    parse_entity_field, parse_file, parse_inline_body, parse_item, parse_items, parse_term,
    parse_term_body, prepend_fields, prepend_items, stray_token, suggestion_for, BodyView,
    ItemStep,
};
use crate::laws::law_parsed_files_pass_validation;
use crate::lexer::lex;
use crate::text::{
    contains_char, find_char, split_whitespace, str_eq, to_chars, trimmed_lines, trimmed_lines_of,
    views, words_of,
};
use crate::token_parser::{read_body_at, text_from};
use crate::tokens::{token_views, Token};
use crate::validator::all_named;
use crate::types::{
    attribute_views, field_views, item_views, opt_view, DataLangFile, DataLangItem, ErrorView,
    FieldAttribute, FieldRefView, FieldReference, ItemView, ParseError,
};
use vstd::prelude::*;
use vstd::string::*;

verus! {

/// A parsed body: its directives, its parent and the line on which it ends.
pub struct Body {
    pub fields: Vec<FieldReference>,
    pub parent: Option<String>,
    pub end: usize,
}

impl View for Body {
    type V = BodyView;

    open spec fn view(&self) -> BodyView {
        BodyView {
            fields: field_views(self.fields@),
            parent: opt_view(self.parent),
            end: self.end as int,
        }
    }
}

/// The model of the outcome of parsing a body.
pub open spec fn body_outcome(r: Result<Body, ParseError>) -> Result<BodyView, ErrorView> {
    match r {
        Ok(b) => Ok(b@),
        Err(e) => Err(e@),
    }
}

/// The model of an optional error.
pub open spec fn opt_error_view(r: Option<ParseError>) -> Option<ErrorView> {
    match r {
        Some(e) => Some(e@),
        None => None,
    }
}

/// The model of the outcome of parsing one item.
pub open spec fn step_outcome(r: Result<(DataLangItem, usize), ParseError>) -> Result<
    ItemStep,
    ErrorView,
> {
    match r {
        Ok((item, next)) => Ok(ItemStep { item: item@, next: next as int }),
        Err(e) => Err(e@),
    }
}

/// The model of the outcome of parsing a file.
pub open spec fn file_outcome(r: Result<DataLangFile, ParseError>) -> Result<
    Seq<ItemView>,
    ErrorView,
> {
    match r {
        Ok(f) => Ok(f@),
        Err(e) => Err(e@),
    }
}

/// Putting nothing in front of a body leaves it as it is.
pub proof fn lemma_prepend_no_fields(r: Result<BodyView, ErrorView>)
    ensures
        prepend_fields(Seq::empty(), r) == r,
{
    match r {
        Ok(b) => {
            assert(Seq::<FieldRefView>::empty() + b.fields =~= b.fields);
        },
        Err(e) => {},
    }
}

/// Putting `f` and then `prefix` in front of a body is putting `prefix` with
/// `f` at its end in front of it.
pub proof fn lemma_prepend_field(
    prefix: Seq<FieldRefView>,
    f: FieldRefView,
    r: Result<BodyView, ErrorView>,
)
    ensures
        prepend_fields(prefix, prepend_fields(seq![f], r)) == prepend_fields(prefix.push(f), r),
{
    match r {
        Ok(b) => {
            assert(prefix + (seq![f] + b.fields) =~= prefix.push(f) + b.fields);
        },
        Err(e) => {},
    }
}

/// Putting `item` and then `prefix` in front of a list of items is putting
/// `prefix` with `item` at its end in front of it.
pub proof fn lemma_prepend_item(
    prefix: Seq<ItemView>,
    item: ItemView,
    r: Result<Seq<ItemView>, ErrorView>,
)
    ensures
        prepend_items(prefix, prepend_items(seq![item], r)) == prepend_items(prefix.push(item), r),
{
    match r {
        Ok(items) => {
            assert(prefix + (seq![item] + items) =~= prefix.push(item) + items);
        },
        Err(e) => {},
    }
}

fn line_is_skipped(line: &str) -> (r: bool)
    ensures
        r == is_skipped(line@),
{
    let v = to_chars(line);
    v.len() == 0 || (v.len() >= 2 && v[0] == '/' && v[1] == '/')
}

fn line_has_sign(line: &str) -> (r: bool)
    ensures
        r == has_sign(line@),
{
    let v = to_chars(line);
    v.len() > 0 && (v[0] == '+' || v[0] == '-')
}

fn begins_with_brace(word: &str) -> (r: bool)
    ensures
        r == (word@.len() > 0 && word@[0] == '{'),
{
    let v = to_chars(word);
    v.len() > 0 && v[0] == '{'
}

fn first_word_matches(line: &str, word: &str) -> (r: bool)
    ensures
        r == first_word_is(line@, word@),
{
    let words = split_whitespace(line);
    words.len() > 0 && str_eq(words[0], word)
}

fn not_a_directive_error(line: &str) -> (e: ParseError)
    ensures
        e@ == not_a_directive(line@),
{
    ParseError::InvalidFieldReference {
        field: String::from_str(line),
        reason: String::from_str("Fields must start with + (include) or - (exclude)"),
    }
}

pub(crate) fn missing_brace_error(kind: &str, name: &str) -> (e: ParseError)
    ensures
        e@ == missing_brace(kind@, name@),
{
    let mut m = String::from_str("Expected opening brace after ");
    m.append(kind);
    m.append(" ");
    m.append(name);
    ParseError::InvalidSyntax(m)
}

/// The line of the opening brace of the item on line `i`.
fn locate_brace(lines: &Vec<&str>, i: usize, allow_has: bool) -> (r: Option<usize>)
    requires
        i < lines@.len(),
    ensures
        match r {
            Some(b) => i <= b < lines@.len() && opening_brace(views(lines@), i as int, allow_has)
                == Some(b as int),
            None => opening_brace(views(lines@), i as int, allow_has) is None,
        },
{
    assert(views(lines@)[i as int] == lines@[i as int]@);
    if contains_char(lines[i], '{') {
        return Some(i);
    }
    let n = lines.len();
    let mut j: usize = i + 1;
    while j < n
        invariant
            i < j <= n,
            n == lines@.len(),
            !views(lines@)[i as int].contains('{'),
            find_brace(views(lines@), j as int, allow_has) == find_brace(
                views(lines@),
                i + 1,
                allow_has,
            ),
        decreases n - j,
    {
        let line = lines[j];
        assert(views(lines@)[j as int] == line@);
        if contains_char(line, '{') {
            return Some(j);
        }
        if line.unicode_len() == 0 || (allow_has && str_eq(line, "has")) {
            j = j + 1;
        } else {
            return None;
        }
    }
    None
}

/// Whether `has` begins one of the lines behind line `i`, up to line `b`.
fn has_between(lines: &Vec<&str>, i: usize, b: usize) -> (r: bool)
    requires
        i <= b < lines@.len(),
    ensures
        r == has_follows(views(lines@), i as int, b as int),
{
    let mut j: usize = i;
    while j < b
        invariant
            i <= j <= b < lines@.len(),
            forall|k: int| i < k <= j ==> !#[trigger] first_word_is(views(lines@)[k], "has"@),
        decreases b - j,
    {
        j = j + 1;
        assert(views(lines@)[j as int] == lines@[j as int]@);
        if first_word_matches(lines[j], "has") {
            assert(first_word_is(views(lines@)[j as int], "has"@));
            return true;
        }
    }
    false
}

/// Reads the empty body of a primitive term from line `j` on, and gives
/// the line on which it ends.
fn read_empty_body(lines: &Vec<&str>, j: usize) -> (r: Result<usize, ParseError>)
    requires
        j <= lines@.len(),
    ensures
        match r {
            Ok(end) => parse_empty_body(views(lines@), j as int) == Ok::<int, ErrorView>(end as int)
                && j <= end <= lines@.len(),
            Err(e) => parse_empty_body(views(lines@), j as int) == Err::<int, ErrorView>(e@),
        },
{
    let n = lines.len();
    let mut k: usize = j;
    while k < n
        invariant
            j <= k <= n,
            n == lines@.len(),
            parse_empty_body(views(lines@), k as int) == parse_empty_body(views(lines@), j as int),
        decreases n - k,
    {
        let line = lines[k];
        assert(views(lines@)[k as int] == line@);
        if str_eq(line, "}") {
            return Ok(k);
        }
        if !line_is_skipped(line) {
            return Err(ParseError::UnexpectedToken(String::from_str(line)));
        }
        k = k + 1;
    }
    Ok(n)
}

/// The text of `line` behind its first opening brace.
fn text_after_brace<'a>(line: &'a str) -> (r: &'a str)
    ensures
        r@ == after_brace(line@),
{
    let v = to_chars(line);
    let n = v.len();
    assert(v@.skip(0) =~= v@);
    let k = find_char(&v, 0, '{');
    if k < n {
        assert(line@.skip(k + 1) =~= line@.subrange(k + 1, n as int));
        line.substring_char(k + 1, n)
    } else {
        assert(line@.subrange(n as int, n as int) =~= Seq::<char>::empty());
        line.substring_char(n, n)
    }
}

/// The error for the token at position `p` of `tokens`, if there is one.
fn stray_token_error(tokens: &Vec<Token>, p: usize) -> (r: Option<ParseError>)
    ensures
        opt_error_view(r) == stray_token(token_views(tokens@), p as int),
{
    if p < tokens.len() {
        Some(ParseError::UnexpectedToken(text_from(tokens, p, 0)))
    } else {
        None
    }
}

/// Reads the body that stands behind the opening brace of `line`.
fn read_inline_body(line: &str, annotated: bool) -> (r: Result<Body, ParseError>)
    ensures
        body_outcome(r) == parse_inline_body(line@, annotated),
{
    let tokens = lex(text_after_brace(line));
    match read_body_at(&tokens, 0, annotated) {
        Ok(body) => match stray_token_error(&tokens, body.next) {
            Some(e) => Err(e),
            None => Ok(Body { fields: body.fields, parent: body.parent, end: 0 }),
        },
        Err(located) => Err(located.error),
    }
}

/// Checks the body of a primitive term on the line of its opening brace.
fn check_inline_empty(line: &str) -> (r: Option<ParseError>)
    ensures
        opt_error_view(r) == inline_empty_violation(line@),
{
    let tokens = lex(text_after_brace(line));
    if tokens.len() > 0 {
        assert(token_views(tokens@)[0] == tokens@[0]@);
        match &tokens[0] {
            Token::CloseBrace => stray_token_error(&tokens, 1),
            _ => Some(ParseError::UnexpectedToken(text_from(&tokens, 0, 0))),
        }
    } else {
        Some(ParseError::UnexpectedToken(text_from(&tokens, 0, 0)))
    }
}

/// Checks the line of an opening brace whose body begins on the next line.
fn check_open_line(line: &str) -> (r: Option<ParseError>)
    ensures
        opt_error_view(r) == open_line_violation(line@),
{
    let tokens = lex(text_after_brace(line));
    stray_token_error(&tokens, 0)
}

/// Whether a closing brace stands behind the opening brace of `line`.
fn line_closes(line: &str) -> (r: bool)
    ensures
        r == closes_on_line(line@),
{
    contains_char(text_after_brace(line), '}')
}

/// The line behind the body that ends on line `end`.
fn next_line(lines: &Vec<&str>, end: usize) -> (r: usize)
    ensures
        r == line_after(views(lines@), end as int),
{
    if end < lines.len() {
        end + 1
    } else {
        lines.len()
    }
}

/// Reads the body of a composite term from line `start` on.
fn read_term_body(lines: &Vec<&str>, start: usize) -> (r: Result<Body, ParseError>)
    requires
        start <= lines@.len(),
    ensures
        body_outcome(r) == parse_term_body(views(lines@), start as int),
        r matches Ok(b) ==> start <= b.end <= lines@.len(),
{
    let n = lines.len();
    let mut fields: Vec<FieldReference> = Vec::new();
    let mut j: usize = start;
    let ghost all = views(lines@);
    proof {
        assert(field_views(fields@) =~= Seq::empty());
        lemma_prepend_no_fields(parse_term_body(all, start as int));
    }
    while j < n
        invariant
            start <= j <= n,
            n == lines@.len(),
            all == views(lines@),
            prepend_fields(field_views(fields@), parse_term_body(all, j as int)) == parse_term_body(
                all,
                start as int,
            ),
        decreases n - j,
    {
        let line = lines[j];
        if str_eq(line, "}") {
            assert(field_views(fields@) + Seq::<FieldRefView>::empty() =~= field_views(fields@));
            return Ok(Body { fields, parent: None, end: j });
        }
        if line_is_skipped(line) {
            j = j + 1;
        } else if line_has_sign(line) {
            match FieldReference::parse_from_str(line) {
                Ok(f) => {
                    let ghost before = field_views(fields@);
                    fields.push(f);
                    proof {
                        assert(field_views(fields@) =~= before.push(f@));
                        lemma_prepend_field(before, f@, parse_term_body(all, j + 1));
                    }
                    j = j + 1;
                },
                Err(e) => {
                    return Err(e);
                },
            }
        } else {
            return Err(not_a_directive_error(line));
        }
    }
    assert(field_views(fields@) + Seq::<FieldRefView>::empty() =~= field_views(fields@));
    Ok(Body { fields, parent: None, end: n })
}

/// Reads the field that the text `rest` of the body line `line` declares.
fn read_entity_field(line: &str, rest: &str, attributes: Vec<FieldAttribute>) -> (r: Result<
    FieldReference,
    ParseError,
>)
    ensures
        reference_outcome(r) == parse_entity_field(line@, rest@, attribute_views(attributes@)),
{
    if line_has_sign(rest) {
        match FieldReference::parse_from_str(rest) {
            Ok(f) => Ok(
                FieldReference {
                    is_included: f.is_included,
                    namespace: f.namespace,
                    name: f.name,
                    attributes,
                },
            ),
            Err(e) => Err(e),
        }
    } else {
        let words = split_whitespace(rest);
        if words.len() == 1 {
            assert(views(words@)[0] == words@[0]@);
            Ok(
                FieldReference {
                    is_included: true,
                    namespace: None,
                    name: String::from_str(words[0]),
                    attributes,
                },
            )
        } else {
            Err(not_a_directive_error(line))
        }
    }
}

/// Reads the body of an entity from line `start` on.
fn read_entity_body(lines: &Vec<&str>, start: usize) -> (r: Result<Body, ParseError>)
    requires
        start <= lines@.len(),
    ensures
        body_outcome(r) == parse_entity_body(views(lines@), start as int, Seq::empty(), None),
        r matches Ok(b) ==> start <= b.end <= lines@.len(),
{
    let n = lines.len();
    let mut fields: Vec<FieldReference> = Vec::new();
    let mut pending: Vec<FieldAttribute> = Vec::new();
    let mut parent: Option<String> = None;
    let mut j: usize = start;
    let ghost all = views(lines@);
    proof {
        assert(field_views(fields@) =~= Seq::empty());
        assert(attribute_views(pending@) =~= Seq::empty());
        lemma_prepend_no_fields(parse_entity_body(all, start as int, Seq::empty(), None));
    }
    while j < n
        invariant
            start <= j <= n,
            n == lines@.len(),
            all == views(lines@),
            prepend_fields(
                field_views(fields@),
                parse_entity_body(all, j as int, attribute_views(pending@), opt_view(parent)),
            ) == parse_entity_body(all, start as int, Seq::empty(), None),
        decreases n - j,
    {
        let line = lines[j];
        assert(all[j as int] == line@);
        if str_eq(line, "}") {
            if pending.len() > 0 {
                return Err(
                    ParseError::InvalidSyntax(String::from_str("Expected field name after attribute")),
                );
            }
            assert(field_views(fields@) + Seq::<FieldRefView>::empty() =~= field_views(fields@));
            return Ok(Body { fields, parent, end: j });
        }
        if line_is_skipped(line) {
            j = j + 1;
        } else if first_word_matches(line, "trait") {
            let words = split_whitespace(line);
            if words.len() < 2 {
                return Err(
                    ParseError::MissingIdentifier(String::from_str("Expected parent name after trait")),
                );
            }
            if parent.is_some() || pending.len() > 0 {
                return Err(ParseError::UnexpectedToken(String::from_str(line)));
            }
            assert(views(words@)[1] == words@[1]@);
            parent = Some(String::from_str(words[1]));
            j = j + 1;
        } else {
            match read_annotations(line) {
                Err(e) => {
                    return Err(e);
                },
                Ok((attributes, rest)) => {
                    let ghost waiting = attribute_views(pending@);
                    let ghost found = attribute_views(attributes@);
                    let mut attributes = attributes;
                    pending.append(&mut attributes);
                    assert(attribute_views(pending@) =~= waiting + found);
                    if rest.unicode_len() == 0 {
                        j = j + 1;
                    } else {
                        match read_entity_field(line, rest, pending) {
                            Ok(f) => {
                                let ghost before = field_views(fields@);
                                fields.push(f);
                                pending = Vec::new();
                                proof {
                                    assert(field_views(fields@) =~= before.push(f@));
                                    assert(attribute_views(pending@) =~= Seq::empty());
                                    lemma_prepend_field(
                                        before,
                                        f@,
                                        parse_entity_body(
                                            all,
                                            j + 1,
                                            Seq::empty(),
                                            opt_view(parent),
                                        ),
                                    );
                                }
                                j = j + 1;
                            },
                            Err(e) => {
                                return Err(e);
                            },
                        }
                    }
                },
            }
        }
    }
    if pending.len() > 0 {
        return Err(ParseError::InvalidSyntax(String::from_str("Expected field name after attribute")));
    }
    assert(field_views(fields@) + Seq::<FieldRefView>::empty() =~= field_views(fields@));
    Ok(Body { fields, parent, end: j })
}

/// Whether `word` is refused as the name of an entity.
pub(crate) fn check_reserved(word: &str) -> (r: bool)
    ensures
        r == is_reserved(word@),
{
    str_eq(word, "function") || str_eq(word, "fn") || str_eq(word, "struct") || str_eq(word, "impl")
        || str_eq(word, "let") || str_eq(word, "const") || str_eq(word, "static") || str_eq(
        word,
        "use",
    ) || str_eq(word, "mod") || str_eq(word, "var") || str_eq(word, "class") || str_eq(
        word,
        "interface",
    ) || str_eq(word, "enum") || str_eq(word, "type") || str_eq(word, "pub") || str_eq(word, "priv")
        || str_eq(word, "private") || str_eq(word, "public") || str_eq(word, "return") || str_eq(
        word,
        "if",
    ) || str_eq(word, "else") || str_eq(word, "while") || str_eq(word, "for") || str_eq(
        word,
        "match",
    ) || str_eq(word, "loop") || str_eq(word, "test") || str_eq(word, "describe") || str_eq(
        word,
        "it",
    ) || str_eq(word, "expect") || str_eq(word, "assert") || str_eq(word, "should") || str_eq(
        word,
        "spec",
    )
}

/// The construct proposed in place of the refused keyword `word`.
pub(crate) fn suggest(word: &str) -> (r: Option<String>)
    ensures
        opt_view(r) == suggestion_for(word@),
{
    if str_eq(word, "function") || str_eq(word, "fn") {
        Some(String::from_str("term"))
    } else if str_eq(word, "struct") || str_eq(word, "class") || str_eq(word, "interface") {
        Some(String::from_str("term with struct-like syntax"))
    } else if str_eq(word, "enum") {
        Some(String::from_str("term with variants"))
    } else if str_eq(word, "use") {
        Some(String::from_str("import"))
    } else if str_eq(word, "type") {
        Some(String::from_str("term"))
    } else if str_eq(word, "test") || str_eq(word, "describe") || str_eq(word, "it") {
        Some(String::from_str("term"))
    } else {
        None
    }
}

/// Reads the term that begins on line `i`, whose words are `words`.
fn read_term(lines: &Vec<&str>, i: usize, words: &Vec<&str>) -> (r: Result<
    (DataLangItem, usize),
    ParseError,
>)
    requires
        i < lines@.len(),
    ensures
        step_outcome(r) == parse_term(views(lines@), i as int, views(words@)),
        r matches Ok(step) ==> i < step.1 <= lines@.len(),
{
    if words.len() < 2 {
        return Err(ParseError::MissingIdentifier(String::from_str("Expected term name")));
    }
    assert(views(words@)[1] == words@[1]@);
    let same_line_has = if words.len() > 2 {
        assert(views(words@)[2] == words@[2]@);
        let found_has = str_eq(words[2], "has");
        if !found_has && !begins_with_brace(words[2]) {
            return Err(
                ParseError::InvalidSyntax(
                    String::from_str("Expected 'has' keyword or opening brace after term name"),
                ),
            );
        }
        found_has
    } else {
        false
    };
    let name = words[1];
    let n = lines.len();
    match locate_brace(lines, i, true) {
        None => Err(missing_brace_error("term", name)),
        Some(b) => {
            let composite = same_line_has || has_between(lines, i, b);
            let brace_line = lines[b];
            assert(views(lines@)[b as int] == brace_line@);
            if line_closes(brace_line) {
                if composite {
                    match read_inline_body(brace_line, false) {
                        Ok(body) => Ok(
                            (
                                DataLangItem::Term {
                                    name: String::from_str(name),
                                    fields: body.fields,
                                },
                                next_line(lines, b),
                            ),
                        ),
                        Err(e) => Err(e),
                    }
                } else {
                    match check_inline_empty(brace_line) {
                        Some(e) => Err(e),
                        None => Ok((empty_term(name), next_line(lines, b))),
                    }
                }
            } else {
                match check_open_line(brace_line) {
                    Some(e) => {
                        return Err(e);
                    },
                    None => {},
                }
                if composite {
                    match read_term_body(lines, b + 1) {
                        Ok(body) => {
                            let next = next_line(lines, body.end);
                            Ok(
                                (
                                    DataLangItem::Term {
                                        name: String::from_str(name),
                                        fields: body.fields,
                                    },
                                    next,
                                ),
                            )
                        },
                        Err(e) => Err(e),
                    }
                } else {
                    match read_empty_body(lines, b + 1) {
                        Ok(end) => Ok((empty_term(name), next_line(lines, end))),
                        Err(e) => Err(e),
                    }
                }
            }
        },
    }
}

/// The primitive term named `name`.
fn empty_term(name: &str) -> (item: DataLangItem)
    ensures
        item@ == (ItemView::Term { name: name@, fields: Seq::empty() }),
{
    let item = DataLangItem::Term { name: String::from_str(name), fields: Vec::new() };
    assert(field_views(Seq::<FieldReference>::empty()) =~= Seq::empty());
    item
}

/// Reads the entity that begins on line `i`, whose words are `words`.
fn read_entity(lines: &Vec<&str>, i: usize, words: &Vec<&str>) -> (r: Result<
    (DataLangItem, usize),
    ParseError,
>)
    requires
        i < lines@.len(),
        words@.len() > 0,
    ensures
        step_outcome(r) == parse_entity(views(lines@), i as int, views(words@)),
        r matches Ok(step) ==> i < step.1 <= lines@.len(),
{
    assert(views(words@)[0] == words@[0]@);
    let name = words[0];
    if check_reserved(name) {
        return Err(
            ParseError::InvalidKeyword { keyword: String::from_str(name), suggestion: suggest(name) },
        );
    }
    let n = lines.len();
    match locate_brace(lines, i, false) {
        None => Err(missing_brace_error("struct", name)),
        Some(b) => {
            let brace_line = lines[b];
            assert(views(lines@)[b as int] == brace_line@);
            if line_closes(brace_line) {
                match read_inline_body(brace_line, true) {
                    Ok(body) => Ok(
                        (
                            DataLangItem::Struct {
                                name: String::from_str(name),
                                fields: body.fields,
                                parent: body.parent,
                            },
                            next_line(lines, b),
                        ),
                    ),
                    Err(e) => Err(e),
                }
            } else {
                match check_open_line(brace_line) {
                    Some(e) => {
                        return Err(e);
                    },
                    None => {},
                }
                match read_entity_body(lines, b + 1) {
                    Ok(body) => {
                        let next = next_line(lines, body.end);
                        Ok(
                            (
                                DataLangItem::Struct {
                                    name: String::from_str(name),
                                    fields: body.fields,
                                    parent: body.parent,
                                },
                                next,
                            ),
                        )
                    },
                    Err(e) => Err(e),
                }
            }
        },
    }
}

/// Reads the item that begins on line `i`, whose words are `words`.
fn read_item(lines: &Vec<&str>, i: usize, words: &Vec<&str>) -> (r: Result<
    (DataLangItem, usize),
    ParseError,
>)
    requires
        i < lines@.len(),
        words@.len() > 0,
        views(words@) == words_of(views(lines@)[i as int]),
    ensures
        step_outcome(r) == parse_item(views(lines@), i as int),
        r matches Ok(step) ==> i < step.1 <= lines@.len(),
{
    assert(views(words@)[0] == words@[0]@);
    if words.len() >= 2 {
        assert(views(words@)[1] == words@[1]@);
    }
    let keyword = words[0];
    let n = lines.len();
    if str_eq(keyword, "dictionary") {
        if words.len() < 2 {
            Err(ParseError::MissingIdentifier(String::from_str("Expected dictionary name")))
        } else {
            Ok((DataLangItem::Dictionary { name: String::from_str(words[1]) }, i + 1))
        }
    } else if str_eq(keyword, "import") {
        if words.len() < 2 {
            Err(ParseError::MissingIdentifier(String::from_str("Expected module name after import")))
        } else {
            Ok((DataLangItem::Import { module: String::from_str(words[1]) }, i + 1))
        }
    } else if str_eq(keyword, "term") {
        read_term(lines, i, words)
    } else {
        read_entity(lines, i, words)
    }
}

impl DataLangFile {
    /// Parses a source text into its items, in source order, or reports the
    /// first error in it, as `parse_file` defines them. Every item of a
    /// parsed file has a name, so a parsed file passes validation.
    pub fn parse_from_str(input: &str) -> (r: Result<DataLangFile, ParseError>)
        ensures
            file_outcome(r) == parse_file(input@),
            r matches Ok(f) ==> all_named(f@),
    {
        proof {
            law_parsed_files_pass_validation(input@);
        }
        let lines = trimmed_lines(input);
        let n = lines.len();
        let ghost all = views(lines@);
        let mut items: Vec<DataLangItem> = Vec::new();
        let mut i: usize = 0;
        proof {
            assert(item_views(items@) =~= Seq::empty());
            match parse_items(all, 0) {
                Ok(rest) => {
                    assert(Seq::<ItemView>::empty() + rest =~= rest);
                },
                Err(e) => {},
            }
        }
        while i < n
            invariant
                i <= n,
                n == lines@.len(),
                all == views(lines@),
                all == trimmed_lines_of(input@),
                prepend_items(item_views(items@), parse_items(all, i as int)) == parse_items(all, 0),
            decreases n - i,
        {
            let line = lines[i];
            assert(all[i as int] == line@);
            if line_is_skipped(line) {
                i = i + 1;
            } else {
                let words = split_whitespace(line);
                if words.len() == 0 {
                    i = i + 1;
                } else {
                    match read_item(&lines, i, &words) {
                        Ok((item, next)) => {
                            let ghost before = item_views(items@);
                            items.push(item);
                            proof {
                                assert(item_views(items@) =~= before.push(item@));
                                lemma_prepend_item(before, item@, parse_items(all, next as int));
                            }
                            i = next;
                        },
                        Err(e) => {
                            return Err(e);
                        },
                    }
                }
            }
        }
        assert(item_views(items@) + Seq::<ItemView>::empty() =~= item_views(items@));
        Ok(DataLangFile { items })
    }
}

} // verus!
