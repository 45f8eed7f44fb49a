//! The grammar of a DataLang file, stated over its trimmed lines.
//!
//! A file is a list of items. Each item begins on a line of its own, with the
//! word `dictionary`, `import` or `term`, or with the name of an entity. A
//! term or an entity has a body between braces: on the lines behind the
//! opening brace, one directive per line, or on the line of the opening
//! brace, up to a closing brace on that line.

use crate::annotation::split_annotations;
use crate::directive::parse_field_reference;
use crate::lexer::tokens_of;
use crate::text::{index_of, trimmed_lines_of, words_of};
use crate::tokens::{is_at, parse_body_at, text_at, TokenView};
use crate::types::{AttributeView, ErrorView, FieldRefView, ItemView};
use vstd::prelude::*;

verus! {

/// Whether a line holds nothing, or nothing but a comment.
pub open spec fn is_skipped(line: Seq<char>) -> bool {
    line.len() == 0 || (line.len() >= 2 && line[0] == '/' && line[1] == '/')
}

/// Whether a line begins with the sign of a directive.
pub open spec fn has_sign(line: Seq<char>) -> bool {
    line.len() > 0 && (line[0] == '+' || line[0] == '-')
}

/// Whether the first word of a line is `word`.
pub open spec fn first_word_is(line: Seq<char>, word: Seq<char>) -> bool {
    words_of(line).len() > 0 && words_of(line)[0] == word
}

/// Whether `word` is a keyword of another language that DataLang refuses as
/// the name of an entity.
pub open spec fn is_reserved(word: Seq<char>) -> bool {
    ||| word == "function"@
    ||| word == "fn"@
    ||| word == "struct"@
    ||| word == "impl"@
    ||| word == "let"@
    ||| word == "const"@
    ||| word == "static"@
    ||| word == "use"@
    ||| word == "mod"@
    ||| word == "var"@
    ||| word == "class"@
    ||| word == "interface"@
    ||| word == "enum"@
    ||| word == "type"@
    ||| word == "pub"@
    ||| word == "priv"@
    ||| word == "private"@
    ||| word == "public"@
    ||| word == "return"@
    ||| word == "if"@
    ||| word == "else"@
    ||| word == "while"@
    ||| word == "for"@
    ||| word == "match"@
    ||| word == "loop"@
    ||| word == "test"@
    ||| word == "describe"@
    ||| word == "it"@
    ||| word == "expect"@
    ||| word == "assert"@
    ||| word == "should"@
    ||| word == "spec"@
}

/// The DataLang construct proposed in place of a refused keyword.
pub open spec fn suggestion_for(word: Seq<char>) -> Option<Seq<char>> {
    if word == "function"@ || word == "fn"@ {
        Some("term"@)
    } else if word == "struct"@ || word == "class"@ || word == "interface"@ {
        Some("term with struct-like syntax"@)
    } else if word == "enum"@ {
        Some("term with variants"@)
    } else if word == "use"@ {
        Some("import"@)
    } else if word == "type"@ {
        Some("term"@)
    } else if word == "test"@ || word == "describe"@ || word == "it"@ {
        Some("term"@)
    } else {
        None
    }
}

/// The line that holds the opening brace of the item that begins on line
/// `start`, searched from line `j` on. Empty lines may stand in between, and
/// where `allow_has` is set, lines that hold the word `has` alone.
pub open spec fn find_brace(lines: Seq<Seq<char>>, j: int, allow_has: bool) -> Option<int>
    decreases lines.len() - j,
{
    if j < 0 || j >= lines.len() {
        None
    } else if lines[j].contains('{') {
        Some(j)
    } else if lines[j].len() == 0 || (allow_has && lines[j] == "has"@) {
        find_brace(lines, j + 1, allow_has)
    } else {
        None
    }
}

/// The line that holds the opening brace of the item on line `i`: that line
/// itself where it holds a brace, else the next line that does.
pub open spec fn opening_brace(lines: Seq<Seq<char>>, i: int, allow_has: bool) -> Option<int> {
    if lines[i].contains('{') {
        Some(i)
    } else {
        find_brace(lines, i + 1, allow_has)
    }
}

/// Whether the word `has` begins one of the lines behind line `i`, up to and
/// with line `b`.
pub open spec fn has_follows(lines: Seq<Seq<char>>, i: int, b: int) -> bool {
    exists|j: int| i < j <= b && j < lines.len() && #[trigger] first_word_is(lines[j], "has"@)
}

/// The body of a primitive term, from line `j` on, which holds nothing: the
/// line of its closing brace, or the number of lines where the source ends
/// without one. Empty lines and comments do not count; any other line is an
/// error.
pub open spec fn parse_empty_body(lines: Seq<Seq<char>>, j: int) -> Result<int, ErrorView>
    decreases lines.len() - j,
{
    if j < 0 || j >= lines.len() {
        Ok(lines.len() as int)
    } else if lines[j] == "}"@ {
        Ok(j)
    } else if is_skipped(lines[j]) {
        parse_empty_body(lines, j + 1)
    } else {
        Err(ErrorView::UnexpectedToken(lines[j]))
    }
}

/// The text of a line behind its first opening brace.
pub open spec fn after_brace(line: Seq<char>) -> Seq<char> {
    let k = index_of(line, '{');
    if 0 <= k < line.len() {
        line.skip(k + 1)
    } else {
        Seq::empty()
    }
}

/// Whether a body ends on the line on which it begins: a closing brace
/// stands behind the opening brace.
pub open spec fn closes_on_line(line: Seq<char>) -> bool {
    after_brace(line).contains('}')
}

/// The error for text that stands where none may: the first token of
/// `tokens` from position `p` on, if there is one.
pub open spec fn stray_token(tokens: Seq<TokenView>, p: int) -> Option<ErrorView> {
    if 0 <= p < tokens.len() {
        Some(ErrorView::UnexpectedToken(text_at(tokens, p)))
    } else {
        None
    }
}

/// The body that stands on the line of its opening brace, read token by
/// token up to its closing brace, behind which nothing may follow but a
/// comment. Where `annotated` is set the body is that of an entity.
pub open spec fn parse_inline_body(line: Seq<char>, annotated: bool) -> Result<BodyView, ErrorView> {
    let tokens = tokens_of(after_brace(line));
    match parse_body_at(tokens, 0, annotated, Seq::empty(), None) {
        Ok(body) => match stray_token(tokens, body.next) {
            Some(e) => Err(e),
            None => Ok(BodyView { fields: body.fields, parent: body.parent, end: 0 }),
        },
        Err(located) => Err(located.error),
    }
}

/// What is wrong with the body of a primitive term on the line of its
/// opening brace: it holds a token, or one follows the closing brace.
pub open spec fn inline_empty_violation(line: Seq<char>) -> Option<ErrorView> {
    let tokens = tokens_of(after_brace(line));
    if is_at(tokens, 0, TokenView::CloseBrace) {
        stray_token(tokens, 1)
    } else {
        Some(ErrorView::UnexpectedToken(text_at(tokens, 0)))
    }
}

/// What is wrong with the line of an opening brace whose body begins on the
/// next line: a token stands behind the brace.
pub open spec fn open_line_violation(line: Seq<char>) -> Option<ErrorView> {
    stray_token(tokens_of(after_brace(line)), 0)
}

/// The line on which parsing goes on behind a body that ends on line `end`.
pub open spec fn line_after(lines: Seq<Seq<char>>, end: int) -> int {
    if end < lines.len() {
        end + 1
    } else {
        lines.len() as int
    }
}

/// The body of a term or an entity.
pub ghost struct BodyView {
    /// The directives, in source order.
    pub fields: Seq<FieldRefView>,
    /// The parent named by a `trait` line, if any.
    pub parent: Option<Seq<char>>,
    /// The line of the closing brace, or the number of lines.
    pub end: int,
}

/// `r` with the directives `prefix` in front of its own.
pub open spec fn prepend_fields(prefix: Seq<FieldRefView>, r: Result<BodyView, ErrorView>) -> Result<
    BodyView,
    ErrorView,
> {
    match r {
        Ok(body) => Ok(BodyView { fields: prefix + body.fields, ..body }),
        Err(e) => Err(e),
    }
}

/// The error for a body line that is no directive.
pub open spec fn not_a_directive(line: Seq<char>) -> ErrorView {
    ErrorView::InvalidFieldReference {
        field: line,
        reason: "Fields must start with + (include) or - (exclude)"@,
    }
}

/// The body of a composite term, from line `j` on: directives up to the line
/// that holds a closing brace alone. Empty lines and comments do not count;
/// any other line that is no directive is an error.
pub open spec fn parse_term_body(lines: Seq<Seq<char>>, j: int) -> Result<BodyView, ErrorView>
    decreases lines.len() - j,
{
    if j < 0 || j >= lines.len() {
        Ok(BodyView { fields: Seq::empty(), parent: None, end: lines.len() as int })
    } else if lines[j] == "}"@ {
        Ok(BodyView { fields: Seq::empty(), parent: None, end: j })
    } else if is_skipped(lines[j]) {
        parse_term_body(lines, j + 1)
    } else if has_sign(lines[j]) {
        match parse_field_reference(lines[j]) {
            Ok(f) => prepend_fields(seq![f], parse_term_body(lines, j + 1)),
            Err(e) => Err(e),
        }
    } else {
        Err(not_a_directive(lines[j]))
    }
}

/// The field that the text `rest` of a body line declares, with the
/// annotations `attributes` in front of it: a directive, or a bare name,
/// which is included.
pub open spec fn parse_entity_field(
    line: Seq<char>,
    rest: Seq<char>,
    attributes: Seq<AttributeView>,
) -> Result<FieldRefView, ErrorView> {
    if has_sign(rest) {
        match parse_field_reference(rest) {
            Ok(f) => Ok(FieldRefView { attributes, ..f }),
            Err(e) => Err(e),
        }
    } else if words_of(rest).len() == 1 {
        Ok(FieldRefView { is_included: true, namespace: None, name: words_of(rest)[0], attributes })
    } else {
        Err(not_a_directive(line))
    }
}

/// The body of an entity, from line `j` on. Besides directives it may hold
/// bare field names, annotations in front of a field, on its line or on the
/// lines above it, and one `trait` line that names a parent. `pending` are
/// the annotations read so far that wait for their field.
pub open spec fn parse_entity_body(
    lines: Seq<Seq<char>>,
    j: int,
    pending: Seq<AttributeView>,
    parent: Option<Seq<char>>,
) -> Result<BodyView, ErrorView>
    decreases lines.len() - j,
{
    if j < 0 || j >= lines.len() || lines[j] == "}"@ {
        if pending.len() > 0 {
            Err(ErrorView::InvalidSyntax("Expected field name after attribute"@))
        } else {
            Ok(
                BodyView {
                    fields: Seq::empty(),
                    parent,
                    end: if 0 <= j < lines.len() {
                        j
                    } else {
                        lines.len() as int
                    },
                },
            )
        }
    } else if is_skipped(lines[j]) {
        parse_entity_body(lines, j + 1, pending, parent)
    } else if first_word_is(lines[j], "trait"@) {
        if words_of(lines[j]).len() < 2 {
            Err(ErrorView::MissingIdentifier("Expected parent name after trait"@))
        } else if parent is Some || pending.len() > 0 {
            Err(ErrorView::UnexpectedToken(lines[j]))
        } else {
            parse_entity_body(lines, j + 1, pending, Some(words_of(lines[j])[1]))
        }
    } else {
        match split_annotations(lines[j]) {
            Err(e) => Err(e),
            Ok((attributes, rest)) => if rest.len() == 0 {
                parse_entity_body(lines, j + 1, pending + attributes, parent)
            } else {
                match parse_entity_field(lines[j], rest, pending + attributes) {
                    Ok(f) => prepend_fields(
                        seq![f],
                        parse_entity_body(lines, j + 1, Seq::empty(), parent),
                    ),
                    Err(e) => Err(e),
                }
            },
        }
    }
}

/// An item and the line on which parsing goes on behind it.
pub ghost struct ItemStep {
    pub item: ItemView,
    pub next: int,
}

/// The error for an item whose opening brace is missing.
pub open spec fn missing_brace(kind: Seq<char>, name: Seq<char>) -> ErrorView {
    ErrorView::InvalidSyntax("Expected opening brace after "@ + kind + " "@ + name)
}

/// The term that begins on line `i`, whose words are `words`.
pub open spec fn parse_term(lines: Seq<Seq<char>>, i: int, words: Seq<Seq<char>>) -> Result<
    ItemStep,
    ErrorView,
> {
    if words.len() < 2 {
        Err(ErrorView::MissingIdentifier("Expected term name"@))
    } else if words.len() > 2 && words[2] != "has"@ && !(words[2].len() > 0 && words[2][0] == '{') {
        Err(ErrorView::InvalidSyntax("Expected 'has' keyword or opening brace after term name"@))
    } else {
        let name = words[1];
        match opening_brace(lines, i, true) {
            None => Err(missing_brace("term"@, name)),
            Some(b) => {
                let composite = (words.len() > 2 && words[2] == "has"@) || has_follows(lines, i, b);
                if closes_on_line(lines[b]) {
                    if composite {
                        match parse_inline_body(lines[b], false) {
                            Ok(body) => Ok(
                                ItemStep {
                                    item: ItemView::Term { name, fields: body.fields },
                                    next: line_after(lines, b),
                                },
                            ),
                            Err(e) => Err(e),
                        }
                    } else {
                        match inline_empty_violation(lines[b]) {
                            Some(e) => Err(e),
                            None => Ok(
                                ItemStep {
                                    item: ItemView::Term { name, fields: Seq::empty() },
                                    next: line_after(lines, b),
                                },
                            ),
                        }
                    }
                } else if open_line_violation(lines[b]) is Some {
                    Err(open_line_violation(lines[b])->0)
                } else if composite {
                    match parse_term_body(lines, b + 1) {
                        Ok(body) => Ok(
                            ItemStep {
                                item: ItemView::Term { name, fields: body.fields },
                                next: line_after(lines, body.end),
                            },
                        ),
                        Err(e) => Err(e),
                    }
                } else {
                    match parse_empty_body(lines, b + 1) {
                        Ok(end) => Ok(
                            ItemStep {
                                item: ItemView::Term { name, fields: Seq::empty() },
                                next: line_after(lines, end),
                            },
                        ),
                        Err(e) => Err(e),
                    }
                }
            },
        }
    }
}

/// The entity that begins on line `i`, whose words are `words`.
pub open spec fn parse_entity(lines: Seq<Seq<char>>, i: int, words: Seq<Seq<char>>) -> Result<
    ItemStep,
    ErrorView,
> {
    let name = words[0];
    if is_reserved(name) {
        Err(ErrorView::InvalidKeyword { keyword: name, suggestion: suggestion_for(name) })
    } else {
        match opening_brace(lines, i, false) {
            None => Err(missing_brace("struct"@, name)),
            Some(b) => if closes_on_line(lines[b]) {
                match parse_inline_body(lines[b], true) {
                    Ok(body) => Ok(
                        ItemStep {
                            item: ItemView::Struct { name, fields: body.fields, parent: body.parent },
                            next: line_after(lines, b),
                        },
                    ),
                    Err(e) => Err(e),
                }
            } else if open_line_violation(lines[b]) is Some {
                Err(open_line_violation(lines[b])->0)
            } else {
                match parse_entity_body(lines, b + 1, Seq::empty(), None) {
                    Ok(body) => Ok(
                        ItemStep {
                            item: ItemView::Struct { name, fields: body.fields, parent: body.parent },
                            next: line_after(lines, body.end),
                        },
                    ),
                    Err(e) => Err(e),
                }
            },
        }
    }
}

/// The item that begins on line `i`, a line with at least one word.
pub open spec fn parse_item(lines: Seq<Seq<char>>, i: int) -> Result<ItemStep, ErrorView> {
    let words = words_of(lines[i]);
    if words[0] == "dictionary"@ {
        if words.len() < 2 {
            Err(ErrorView::MissingIdentifier("Expected dictionary name"@))
        } else {
            Ok(ItemStep { item: ItemView::Dictionary { name: words[1] }, next: i + 1 })
        }
    } else if words[0] == "import"@ {
        if words.len() < 2 {
            Err(ErrorView::MissingIdentifier("Expected module name after import"@))
        } else {
            Ok(ItemStep { item: ItemView::Import { module: words[1] }, next: i + 1 })
        }
    } else if words[0] == "term"@ {
        parse_term(lines, i, words)
    } else {
        parse_entity(lines, i, words)
    }
}

/// `r` with the items `prefix` in front of its own.
pub open spec fn prepend_items(prefix: Seq<ItemView>, r: Result<Seq<ItemView>, ErrorView>) -> Result<
    Seq<ItemView>,
    ErrorView,
> {
    match r {
        Ok(items) => Ok(prefix + items),
        Err(e) => Err(e),
    }
}

/// The items that begin on line `i` or behind it. The first error ends
/// parsing.
pub open spec fn parse_items(lines: Seq<Seq<char>>, i: int) -> Result<Seq<ItemView>, ErrorView>
    decreases lines.len() - i,
{
    if i < 0 || i >= lines.len() {
        Ok(Seq::empty())
    } else if is_skipped(lines[i]) || words_of(lines[i]).len() == 0 {
        parse_items(lines, i + 1)
    } else {
        match parse_item(lines, i) {
            Ok(step) => if i < step.next {
                prepend_items(seq![step.item], parse_items(lines, step.next))
            } else {
                Ok(seq![step.item])
            },
            Err(e) => Err(e),
        }
    }
}

/// The items of a source text, or the first error in it.
pub open spec fn parse_file(input: Seq<char>) -> Result<Seq<ItemView>, ErrorView> {
    parse_items(trimmed_lines_of(input), 0)
}

} // verus!
