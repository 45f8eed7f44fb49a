//! What holds of the compiler on every input.

use crate::constraint::{decimal_of, lemma_limit_of_decimal};
use crate::emitter::{
    attribute_limit, check_failure, checks_of, definition_of, field_checks, field_names,
    LengthCheckView, TypeDefinitionView,
};
use crate::grammar::{
    after_brace, closes_on_line, find_brace, has_follows, has_sign, inline_empty_violation,
    is_skipped, open_line_violation, opening_brace, parse_file, parse_item, parse_items,
    parse_term, parse_term_body, ItemStep,
};
use crate::lexer::tokens_of;
use crate::tokens::TokenView;
use crate::resolver::{has_field, lowercase, resolve, without, ResolvedFieldView};
use crate::schema::{
    compile_text, entities_of, entity_of, notices_of, primitive_fields, EntityView, SchemaView,
};
use crate::text::{
    is_space, lemma_index_of, lemma_one_line, lemma_trimmed_keeps, lemma_words_behind_space,
    lemma_words_are_not_empty, lemma_words_first, trimmed_lines_of, words_of,
};
use crate::types::{AttributeView, ErrorView, FieldRefView, ItemView};
use crate::validator::{
    all_named, declares, duplicate_violation, entity_name, fields_violation, first_body_violation,
    first_violation, item_name, lemma_named, name_violation,
};
use vstd::prelude::*;

verus! {

/// Whether the names of `fields` are pairwise different.
pub open spec fn names_are_unique(fields: Seq<ResolvedFieldView>) -> bool {
    forall|i: int, j: int|
        0 <= i < j < fields.len() ==> (#[trigger] fields[i]).name != (#[trigger] fields[j]).name
}

/// Removing a name leaves no field of that name.
pub proof fn lemma_without_removes(fields: Seq<ResolvedFieldView>, name: Seq<char>)
    ensures
        !has_field(without(fields, name), name),
    decreases fields.len(),
{
    if fields.len() > 0 {
        let rest = without(fields.drop_last(), name);
        let out = without(fields, name);
        lemma_without_removes(fields.drop_last(), name);
        if has_field(out, name) {
            let i = choose|i: int| 0 <= i < out.len() && (#[trigger] out[i]).name == name;
            if i < rest.len() {
                assert(rest[i].name == name);
            }
        }
    }
}

/// Removing a name leaves the fields of every other name.
pub proof fn lemma_without_keeps(fields: Seq<ResolvedFieldView>, name: Seq<char>, other: Seq<char>)
    requires
        other != name,
    ensures
        has_field(without(fields, name), other) <==> has_field(fields, other),
    decreases fields.len(),
{
    if fields.len() > 0 {
        let front = fields.drop_last();
        let rest = without(front, name);
        let out = without(fields, name);
        lemma_without_keeps(front, name, other);
        if has_field(out, other) {
            let i = choose|i: int| 0 <= i < out.len() && (#[trigger] out[i]).name == other;
            if i < rest.len() {
                assert(rest[i].name == other);
                let k = choose|k: int| 0 <= k < front.len() && (#[trigger] front[k]).name == other;
                assert(fields[k].name == other);
            } else {
                assert(fields[fields.len() - 1].name == other);
            }
        }
        if has_field(fields, other) {
            let k = choose|k: int| 0 <= k < fields.len() && (#[trigger] fields[k]).name == other;
            if k < front.len() {
                assert(front[k].name == other);
                let i = choose|i: int| 0 <= i < rest.len() && (#[trigger] rest[i]).name == other;
                assert(out[i].name == other);
            } else {
                assert(out[out.len() - 1].name == other);
            }
        }
    }
}

/// Removing a name from fields of pairwise different names leaves fields of
/// pairwise different names.
pub proof fn lemma_without_unique(fields: Seq<ResolvedFieldView>, name: Seq<char>)
    requires
        names_are_unique(fields),
    ensures
        names_are_unique(without(fields, name)),
    decreases fields.len(),
{
    if fields.len() > 0 {
        let front = fields.drop_last();
        let last = fields.last();
        let rest = without(front, name);
        let out = without(fields, name);
        assert(names_are_unique(front)) by {
            assert forall|i: int, j: int| 0 <= i < j < front.len() implies (#[trigger] front[i]).name
                != (#[trigger] front[j]).name by {
                assert(fields[i].name != fields[j].name);
            }
        }
        lemma_without_unique(front, name);
        if last.name != name {
            assert forall|i: int, j: int| 0 <= i < j < out.len() implies (#[trigger] out[i]).name
                != (#[trigger] out[j]).name by {
                if j < rest.len() {
                    assert(rest[i].name != rest[j].name);
                } else if out[i].name == last.name {
                    assert(rest[i].name == last.name);
                    lemma_without_keeps(front, name, last.name);
                    let k = choose|k: int|
                        0 <= k < front.len() && (#[trigger] front[k]).name == last.name;
                    assert(fields[k].name == fields[fields.len() - 1].name);
                }
            }
        }
    }
}

/// No two of the final fields of an entity have the same name.
pub proof fn law_resolved_names_are_unique(directives: Seq<FieldRefView>)
    ensures
        names_are_unique(resolve(directives)),
    decreases directives.len(),
{
    if directives.len() > 0 {
        let before = resolve(directives.drop_last());
        let f = directives.last();
        let name = lowercase(f.name);
        law_resolved_names_are_unique(directives.drop_last());
        lemma_without_unique(before, name);
        if f.is_included && !has_field(before, name) {
            let out = before.push(ResolvedFieldView { name, constraints: f.attributes });
            assert forall|i: int, j: int| 0 <= i < j < out.len() implies (#[trigger] out[i]).name
                != (#[trigger] out[j]).name by {
                if j < before.len() {
                    assert(before[i].name != before[j].name);
                } else {
                    if out[i].name == name {
                        assert(before[i].name == name);
                    }
                }
            }
        }
    }
}

/// A field is among the final fields of an entity if and only if a
/// directive includes it and no later directive excludes it: behind an
/// inclusion the field is there, behind an exclusion it is not, and a
/// directive on another name changes nothing about it.
pub proof fn law_last_directive_decides(directives: Seq<FieldRefView>, f: FieldRefView)
    ensures
        f.is_included ==> has_field(resolve(directives.push(f)), lowercase(f.name)),
        !f.is_included ==> !has_field(resolve(directives.push(f)), lowercase(f.name)),
        forall|other: Seq<char>|
            other != lowercase(f.name) ==> (has_field(resolve(directives.push(f)), other)
                <==> has_field(resolve(directives), other)),
{
    let all = directives.push(f);
    assert(all.drop_last() =~= directives);
    assert(all.last() == f);
    let before = resolve(directives);
    let name = lowercase(f.name);
    let after = resolve(all);
    lemma_without_removes(before, name);
    assert forall|other: Seq<char>| other != name implies (has_field(without(before, name), other)
        <==> has_field(before, other)) by {
        lemma_without_keeps(before, name, other);
    }
    if f.is_included && !has_field(before, name) {
        let added = ResolvedFieldView { name, constraints: f.attributes };
        assert(after == before.push(added));
        assert(after[after.len() - 1].name == name);
        assert forall|other: Seq<char>| other != name implies (has_field(after, other) <==> has_field(
            before,
            other,
        )) by {
            if has_field(after, other) {
                let i = choose|i: int| 0 <= i < after.len() && (#[trigger] after[i]).name == other;
                assert(before[i].name == other);
            }
            if has_field(before, other) {
                let i = choose|i: int| 0 <= i < before.len() && (#[trigger] before[i]).name == other;
                assert(after[i].name == other);
            }
        }
    }
}

/// The order of directives counts. Including a field, excluding it and
/// including it again leaves the field; including it twice leaves it once;
/// excluding it without an inclusion before leaves nothing and is no error.
pub proof fn law_order_of_directives(plus: FieldRefView, minus: FieldRefView)
    requires
        plus.is_included,
        !minus.is_included,
        plus.name == minus.name,
    ensures
        resolve(seq![plus, minus, plus]) == seq![
            ResolvedFieldView { name: lowercase(plus.name), constraints: plus.attributes },
        ],
        resolve(seq![plus, plus]) == seq![
            ResolvedFieldView { name: lowercase(plus.name), constraints: plus.attributes },
        ],
        resolve(seq![minus]) == Seq::<ResolvedFieldView>::empty(),
{
    let name = lowercase(plus.name);
    let field = ResolvedFieldView { name, constraints: plus.attributes };
    let none = Seq::<FieldRefView>::empty();
    let nothing = Seq::<ResolvedFieldView>::empty();
    assert(resolve(none) == nothing);
    // one inclusion
    assert(seq![plus].drop_last() =~= none);
    assert(!has_field(nothing, name));
    assert(resolve(seq![plus]) =~= seq![field]);
    // one exclusion
    assert(seq![minus].drop_last() =~= none);
    assert(without(nothing, name) =~= nothing);
    assert(resolve(seq![minus]) =~= nothing);
    // two inclusions
    assert(seq![plus, plus].drop_last() =~= seq![plus]);
    assert(seq![field][0].name == name);
    assert(has_field(seq![field], name));
    assert(resolve(seq![plus, plus]) =~= seq![field]);
    // inclusion, exclusion
    assert(seq![plus, minus].drop_last() =~= seq![plus]);
    assert(seq![field].drop_last() =~= nothing);
    assert(without(seq![field], name) =~= nothing);
    assert(resolve(seq![plus, minus]) =~= nothing);
    // inclusion, exclusion, inclusion
    assert(seq![plus, minus, plus].drop_last() =~= seq![plus, minus]);
    assert(resolve(seq![plus, minus, plus]) =~= seq![field]);
}

/// No two fields of a resolved entity have the same name, whatever item the
/// entity stands for.
pub proof fn law_entity_names_are_unique(item: ItemView)
    ensures
        entity_of(item) matches Some(e) ==> names_are_unique(e.fields),
{
    match item {
        ItemView::Term { name, fields } => {
            law_resolved_names_are_unique(fields);
        },
        ItemView::Struct { name, fields, parent } => {
            law_resolved_names_are_unique(fields);
        },
        _ => {},
    }
}

/// Whether an item has a name, and its directives name their fields.
pub open spec fn item_is_well_formed(item: ItemView) -> bool {
    match item {
        ItemView::Dictionary { name } => name.len() > 0,
        ItemView::Import { module } => module.len() > 0,
        ItemView::Term { name, fields } => name.len() > 0 && forall|i: int|
            0 <= i < fields.len() ==> (#[trigger] fields[i]).well_formed(),
        ItemView::Struct { name, fields, parent } => name.len() > 0 && forall|i: int|
            0 <= i < fields.len() ==> (#[trigger] fields[i]).well_formed(),
    }
}

/// Directives that pass the check on directives name their fields.
pub proof fn lemma_valid_fields(entity: Seq<char>, fields: Seq<FieldRefView>)
    requires
        fields_violation(entity, fields) is None,
    ensures
        forall|i: int| 0 <= i < fields.len() ==> (#[trigger] fields[i]).well_formed(),
    decreases fields.len(),
{
    if fields.len() > 0 {
        let rest = fields.drop_first();
        lemma_valid_fields(entity, rest);
        assert forall|i: int| 0 <= i < fields.len() implies (#[trigger] fields[i]).well_formed() by {
            if i > 0 {
                assert(fields[i] == rest[i - 1]);
            }
        }
    }
}

/// In a file that passes validation and the checks on directives and on
/// shared names, every item has a name, every directive names its field,
/// and no two entities have the same name.
pub proof fn law_checked_files_are_well_formed(items: Seq<ItemView>)
    requires
        first_violation(items) is None,
        first_body_violation(items) is None,
        duplicate_violation(items) is None,
    ensures
        forall|i: int| 0 <= i < items.len() ==> item_is_well_formed(#[trigger] items[i]),
        forall|i: int, j: int|
            0 <= i < j < items.len() && entity_name(items[i]) is Some ==> entity_name(
                #[trigger] items[i],
            ) != entity_name(#[trigger] items[j]),
{
    lemma_valid_items(items);
    lemma_unique_entities(items);
}

/// Items that pass validation and the check on directives have names, and
/// their directives name their fields.
pub proof fn lemma_valid_items(items: Seq<ItemView>)
    requires
        first_violation(items) is None,
        first_body_violation(items) is None,
    ensures
        forall|i: int| 0 <= i < items.len() ==> item_is_well_formed(#[trigger] items[i]),
    decreases items.len(),
{
    if items.len() > 0 {
        let rest = items.drop_first();
        lemma_valid_items(rest);
        match items[0] {
            ItemView::Term { name, fields } => {
                lemma_valid_fields(name, fields);
            },
            ItemView::Struct { name, fields, parent } => {
                lemma_valid_fields(name, fields);
            },
            _ => {},
        }
        assert forall|i: int| 0 <= i < items.len() implies item_is_well_formed(
            #[trigger] items[i],
        ) by {
            if i > 0 {
                assert(items[i] == rest[i - 1]);
            }
        }
    }
}

/// Items without a duplicate declare entities of pairwise different names.
pub proof fn lemma_unique_entities(items: Seq<ItemView>)
    requires
        duplicate_violation(items) is None,
    ensures
        forall|i: int, j: int|
            0 <= i < j < items.len() && entity_name(items[i]) is Some ==> entity_name(
                #[trigger] items[i],
            ) != entity_name(#[trigger] items[j]),
    decreases items.len(),
{
    if items.len() > 0 {
        let front = items.drop_last();
        lemma_unique_entities(front);
        assert forall|i: int, j: int|
            0 <= i < j < items.len() && entity_name(items[i]) is Some implies entity_name(
            #[trigger] items[i],
        ) != entity_name(#[trigger] items[j]) by {
            if j < front.len() {
                assert(front[i] == items[i]);
                assert(front[j] == items[j]);
            } else {
                if entity_name(items[i]) == entity_name(items[j]) {
                    assert(entity_name(front[i]) == Some(entity_name(items.last())->0));
                    assert(declares(front, entity_name(items.last())->0));
                }
            }
        }
    }
}

/// An item that the parser reads has a name.
pub proof fn lemma_parsed_item_is_named(lines: Seq<Seq<char>>, i: int)
    requires
        0 <= i < lines.len(),
        words_of(lines[i]).len() > 0,
    ensures
        parse_item(lines, i) matches Ok(step) ==> item_name(step.item).len() > 0,
{
    let words = words_of(lines[i]);
    lemma_words_are_not_empty(lines[i]);
    assert(words[0].len() > 0);
    if words.len() >= 2 {
        assert(words[1].len() > 0);
    }
}

/// The items that the parser reads from line `i` on have names.
pub proof fn lemma_parsed_items_are_named(lines: Seq<Seq<char>>, i: int)
    requires
        0 <= i,
    ensures
        parse_items(lines, i) matches Ok(items) ==> first_violation(items) is None,
    decreases lines.len() - i,
{
    if i >= lines.len() {
    } else if is_skipped(lines[i]) || words_of(lines[i]).len() == 0 {
        lemma_parsed_items_are_named(lines, i + 1);
    } else {
        lemma_parsed_item_is_named(lines, i);
        match parse_item(lines, i) {
            Ok(step) => {
                if i < step.next {
                    if step.next < lines.len() {
                        lemma_parsed_items_are_named(lines, step.next);
                    }
                    match parse_items(lines, step.next) {
                        Ok(rest) => {
                            let items = seq![step.item] + rest;
                            assert(items[0] == step.item);
                            assert(items.drop_first() =~= rest);
                        },
                        Err(e) => {},
                    }
                } else {
                    let items = seq![step.item];
                    assert(items[0] == step.item);
                    assert(items.drop_first() =~= Seq::<ItemView>::empty());
                    assert(first_violation(Seq::<ItemView>::empty()) is None);
                }
            },
            Err(e) => {},
        }
    }
}

/// Every file that the parser accepts passes validation: each of its items
/// has a name. So a source text compiles if and only if it parses.
pub proof fn law_parsed_files_pass_validation(input: Seq<char>)
    ensures
        parse_file(input) matches Ok(items) ==> first_violation(items) is None && all_named(items),
        compile_text(input) is Ok <==> parse_file(input) is Ok,
{
    lemma_parsed_items_are_named(trimmed_lines_of(input), 0);
    match parse_file(input) {
        Ok(items) => {
            lemma_named(items);
        },
        Err(e) => {},
    }
}

/// Whether `x` can stand as a name: it is not empty and holds neither
/// whitespace nor a brace.
pub open spec fn is_identifier(x: Seq<char>) -> bool {
    x.len() > 0 && forall|i: int|
        0 <= i < x.len() ==> !is_space(#[trigger] x[i]) && x[i] != '{' && x[i] != '}'
}

/// The source text of the primitive term named `x`.
pub open spec fn primitive_term_source(x: Seq<char>) -> Seq<char> {
    "term "@ + x + " { }"@
}

/// The words of the source text of a primitive term.
proof fn lemma_primitive_term_words(x: Seq<char>)
    requires
        is_identifier(x),
    ensures
        words_of(primitive_term_source(x)) == seq!["term"@, x, seq!['{'], seq!['}']],
{
    reveal_strlit("term ");
    reveal_strlit(" { }");
    reveal_strlit("term");
    let source = primitive_term_source(x);
    let term = seq!['t', 'e', 'r', 'm'];
    let braces = seq![' ', '{', ' ', '}'];
    assert("term"@ =~= term);
    assert("term "@ =~= term + seq![' ']);
    assert(" { }"@ =~= braces);
    let none = Seq::<char>::empty();
    assert(words_of(none) == Seq::<Seq<char>>::empty());
    // behind the closing brace
    lemma_words_first(seq!['}'], none);
    assert(seq!['}'] + none =~= seq!['}']);
    assert(words_of(seq!['}']) =~= seq![seq!['}']]);
    lemma_words_behind_space(' ', seq!['}']);
    assert(seq![' '] + seq!['}'] =~= seq![' ', '}']);
    // behind the opening brace
    lemma_words_first(seq!['{'], seq![' ', '}']);
    assert(seq!['{'] + seq![' ', '}'] =~= seq!['{', ' ', '}']);
    lemma_words_behind_space(' ', seq!['{', ' ', '}']);
    assert(seq![' '] + seq!['{', ' ', '}'] =~= braces);
    assert(words_of(braces) =~= seq![seq!['{'], seq!['}']]);
    // behind the name
    lemma_words_first(x, braces);
    lemma_words_behind_space(' ', x + braces);
    // behind the keyword
    lemma_words_first(term, seq![' '] + (x + braces));
    assert(term + (seq![' '] + (x + braces)) =~= source);
    assert(words_of(source) =~= seq![term, x, seq!['{'], seq!['}']]);
}

/// A primitive term compiles to one entity of its name, with one field: the
/// name in lower case. For every identifier `x`, the text `term x { }`
/// compiles to a schema that holds this entity and nothing else, and the
/// type definition emitted for it has that one field and no check.
pub proof fn law_primitive_term(x: Seq<char>)
    requires
        is_identifier(x),
    ensures
        compile_text(primitive_term_source(x)) == Ok::<SchemaView, ErrorView>(
            SchemaView {
                entities: seq![
                    EntityView { name: x, fields: primitive_fields(x), parent: None },
                ],
                notices: Seq::empty(),
            },
        ),
        definition_of(EntityView { name: x, fields: primitive_fields(x), parent: None }) == (
        TypeDefinitionView {
            name: x,
            fields: seq![lowercase(x)],
            checks: Seq::empty(),
            parent: None,
        }),
{
    reveal_strlit("term ");
    reveal_strlit(" { }");
    reveal_strlit("term");
    reveal_strlit("dictionary");
    reveal_strlit("import");
    reveal_strlit("has");
    let source = primitive_term_source(x);
    let n = source.len() as int;
    assert(n == x.len() + 9);
    assert(source[0] == 't');
    assert(source[n - 1] == '}');
    assert(source[n - 3] == '{');
    assert forall|i: int| 0 <= i < n implies source[i] != '\n' by {
        if 5 <= i < 5 + x.len() {
            assert(source[i] == x[i - 5]);
        }
    }
    lemma_one_line(source);
    lemma_trimmed_keeps(source);
    let lines = trimmed_lines_of(source);
    assert(lines =~= seq![source]);
    lemma_primitive_term_words(x);
    let words = words_of(source);
    assert(words[0] == "term"@);
    assert(words[1] == x);
    assert(words[2] == seq!['{']);
    assert(source.contains('{'));
    assert forall|j: int| 0 <= j < n - 3 implies source[j] != '{' by {
        if 5 <= j < 5 + x.len() {
            assert(source[j] == x[j - 5]);
        }
    }
    lemma_index_of(source, '{', n - 3);
    let behind = seq![' ', '}'];
    assert(after_brace(source) =~= behind);
    assert(behind[1] == '}');
    assert(closes_on_line(source));
    assert(behind.drop_first() =~= seq!['}']);
    assert(seq!['}'].drop_first() =~= Seq::<char>::empty());
    assert(tokens_of(Seq::<char>::empty()) =~= Seq::<TokenView>::empty());
    assert(tokens_of(seq!['}']) =~= seq![TokenView::CloseBrace]);
    assert(tokens_of(behind) =~= seq![TokenView::CloseBrace]);
    assert(inline_empty_violation(source) is None);
    assert(opening_brace(lines, 0, true) == Some(0int));
    assert(!has_follows(lines, 0, 0));
    let item = ItemView::Term { name: x, fields: Seq::empty() };
    assert(parse_term(lines, 0, words) == Ok::<ItemStep, ErrorView>(ItemStep { item, next: 1 }));
    assert(parse_item(lines, 0) == Ok::<ItemStep, ErrorView>(ItemStep { item, next: 1 }));
    assert(parse_items(lines, 1) == Ok::<Seq<ItemView>, ErrorView>(Seq::empty()));
    assert(seq![item] + Seq::<ItemView>::empty() =~= seq![item]);
    assert(parse_items(lines, 0) == Ok::<Seq<ItemView>, ErrorView>(seq![item]));
    let items = seq![item];
    assert(items.drop_first() =~= Seq::empty());
    assert(name_violation(item) is None);
    assert(items[0] == item);
    assert(first_violation(Seq::<ItemView>::empty()) is None);
    assert(first_violation(items.drop_first()) is None);
    assert(first_violation(items) is None);
    assert(items.drop_last() =~= Seq::empty());
    assert(items.last() == item);
    assert(entities_of(Seq::<ItemView>::empty()) =~= Seq::empty());
    assert(notices_of(Seq::<ItemView>::empty()) =~= Seq::empty());
    assert(entities_of(items.drop_last()) =~= Seq::empty());
    assert(notices_of(items.drop_last()) =~= Seq::empty());
    let entity = EntityView { name: x, fields: primitive_fields(x), parent: None };
    assert(entity_of(item) == Some(entity));
    assert(entities_of(items) =~= seq![entity]);
    assert(notices_of(items) =~= Seq::empty());
    let fields = primitive_fields(x);
    assert(fields.drop_last() =~= Seq::empty());
    assert(field_checks(lowercase(x), Seq::empty()) =~= Seq::empty());
    assert(fields.last().name == lowercase(x));
    assert(fields.last().constraints =~= Seq::empty());
    assert(checks_of(Seq::<ResolvedFieldView>::empty()) =~= Seq::empty());
    assert(checks_of(fields.drop_last()) =~= Seq::empty());
    assert(checks_of(fields) =~= Seq::empty());
    assert(field_names(fields) =~= seq![lowercase(x)]);
}

/// Whether an error is an `InvalidFieldReference`.
pub open spec fn is_invalid_field_reference<T>(r: Result<T, ErrorView>) -> bool {
    r is Err && r->Err_0 is InvalidFieldReference
}

/// Whether a composite term begins on line `i` and has its opening brace on
/// line `b`, with its body on the lines behind it.
pub open spec fn is_composite_term(lines: Seq<Seq<char>>, i: int, b: int) -> bool {
    let words = words_of(lines[i]);
    &&& 0 <= i < lines.len()
    &&& !is_skipped(lines[i])
    &&& words.len() >= 2
    &&& words[0] == "term"@
    &&& words.len() > 2 ==> words[2] == "has"@ || (words[2].len() > 0 && words[2][0] == '{')
    &&& opening_brace(lines, i, true) == Some(b)
    &&& (words.len() > 2 && words[2] == "has"@) || has_follows(lines, i, b)
    &&& !closes_on_line(lines[b])
    &&& open_line_violation(lines[b]) is None
}

/// The body of a composite term holds directives only. Where a line of the
/// body, in front of the closing brace, is neither empty nor a comment and
/// does not begin with `+` or `-`, the body is refused with an
/// `InvalidFieldReference`.
pub proof fn law_term_body_needs_signs(lines: Seq<Seq<char>>, j: int, k: int)
    requires
        0 <= j <= k < lines.len(),
        forall|m: int| j <= m <= k ==> lines[m] != "}"@,
        !is_skipped(lines[k]),
        !has_sign(lines[k]),
    ensures
        is_invalid_field_reference(parse_term_body(lines, j)),
    decreases k - j,
{
    if j < k {
        law_term_body_needs_signs(lines, j + 1, k);
    }
}

/// The opening brace of an item stands on the item's line or behind it.
pub proof fn lemma_brace_follows(lines: Seq<Seq<char>>, j: int, allow_has: bool)
    requires
        0 <= j,
    ensures
        find_brace(lines, j, allow_has) matches Some(b) ==> j <= b < lines.len(),
    decreases lines.len() - j,
{
    if j < lines.len() && !lines[j].contains('{') {
        lemma_brace_follows(lines, j + 1, allow_has);
    }
}

/// A composite term whose body holds a line that is no directive does not
/// parse: the term, and with it the file from the term on, is refused with
/// an `InvalidFieldReference`.
pub proof fn law_composite_term_needs_signs(lines: Seq<Seq<char>>, i: int, b: int, k: int)
    requires
        is_composite_term(lines, i, b),
        b < k < lines.len(),
        forall|m: int| b < m <= k ==> lines[m] != "}"@,
        !is_skipped(lines[k]),
        !has_sign(lines[k]),
    ensures
        is_invalid_field_reference(parse_item(lines, i)),
        is_invalid_field_reference(parse_items(lines, i)),
{
    reveal_strlit("term");
    reveal_strlit("dictionary");
    reveal_strlit("import");
    lemma_brace_follows(lines, i + 1, true);
    law_term_body_needs_signs(lines, b + 1, k);
}

/// A field annotated with `length < N` gets one check, which a value fails
/// if and only if it has `N` characters or more: with fewer it passes.
pub proof fn law_length_constraint(field: Seq<char>, n: nat, value: Seq<char>)
    requires
        n <= u64::MAX,
    ensures
        field_checks(
            field,
            seq![AttributeView { name: "length"@, constraint: Some("< "@ + decimal_of(n)) }],
        ) == seq![LengthCheckView { field, limit: n }],
        check_failure(LengthCheckView { field, limit: n }, value) is Some <==> value.len() >= n,
        check_failure(LengthCheckView { field, limit: n }, value) is None <==> value.len() < n,
{
    let a = AttributeView { name: "length"@, constraint: Some("< "@ + decimal_of(n)) };
    lemma_limit_of_decimal(n);
    assert(attribute_limit(a) == Some(n));
    assert(seq![a].drop_last() =~= Seq::empty());
    assert(field_checks(field, Seq::empty()) =~= Seq::empty());
    assert(field_checks(field, seq![a]) =~= seq![LengthCheckView { field, limit: n }]);
}

} // verus!
