//! The validator: structural checks on a parsed file.
//!
//! Validation asks one thing of a file: that every item has a name. Two
//! further checks stand beside it, for callers that want them: one on the
//! directives of the items, one on entities that share a name. Each check
//! stops at the first violation, in source order.

use crate::constraint::{length_limit, read_length_limit};
use crate::text::str_eq;
use crate::types::{
    attribute_views, field_views, item_views, AttributeView, DataLangFile, DataLangItem, ErrorView,
    FieldAttribute, FieldRefView, FieldReference, ItemView, ParseError,
};
use vstd::prelude::*;
use vstd::string::*;

verus! {

/// The violation `issue`, found in `context`.
pub open spec fn violation(context: Seq<char>, issue: Seq<char>) -> ErrorView {
    ErrorView::StructuralError { context, issue }
}

/// What is wrong with one annotation of the field `field`: it has no name,
/// or it is a `length` whose constraint sets no limit.
pub open spec fn attribute_violation(field: Seq<char>, a: AttributeView) -> Option<ErrorView> {
    if a.name.len() == 0 {
        Some(violation(field, "Attribute name cannot be empty"@))
    } else if a.name == "length"@ && a.constraint is Some && length_limit(a.constraint->0) is None {
        Some(violation(field, "Length constraint must be of the form < N"@))
    } else {
        None
    }
}

/// The first violation among the annotations of the field `field`.
pub open spec fn attributes_violation(field: Seq<char>, attributes: Seq<AttributeView>) -> Option<
    ErrorView,
>
    decreases attributes.len(),
{
    if attributes.len() == 0 {
        None
    } else {
        match attribute_violation(field, attributes[0]) {
            Some(e) => Some(e),
            None => attributes_violation(field, attributes.drop_first()),
        }
    }
}

/// What is wrong with one directive of the entity `entity`: its name or its
/// namespace is empty, or one of its annotations is in violation.
pub open spec fn field_violation(entity: Seq<char>, f: FieldRefView) -> Option<ErrorView> {
    if f.name.len() == 0 {
        Some(violation(entity, "Field name cannot be empty"@))
    } else if f.namespace is Some && f.namespace->0.len() == 0 {
        Some(violation(entity, "Field namespace cannot be empty"@))
    } else {
        attributes_violation(f.name, f.attributes)
    }
}

/// The first violation among the directives of the entity `entity`.
pub open spec fn fields_violation(entity: Seq<char>, fields: Seq<FieldRefView>) -> Option<ErrorView>
    decreases fields.len(),
{
    if fields.len() == 0 {
        None
    } else {
        match field_violation(entity, fields[0]) {
            Some(e) => Some(e),
            None => fields_violation(entity, fields.drop_first()),
        }
    }
}

/// The name of an item; for an import, its module.
pub open spec fn item_name(item: ItemView) -> Seq<char> {
    match item {
        ItemView::Dictionary { name } => name,
        ItemView::Import { module } => module,
        ItemView::Term { name, fields } => name,
        ItemView::Struct { name, fields, parent } => name,
    }
}

/// Whether every one of `items` has a name.
pub open spec fn all_named(items: Seq<ItemView>) -> bool {
    forall|i: int| 0 <= i < items.len() ==> item_name(#[trigger] items[i]).len() > 0
}

/// The violation of an item without a name.
pub open spec fn name_violation(item: ItemView) -> Option<ErrorView> {
    if item_name(item).len() > 0 {
        None
    } else {
        Some(
            match item {
                ItemView::Dictionary { .. } => violation(
                    "dictionary"@,
                    "Dictionary name cannot be empty"@,
                ),
                ItemView::Import { .. } => violation("import"@, "Import module cannot be empty"@),
                ItemView::Term { .. } => violation("term"@, "Term name cannot be empty"@),
                ItemView::Struct { .. } => violation("struct"@, "Struct name cannot be empty"@),
            },
        )
    }
}

/// The violation of the first of `items` that has no name.
pub open spec fn first_violation(items: Seq<ItemView>) -> Option<ErrorView>
    decreases items.len(),
{
    if items.len() == 0 {
        None
    } else {
        match name_violation(items[0]) {
            Some(e) => Some(e),
            None => first_violation(items.drop_first()),
        }
    }
}

/// What is wrong inside one item: the name of its parent is empty, or one of
/// its directives is in violation.
pub open spec fn body_violation(item: ItemView) -> Option<ErrorView> {
    match item {
        ItemView::Term { name, fields } => fields_violation(name, fields),
        ItemView::Struct { name, fields, parent } => if parent is Some && parent->0.len() == 0 {
            Some(violation(name, "Parent name cannot be empty"@))
        } else {
            fields_violation(name, fields)
        },
        _ => None,
    }
}

/// The first violation inside one of `items`.
pub open spec fn first_body_violation(items: Seq<ItemView>) -> Option<ErrorView>
    decreases items.len(),
{
    if items.len() == 0 {
        None
    } else {
        match body_violation(items[0]) {
            Some(e) => Some(e),
            None => first_body_violation(items.drop_first()),
        }
    }
}

/// No item is in violation for its name if and only if every item has one.
pub proof fn lemma_named(items: Seq<ItemView>)
    ensures
        first_violation(items) is None <==> all_named(items),
    decreases items.len(),
{
    if items.len() > 0 {
        let rest = items.drop_first();
        lemma_named(rest);
        if first_violation(items) is None {
            assert forall|i: int| 0 <= i < items.len() implies item_name(#[trigger] items[i]).len()
                > 0 by {
                if i > 0 {
                    assert(items[i] == rest[i - 1]);
                }
            }
        }
        if all_named(items) {
            assert(item_name(items[0]).len() > 0);
            assert forall|i: int| 0 <= i < rest.len() implies item_name(#[trigger] rest[i]).len()
                > 0 by {
                assert(rest[i] == items[i + 1]);
            }
        }
    }
}

/// The name of the entity that an item declares, if it declares one.
pub open spec fn entity_name(item: ItemView) -> Option<Seq<char>> {
    match item {
        ItemView::Term { name, fields } => Some(name),
        ItemView::Struct { name, fields, parent } => Some(name),
        _ => None,
    }
}

/// Whether one of `items` declares an entity named `name`.
pub open spec fn declares(items: Seq<ItemView>, name: Seq<char>) -> bool {
    exists|i: int| 0 <= i < items.len() && entity_name(#[trigger] items[i]) == Some(name)
}

/// The first entity among `items` whose name an earlier entity has, as a
/// violation.
pub open spec fn duplicate_violation(items: Seq<ItemView>) -> Option<ErrorView>
    decreases items.len(),
{
    if items.len() == 0 {
        None
    } else {
        match duplicate_violation(items.drop_last()) {
            Some(e) => Some(e),
            None => match entity_name(items.last()) {
                Some(name) => if declares(items.drop_last(), name) {
                    Some(violation(name, "Duplicate entity name"@))
                } else {
                    None
                },
                None => None,
            },
        }
    }
}

/// A duplicate among the first `k` items is the first duplicate of all.
pub proof fn lemma_duplicate_stays(items: Seq<ItemView>, k: int)
    requires
        0 <= k <= items.len(),
        duplicate_violation(items.take(k)) is Some,
    ensures
        duplicate_violation(items) == duplicate_violation(items.take(k)),
    decreases items.len() - k,
{
    if k == items.len() {
        assert(items.take(k) =~= items);
    } else {
        assert(items.take(k + 1).drop_last() =~= items.take(k));
        lemma_duplicate_stays(items, k + 1);
    }
}

/// The model of the outcome of a check.
pub open spec fn check_outcome(r: Result<(), ParseError>) -> Option<ErrorView> {
    match r {
        Ok(_) => None,
        Err(e) => Some(e@),
    }
}

fn violation_error(context: &str, issue: &str) -> (e: ParseError)
    ensures
        e@ == violation(context@, issue@),
{
    ParseError::StructuralError { context: String::from_str(context), issue: String::from_str(issue) }
}

fn check_attribute(field: &str, a: &FieldAttribute) -> (r: Result<(), ParseError>)
    ensures
        check_outcome(r) == attribute_violation(field@, a@),
{
    if a.name.as_str().unicode_len() == 0 {
        return Err(violation_error(field, "Attribute name cannot be empty"));
    }
    if str_eq(a.name.as_str(), "length") {
        match &a.constraint {
            Some(c) => {
                if read_length_limit(c.as_str()).is_none() {
                    return Err(violation_error(field, "Length constraint must be of the form < N"));
                }
            },
            None => {},
        }
    }
    Ok(())
}

fn check_attributes(field: &str, attributes: &Vec<FieldAttribute>) -> (r: Result<(), ParseError>)
    ensures
        check_outcome(r) == attributes_violation(field@, attribute_views(attributes@)),
{
    let ghost all = attribute_views(attributes@);
    let mut i: usize = 0;
    assert(all.skip(0) =~= all);
    while i < attributes.len()
        invariant
            i <= attributes@.len(),
            all == attribute_views(attributes@),
            attributes_violation(field@, all.skip(i as int)) == attributes_violation(field@, all),
        decreases attributes.len() - i,
    {
        assert(all.skip(i as int).drop_first() =~= all.skip(i + 1));
        assert(all.skip(i as int)[0] == attributes@[i as int]@);
        match check_attribute(field, &attributes[i]) {
            Ok(_) => {},
            Err(e) => {
                return Err(e);
            },
        }
        i = i + 1;
    }
    Ok(())
}

fn check_field(entity: &str, f: &FieldReference) -> (r: Result<(), ParseError>)
    ensures
        check_outcome(r) == field_violation(entity@, f@),
{
    if f.name.as_str().unicode_len() == 0 {
        return Err(violation_error(entity, "Field name cannot be empty"));
    }
    match &f.namespace {
        Some(ns) => {
            if ns.as_str().unicode_len() == 0 {
                return Err(violation_error(entity, "Field namespace cannot be empty"));
            }
        },
        None => {},
    }
    check_attributes(f.name.as_str(), &f.attributes)
}

fn check_fields(entity: &str, fields: &Vec<FieldReference>) -> (r: Result<(), ParseError>)
    ensures
        check_outcome(r) == fields_violation(entity@, field_views(fields@)),
{
    let ghost all = field_views(fields@);
    let mut i: usize = 0;
    assert(all.skip(0) =~= all);
    while i < fields.len()
        invariant
            i <= fields@.len(),
            all == field_views(fields@),
            fields_violation(entity@, all.skip(i as int)) == fields_violation(entity@, all),
        decreases fields.len() - i,
    {
        assert(all.skip(i as int).drop_first() =~= all.skip(i + 1));
        assert(all.skip(i as int)[0] == fields@[i as int]@);
        match check_field(entity, &fields[i]) {
            Ok(_) => {},
            Err(e) => {
                return Err(e);
            },
        }
        i = i + 1;
    }
    Ok(())
}

fn check_name(item: &DataLangItem) -> (r: Result<(), ParseError>)
    ensures
        check_outcome(r) == name_violation(item@),
{
    match item {
        DataLangItem::Dictionary { name } => {
            if name.as_str().unicode_len() == 0 {
                Err(violation_error("dictionary", "Dictionary name cannot be empty"))
            } else {
                Ok(())
            }
        },
        DataLangItem::Import { module } => {
            if module.as_str().unicode_len() == 0 {
                Err(violation_error("import", "Import module cannot be empty"))
            } else {
                Ok(())
            }
        },
        DataLangItem::Term { name, fields } => {
            if name.as_str().unicode_len() == 0 {
                Err(violation_error("term", "Term name cannot be empty"))
            } else {
                Ok(())
            }
        },
        DataLangItem::Struct { name, fields, parent } => {
            if name.as_str().unicode_len() == 0 {
                Err(violation_error("struct", "Struct name cannot be empty"))
            } else {
                Ok(())
            }
        },
    }
}

fn check_body(item: &DataLangItem) -> (r: Result<(), ParseError>)
    ensures
        check_outcome(r) == body_violation(item@),
{
    match item {
        DataLangItem::Term { name, fields } => check_fields(name.as_str(), fields),
        DataLangItem::Struct { name, fields, parent } => {
            match parent {
                Some(p) => {
                    if p.as_str().unicode_len() == 0 {
                        return Err(violation_error(name.as_str(), "Parent name cannot be empty"));
                    }
                },
                None => {},
            }
            check_fields(name.as_str(), fields)
        },
        _ => Ok(()),
    }
}

/// The name of the entity that `item` declares, if it declares one.
fn declared_name(item: &DataLangItem) -> (r: Option<&str>)
    ensures
        match r {
            Some(name) => entity_name(item@) == Some(name@),
            None => entity_name(item@) is None,
        },
{
    match item {
        DataLangItem::Term { name, fields } => Some(name.as_str()),
        DataLangItem::Struct { name, fields, parent } => Some(name.as_str()),
        _ => None,
    }
}

/// Whether one of the first `count` items declares an entity named `name`.
fn declared_before(items: &Vec<DataLangItem>, count: usize, name: &str) -> (r: bool)
    requires
        count <= items@.len(),
    ensures
        r == declares(item_views(items@).take(count as int), name@),
{
    let ghost front = item_views(items@).take(count as int);
    let mut i: usize = 0;
    while i < count
        invariant
            i <= count <= items@.len(),
            front == item_views(items@).take(count as int),
            forall|k: int| 0 <= k < i ==> entity_name(#[trigger] front[k]) != Some(name@),
        decreases count - i,
    {
        assert(front[i as int] == items@[i as int]@);
        match declared_name(&items[i]) {
            Some(other) => {
                if str_eq(other, name) {
                    assert(entity_name(front[i as int]) == Some(name@));
                    return true;
                }
            },
            None => {},
        }
        i = i + 1;
    }
    false
}

fn check_duplicates(items: &Vec<DataLangItem>) -> (r: Result<(), ParseError>)
    ensures
        check_outcome(r) == duplicate_violation(item_views(items@)),
{
    let ghost all = item_views(items@);
    let mut j: usize = 0;
    assert(all.take(0) =~= Seq::empty());
    while j < items.len()
        invariant
            j <= items@.len(),
            all == item_views(items@),
            duplicate_violation(all.take(j as int)) is None,
        decreases items.len() - j,
    {
        assert(all.take(j + 1).drop_last() =~= all.take(j as int));
        assert(all.take(j + 1).last() == items@[j as int]@);
        match declared_name(&items[j]) {
            Some(name) => {
                if declared_before(items, j, name) {
                    proof {
                        lemma_duplicate_stays(all, j + 1);
                    }
                    return Err(violation_error(name, "Duplicate entity name"));
                }
            },
            None => {},
        }
        j = j + 1;
    }
    assert(all.take(j as int) =~= all);
    Ok(())
}

impl DataLangFile {
    /// Validates the file: `Ok` if and only if every dictionary, term and
    /// entity has a name and every import a module; else the
    /// `StructuralError` of the first item that has none.
    pub fn validate(&self) -> (r: Result<(), ParseError>)
        ensures
            check_outcome(r) == first_violation(self@),
            r is Ok <==> all_named(self@),
    {
        proof {
            lemma_named(self@);
        }
        let mut i: usize = 0;
        assert(self@.skip(0) =~= self@);
        while i < self.items.len()
            invariant
                i <= self.items@.len(),
                first_violation(self@.skip(i as int)) == first_violation(self@),
            decreases self.items.len() - i,
        {
            assert(self@.skip(i as int).drop_first() =~= self@.skip(i + 1));
            assert(self@.skip(i as int)[0] == self.items@[i as int]@);
            match check_name(&self.items[i]) {
                Ok(_) => {},
                Err(e) => {
                    return Err(e);
                },
            }
            i = i + 1;
        }
        Ok(())
    }

    /// Checks what stands inside the items: the first item whose parent has
    /// no name, or one of whose directives or annotations is malformed, is
    /// given back as a `StructuralError`.
    pub fn check_directives(&self) -> (r: Result<(), ParseError>)
        ensures
            check_outcome(r) == first_body_violation(self@),
    {
        let mut i: usize = 0;
        assert(self@.skip(0) =~= self@);
        while i < self.items.len()
            invariant
                i <= self.items@.len(),
                first_body_violation(self@.skip(i as int)) == first_body_violation(self@),
            decreases self.items.len() - i,
        {
            assert(self@.skip(i as int).drop_first() =~= self@.skip(i + 1));
            assert(self@.skip(i as int)[0] == self.items@[i as int]@);
            match check_body(&self.items[i]) {
                Ok(_) => {},
                Err(e) => {
                    return Err(e);
                },
            }
            i = i + 1;
        }
        Ok(())
    }

    /// Checks that no two entities share a name: the first entity whose
    /// name an earlier one has is given back as a `StructuralError`.
    pub fn check_unique_names(&self) -> (r: Result<(), ParseError>)
        ensures
            check_outcome(r) == duplicate_violation(self@),
    {
        check_duplicates(&self.items)
    }
}

} // verus!
