//! The resolved schema of a file, and the compiler from source text to it.

use crate::grammar::parse_file;
use crate::resolver::{
    lowercase, resolve, resolve_fields, resolved_views, to_lowercase, ResolvedField,
    ResolvedFieldView,
};
use crate::types::{opt_view, DataLangFile, DataLangItem, ErrorView, ItemView, ParseError};
use crate::validator::first_violation;
use vstd::prelude::*;
use vstd::string::*;

verus! {

/// A resolved entity: a term or an entity with its final fields.
#[derive(Debug)]
pub struct Entity {
    pub name: String,
    pub fields: Vec<ResolvedField>,
    /// The parent that the entity names. It is a marker: the parent's fields
    /// are not among `fields`.
    pub parent: Option<String>,
}

/// The resolved entities of a file, in source order, and the notices on the
/// items that stand for no entity.
#[derive(Debug)]
pub struct Schema {
    pub entities: Vec<Entity>,
    pub notices: Vec<String>,
}

/// The model of an `Entity`.
pub ghost struct EntityView {
    pub name: Seq<char>,
    pub fields: Seq<ResolvedFieldView>,
    pub parent: Option<Seq<char>>,
}

/// The model of a `Schema`.
pub ghost struct SchemaView {
    pub entities: Seq<EntityView>,
    pub notices: Seq<Seq<char>>,
}

impl View for Entity {
    type V = EntityView;

    open spec fn view(&self) -> EntityView {
        EntityView {
            name: self.name@,
            fields: resolved_views(self.fields@),
            parent: opt_view(self.parent),
        }
    }
}

/// The models of a list of entities.
pub open spec fn entity_views(s: Seq<Entity>) -> Seq<EntityView> {
    Seq::new(s.len(), |i: int| s[i]@)
}

/// The characters of a list of strings.
pub open spec fn string_views(s: Seq<String>) -> Seq<Seq<char>> {
    Seq::new(s.len(), |i: int| s[i]@)
}

impl View for Schema {
    type V = SchemaView;

    open spec fn view(&self) -> SchemaView {
        SchemaView { entities: entity_views(self.entities@), notices: string_views(self.notices@) }
    }
}

/// The one field of a primitive term named `name`: the name in lower case.
pub open spec fn primitive_fields(name: Seq<char>) -> Seq<ResolvedFieldView> {
    seq![ResolvedFieldView { name: lowercase(name), constraints: Seq::empty() }]
}

/// The entity that an item stands for. A term without directives is
/// primitive; any other term or entity has the fields that its directives
/// resolve to. A dictionary or an import stands for none.
pub open spec fn entity_of(item: ItemView) -> Option<EntityView> {
    match item {
        ItemView::Term { name, fields } => Some(
            EntityView {
                name,
                fields: if fields.len() == 0 {
                    primitive_fields(name)
                } else {
                    resolve(fields)
                },
                parent: None,
            },
        ),
        ItemView::Struct { name, fields, parent } => Some(
            EntityView { name, fields: resolve(fields), parent },
        ),
        _ => None,
    }
}

/// The notice on an item that stands for no entity.
pub open spec fn notice_of(item: ItemView) -> Option<Seq<char>> {
    match item {
        ItemView::Dictionary { name } => Some("Processing dictionary: "@ + name),
        ItemView::Import { module } => Some("Processing import: "@ + module),
        _ => None,
    }
}

/// The entities that `items` stand for, in order.
pub open spec fn entities_of(items: Seq<ItemView>) -> Seq<EntityView>
    decreases items.len(),
{
    if items.len() == 0 {
        Seq::empty()
    } else {
        let rest = entities_of(items.drop_last());
        match entity_of(items.last()) {
            Some(e) => rest.push(e),
            None => rest,
        }
    }
}

/// The notices on `items`, in order.
pub open spec fn notices_of(items: Seq<ItemView>) -> Seq<Seq<char>>
    decreases items.len(),
{
    if items.len() == 0 {
        Seq::empty()
    } else {
        let rest = notices_of(items.drop_last());
        match notice_of(items.last()) {
            Some(n) => rest.push(n),
            None => rest,
        }
    }
}

/// The schema of a file with the items `items`.
pub open spec fn schema_of(items: Seq<ItemView>) -> SchemaView {
    SchemaView { entities: entities_of(items), notices: notices_of(items) }
}

/// What a source text compiles to: the schema of its items, where it parses
/// and its items pass validation; else the first error.
pub open spec fn compile_text(source: Seq<char>) -> Result<SchemaView, ErrorView> {
    match parse_file(source) {
        Err(e) => Err(e),
        Ok(items) => match first_violation(items) {
            Some(e) => Err(e),
            None => Ok(schema_of(items)),
        },
    }
}

/// The model of an optional entity.
pub open spec fn entity_outcome(r: Option<Entity>) -> Option<EntityView> {
    match r {
        Some(e) => Some(e@),
        None => None,
    }
}

/// The model of the outcome of a compilation.
pub open spec fn schema_outcome(r: Result<Schema, ParseError>) -> Result<SchemaView, ErrorView> {
    match r {
        Ok(s) => Ok(s@),
        Err(e) => Err(e@),
    }
}

fn copy_parent(parent: &Option<String>) -> (r: Option<String>)
    ensures
        opt_view(r) == opt_view(*parent),
{
    match parent {
        Some(p) => Some(p.clone()),
        None => None,
    }
}

/// The entity that `item` stands for, as `entity_of` defines it.
pub fn resolve_item(item: &DataLangItem) -> (r: Option<Entity>)
    ensures
        entity_outcome(r) == entity_of(item@),
{
    match item {
        DataLangItem::Term { name, fields } => {
            let resolved = if fields.len() == 0 {
                let only = ResolvedField {
                    name: to_lowercase(name.as_str()),
                    constraints: Vec::new(),
                };
                assert(only@.constraints =~= Seq::empty());
                let mut v: Vec<ResolvedField> = Vec::new();
                v.push(only);
                assert(resolved_views(v@) =~= primitive_fields(name@));
                v
            } else {
                resolve_fields(fields)
            };
            Some(Entity { name: name.clone(), fields: resolved, parent: None })
        },
        DataLangItem::Struct { name, fields, parent } => Some(
            Entity { name: name.clone(), fields: resolve_fields(fields), parent: copy_parent(parent) },
        ),
        _ => None,
    }
}

/// The notice on `item`, as `notice_of` defines it.
pub fn notice(item: &DataLangItem) -> (r: Option<String>)
    ensures
        opt_view(r) == notice_of(item@),
{
    match item {
        DataLangItem::Dictionary { name } => {
            let mut s = String::from_str("Processing dictionary: ");
            s.append(name.as_str());
            Some(s)
        },
        DataLangItem::Import { module } => {
            let mut s = String::from_str("Processing import: ");
            s.append(module.as_str());
            Some(s)
        },
        _ => None,
    }
}

/// The schema of `file`, as `schema_of` defines it.
pub fn resolve_file(file: &DataLangFile) -> (r: Schema)
    ensures
        r@ == schema_of(file@),
{
    let mut entities: Vec<Entity> = Vec::new();
    let mut notices: Vec<String> = Vec::new();
    let mut i: usize = 0;
    assert(entity_views(entities@) =~= Seq::empty());
    assert(string_views(notices@) =~= Seq::empty());
    assert(file@.take(0) =~= Seq::empty());
    while i < file.items.len()
        invariant
            i <= file.items@.len(),
            entity_views(entities@) == entities_of(file@.take(i as int)),
            string_views(notices@) == notices_of(file@.take(i as int)),
        decreases file.items.len() - i,
    {
        let ghost entities_before = entity_views(entities@);
        let ghost notices_before = string_views(notices@);
        assert(file@.take(i + 1).drop_last() =~= file@.take(i as int));
        assert(file@.take(i + 1).last() == file.items@[i as int]@);
        let item = &file.items[i];
        match resolve_item(item) {
            Some(e) => {
                entities.push(e);
                assert(entity_views(entities@) =~= entities_before.push(e@));
            },
            None => {},
        }
        match notice(item) {
            Some(n) => {
                notices.push(n);
                assert(string_views(notices@) =~= notices_before.push(n@));
            },
            None => {},
        }
        i = i + 1;
    }
    assert(file@.take(i as int) =~= file@);
    Schema { entities, notices }
}

/// Compiles a source text: parses it, validates its items and resolves them
/// into a schema, as `compile_text` defines it. The first error ends the
/// compilation.
pub fn compile(source: &str) -> (r: Result<Schema, ParseError>)
    ensures
        schema_outcome(r) == compile_text(source@),
{
    match DataLangFile::parse_from_str(source) {
        Err(e) => Err(e),
        Ok(file) => match file.validate() {
            Err(e) => Err(e),
            Ok(_) => Ok(resolve_file(&file)),
        },
    }
}

} // verus!
