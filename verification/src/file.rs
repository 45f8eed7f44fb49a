//! Queries on a parsed file.

use crate::text::{str_eq, views};
use crate::types::{field_views, DataLangFile, DataLangItem, FieldRefView, FieldReference, ItemView};
use vstd::prelude::*;

verus! {

/// The names of the dictionaries among `items`, in order.
pub open spec fn dictionary_names(items: Seq<ItemView>) -> Seq<Seq<char>>
    decreases items.len(),
{
    if items.len() == 0 {
        Seq::empty()
    } else {
        let rest = dictionary_names(items.drop_last());
        match items.last() {
            ItemView::Dictionary { name } => rest.push(name),
            _ => rest,
        }
    }
}

/// The modules of the imports among `items`, in order.
pub open spec fn import_names(items: Seq<ItemView>) -> Seq<Seq<char>>
    decreases items.len(),
{
    if items.len() == 0 {
        Seq::empty()
    } else {
        let rest = import_names(items.drop_last());
        match items.last() {
            ItemView::Import { module } => rest.push(module),
            _ => rest,
        }
    }
}

/// The names and directives of the terms among `items`, in order.
pub open spec fn term_entries(items: Seq<ItemView>) -> Seq<(Seq<char>, Seq<FieldRefView>)>
    decreases items.len(),
{
    if items.len() == 0 {
        Seq::empty()
    } else {
        let rest = term_entries(items.drop_last());
        match items.last() {
            ItemView::Term { name, fields } => rest.push((name, fields)),
            _ => rest,
        }
    }
}

/// The names and directives of the entities among `items`, in order.
pub open spec fn struct_entries(items: Seq<ItemView>) -> Seq<(Seq<char>, Seq<FieldRefView>)>
    decreases items.len(),
{
    if items.len() == 0 {
        Seq::empty()
    } else {
        let rest = struct_entries(items.drop_last());
        match items.last() {
            ItemView::Struct { name, fields, parent } => rest.push((name, fields)),
            _ => rest,
        }
    }
}

/// Whether `item` is of the kind that `item_type` names: `dictionary`,
/// `term`, `struct` or `import`.
pub open spec fn is_of_kind(item_type: Seq<char>, item: ItemView) -> bool {
    match item {
        ItemView::Dictionary { .. } => item_type == "dictionary"@,
        ItemView::Term { .. } => item_type == "term"@,
        ItemView::Struct { .. } => item_type == "struct"@,
        ItemView::Import { .. } => item_type == "import"@,
    }
}

/// The items among `items` of the kind that `item_type` names, in order.
pub open spec fn items_of_kind(items: Seq<ItemView>, item_type: Seq<char>) -> Seq<ItemView>
    decreases items.len(),
{
    if items.len() == 0 {
        Seq::empty()
    } else {
        let rest = items_of_kind(items.drop_last(), item_type);
        if is_of_kind(item_type, items.last()) {
            rest.push(items.last())
        } else {
            rest
        }
    }
}

/// The directives of the first term or entity among `items` that is named
/// `name`.
pub open spec fn fields_of(items: Seq<ItemView>, name: Seq<char>) -> Option<Seq<FieldRefView>>
    decreases items.len(),
{
    if items.len() == 0 {
        None
    } else {
        match items[0] {
            ItemView::Term { name: n, fields } if n == name => Some(fields),
            ItemView::Struct { name: n, fields, parent } if n == name => Some(fields),
            _ => fields_of(items.drop_first(), name),
        }
    }
}

/// The models of a list of names with their directives.
pub open spec fn entry_views(v: Seq<(&str, &[FieldReference])>) -> Seq<
    (Seq<char>, Seq<FieldRefView>),
> {
    Seq::new(v.len(), |i: int| (v[i].0@, field_views(v[i].1@)))
}

/// The models of a list of borrowed items.
pub open spec fn borrowed_item_views(v: Seq<&DataLangItem>) -> Seq<ItemView> {
    Seq::new(v.len(), |i: int| v[i]@)
}

impl DataLangFile {
    /// The names of all dictionaries, in source order.
    pub fn dictionaries(&self) -> (r: Vec<&str>)
        ensures
            views(r@) == dictionary_names(self@),
    {
        let mut out: Vec<&str> = Vec::new();
        let mut i: usize = 0;
        assert(views(out@) =~= Seq::empty());
        assert(self@.take(0) =~= Seq::empty());
        while i < self.items.len()
            invariant
                i <= self.items@.len(),
                views(out@) == dictionary_names(self@.take(i as int)),
            decreases self.items.len() - i,
        {
            let ghost before = views(out@);
            assert(self@.take(i + 1).drop_last() =~= self@.take(i as int));
            assert(self@.take(i + 1).last() == self.items@[i as int]@);
            match &self.items[i] {
                DataLangItem::Dictionary { name } => {
                    out.push(name.as_str());
                    assert(views(out@) =~= before.push(name@));
                },
                _ => {},
            }
            i = i + 1;
        }
        assert(self@.take(i as int) =~= self@);
        out
    }

    /// The names and directives of all terms, in source order.
    pub fn terms(&self) -> (r: Vec<(&str, &[FieldReference])>)
        ensures
            entry_views(r@) == term_entries(self@),
    {
        let mut out: Vec<(&str, &[FieldReference])> = Vec::new();
        let mut i: usize = 0;
        assert(entry_views(out@) =~= Seq::empty());
        assert(self@.take(0) =~= Seq::empty());
        while i < self.items.len()
            invariant
                i <= self.items@.len(),
                entry_views(out@) == term_entries(self@.take(i as int)),
            decreases self.items.len() - i,
        {
            let ghost before = entry_views(out@);
            assert(self@.take(i + 1).drop_last() =~= self@.take(i as int));
            assert(self@.take(i + 1).last() == self.items@[i as int]@);
            match &self.items[i] {
                DataLangItem::Term { name, fields } => {
                    out.push((name.as_str(), fields.as_slice()));
                    assert(entry_views(out@) =~= before.push((name@, field_views(fields@))));
                },
                _ => {},
            }
            i = i + 1;
        }
        assert(self@.take(i as int) =~= self@);
        out
    }

    /// The names and directives of all entities, in source order.
    pub fn structs(&self) -> (r: Vec<(&str, &[FieldReference])>)
        ensures
            entry_views(r@) == struct_entries(self@),
    {
        let mut out: Vec<(&str, &[FieldReference])> = Vec::new();
        let mut i: usize = 0;
        assert(entry_views(out@) =~= Seq::empty());
        assert(self@.take(0) =~= Seq::empty());
        while i < self.items.len()
            invariant
                i <= self.items@.len(),
                entry_views(out@) == struct_entries(self@.take(i as int)),
            decreases self.items.len() - i,
        {
            let ghost before = entry_views(out@);
            assert(self@.take(i + 1).drop_last() =~= self@.take(i as int));
            assert(self@.take(i + 1).last() == self.items@[i as int]@);
            match &self.items[i] {
                DataLangItem::Struct { name, fields, parent } => {
                    out.push((name.as_str(), fields.as_slice()));
                    assert(entry_views(out@) =~= before.push((name@, field_views(fields@))));
                },
                _ => {},
            }
            i = i + 1;
        }
        assert(self@.take(i as int) =~= self@);
        out
    }

    /// The modules of all imports, in source order.
    pub fn imports(&self) -> (r: Vec<&str>)
        ensures
            views(r@) == import_names(self@),
    {
        let mut out: Vec<&str> = Vec::new();
        let mut i: usize = 0;
        assert(views(out@) =~= Seq::empty());
        assert(self@.take(0) =~= Seq::empty());
        while i < self.items.len()
            invariant
                i <= self.items@.len(),
                views(out@) == import_names(self@.take(i as int)),
            decreases self.items.len() - i,
        {
            let ghost before = views(out@);
            assert(self@.take(i + 1).drop_last() =~= self@.take(i as int));
            assert(self@.take(i + 1).last() == self.items@[i as int]@);
            match &self.items[i] {
                DataLangItem::Import { module } => {
                    out.push(module.as_str());
                    assert(views(out@) =~= before.push(module@));
                },
                _ => {},
            }
            i = i + 1;
        }
        assert(self@.take(i as int) =~= self@);
        out
    }

    /// All items of the kind that `item_type` names, in source order.
    pub fn items_by_type(&self, item_type: &str) -> (r: Vec<&DataLangItem>)
        ensures
            borrowed_item_views(r@) == items_of_kind(self@, item_type@),
    {
        let wants_dictionary = str_eq(item_type, "dictionary");
        let wants_term = str_eq(item_type, "term");
        let wants_struct = str_eq(item_type, "struct");
        let wants_import = str_eq(item_type, "import");
        let mut out: Vec<&DataLangItem> = Vec::new();
        let mut i: usize = 0;
        assert(borrowed_item_views(out@) =~= Seq::empty());
        assert(self@.take(0) =~= Seq::empty());
        while i < self.items.len()
            invariant
                i <= self.items@.len(),
                wants_dictionary == (item_type@ == "dictionary"@),
                wants_term == (item_type@ == "term"@),
                wants_struct == (item_type@ == "struct"@),
                wants_import == (item_type@ == "import"@),
                borrowed_item_views(out@) == items_of_kind(self@.take(i as int), item_type@),
            decreases self.items.len() - i,
        {
            let ghost before = borrowed_item_views(out@);
            assert(self@.take(i + 1).drop_last() =~= self@.take(i as int));
            assert(self@.take(i + 1).last() == self.items@[i as int]@);
            let item = &self.items[i];
            let wanted = match item {
                DataLangItem::Dictionary { .. } => wants_dictionary,
                DataLangItem::Term { .. } => wants_term,
                DataLangItem::Struct { .. } => wants_struct,
                DataLangItem::Import { .. } => wants_import,
            };
            if wanted {
                out.push(item);
                assert(borrowed_item_views(out@) =~= before.push(item@));
            }
            i = i + 1;
        }
        assert(self@.take(i as int) =~= self@);
        out
    }

    /// Whether the file holds an item of the kind that `item_type` names.
    pub fn has_item_type(&self, item_type: &str) -> (r: bool)
        ensures
            r == (items_of_kind(self@, item_type@).len() > 0),
    {
        let found = self.items_by_type(item_type);
        assert(borrowed_item_views(found@).len() == found@.len());
        found.len() > 0
    }

    /// The directives of the first term or entity that is named `name`.
    pub fn get_fields(&self, name: &str) -> (r: Option<&[FieldReference]>)
        ensures
            match r {
                Some(fields) => fields_of(self@, name@) == Some(field_views(fields@)),
                None => fields_of(self@, name@) is None,
            },
    {
        let mut i: usize = 0;
        assert(self@.skip(0) =~= self@);
        while i < self.items.len()
            invariant
                i <= self.items@.len(),
                fields_of(self@.skip(i as int), name@) == fields_of(self@, name@),
            decreases self.items.len() - i,
        {
            assert(self@.skip(i as int).drop_first() =~= self@.skip(i + 1));
            assert(self@.skip(i as int)[0] == self.items@[i as int]@);
            match &self.items[i] {
                DataLangItem::Term { name: item_name, fields } => {
                    if str_eq(item_name.as_str(), name) {
                        return Some(fields.as_slice());
                    }
                },
                DataLangItem::Struct { name: item_name, fields, parent } => {
                    if str_eq(item_name.as_str(), name) {
                        return Some(fields.as_slice());
                    }
                },
                _ => {},
            }
            i = i + 1;
        }
        None
    }
}

} // verus!
