//! The composition resolver: from the directives of an entity to its final
//! fields.
//!
//! Directives apply in source order. An inclusion adds its field unless a
//! field of that name is there already; an exclusion removes the field of
//! that name, if there is one. Names are compared in lower case, and a
//! namespace does not change which field is meant.

use crate::types::{
    attribute_views, field_views, AttributeView, FieldAttribute, FieldRefView, FieldReference,
};
use vstd::prelude::*;
use vstd::string::*;

verus! {

/// The lower-case form of `s` that `str::to_lowercase` returns.
pub uninterp spec fn lowercase(s: Seq<char>) -> Seq<char>;

/// A field of a resolved entity.
#[derive(Debug)]
pub struct ResolvedField {
    /// The name, in lower case and without namespace.
    pub name: String,
    /// The annotations of the directive that included the field.
    pub constraints: Vec<FieldAttribute>,
}

/// The model of a `ResolvedField`.
pub ghost struct ResolvedFieldView {
    pub name: Seq<char>,
    pub constraints: Seq<AttributeView>,
}

impl View for ResolvedField {
    type V = ResolvedFieldView;

    open spec fn view(&self) -> ResolvedFieldView {
        ResolvedFieldView { name: self.name@, constraints: attribute_views(self.constraints@) }
    }
}

/// The models of a list of resolved fields.
pub open spec fn resolved_views(s: Seq<ResolvedField>) -> Seq<ResolvedFieldView> {
    Seq::new(s.len(), |i: int| s[i]@)
}

/// Whether a field named `name` is among `fields`.
pub open spec fn has_field(fields: Seq<ResolvedFieldView>, name: Seq<char>) -> bool {
    exists|i: int| 0 <= i < fields.len() && (#[trigger] fields[i]).name == name
}

/// `fields` without the fields named `name`, in the same order.
pub open spec fn without(fields: Seq<ResolvedFieldView>, name: Seq<char>) -> Seq<ResolvedFieldView>
    decreases fields.len(),
{
    if fields.len() == 0 {
        Seq::empty()
    } else {
        let rest = without(fields.drop_last(), name);
        if fields.last().name == name {
            rest
        } else {
            rest.push(fields.last())
        }
    }
}

/// The fields after a directive on the field `name` has been applied to
/// `fields`: an inclusion adds the field, with `constraints`, unless a field
/// of that name is there already; an exclusion removes the field.
pub open spec fn apply(
    fields: Seq<ResolvedFieldView>,
    is_included: bool,
    name: Seq<char>,
    constraints: Seq<AttributeView>,
) -> Seq<ResolvedFieldView> {
    if is_included {
        if has_field(fields, name) {
            fields
        } else {
            fields.push(ResolvedFieldView { name, constraints })
        }
    } else {
        without(fields, name)
    }
}

/// The fields after the directive `f` has been applied to `fields`. The
/// directive is on the field that its name, taken to lower case, names.
pub open spec fn apply_directive(fields: Seq<ResolvedFieldView>, f: FieldRefView) -> Seq<
    ResolvedFieldView,
> {
    apply(fields, f.is_included, lowercase(f.name), f.attributes)
}

/// The final fields of an entity with the directives `directives`.
pub open spec fn resolve(directives: Seq<FieldRefView>) -> Seq<ResolvedFieldView>
    decreases directives.len(),
{
    if directives.len() == 0 {
        Seq::empty()
    } else {
        apply_directive(resolve(directives.drop_last()), directives.last())
    }
}

/// Calls `str::to_lowercase`, which returns the lower-case equivalent of `s`
/// as a new string. Unicode's rules for it fill tables, so the contract only
/// gives the result its name: the same text has the same lower-case form.
#[verifier::external_body]
pub(crate) fn to_lowercase(s: &str) -> (r: String)
    ensures
        r@ == lowercase(s@),
{
    s.to_lowercase()
}

/// A copy of an annotation.
pub fn copy_attribute(a: &FieldAttribute) -> (r: FieldAttribute)
    ensures
        r@ == a@,
{
    let constraint = match &a.constraint {
        Some(c) => Some(c.clone()),
        None => None,
    };
    FieldAttribute { name: a.name.clone(), constraint }
}

/// A copy of a list of annotations.
pub fn copy_attributes(attributes: &Vec<FieldAttribute>) -> (r: Vec<FieldAttribute>)
    ensures
        attribute_views(r@) == attribute_views(attributes@),
{
    let mut out: Vec<FieldAttribute> = Vec::new();
    let mut i: usize = 0;
    while i < attributes.len()
        invariant
            i <= attributes@.len(),
            out@.len() == i,
            forall|j: int| 0 <= j < i ==> (#[trigger] out@[j])@ == attributes@[j]@,
        decreases attributes.len() - i,
    {
        out.push(copy_attribute(&attributes[i]));
        i = i + 1;
    }
    assert(attribute_views(out@) =~= attribute_views(attributes@));
    out
}

/// Whether a field named `name` is among `fields`.
fn contains_field(fields: &Vec<ResolvedField>, name: &String) -> (r: bool)
    ensures
        r == has_field(resolved_views(fields@), name@),
{
    let mut i: usize = 0;
    while i < fields.len()
        invariant
            i <= fields@.len(),
            forall|j: int| 0 <= j < i ==> (#[trigger] resolved_views(fields@)[j]).name != name@,
        decreases fields.len() - i,
    {
        assert(resolved_views(fields@)[i as int] == fields@[i as int]@);
        if fields[i].name == *name {
            assert(resolved_views(fields@)[i as int].name == name@);
            return true;
        }
        i = i + 1;
    }
    false
}

/// `fields` without the fields named `name`.
fn remove_field(fields: &Vec<ResolvedField>, name: &String) -> (r: Vec<ResolvedField>)
    ensures
        resolved_views(r@) == without(resolved_views(fields@), name@),
{
    let ghost all = resolved_views(fields@);
    let mut out: Vec<ResolvedField> = Vec::new();
    let mut i: usize = 0;
    assert(resolved_views(out@) =~= Seq::empty());
    assert(all.take(0) =~= Seq::empty());
    while i < fields.len()
        invariant
            i <= fields@.len(),
            all == resolved_views(fields@),
            resolved_views(out@) == without(all.take(i as int), name@),
        decreases fields.len() - i,
    {
        let ghost before = resolved_views(out@);
        assert(all.take(i + 1).drop_last() =~= all.take(i as int));
        assert(all.take(i + 1).last() == fields@[i as int]@);
        let f = &fields[i];
        if f.name != *name {
            let kept = ResolvedField {
                name: f.name.clone(),
                constraints: copy_attributes(&f.constraints),
            };
            out.push(kept);
            assert(resolved_views(out@) =~= before.push(f@));
        }
        i = i + 1;
    }
    assert(all.take(i as int) =~= all);
    out
}

/// Applies a directive on the field `name` to `fields`, as `apply` defines
/// it. The name is taken as it is given.
pub fn apply_to(
    fields: Vec<ResolvedField>,
    is_included: bool,
    name: String,
    constraints: Vec<FieldAttribute>,
) -> (r: Vec<ResolvedField>)
    ensures
        resolved_views(r@) == apply(
            resolved_views(fields@),
            is_included,
            name@,
            attribute_views(constraints@),
        ),
{
    if is_included {
        if contains_field(&fields, &name) {
            fields
        } else {
            let ghost before = resolved_views(fields@);
            let mut fields = fields;
            let added = ResolvedField { name, constraints };
            fields.push(added);
            assert(resolved_views(fields@) =~= before.push(added@));
            fields
        }
    } else {
        remove_field(&fields, &name)
    }
}

/// The final fields of an entity with the directives `directives`, as
/// `resolve` defines them.
pub fn resolve_fields(directives: &Vec<FieldReference>) -> (r: Vec<ResolvedField>)
    ensures
        resolved_views(r@) == resolve(field_views(directives@)),
{
    let ghost all = field_views(directives@);
    let mut fields: Vec<ResolvedField> = Vec::new();
    let mut i: usize = 0;
    assert(resolved_views(fields@) =~= Seq::empty());
    assert(all.take(0) =~= Seq::empty());
    while i < directives.len()
        invariant
            i <= directives@.len(),
            all == field_views(directives@),
            resolved_views(fields@) == resolve(all.take(i as int)),
        decreases directives.len() - i,
    {
        assert(all.take(i + 1).drop_last() =~= all.take(i as int));
        assert(all.take(i + 1).last() == directives@[i as int]@);
        let d = &directives[i];
        let name = to_lowercase(d.name.as_str());
        fields = apply_to(fields, d.is_included, name, copy_attributes(&d.attributes));
        i = i + 1;
    }
    assert(all.take(i as int) =~= all);
    fields
}

} // verus!
