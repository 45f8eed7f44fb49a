//! The emitter: from a resolved entity to a type definition.
//!
//! A type definition has one string-valued field for each field of the
//! entity, instances whose fields start out empty, and a check for each
//! field that carries a `length` constraint.

use crate::constraint::{decimal, decimal_of, length_limit, read_length_limit};
use crate::resolver::ResolvedFieldView;
use crate::schema::{string_views, Entity, EntityView};
use crate::text::str_eq;
use crate::types::{attribute_views, opt_view, AttributeView, FieldAttribute};
use vstd::prelude::*;
use vstd::string::*;

verus! {

/// The check that the value of a field has fewer than `limit` characters.
#[derive(Debug)]
pub struct LengthCheck {
    pub field: String,
    pub limit: u64,
}

/// The definition of the type emitted for an entity.
#[derive(Debug)]
pub struct TypeDefinition {
    pub name: String,
    /// The names of the fields. Every field holds a string.
    pub fields: Vec<String>,
    /// The checks on the fields that carry a constraint.
    pub checks: Vec<LengthCheck>,
    /// The parent that the entity names, as a marker.
    pub parent: Option<String>,
}

/// An instance of a type definition: one value for each field, in the order
/// of the fields.
#[derive(Debug)]
pub struct Instance {
    pub values: Vec<String>,
}

/// The model of a `LengthCheck`.
pub ghost struct LengthCheckView {
    pub field: Seq<char>,
    pub limit: nat,
}

/// The model of a `TypeDefinition`.
pub ghost struct TypeDefinitionView {
    pub name: Seq<char>,
    pub fields: Seq<Seq<char>>,
    pub checks: Seq<LengthCheckView>,
    pub parent: Option<Seq<char>>,
}

impl View for LengthCheck {
    type V = LengthCheckView;

    open spec fn view(&self) -> LengthCheckView {
        LengthCheckView { field: self.field@, limit: self.limit as nat }
    }
}

/// The models of a list of checks.
pub open spec fn check_views(s: Seq<LengthCheck>) -> Seq<LengthCheckView> {
    Seq::new(s.len(), |i: int| s[i]@)
}

impl View for TypeDefinition {
    type V = TypeDefinitionView;

    open spec fn view(&self) -> TypeDefinitionView {
        TypeDefinitionView {
            name: self.name@,
            fields: string_views(self.fields@),
            checks: check_views(self.checks@),
            parent: opt_view(self.parent),
        }
    }
}

impl View for Instance {
    type V = Seq<Seq<char>>;

    open spec fn view(&self) -> Seq<Seq<char>> {
        string_views(self.values@)
    }
}

/// The limit that an annotation sets on the length of its field, if it is a
/// `length` with a constraint of the form `< N`.
pub open spec fn attribute_limit(a: AttributeView) -> Option<nat> {
    if a.name == "length"@ && a.constraint is Some {
        length_limit(a.constraint->0)
    } else {
        None
    }
}

/// The checks on the field `field` with the annotations `constraints`.
pub open spec fn field_checks(field: Seq<char>, constraints: Seq<AttributeView>) -> Seq<
    LengthCheckView,
>
    decreases constraints.len(),
{
    if constraints.len() == 0 {
        Seq::empty()
    } else {
        let rest = field_checks(field, constraints.drop_last());
        match attribute_limit(constraints.last()) {
            Some(limit) => rest.push(LengthCheckView { field, limit }),
            None => rest,
        }
    }
}

/// The checks on `fields`, field by field.
pub open spec fn checks_of(fields: Seq<ResolvedFieldView>) -> Seq<LengthCheckView>
    decreases fields.len(),
{
    if fields.len() == 0 {
        Seq::empty()
    } else {
        checks_of(fields.drop_last()) + field_checks(fields.last().name, fields.last().constraints)
    }
}

/// The names of `fields`.
pub open spec fn field_names(fields: Seq<ResolvedFieldView>) -> Seq<Seq<char>> {
    Seq::new(fields.len(), |i: int| fields[i].name)
}

/// The type definition emitted for the entity `e`.
pub open spec fn definition_of(e: EntityView) -> TypeDefinitionView {
    TypeDefinitionView {
        name: e.name,
        fields: field_names(e.fields),
        checks: checks_of(e.fields),
        parent: e.parent,
    }
}

/// The message of a check that failed: it names the field and the limit.
pub open spec fn failure_message(c: LengthCheckView) -> Seq<char> {
    c.field + " must be shorter than "@ + decimal_of(c.limit) + " characters"@
}

/// The failure of the check `c` on `value`: the value has `limit` characters
/// or more.
pub open spec fn check_failure(c: LengthCheckView, value: Seq<char>) -> Option<Seq<char>> {
    if value.len() >= c.limit {
        Some(failure_message(c))
    } else {
        None
    }
}

/// The position of the field named `name` among `fields`, or the number of
/// fields where there is none.
pub open spec fn field_position(fields: Seq<Seq<char>>, name: Seq<char>) -> int
    decreases fields.len(),
{
    if fields.len() == 0 || fields[0] == name {
        0
    } else {
        1 + field_position(fields.drop_first(), name)
    }
}

/// The first failure among `checks` on an instance with the values
/// `values` of the fields `fields`. A check on a field that has no value
/// does not fail.
pub open spec fn first_failure(
    checks: Seq<LengthCheckView>,
    fields: Seq<Seq<char>>,
    values: Seq<Seq<char>>,
) -> Option<Seq<char>>
    decreases checks.len(),
{
    if checks.len() == 0 {
        None
    } else {
        let at = field_position(fields, checks[0].field);
        if 0 <= at < fields.len() && at < values.len() && check_failure(checks[0], values[at])
            is Some {
            check_failure(checks[0], values[at])
        } else {
            first_failure(checks.drop_first(), fields, values)
        }
    }
}

/// The model of the outcome of a check on a value.
pub open spec fn failure_of(r: Result<(), String>) -> Option<Seq<char>> {
    match r {
        Ok(_) => None,
        Err(m) => Some(m@),
    }
}

/// `field_position` is the one position before which no field is named
/// `name` and at which one is, or the end.
pub proof fn lemma_field_position(fields: Seq<Seq<char>>, name: Seq<char>, k: int)
    requires
        0 <= k <= fields.len(),
        forall|j: int| 0 <= j < k ==> fields[j] != name,
        k < fields.len() ==> fields[k] == name,
    ensures
        field_position(fields, name) == k,
    decreases fields.len(),
{
    if fields.len() == 0 || fields[0] == name {
    } else {
        lemma_field_position(fields.drop_first(), name, k - 1);
    }
}

impl LengthCheck {
    /// Checks `value`: it passes if and only if it has fewer than `limit`
    /// characters. The message of a failure names the field and the limit.
    pub fn check(&self, value: &str) -> (r: Result<(), String>)
        ensures
            r is Ok <==> value@.len() < self.limit,
            failure_of(r) == check_failure(self@, value@),
    {
        let n = value.unicode_len();
        if n as u64 >= self.limit {
            Err(self.message())
        } else {
            Ok(())
        }
    }

    /// The message with which the check fails.
    pub fn message(&self) -> (r: String)
        ensures
            r@ == failure_message(self@),
    {
        let mut m = self.field.clone();
        m.append(" must be shorter than ");
        let digits = decimal(self.limit);
        m.append(digits.as_str());
        m.append(" characters");
        m
    }
}

/// The checks on the field `field` with the annotations `constraints`.
fn emit_field_checks(field: &String, constraints: &Vec<FieldAttribute>, checks: &mut Vec<LengthCheck>)
    ensures
        check_views(final(checks)@) == check_views(old(checks)@) + field_checks(
            field@,
            attribute_views(constraints@),
        ),
{
    let ghost all = attribute_views(constraints@);
    let ghost start = check_views(checks@);
    let mut i: usize = 0;
    assert(all.take(0) =~= Seq::empty());
    assert(start + Seq::<LengthCheckView>::empty() =~= start);
    while i < constraints.len()
        invariant
            i <= constraints@.len(),
            all == attribute_views(constraints@),
            check_views(checks@) == start + field_checks(field@, all.take(i as int)),
        decreases constraints.len() - i,
    {
        let ghost before = check_views(checks@);
        assert(all.take(i + 1).drop_last() =~= all.take(i as int));
        assert(all.take(i + 1).last() == constraints@[i as int]@);
        let a = &constraints[i];
        if str_eq(a.name.as_str(), "length") {
            match &a.constraint {
                Some(c) => {
                    match read_length_limit(c.as_str()) {
                        Some(limit) => {
                            let added = LengthCheck { field: field.clone(), limit };
                            checks.push(added);
                            assert(check_views(checks@) =~= before.push(added@));
                            assert(before.push(added@) =~= start + field_checks(
                                field@,
                                all.take(i as int),
                            ).push(added@));
                        },
                        None => {},
                    }
                },
                None => {},
            }
        }
        i = i + 1;
    }
    assert(all.take(i as int) =~= all);
}

/// The type definition for `entity`, as `definition_of` defines it.
pub fn emit(entity: &Entity) -> (r: TypeDefinition)
    ensures
        r@ == definition_of(entity@),
{
    let ghost all = entity@.fields;
    let mut fields: Vec<String> = Vec::new();
    let mut checks: Vec<LengthCheck> = Vec::new();
    let mut i: usize = 0;
    assert(check_views(checks@) =~= Seq::empty());
    assert(all.take(0) =~= Seq::empty());
    while i < entity.fields.len()
        invariant
            i <= entity.fields@.len(),
            all == entity@.fields,
            fields@.len() == i,
            forall|j: int| 0 <= j < i ==> (#[trigger] fields@[j])@ == all[j].name,
            check_views(checks@) == checks_of(all.take(i as int)),
        decreases entity.fields.len() - i,
    {
        assert(all.take(i + 1).drop_last() =~= all.take(i as int));
        assert(all.take(i + 1).last() == entity.fields@[i as int]@);
        let f = &entity.fields[i];
        fields.push(f.name.clone());
        emit_field_checks(&f.name, &f.constraints, &mut checks);
        i = i + 1;
    }
    assert(all.take(i as int) =~= all);
    assert(string_views(fields@) =~= field_names(all));
    let parent = match &entity.parent {
        Some(p) => Some(p.clone()),
        None => None,
    };
    TypeDefinition { name: entity.name.clone(), fields, checks, parent }
}

impl TypeDefinition {
    /// A new instance: every field holds the empty string.
    pub fn new_instance(&self) -> (r: Instance)
        ensures
            r@.len() == self@.fields.len(),
            forall|i: int| 0 <= i < r@.len() ==> r@[i] == Seq::<char>::empty(),
    {
        let mut values: Vec<String> = Vec::new();
        let mut i: usize = 0;
        while i < self.fields.len()
            invariant
                i <= self.fields@.len(),
                values@.len() == i,
                forall|j: int| 0 <= j < i ==> (#[trigger] values@[j])@ == Seq::<char>::empty(),
            decreases self.fields.len() - i,
        {
            values.push(String::new());
            i = i + 1;
        }
        Instance { values }
    }

    /// The position of the field named `name`, if there is one.
    pub fn position(&self, name: &str) -> (r: Option<usize>)
        ensures
            match r {
                Some(at) => at < self@.fields.len() && field_position(self@.fields, name@) == at,
                None => field_position(self@.fields, name@) == self@.fields.len(),
            },
    {
        let mut i: usize = 0;
        while i < self.fields.len()
            invariant
                i <= self.fields@.len(),
                forall|j: int| 0 <= j < i ==> (#[trigger] self@.fields[j]) != name@,
            decreases self.fields.len() - i,
        {
            assert(self@.fields[i as int] == self.fields@[i as int]@);
            if str_eq(self.fields[i].as_str(), name) {
                proof {
                    lemma_field_position(self@.fields, name@, i as int);
                }
                return Some(i);
            }
            i = i + 1;
        }
        proof {
            lemma_field_position(self@.fields, name@, i as int);
        }
        None
    }

    /// The value that `instance` holds for the field named `field`, if the
    /// definition has such a field and the instance a value for it.
    pub fn get<'a>(&self, instance: &'a Instance, field: &str) -> (r: Option<&'a str>)
        ensures
            match r {
                Some(v) => {
                    let at = field_position(self@.fields, field@);
                    0 <= at < self@.fields.len() && at < instance@.len() && v@ == instance@[at]
                },
                None => {
                    let at = field_position(self@.fields, field@);
                    at >= self@.fields.len() || at >= instance@.len()
                },
            },
    {
        match self.position(field) {
            Some(at) => {
                if at < instance.values.len() {
                    assert(instance@[at as int] == instance.values@[at as int]@);
                    Some(instance.values[at].as_str())
                } else {
                    None
                }
            },
            None => None,
        }
    }

    /// Gives the field named `field` of `instance` the value `value`. Where
    /// the definition has no such field, or the instance no value for it,
    /// the instance stays as it is and the result is `false`.
    pub fn set(&self, instance: &mut Instance, field: &str, value: String) -> (r: bool)
        ensures
            r == ({
                let at = field_position(self@.fields, field@);
                0 <= at < self@.fields.len() && at < old(instance)@.len()
            }),
            r ==> final(instance)@ == old(instance)@.update(
                field_position(self@.fields, field@),
                value@,
            ),
            !r ==> final(instance)@ == old(instance)@,
    {
        match self.position(field) {
            Some(at) => {
                if at < instance.values.len() {
                    let ghost before = instance@;
                    instance.values.set(at, value);
                    assert(instance@ =~= before.update(at as int, value@));
                    true
                } else {
                    false
                }
            },
            None => false,
        }
    }

    /// Checks an instance against every check of the definition, in order,
    /// and reports the first failure. An instance of a definition without
    /// checks always passes.
    pub fn validate(&self, instance: &Instance) -> (r: Result<(), String>)
        ensures
            failure_of(r) == first_failure(self@.checks, self@.fields, instance@),
            self@.checks.len() == 0 ==> r is Ok,
    {
        let ghost all = self@.checks;
        let mut i: usize = 0;
        assert(all.skip(0) =~= all);
        while i < self.checks.len()
            invariant
                i <= self.checks@.len(),
                all == self@.checks,
                first_failure(all.skip(i as int), self@.fields, instance@) == first_failure(
                    all,
                    self@.fields,
                    instance@,
                ),
            decreases self.checks.len() - i,
        {
            assert(all.skip(i as int).drop_first() =~= all.skip(i + 1));
            assert(all.skip(i as int)[0] == self.checks@[i as int]@);
            let c = &self.checks[i];
            match self.position(c.field.as_str()) {
                Some(at) => {
                    if at < instance.values.len() {
                        assert(instance@[at as int] == instance.values@[at as int]@);
                        match c.check(instance.values[at].as_str()) {
                            Ok(_) => {},
                            Err(m) => {
                                return Err(m);
                            },
                        }
                    }
                },
                None => {},
            }
            i = i + 1;
        }
        Ok(())
    }
}

} // verus!
