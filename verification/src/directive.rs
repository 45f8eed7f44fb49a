//! Composition directives: `+Name`, `-Name` and their namespaced forms.

use crate::text::{to_chars, trim, trimmed};
use crate::types::{ErrorView, FieldRefView, FieldReference, ParseError};
use vstd::prelude::*;
use vstd::string::*;

verus! {

/// The index of the first `::` in `s`; where there is none, an index at
/// which no two characters are left.
pub open spec fn find_separator(s: Seq<char>) -> int
    decreases s.len(),
{
    if s.len() < 2 {
        s.len() as int
    } else if s[0] == ':' && s[1] == ':' {
        0
    } else {
        1 + find_separator(s.drop_first())
    }
}

/// The reason given for a directive that does not begin with `+` or `-`.
pub open spec fn reason_no_sign() -> Seq<char> {
    "Field references must start with + (include) or - (exclude)"@
}

/// The reason given for a directive without a name behind its sign.
pub open spec fn reason_no_name() -> Seq<char> {
    "Expected field name after + or -"@
}

/// The reason given for a directive without a name behind `::`.
pub open spec fn reason_no_name_after_separator() -> Seq<char> {
    "Expected field name after namespace separator ::"@
}

/// The error for the directive `input` with the given reason.
pub open spec fn bad_reference(input: Seq<char>, reason: Seq<char>) -> Result<
    FieldRefView,
    ErrorView,
> {
    Err(ErrorView::InvalidFieldReference { field: input, reason })
}

/// What a directive means. Whitespace around the directive, behind the sign
/// and around `::` does not count. The sign decides between inclusion and
/// exclusion; the text behind it is a name, or a namespace and a name with
/// `::` between them, none of them empty.
pub open spec fn parse_field_reference(input: Seq<char>) -> Result<FieldRefView, ErrorView> {
    let t = trimmed(input);
    if t.len() == 0 || (t[0] != '+' && t[0] != '-') {
        bad_reference(input, reason_no_sign())
    } else {
        let rest = trimmed(t.drop_first());
        let k = find_separator(rest);
        if k + 2 <= rest.len() {
            let namespace = trimmed(rest.take(k));
            let name = trimmed(rest.skip(k + 2));
            if namespace.len() == 0 {
                bad_reference(input, reason_no_name())
            } else if name.len() == 0 {
                bad_reference(input, reason_no_name_after_separator())
            } else {
                Ok(
                    FieldRefView {
                        is_included: t[0] == '+',
                        namespace: Some(namespace),
                        name,
                        attributes: Seq::empty(),
                    },
                )
            }
        } else if rest.len() == 0 {
            bad_reference(input, reason_no_name())
        } else {
            Ok(
                FieldRefView {
                    is_included: t[0] == '+',
                    namespace: None,
                    name: rest,
                    attributes: Seq::empty(),
                },
            )
        }
    }
}

/// The model of the outcome of parsing a directive.
pub open spec fn reference_outcome(r: Result<FieldReference, ParseError>) -> Result<
    FieldRefView,
    ErrorView,
> {
    match r {
        Ok(f) => Ok(f@),
        Err(e) => Err(e@),
    }
}

/// `find_separator` is the one position before which no `::` begins and at
/// which one does, or from which fewer than two characters are left.
pub proof fn lemma_find_separator(s: Seq<char>, k: int)
    requires
        0 <= k <= s.len(),
        forall|j: int| 0 <= j < k && j + 1 < s.len() ==> !(#[trigger] s[j] == ':' && s[j + 1] == ':'),
        k + 2 <= s.len() ==> s[k] == ':' && s[k + 1] == ':',
        k + 2 > s.len() ==> k + 1 >= s.len(),
    ensures
        k + 2 <= s.len() ==> find_separator(s) == k,
        k + 2 > s.len() ==> find_separator(s) + 2 > s.len(),
    decreases s.len(),
{
    if s.len() < 2 {
    } else if s[0] == ':' && s[1] == ':' {
    } else {
        if k == 0 {
        } else {
            let t = s.drop_first();
            assert forall|j: int| 0 <= j < k - 1 && j + 1 < t.len() implies !(#[trigger] t[j] == ':' && t[j
                + 1] == ':') by {
                assert(t[j] == s[j + 1]);
                assert(t[j + 1] == s[j + 2]);
            }
            lemma_find_separator(t, k - 1);
        }
    }
}

/// The error for the directive `input` with the given reason.
fn reference_error(input: &str, reason: &str) -> (e: ParseError)
    ensures
        e@ == (ErrorView::InvalidFieldReference { field: input@, reason: reason@ }),
{
    ParseError::InvalidFieldReference {
        field: String::from_str(input),
        reason: String::from_str(reason),
    }
}

/// The position of the first `::` in `s`, if there is one.
fn locate_separator(s: &str) -> (r: Option<usize>)
    ensures
        match r {
            Some(k) => k + 2 <= s@.len() && find_separator(s@) == k,
            None => find_separator(s@) + 2 > s@.len(),
        },
{
    let v = to_chars(s);
    let n = v.len();
    if n < 2 {
        return None;
    }
    let mut k: usize = 0;
    while k + 1 < n
        invariant
            k + 1 <= n,
            n == v@.len(),
            n >= 2,
            v@ == s@,
            forall|j: int| 0 <= j < k && j + 1 < n ==> !(#[trigger] v@[j] == ':' && v@[j + 1] == ':'),
        decreases n - k,
    {
        if v[k] == ':' && v[k + 1] == ':' {
            proof {
                lemma_find_separator(v@, k as int);
            }
            return Some(k);
        }
        k = k + 1;
    }
    proof {
        lemma_find_separator(v@, k as int);
    }
    None
}

impl FieldReference {
    /// Parses one directive, as `parse_field_reference` defines it.
    pub fn parse_from_str(input: &str) -> (r: Result<FieldReference, ParseError>)
        ensures
            reference_outcome(r) == parse_field_reference(input@),
            r matches Ok(f) ==> f@.well_formed(),
    {
        let t = trim(input);
        let tv = to_chars(t);
        if tv.len() == 0 || (tv[0] != '+' && tv[0] != '-') {
            return Err(
                reference_error(input, "Field references must start with + (include) or - (exclude)"),
            );
        }
        let is_included = tv[0] == '+';
        assert(t@.drop_first() =~= t@.subrange(1, t@.len() as int));
        let rest = trim(t.substring_char(1, tv.len()));
        match locate_separator(rest) {
            Some(k) => {
                let rest_len = rest.unicode_len();
                assert(rest@.take(k as int) =~= rest@.subrange(0, k as int));
                assert(rest@.skip(k + 2) =~= rest@.subrange(k + 2, rest@.len() as int));
                let namespace = trim(rest.substring_char(0, k));
                let name = trim(rest.substring_char(k + 2, rest_len));
                if namespace.unicode_len() == 0 {
                    Err(reference_error(input, "Expected field name after + or -"))
                } else if name.unicode_len() == 0 {
                    Err(reference_error(input, "Expected field name after namespace separator ::"))
                } else {
                    let f = FieldReference {
                        is_included,
                        namespace: Some(String::from_str(namespace)),
                        name: String::from_str(name),
                        attributes: Vec::new(),
                    };
                    assert(f@.attributes =~= Seq::empty());
                    Ok(f)
                }
            },
            None => {
                if rest.unicode_len() == 0 {
                    Err(reference_error(input, "Expected field name after + or -"))
                } else {
                    let f = FieldReference {
                        is_included,
                        namespace: None,
                        name: String::from_str(rest),
                        attributes: Vec::new(),
                    };
                    assert(f@.attributes =~= Seq::empty());
                    Ok(f)
                }
            },
        }
    }
}

} // verus!
