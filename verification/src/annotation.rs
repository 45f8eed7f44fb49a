//! Field annotations: `#[name]` and `#[name < value]`, written in front of a
//! field of an entity.

use crate::text::{char_is_space, find_char, index_of, is_space, to_chars, trim, trimmed};
use crate::types::{attribute_views, AttributeView, ErrorView, FieldAttribute, ParseError};
use vstd::prelude::*;
use vstd::string::*;

verus! {

/// What stands between the brackets of one annotation means. Text in front of
/// the first `<` is the annotation's name; text behind it is the value that
/// the annotated field is compared with.
pub open spec fn parse_attribute(inner: Seq<char>) -> Result<AttributeView, ErrorView> {
    let k = index_of(inner, '<');
    if 0 <= k < inner.len() {
        let name = trimmed(inner.take(k));
        let value = trimmed(inner.skip(k + 1));
        if name.len() == 0 {
            Err(ErrorView::MissingIdentifier("Expected attribute name"@))
        } else if value.len() == 0 {
            Err(ErrorView::InvalidSyntax("Expected a value after <"@))
        } else {
            Ok(AttributeView { name, constraint: Some("< "@ + value) })
        }
    } else {
        let name = trimmed(inner);
        if name.len() == 0 {
            Err(ErrorView::MissingIdentifier("Expected attribute name"@))
        } else {
            Ok(AttributeView { name, constraint: None })
        }
    }
}

/// `r` with the annotations `prefix` in front of its own.
pub open spec fn prepend_attributes(
    prefix: Seq<AttributeView>,
    r: Result<(Seq<AttributeView>, Seq<char>), ErrorView>,
) -> Result<(Seq<AttributeView>, Seq<char>), ErrorView> {
    match r {
        Ok((attributes, rest)) => Ok((prefix + attributes, rest)),
        Err(e) => Err(e),
    }
}

/// The annotations at the front of a line, and the text that follows the last
/// of them, without leading whitespace.
pub open spec fn split_annotations(line: Seq<char>) -> Result<
    (Seq<AttributeView>, Seq<char>),
    ErrorView,
>
    decreases line.len(),
{
    if line.len() > 0 && is_space(line[0]) {
        split_annotations(line.drop_first())
    } else if line.len() >= 2 && line[0] == '#' && line[1] == '[' {
        let k = index_of(line, ']');
        if 2 <= k < line.len() {
            match parse_attribute(line.subrange(2, k)) {
                Ok(a) => prepend_attributes(seq![a], split_annotations(line.skip(k + 1))),
                Err(e) => Err(e),
            }
        } else {
            Err(ErrorView::InvalidSyntax("Expected closing bracket after attribute"@))
        }
    } else {
        Ok((Seq::empty(), line))
    }
}

/// The model of the outcome of parsing one annotation.
pub open spec fn attribute_outcome(r: Result<FieldAttribute, ParseError>) -> Result<
    AttributeView,
    ErrorView,
> {
    match r {
        Ok(a) => Ok(a@),
        Err(e) => Err(e@),
    }
}

/// The model of the outcome of splitting the annotations off a line.
pub open spec fn annotations_outcome(r: Result<(Vec<FieldAttribute>, &str), ParseError>) -> Result<
    (Seq<AttributeView>, Seq<char>),
    ErrorView,
> {
    match r {
        Ok((attributes, rest)) => Ok((attribute_views(attributes@), rest@)),
        Err(e) => Err(e@),
    }
}

/// Parses what stands between the brackets of one annotation.
pub fn read_attribute(inner: &str) -> (r: Result<FieldAttribute, ParseError>)
    ensures
        attribute_outcome(r) == parse_attribute(inner@),
{
    let v = to_chars(inner);
    let n = v.len();
    assert(v@.skip(0) =~= v@);
    let k = find_char(&v, 0, '<');
    if k < n {
        assert(inner@.take(k as int) =~= inner@.subrange(0, k as int));
        assert(inner@.skip(k + 1) =~= inner@.subrange(k + 1, n as int));
        let name = trim(inner.substring_char(0, k));
        let value = trim(inner.substring_char(k + 1, n));
        if name.unicode_len() == 0 {
            Err(ParseError::MissingIdentifier(String::from_str("Expected attribute name")))
        } else if value.unicode_len() == 0 {
            Err(ParseError::InvalidSyntax(String::from_str("Expected a value after <")))
        } else {
            let mut constraint = String::from_str("< ");
            constraint.append(value);
            Ok(FieldAttribute { name: String::from_str(name), constraint: Some(constraint) })
        }
    } else {
        let name = trim(inner);
        if name.unicode_len() == 0 {
            Err(ParseError::MissingIdentifier(String::from_str("Expected attribute name")))
        } else {
            Ok(FieldAttribute { name: String::from_str(name), constraint: None })
        }
    }
}

/// Splits the annotations off the front of a line.
pub fn read_annotations<'a>(line: &'a str) -> (r: Result<(Vec<FieldAttribute>, &'a str), ParseError>)
    ensures
        annotations_outcome(r) == split_annotations(line@),
{
    let v = to_chars(line);
    let n = v.len();
    let mut attributes: Vec<FieldAttribute> = Vec::new();
    let mut pos: usize = 0;
    assert(v@.skip(0) =~= v@);
    assert(attribute_views(attributes@) =~= Seq::empty());
    assert(prepend_attributes(Seq::empty(), split_annotations(v@)) == split_annotations(v@)) by {
        match split_annotations(v@) {
            Ok((a, rest)) => {
                assert(Seq::<AttributeView>::empty() + a =~= a);
            },
            Err(e) => {},
        }
    }
    loop
        invariant
            pos <= n,
            n == v@.len(),
            v@ == line@,
            prepend_attributes(
                attribute_views(attributes@),
                split_annotations(v@.skip(pos as int)),
            ) == split_annotations(v@),
        decreases n - pos,
    {
        let ghost here = v@.skip(pos as int);
        if pos < n && char_is_space(v[pos]) {
            assert(here.drop_first() =~= v@.skip(pos + 1));
            pos = pos + 1;
        } else if n - pos >= 2 && v[pos] == '#' && v[pos + 1] == '[' {
            let k = find_char(&v, pos, ']');
            if k >= n {
                return Err(
                    ParseError::InvalidSyntax(
                        String::from_str("Expected closing bracket after attribute"),
                    ),
                );
            }
            assert(here.subrange(2, k - pos) =~= v@.subrange(pos + 2, k as int));
            assert(here.skip(k - pos + 1) =~= v@.skip(k + 1));
            match read_attribute(line.substring_char(pos + 2, k)) {
                Ok(a) => {
                    let ghost before = attribute_views(attributes@);
                    let ghost tail = split_annotations(v@.skip(k + 1));
                    attributes.push(a);
                    proof {
                        assert(attribute_views(attributes@) =~= before + seq![a@]);
                        match tail {
                            Ok((t, rest)) => {
                                assert((before + seq![a@]) + t =~= before + (seq![a@] + t));
                            },
                            Err(e) => {},
                        }
                    }
                    pos = k + 1;
                },
                Err(e) => {
                    return Err(e);
                },
            }
        } else {
            assert(here =~= v@.subrange(pos as int, n as int));
            assert(attribute_views(attributes@) + Seq::<AttributeView>::empty() =~= attribute_views(
                attributes@,
            ));
            return Ok((attributes, line.substring_char(pos, n)));
        }
    }
}

} // verus!
