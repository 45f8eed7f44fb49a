//! The items of a DataLang file, their mathematical views, and the errors
//! that parsing and validation report.

use vstd::prelude::*;
use vstd::string::*;

verus! {

/// An annotation on a field, such as `length` with the constraint `< 10`.
#[derive(Debug, Clone)]
pub struct FieldAttribute {
    pub name: String,
    pub constraint: Option<String>,
}

/// One composition directive: `+Name`, `-Name`, `+Namespace::Name` or
/// `-Namespace::Name`, with the annotations written above the field.
#[derive(Debug, Clone)]
pub struct FieldReference {
    /// `true` for `+`, `false` for `-`.
    pub is_included: bool,
    pub namespace: Option<String>,
    pub name: String,
    pub attributes: Vec<FieldAttribute>,
}

/// A top-level construct of a DataLang file.
#[derive(Debug, Clone)]
pub enum DataLangItem {
    Dictionary { name: String },
    Term { name: String, fields: Vec<FieldReference> },
    Import { module: String },
    Struct { name: String, fields: Vec<FieldReference>, parent: Option<String> },
}

/// A parsed DataLang file: its items in source order.
#[derive(Debug, Clone)]
pub struct DataLangFile {
    pub items: Vec<DataLangItem>,
}

/// What parsing or validation found wrong.
#[derive(Debug)]
pub enum ParseError {
    InvalidSyntax(String),
    UnexpectedToken(String),
    MissingIdentifier(String),
    InvalidFieldReference { field: String, reason: String },
    InvalidKeyword { keyword: String, suggestion: Option<String> },
    StructuralError { context: String, issue: String },
}

/// The model of a `FieldAttribute`.
pub ghost struct AttributeView {
    pub name: Seq<char>,
    pub constraint: Option<Seq<char>>,
}

/// The model of a `FieldReference`.
pub ghost struct FieldRefView {
    pub is_included: bool,
    pub namespace: Option<Seq<char>>,
    pub name: Seq<char>,
    pub attributes: Seq<AttributeView>,
}

/// The model of a `DataLangItem`.
pub ghost enum ItemView {
    Dictionary { name: Seq<char> },
    Term { name: Seq<char>, fields: Seq<FieldRefView> },
    Import { module: Seq<char> },
    Struct { name: Seq<char>, fields: Seq<FieldRefView>, parent: Option<Seq<char>> },
}

/// The model of a `ParseError`.
pub ghost enum ErrorView {
    InvalidSyntax(Seq<char>),
    UnexpectedToken(Seq<char>),
    MissingIdentifier(Seq<char>),
    InvalidFieldReference { field: Seq<char>, reason: Seq<char> },
    InvalidKeyword { keyword: Seq<char>, suggestion: Option<Seq<char>> },
    StructuralError { context: Seq<char>, issue: Seq<char> },
}

/// The characters of an optional string.
pub open spec fn opt_view(o: Option<String>) -> Option<Seq<char>> {
    match o {
        Some(s) => Some(s@),
        None => None,
    }
}

/// The models of a list of attributes.
pub open spec fn attribute_views(s: Seq<FieldAttribute>) -> Seq<AttributeView> {
    Seq::new(s.len(), |i: int| s[i]@)
}

/// The models of a list of field references.
pub open spec fn field_views(s: Seq<FieldReference>) -> Seq<FieldRefView> {
    Seq::new(s.len(), |i: int| s[i]@)
}

/// The models of a list of items.
pub open spec fn item_views(s: Seq<DataLangItem>) -> Seq<ItemView> {
    Seq::new(s.len(), |i: int| s[i]@)
}

impl View for FieldAttribute {
    type V = AttributeView;

    open spec fn view(&self) -> AttributeView {
        AttributeView { name: self.name@, constraint: opt_view(self.constraint) }
    }
}

impl View for FieldReference {
    type V = FieldRefView;

    open spec fn view(&self) -> FieldRefView {
        FieldRefView {
            is_included: self.is_included,
            namespace: opt_view(self.namespace),
            name: self.name@,
            attributes: attribute_views(self.attributes@),
        }
    }
}

impl View for DataLangItem {
    type V = ItemView;

    open spec fn view(&self) -> ItemView {
        match self {
            DataLangItem::Dictionary { name } => ItemView::Dictionary { name: name@ },
            DataLangItem::Term { name, fields } => ItemView::Term {
                name: name@,
                fields: field_views(fields@),
            },
            DataLangItem::Import { module } => ItemView::Import { module: module@ },
            DataLangItem::Struct { name, fields, parent } => ItemView::Struct {
                name: name@,
                fields: field_views(fields@),
                parent: opt_view(*parent),
            },
        }
    }
}

impl View for DataLangFile {
    type V = Seq<ItemView>;

    open spec fn view(&self) -> Seq<ItemView> {
        item_views(self.items@)
    }
}

impl View for ParseError {
    type V = ErrorView;

    open spec fn view(&self) -> ErrorView {
        match self {
            ParseError::InvalidSyntax(m) => ErrorView::InvalidSyntax(m@),
            ParseError::UnexpectedToken(m) => ErrorView::UnexpectedToken(m@),
            ParseError::MissingIdentifier(m) => ErrorView::MissingIdentifier(m@),
            ParseError::InvalidFieldReference { field, reason } => ErrorView::InvalidFieldReference {
                field: field@,
                reason: reason@,
            },
            ParseError::InvalidKeyword { keyword, suggestion } => ErrorView::InvalidKeyword {
                keyword: keyword@,
                suggestion: opt_view(*suggestion),
            },
            ParseError::StructuralError { context, issue } => ErrorView::StructuralError {
                context: context@,
                issue: issue@,
            },
        }
    }
}

impl FieldRefView {
    /// Whether the directive names a field: its name is not empty, nor is
    /// its namespace where it has one.
    pub open spec fn well_formed(self) -> bool {
        &&& self.name.len() > 0
        &&& self.namespace matches Some(ns) ==> ns.len() > 0
    }

    /// `namespace::name`, or the bare name where there is no namespace.
    pub open spec fn full_name(self) -> Seq<char> {
        match self.namespace {
            Some(ns) => ns + "::"@ + self.name,
            None => self.name,
        }
    }
}

impl ErrorView {
    /// The text shown to the user for this error.
    pub open spec fn message(self) -> Seq<char> {
        match self {
            ErrorView::InvalidSyntax(m) => "Invalid syntax: "@ + m,
            ErrorView::UnexpectedToken(m) => "Unexpected token: "@ + m,
            ErrorView::MissingIdentifier(m) => "Missing identifier: "@ + m,
            ErrorView::InvalidFieldReference { field, reason } => "Invalid field reference '"@
                + field + "': "@ + reason,
            ErrorView::InvalidKeyword { keyword, suggestion } => match suggestion {
                Some(s) => "Invalid keyword '"@ + keyword + "'. Did you mean '"@ + s + "'?"@,
                None => "Invalid keyword '"@ + keyword + "' is not a valid DataLang construct"@,
            },
            ErrorView::StructuralError { context, issue } => "Structural error in "@ + context
                + ": "@ + issue,
        }
    }
}

impl FieldReference {
    /// Whether this field is included (`+`).
    pub fn is_included(&self) -> (r: bool)
        ensures
            r == self@.is_included,
    {
        self.is_included
    }

    /// Whether this field is excluded (`-`).
    pub fn is_excluded(&self) -> (r: bool)
        ensures
            r == !self@.is_included,
    {
        !self.is_included
    }

    /// The field name without its namespace.
    pub fn field_name(&self) -> (r: &str)
        ensures
            r@ == self@.name,
    {
        self.name.as_str()
    }

    /// The full reference: `namespace::name`, or just the name.
    pub fn full_name(&self) -> (r: String)
        ensures
            r@ == self@.full_name(),
    {
        match &self.namespace {
            Some(ns) => {
                let mut s = ns.clone();
                s.append("::");
                s.append(self.name.as_str());
                s
            },
            None => self.name.clone(),
        }
    }

    /// Whether this field has a namespace.
    pub fn has_namespace(&self) -> (r: bool)
        ensures
            r == self@.namespace is Some,
    {
        self.namespace.is_some()
    }

    /// The namespace, if there is one.
    pub fn namespace(&self) -> (r: Option<&str>)
        ensures
            r is Some == self@.namespace is Some,
            r matches Some(s) ==> s@ == self@.namespace->0,
    {
        match &self.namespace {
            Some(ns) => Some(ns.as_str()),
            None => None,
        }
    }
}

impl ParseError {
    /// The text shown to the user for this error.
    pub fn message(&self) -> (r: String)
        ensures
            r@ == self@.message(),
    {
        match self {
            ParseError::InvalidSyntax(m) => {
                let mut s = String::from_str("Invalid syntax: ");
                s.append(m.as_str());
                s
            },
            ParseError::UnexpectedToken(m) => {
                let mut s = String::from_str("Unexpected token: ");
                s.append(m.as_str());
                s
            },
            ParseError::MissingIdentifier(m) => {
                let mut s = String::from_str("Missing identifier: ");
                s.append(m.as_str());
                s
            },
            ParseError::InvalidFieldReference { field, reason } => {
                let mut s = String::from_str("Invalid field reference '");
                s.append(field.as_str());
                s.append("': ");
                s.append(reason.as_str());
                s
            },
            ParseError::InvalidKeyword { keyword, suggestion } => {
                let mut s = String::from_str("Invalid keyword '");
                s.append(keyword.as_str());
                match suggestion {
                    Some(t) => {
                        s.append("'. Did you mean '");
                        s.append(t.as_str());
                        s.append("'?");
                    },
                    None => {
                        s.append("' is not a valid DataLang construct");
                    },
                }
                s
            },
            ParseError::StructuralError { context, issue } => {
                let mut s = String::from_str("Structural error in ");
                s.append(context.as_str());
                s.append(": ");
                s.append(issue.as_str());
                s
            },
        }
    }
}

} // verus!
