use datalang::{DataLangFile, DataLangItem, FieldReference, ParseError};

#[test]
fn directive_with_namespace() {
    let f = FieldReference::parse_from_str("  + Base :: Name ").unwrap();
    assert!(f.is_included());
    assert!(!f.is_excluded());
    assert_eq!(f.field_name(), "Name");
    assert_eq!(f.namespace(), Some("Base"));
    assert!(f.has_namespace());
    assert_eq!(f.full_name(), "Base::Name");
}

#[test]
fn directive_without_namespace() {
    let f = FieldReference::parse_from_str("-LastName").unwrap();
    assert!(f.is_excluded());
    assert_eq!(f.field_name(), "LastName");
    assert_eq!(f.namespace(), None);
    assert_eq!(f.full_name(), "LastName");
}

#[test]
fn directive_without_sign_is_refused() {
    match FieldReference::parse_from_str(" Name") {
        Err(ParseError::InvalidFieldReference { field, reason }) => {
            assert_eq!(field, " Name");
            assert_eq!(reason, "Field references must start with + (include) or - (exclude)");
        }
        other => panic!("unexpected: {:?}", other),
    }
}

#[test]
fn directive_without_name_is_refused() {
    match FieldReference::parse_from_str("+") {
        Err(ParseError::InvalidFieldReference { field, reason }) => {
            assert_eq!(field, "+");
            assert_eq!(reason, "Expected field name after + or -");
        }
        other => panic!("unexpected: {:?}", other),
    }
    match FieldReference::parse_from_str("+Base::") {
        Err(ParseError::InvalidFieldReference { reason, .. }) => {
            assert_eq!(reason, "Expected field name after namespace separator ::");
        }
        other => panic!("unexpected: {:?}", other),
    }
    match FieldReference::parse_from_str("-::Name") {
        Err(ParseError::InvalidFieldReference { reason, .. }) => {
            assert_eq!(reason, "Expected field name after + or -");
        }
        other => panic!("unexpected: {:?}", other),
    }
}

#[test]
fn file_with_every_construct() {
    let source = "dictionary Base\n\n// a comment\nimport Other\nterm Name {\n}\nterm User has {\n    +Name\n    -Base::LastName\n}\nSocialMediaUser {\n    +Name\n    +Handle\n}\n";
    let file = DataLangFile::parse_from_str(source).unwrap();
    assert_eq!(file.items.len(), 5);
    assert_eq!(file.dictionaries(), vec!["Base"]);
    assert_eq!(file.imports(), vec!["Other"]);
    let terms = file.terms();
    assert_eq!(terms.len(), 2);
    assert_eq!(terms[0].0, "Name");
    assert!(terms[0].1.is_empty());
    assert_eq!(terms[1].0, "User");
    assert_eq!(terms[1].1.len(), 2);
    assert_eq!(terms[1].1[1].full_name(), "Base::LastName");
    assert!(terms[1].1[1].is_excluded());
    let structs = file.structs();
    assert_eq!(structs.len(), 1);
    assert_eq!(structs[0].0, "SocialMediaUser");
    assert_eq!(structs[0].1.len(), 2);
    assert!(file.has_item_type("dictionary"));
    assert!(file.has_item_type("struct"));
    assert!(!file.has_item_type("enum"));
    assert_eq!(file.items_by_type("term").len(), 2);
    assert_eq!(file.get_fields("User").unwrap().len(), 2);
    assert_eq!(file.get_fields("SocialMediaUser").unwrap().len(), 2);
    assert!(file.get_fields("Missing").is_none());
    assert!(file.validate().is_ok());
}

#[test]
fn primitive_terms_on_one_line_each() {
    let file = DataLangFile::parse_from_str("term Name { }\nterm Handle { }").unwrap();
    assert_eq!(file.items.len(), 2);
    match &file.items[1] {
        DataLangItem::Term { name, fields } => {
            assert_eq!(name, "Handle");
            assert!(fields.is_empty());
        }
        other => panic!("unexpected: {:?}", other),
    }
}

#[test]
fn reserved_keyword_is_refused() {
    match DataLangFile::parse_from_str("fn Foo { }") {
        Err(ParseError::InvalidKeyword { keyword, suggestion }) => {
            assert_eq!(keyword, "fn");
            assert_eq!(suggestion, Some("term".to_string()));
        }
        other => panic!("unexpected: {:?}", other),
    }
    match DataLangFile::parse_from_str("impl Foo { }") {
        Err(ParseError::InvalidKeyword { keyword, suggestion }) => {
            assert_eq!(keyword, "impl");
            assert_eq!(suggestion, None);
        }
        other => panic!("unexpected: {:?}", other),
    }
}

#[test]
fn composite_term_with_a_line_that_is_no_directive() {
    match DataLangFile::parse_from_str("term User has {\n    +Name\n    LastName\n}") {
        Err(ParseError::InvalidFieldReference { field, reason }) => {
            assert_eq!(field, "LastName");
            assert_eq!(reason, "Fields must start with + (include) or - (exclude)");
        }
        other => panic!("unexpected: {:?}", other),
    }
}
