use datalang::{DataLangFile, DataLangItem, ParseError};

fn parse(source: &str) -> DataLangFile {
    DataLangFile::parse_from_str(source).unwrap()
}

fn error(source: &str) -> ParseError {
    DataLangFile::parse_from_str(source).unwrap_err()
}

fn syntax_error(source: &str) -> String {
    match error(source) {
        ParseError::InvalidSyntax(m) => m,
        other => panic!("unexpected: {:?}", other),
    }
}

fn missing_identifier(source: &str) -> String {
    match error(source) {
        ParseError::MissingIdentifier(m) => m,
        other => panic!("unexpected: {:?}", other),
    }
}

#[test]
fn empty_sources_have_no_items() {
    assert!(parse("").items.is_empty());
    assert!(parse("\n\n   \n").items.is_empty());
    assert!(parse("// only a comment\n  // and another").items.is_empty());
}

#[test]
fn keywords_need_a_name() {
    assert_eq!(missing_identifier("dictionary"), "Expected dictionary name");
    assert_eq!(missing_identifier("import"), "Expected module name after import");
    assert_eq!(missing_identifier("term"), "Expected term name");
}

#[test]
fn bodies_need_an_opening_brace() {
    assert_eq!(syntax_error("term Name"), "Expected opening brace after term Name");
    assert_eq!(syntax_error("term Name\n+Field\n{\n}"), "Expected opening brace after term Name");
    assert_eq!(syntax_error("User"), "Expected opening brace after struct User");
    assert_eq!(syntax_error("User\n+Name\n{\n}"), "Expected opening brace after struct User");
    assert_eq!(
        syntax_error("term Name with {\n}"),
        "Expected 'has' keyword or opening brace after term name"
    );
}

#[test]
fn brace_on_a_later_line() {
    let file = parse("term User\nhas\n\n{\n+Name\n}\nterm Handle\n{\n}\nPerson\n\n{\n-Name\n}");
    assert_eq!(file.items.len(), 3);
    assert_eq!(file.get_fields("User").unwrap().len(), 1);
    assert_eq!(file.get_fields("Handle").unwrap().len(), 0);
    assert_eq!(file.get_fields("Person").unwrap().len(), 1);
    assert!(file.get_fields("Person").unwrap()[0].is_excluded());
}

#[test]
fn primitive_term_body_holds_nothing() {
    let file = parse("term Name {\n\n// nothing here\n}\nterm Other {\n}");
    assert_eq!(file.items.len(), 2);
    assert!(file.get_fields("Name").unwrap().is_empty());
    match error("term Name {\nanything at all\n}\nterm Other {\n}") {
        ParseError::UnexpectedToken(m) => assert_eq!(m, "anything at all"),
        other => panic!("unexpected: {:?}", other),
    }
    match error("term Name {\n+Field\n}") {
        ParseError::UnexpectedToken(m) => assert_eq!(m, "+Field"),
        other => panic!("unexpected: {:?}", other),
    }
    match error("term Name { +Field }") {
        ParseError::UnexpectedToken(m) => assert_eq!(m, "+"),
        other => panic!("unexpected: {:?}", other),
    }
}

#[test]
fn one_line_bodies_are_read() {
    let file = parse("E { +A }\nterm T has { +A -Base::B }\nterm P { } // primitive\nF {}");
    assert_eq!(file.items.len(), 4);
    let e = file.get_fields("E").unwrap();
    assert_eq!(e.len(), 1);
    assert_eq!(e[0].field_name(), "A");
    assert!(e[0].is_included());
    let t = file.get_fields("T").unwrap();
    assert_eq!(t.len(), 2);
    assert_eq!(t[1].full_name(), "Base::B");
    assert!(t[1].is_excluded());
    assert!(file.get_fields("P").unwrap().is_empty());
    assert!(file.get_fields("F").unwrap().is_empty());
    let file = parse("User { trait Base #[required] #[length < 10] name +Other }");
    match &file.items[0] {
        DataLangItem::Struct { fields, parent, .. } => {
            assert_eq!(parent, &Some("Base".to_string()));
            assert_eq!(fields.len(), 2);
            assert_eq!(fields[0].name, "name");
            assert_eq!(fields[0].attributes.len(), 2);
            assert_eq!(fields[0].attributes[1].constraint, Some("< 10".to_string()));
            assert_eq!(fields[1].name, "Other");
        }
        other => panic!("unexpected: {:?}", other),
    }
}

#[test]
fn nothing_on_the_line_of_a_brace_is_dropped() {
    match error("E { +A } F { +B }") {
        ParseError::UnexpectedToken(m) => assert_eq!(m, "F"),
        other => panic!("unexpected: {:?}", other),
    }
    match error("E { +A\n+B\n}") {
        ParseError::UnexpectedToken(m) => assert_eq!(m, "+"),
        other => panic!("unexpected: {:?}", other),
    }
    match error("term T has { Name }") {
        ParseError::InvalidFieldReference { field, reason } => {
            assert_eq!(field, "Name");
            assert_eq!(reason, "Field references must start with + (include) or - (exclude)");
        }
        other => panic!("unexpected: {:?}", other),
    }
    match error("term T has { + }") {
        ParseError::InvalidFieldReference { field, reason } => {
            assert_eq!(field, "}");
            assert_eq!(reason, "Expected field name after + or -");
        }
        other => panic!("unexpected: {:?}", other),
    }
    assert_eq!(parse("E { // a comment\n+A\n}").get_fields("E").unwrap().len(), 1);
}

#[test]
fn unterminated_body_ends_with_the_source() {
    let file = parse("term User has {\n+Name\n+LastName");
    assert_eq!(file.items.len(), 1);
    assert_eq!(file.get_fields("User").unwrap().len(), 2);
}

#[test]
fn comments_and_empty_lines_in_bodies() {
    let file = parse("User {\n\n// the name\n+Name\n\n   // the handle\n+ Social :: Handle\n}");
    let fields = file.get_fields("User").unwrap();
    assert_eq!(fields.len(), 2);
    assert_eq!(fields[1].namespace(), Some("Social"));
    assert_eq!(fields[1].field_name(), "Handle");
}

#[test]
fn carriage_returns_do_not_count() {
    let file = parse("dictionary Base\r\nterm Name {\r\n}\r\nUser {\r\n+Name\r\n}\r\n");
    assert_eq!(file.items.len(), 3);
    assert_eq!(file.dictionaries(), vec!["Base"]);
    assert_eq!(file.get_fields("User").unwrap()[0].field_name(), "Name");
}

#[test]
fn every_reserved_keyword_is_refused() {
    let with_suggestion = [
        ("function", "term"),
        ("fn", "term"),
        ("struct", "term with struct-like syntax"),
        ("class", "term with struct-like syntax"),
        ("interface", "term with struct-like syntax"),
        ("enum", "term with variants"),
        ("use", "import"),
        ("type", "term"),
        ("test", "term"),
        ("describe", "term"),
        ("it", "term"),
    ];
    for (word, expected) in with_suggestion {
        match error(&format!("{} Foo {{\n}}", word)) {
            ParseError::InvalidKeyword { keyword, suggestion } => {
                assert_eq!(keyword, word);
                assert_eq!(suggestion, Some(expected.to_string()));
            }
            other => panic!("unexpected: {:?}", other),
        }
    }
    let without = [
        "impl", "let", "const", "static", "mod", "var", "pub", "priv", "private", "public",
        "return", "if", "else", "while", "for", "match", "loop", "expect", "assert", "should",
        "spec",
    ];
    for word in without {
        match error(&format!("{} Foo {{\n}}", word)) {
            ParseError::InvalidKeyword { keyword, suggestion } => {
                assert_eq!(keyword, word);
                assert_eq!(suggestion, None);
            }
            other => panic!("unexpected: {:?}", other),
        }
    }
    assert_eq!(parse("Function {\n}").items.len(), 1);
}

#[test]
fn entity_body_with_annotations_and_parent() {
    let file = parse("SocialMediaUser {\ntrait User\n#[length < 10]\n#[required]\nhandle\n\nbio\n}");
    match &file.items[0] {
        DataLangItem::Struct { name, fields, parent } => {
            assert_eq!(name, "SocialMediaUser");
            assert_eq!(parent, &Some("User".to_string()));
            assert_eq!(fields.len(), 2);
            assert_eq!(fields[0].name, "handle");
            assert_eq!(fields[0].attributes.len(), 2);
            assert_eq!(fields[0].attributes[0].name, "length");
            assert_eq!(fields[0].attributes[0].constraint, Some("< 10".to_string()));
            assert_eq!(fields[0].attributes[1].name, "required");
            assert!(fields[1].attributes.is_empty());
            assert!(fields[1].is_included);
        }
        other => panic!("unexpected: {:?}", other),
    }
}

#[test]
fn entity_body_errors() {
    assert_eq!(syntax_error("User {\n#[length < 10]\n}"), "Expected field name after attribute");
    assert_eq!(syntax_error("User {\n#[length < 10\nname\n}"), "Expected closing bracket after attribute");
    assert_eq!(missing_identifier("User {\ntrait\n}"), "Expected parent name after trait");
    match error("User {\ntrait A\ntrait B\n}") {
        ParseError::UnexpectedToken(m) => assert_eq!(m, "trait B"),
        other => panic!("unexpected: {:?}", other),
    }
    match error("User {\nfirst name\n}") {
        ParseError::InvalidFieldReference { field, reason } => {
            assert_eq!(field, "first name");
            assert_eq!(reason, "Fields must start with + (include) or - (exclude)");
        }
        other => panic!("unexpected: {:?}", other),
    }
    match error("User {\n+\n}") {
        ParseError::InvalidFieldReference { field, reason } => {
            assert_eq!(field, "+");
            assert_eq!(reason, "Expected field name after + or -");
        }
        other => panic!("unexpected: {:?}", other),
    }
    match error("term User has {\n#[length < 10]\n+Name\n}") {
        ParseError::InvalidFieldReference { field, .. } => assert_eq!(field, "#[length < 10]"),
        other => panic!("unexpected: {:?}", other),
    }
}

#[test]
fn items_by_kind() {
    let file = parse("dictionary A\ndictionary B\nimport C\nterm T { }\nS {\n}");
    assert_eq!(file.items_by_type("dictionary").len(), 2);
    assert_eq!(file.items_by_type("import").len(), 1);
    assert_eq!(file.items_by_type("term").len(), 1);
    assert_eq!(file.items_by_type("struct").len(), 1);
    assert!(file.items_by_type("Dictionary").is_empty());
    assert!(file.items_by_type("").is_empty());
    assert!(file.has_item_type("import"));
    assert!(!file.has_item_type("entity"));
    assert!(matches!(file.items_by_type("struct")[0], DataLangItem::Struct { .. }));
    assert_eq!(file.dictionaries(), vec!["A", "B"]);
}
