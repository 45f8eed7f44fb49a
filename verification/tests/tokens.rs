use datalang::tokens::Token;
use datalang::{DataLangFile, DataLangItem, FieldReference, ParseError};

fn ident(s: &str) -> Token {
    Token::Ident(s.to_string())
}

#[test]
fn token_directive_with_namespace() {
    let tokens = vec![Token::Minus, ident("Base"), Token::PathSep, ident("Name"), Token::CloseBrace];
    let (f, next) = FieldReference::parse(&tokens, 0).unwrap();
    assert_eq!(next, 4);
    assert!(f.is_excluded());
    assert_eq!(f.full_name(), "Base::Name");
}

#[test]
fn token_directive_errors() {
    let tokens = vec![ident("Name")];
    match FieldReference::parse(&tokens, 0) {
        Err(ParseError::InvalidFieldReference { field, reason }) => {
            assert_eq!(field, "Name");
            assert_eq!(reason, "Field references must start with + (include) or - (exclude)");
        }
        other => panic!("unexpected: {:?}", other),
    }
    let tokens = vec![Token::Plus, Token::CloseBrace];
    match FieldReference::parse(&tokens, 0) {
        Err(ParseError::InvalidFieldReference { field, reason }) => {
            assert_eq!(field, "}");
            assert_eq!(reason, "Expected field name after + or -");
        }
        other => panic!("unexpected: {:?}", other),
    }
    let tokens = vec![Token::Plus, ident("Base"), Token::PathSep];
    match FieldReference::parse(&tokens, 0) {
        Err(ParseError::InvalidFieldReference { field, reason }) => {
            assert_eq!(field, "");
            assert_eq!(reason, "Expected field name after namespace separator ::");
        }
        other => panic!("unexpected: {:?}", other),
    }
    match FieldReference::parse(&tokens, 7) {
        Err(ParseError::InvalidFieldReference { field, .. }) => assert_eq!(field, ""),
        other => panic!("unexpected: {:?}", other),
    }
}

#[test]
fn token_file_with_every_construct() {
    let tokens = vec![
        ident("dictionary"),
        ident("Base"),
        ident("import"),
        ident("Other"),
        ident("term"),
        ident("Name"),
        Token::OpenBrace,
        Token::CloseBrace,
        ident("term"),
        ident("User"),
        ident("has"),
        Token::OpenBrace,
        Token::Plus,
        ident("Name"),
        Token::Minus,
        ident("Base"),
        Token::PathSep,
        ident("LastName"),
        Token::CloseBrace,
        ident("SocialMediaUser"),
        Token::OpenBrace,
        ident("trait"),
        ident("User"),
        Token::Pound,
        Token::OpenBracket,
        ident("length"),
        Token::Less,
        Token::Literal("10".to_string()),
        Token::CloseBracket,
        ident("handle"),
        Token::Plus,
        ident("Name"),
        Token::CloseBrace,
    ];
    let file = DataLangFile::parse(&tokens).unwrap();
    assert_eq!(file.items.len(), 5);
    assert_eq!(file.dictionaries(), vec!["Base"]);
    assert_eq!(file.imports(), vec!["Other"]);
    let terms = file.terms();
    assert_eq!(terms[0].0, "Name");
    assert!(terms[0].1.is_empty());
    assert_eq!(terms[1].1.len(), 2);
    assert_eq!(terms[1].1[1].full_name(), "Base::LastName");
    match &file.items[4] {
        DataLangItem::Struct { name, fields, parent } => {
            assert_eq!(name, "SocialMediaUser");
            assert_eq!(parent, &Some("User".to_string()));
            assert_eq!(fields.len(), 2);
            assert_eq!(fields[0].name, "handle");
            assert!(fields[0].is_included);
            assert_eq!(fields[0].attributes.len(), 1);
            assert_eq!(fields[0].attributes[0].name, "length");
            assert_eq!(fields[0].attributes[0].constraint, Some("< 10".to_string()));
            assert_eq!(fields[1].name, "Name");
            assert!(fields[1].attributes.is_empty());
        }
        other => panic!("unexpected: {:?}", other),
    }
    assert!(file.validate().is_ok());
}

#[test]
fn token_term_needs_has_or_brace() {
    let tokens = vec![ident("term"), ident("Name"), ident("with"), Token::OpenBrace, Token::CloseBrace];
    match DataLangFile::parse(&tokens) {
        Err(ParseError::InvalidSyntax(m)) => {
            assert_eq!(m, "Expected 'has' keyword or opening brace after term name")
        }
        other => panic!("unexpected: {:?}", other),
    }
    let tokens = vec![ident("term"), Token::OpenBrace];
    match DataLangFile::parse(&tokens) {
        Err(ParseError::MissingIdentifier(m)) => assert_eq!(m, "Expected term name"),
        other => panic!("unexpected: {:?}", other),
    }
}

#[test]
fn token_errors() {
    match DataLangFile::parse(&vec![ident("fn"), ident("Foo"), Token::OpenBrace, Token::CloseBrace]) {
        Err(ParseError::InvalidKeyword { keyword, suggestion }) => {
            assert_eq!(keyword, "fn");
            assert_eq!(suggestion, Some("term".to_string()));
        }
        other => panic!("unexpected: {:?}", other),
    }
    match DataLangFile::parse(&vec![ident("User"), ident("Foo")]) {
        Err(ParseError::InvalidSyntax(m)) => assert_eq!(m, "Expected opening brace after struct User"),
        other => panic!("unexpected: {:?}", other),
    }
    match DataLangFile::parse(&vec![ident("User"), Token::OpenBrace, Token::Plus, ident("A")]) {
        Err(ParseError::InvalidSyntax(m)) => assert_eq!(m, "Expected closing brace"),
        other => panic!("unexpected: {:?}", other),
    }
    match DataLangFile::parse(&vec![Token::Plus, ident("A")]) {
        Err(ParseError::UnexpectedToken(m)) => assert_eq!(m, "+"),
        other => panic!("unexpected: {:?}", other),
    }
    match DataLangFile::parse(&vec![ident("dictionary")]) {
        Err(ParseError::MissingIdentifier(m)) => assert_eq!(m, "Expected dictionary name"),
        other => panic!("unexpected: {:?}", other),
    }
    let tokens = vec![
        ident("term"),
        ident("User"),
        ident("has"),
        Token::OpenBrace,
        ident("Name"),
        Token::CloseBrace,
    ];
    match DataLangFile::parse(&tokens) {
        Err(ParseError::InvalidFieldReference { field, .. }) => assert_eq!(field, "Name"),
        other => panic!("unexpected: {:?}", other),
    }
    assert!(DataLangFile::parse(&vec![]).unwrap().items.is_empty());
}

fn located(tokens: Vec<Token>) -> (usize, ParseError) {
    let e = DataLangFile::parse_located(&tokens).unwrap_err();
    (e.at, e.error)
}

#[test]
fn token_errors_carry_their_position() {
    let (at, e) = located(vec![ident("dictionary"), ident("A"), Token::Plus, ident("B")]);
    assert_eq!(at, 2);
    assert!(matches!(e, ParseError::UnexpectedToken(m) if m == "+"));
    let (at, e) = located(vec![ident("dictionary")]);
    assert_eq!(at, 1);
    assert!(matches!(e, ParseError::MissingIdentifier(_)));
    let (at, e) = located(vec![ident("import"), ident("A"), ident("fn"), ident("Foo")]);
    assert_eq!(at, 2);
    assert!(matches!(e, ParseError::InvalidKeyword { .. }));
    let (at, e) = located(vec![ident("User"), ident("Foo")]);
    assert_eq!(at, 1);
    assert!(matches!(e, ParseError::InvalidSyntax(_)));
    let (at, e) = located(vec![ident("term"), ident("T"), ident("with"), Token::OpenBrace]);
    assert_eq!(at, 2);
    assert!(matches!(e, ParseError::InvalidSyntax(_)));
    let (at, e) = located(vec![ident("term"), ident("T"), Token::OpenBrace, Token::Plus]);
    assert_eq!(at, 3);
    assert!(matches!(e, ParseError::UnexpectedToken(m) if m == "+"));
    let body = vec![
        ident("User"),
        Token::OpenBrace,
        Token::Plus,
        ident("A"),
        Token::Minus,
        ident("B"),
        Token::PathSep,
        Token::CloseBrace,
    ];
    let (at, e) = located(body);
    assert_eq!(at, 7);
    assert!(matches!(e, ParseError::InvalidFieldReference { field, .. } if field == "}"));
    let (at, e) = located(vec![ident("User"), Token::OpenBrace, Token::Plus, ident("A")]);
    assert_eq!(at, 4);
    assert!(matches!(e, ParseError::InvalidSyntax(m) if m == "Expected closing brace"));
    let annotated = vec![
        ident("User"),
        Token::OpenBrace,
        Token::Pound,
        Token::OpenBracket,
        ident("length"),
        Token::Less,
        Token::CloseBracket,
    ];
    let (at, e) = located(annotated);
    assert_eq!(at, 6);
    assert!(matches!(e, ParseError::InvalidSyntax(m) if m == "Expected a value after <"));
    let e = FieldReference::parse_located(&vec![Token::Plus, Token::Less], 0).unwrap_err();
    assert_eq!(e.at, 1);
    assert!(DataLangFile::parse_located(&vec![ident("term"), ident("T"), Token::OpenBrace, Token::CloseBrace]).is_ok());
}
