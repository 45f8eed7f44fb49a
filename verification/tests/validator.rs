use datalang::schema::compile;
use datalang::{DataLangFile, DataLangItem, FieldAttribute, FieldReference, ParseError};

fn field(name: &str) -> FieldReference {
    FieldReference { is_included: true, namespace: None, name: name.to_string(), attributes: vec![] }
}

fn structural(r: Result<(), ParseError>) -> (String, String) {
    match r {
        Err(ParseError::StructuralError { context, issue }) => (context, issue),
        other => panic!("unexpected: {:?}", other),
    }
}

fn violation_of(items: Vec<DataLangItem>) -> (String, String) {
    structural((DataLangFile { items }).validate())
}

fn directive_violation_of(items: Vec<DataLangItem>) -> (String, String) {
    let file = DataLangFile { items };
    assert!(file.validate().is_ok());
    structural(file.check_directives())
}

fn pair(context: &str, issue: &str) -> (String, String) {
    (context.to_string(), issue.to_string())
}

#[test]
fn empty_names_are_violations() {
    assert_eq!(
        violation_of(vec![DataLangItem::Dictionary { name: String::new() }]),
        pair("dictionary", "Dictionary name cannot be empty")
    );
    assert_eq!(
        violation_of(vec![DataLangItem::Import { module: String::new() }]),
        pair("import", "Import module cannot be empty")
    );
    assert_eq!(
        violation_of(vec![DataLangItem::Term { name: String::new(), fields: vec![] }]),
        pair("term", "Term name cannot be empty")
    );
    assert_eq!(
        violation_of(vec![DataLangItem::Struct { name: String::new(), fields: vec![], parent: None }]),
        pair("struct", "Struct name cannot be empty")
    );
}

#[test]
fn validation_does_not_look_into_directives() {
    let mut limited = field("");
    limited.namespace = Some(String::new());
    limited.attributes.push(FieldAttribute {
        name: "length".to_string(),
        constraint: Some("> 3".to_string()),
    });
    let file = DataLangFile {
        items: vec![
            DataLangItem::Term { name: "User".to_string(), fields: vec![limited] },
            DataLangItem::Struct {
                name: "Other".to_string(),
                fields: vec![],
                parent: Some(String::new()),
            },
        ],
    };
    assert!(file.validate().is_ok());
    assert!(file.check_directives().is_err());
}

#[test]
fn malformed_fields_are_violations() {
    assert_eq!(
        directive_violation_of(vec![DataLangItem::Struct {
            name: "User".to_string(),
            fields: vec![],
            parent: Some(String::new()),
        }]),
        pair("User", "Parent name cannot be empty")
    );
    assert_eq!(
        directive_violation_of(vec![DataLangItem::Term {
            name: "User".to_string(),
            fields: vec![field("")]
        }]),
        pair("User", "Field name cannot be empty")
    );
    let mut namespaced = field("Name");
    namespaced.namespace = Some(String::new());
    assert_eq!(
        directive_violation_of(vec![DataLangItem::Term {
            name: "User".to_string(),
            fields: vec![namespaced]
        }]),
        pair("User", "Field namespace cannot be empty")
    );
    let mut unnamed = field("Name");
    unnamed.attributes.push(FieldAttribute { name: String::new(), constraint: None });
    assert_eq!(
        directive_violation_of(vec![DataLangItem::Term {
            name: "User".to_string(),
            fields: vec![unnamed]
        }]),
        pair("Name", "Attribute name cannot be empty")
    );
    let mut limited = field("Name");
    limited.attributes.push(FieldAttribute {
        name: "length".to_string(),
        constraint: Some("> 3".to_string()),
    });
    assert_eq!(
        directive_violation_of(vec![
            DataLangItem::Dictionary { name: "Base".to_string() },
            DataLangItem::Term { name: "User".to_string(), fields: vec![field("A"), limited] },
            DataLangItem::Term { name: "Late".to_string(), fields: vec![field("")] },
        ]),
        pair("Name", "Length constraint must be of the form < N")
    );
}

#[test]
fn validation_stops_at_the_first_violation() {
    assert_eq!(
        violation_of(vec![
            DataLangItem::Dictionary { name: "Base".to_string() },
            DataLangItem::Import { module: String::new() },
            DataLangItem::Term { name: String::new(), fields: vec![] },
        ]),
        pair("import", "Import module cannot be empty")
    );
}

#[test]
fn entities_of_one_name_pass_validation() {
    let file = DataLangFile {
        items: vec![
            DataLangItem::Term { name: "A".to_string(), fields: vec![] },
            DataLangItem::Term { name: "A".to_string(), fields: vec![] },
        ],
    };
    assert!(file.validate().is_ok());
    let parsed = DataLangFile::parse_from_str("term A { }\nterm A { }").unwrap();
    assert_eq!(parsed.items.len(), 2);
    assert!(parsed.validate().is_ok());
    let schema = compile("term A { }\nterm A { }").unwrap();
    assert_eq!(schema.entities.len(), 2);
    assert_eq!(schema.entities[1].name, "A");
}

#[test]
fn duplicate_entity_names_are_violations() {
    let file = DataLangFile {
        items: vec![
            DataLangItem::Term { name: "User".to_string(), fields: vec![] },
            DataLangItem::Dictionary { name: "User".to_string() },
            DataLangItem::Term { name: "Name".to_string(), fields: vec![] },
            DataLangItem::Struct { name: "Name".to_string(), fields: vec![], parent: None },
            DataLangItem::Struct { name: "User".to_string(), fields: vec![], parent: None },
        ],
    };
    assert!(file.validate().is_ok());
    assert_eq!(structural(file.check_unique_names()), pair("Name", "Duplicate entity name"));
    let parsed = DataLangFile::parse_from_str("term Name { }\nName {\n}").unwrap();
    assert_eq!(structural(parsed.check_unique_names()), pair("Name", "Duplicate entity name"));
    let unique = DataLangFile::parse_from_str("dictionary A\ndictionary A\nterm A { }\nB {\n}").unwrap();
    assert!(unique.check_unique_names().is_ok());
}

#[test]
fn well_formed_files_pass() {
    let file = DataLangFile {
        items: vec![
            DataLangItem::Dictionary { name: "Base".to_string() },
            DataLangItem::Dictionary { name: "Base".to_string() },
            DataLangItem::Term { name: "Name".to_string(), fields: vec![] },
            DataLangItem::Struct {
                name: "User".to_string(),
                fields: vec![field("Name")],
                parent: Some("Base".to_string()),
            },
        ],
    };
    assert!(file.validate().is_ok());
    assert!(file.check_directives().is_ok());
    assert!(file.check_unique_names().is_ok());
    assert!(DataLangFile { items: vec![] }.validate().is_ok());
    assert!(DataLangFile { items: vec![] }.check_directives().is_ok());
    assert!(DataLangFile { items: vec![] }.check_unique_names().is_ok());
}

#[test]
fn messages_of_all_errors() {
    assert_eq!(ParseError::InvalidSyntax("x".to_string()).message(), "Invalid syntax: x");
    assert_eq!(ParseError::UnexpectedToken("x".to_string()).message(), "Unexpected token: x");
    assert_eq!(ParseError::MissingIdentifier("x".to_string()).message(), "Missing identifier: x");
    assert_eq!(
        ParseError::InvalidFieldReference { field: "f".to_string(), reason: "r".to_string() }.message(),
        "Invalid field reference 'f': r"
    );
    assert_eq!(
        ParseError::InvalidKeyword { keyword: "fn".to_string(), suggestion: Some("term".to_string()) }
            .message(),
        "Invalid keyword 'fn'. Did you mean 'term'?"
    );
    assert_eq!(
        ParseError::InvalidKeyword { keyword: "impl".to_string(), suggestion: None }.message(),
        "Invalid keyword 'impl' is not a valid DataLang construct"
    );
    assert_eq!(
        ParseError::StructuralError { context: "c".to_string(), issue: "i".to_string() }.message(),
        "Structural error in c: i"
    );
}
