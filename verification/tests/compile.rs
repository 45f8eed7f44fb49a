use datalang::emitter::{emit, LengthCheck};
use datalang::resolver::resolve_fields;
use datalang::schema::compile;
use datalang::{DataLangFile, FieldReference, ParseError};

fn names_of(source: &str, entity: &str) -> Vec<String> {
    let schema = compile(source).unwrap();
    let found = schema.entities.iter().find(|e| e.name == entity).unwrap();
    found.fields.iter().map(|f| f.name.clone()).collect()
}

fn directive(text: &str) -> FieldReference {
    FieldReference::parse_from_str(text).unwrap()
}

fn resolved_names(directives: &[&str]) -> Vec<String> {
    let parsed: Vec<FieldReference> = directives.iter().map(|d| directive(d)).collect();
    resolve_fields(&parsed).into_iter().map(|f| f.name).collect()
}

#[test]
fn primitive_term_has_one_field_of_its_name() {
    let schema = compile("term BirthDate { }").unwrap();
    assert_eq!(schema.entities.len(), 1);
    assert!(schema.notices.is_empty());
    let entity = &schema.entities[0];
    assert_eq!(entity.name, "BirthDate");
    assert_eq!(entity.fields.len(), 1);
    assert_eq!(entity.fields[0].name, "birthdate");
    assert!(entity.fields[0].constraints.is_empty());
    assert!(entity.parent.is_none());
    let definition = emit(entity);
    assert_eq!(definition.name, "BirthDate");
    assert_eq!(definition.fields, vec!["birthdate"]);
    assert!(definition.checks.is_empty());
    let instance = definition.new_instance();
    assert_eq!(instance.values, vec![""]);
    assert!(definition.validate(&instance).is_ok());
}

#[test]
fn names_are_lowercased_beyond_ascii() {
    assert_eq!(names_of("term ÉCOLE { }", "ÉCOLE"), vec!["école"]);
}

#[test]
fn include_exclude_include_leaves_the_field() {
    assert_eq!(resolved_names(&["+A", "-A", "+A"]), vec!["a"]);
}

#[test]
fn including_twice_leaves_the_field_once() {
    assert_eq!(resolved_names(&["+A", "+A"]), vec!["a"]);
    assert_eq!(resolved_names(&["+A", "+Base::a", "+B"]), vec!["a", "b"]);
}

#[test]
fn excluding_an_absent_field_is_no_error() {
    assert!(resolved_names(&["-A"]).is_empty());
    assert_eq!(names_of("User {\n-A\n+B\n}", "User"), vec!["b"]);
}

#[test]
fn exclusion_applies_in_source_order() {
    assert_eq!(resolved_names(&["+A", "+B", "-A"]), vec!["b"]);
    assert_eq!(resolved_names(&["-A", "+A", "+B"]), vec!["a", "b"]);
    assert_eq!(resolved_names(&["+A", "+B", "-Other::A", "+A"]), vec!["b", "a"]);
}

#[test]
fn social_media_user_has_no_lastname() {
    let source = "term Name { }\nterm LastName { }\nterm BirthDate { }\nterm Handle { }\nterm User has {\n+Name\n+LastName\n+BirthDate\n}\nSocialMediaUser {\n+Name\n+BirthDate\n+Handle\n}\n";
    assert_eq!(names_of(source, "User"), vec!["name", "lastname", "birthdate"]);
    let social = names_of(source, "SocialMediaUser");
    assert_eq!(social, vec!["name", "birthdate", "handle"]);
    assert!(!social.contains(&"lastname".to_string()));
}

#[test]
fn fn_is_refused_with_a_suggestion() {
    match compile("fn Foo { }") {
        Err(ParseError::InvalidKeyword { keyword, suggestion }) => {
            assert_eq!(keyword, "fn");
            assert_eq!(suggestion, Some("term".to_string()));
        }
        other => panic!("unexpected: {:?}", other),
    }
}

#[test]
fn composite_term_needs_signs() {
    match compile("term User has {\n+Name\nLastName\n}") {
        Err(ParseError::InvalidFieldReference { field, .. }) => assert_eq!(field, "LastName"),
        other => panic!("unexpected: {:?}", other),
    }
    match compile("term User\nhas {\n+Name\n// a comment\n\nLastName\n}") {
        Err(ParseError::InvalidFieldReference { field, .. }) => assert_eq!(field, "LastName"),
        other => panic!("unexpected: {:?}", other),
    }
}

#[test]
fn length_constraint_boundary() {
    let schema = compile("User {\n    #[length < 10]\n    name\n\n    last_name\n}").unwrap();
    let definition = emit(&schema.entities[0]);
    assert_eq!(definition.fields, vec!["name", "last_name"]);
    assert_eq!(definition.checks.len(), 1);
    assert_eq!(definition.checks[0].field, "name");
    assert_eq!(definition.checks[0].limit, 10);
    let check = &definition.checks[0];
    assert!(check.check("").is_ok());
    assert!(check.check("123456789").is_ok());
    assert_eq!(
        check.check("1234567890"),
        Err("name must be shorter than 10 characters".to_string())
    );
    assert!(check.check("ThisNameIsTooLong").is_err());
    // characters count, not bytes
    assert!(check.check("ééééééééé").is_ok());

    let mut instance = definition.new_instance();
    assert!(definition.validate(&instance).is_ok());
    assert!(definition.set(&mut instance, "name", "John".to_string()));
    assert!(definition.validate(&instance).is_ok());
    assert!(definition.set(&mut instance, "name", "ThisNameIsTooLong".to_string()));
    assert_eq!(
        definition.validate(&instance),
        Err("name must be shorter than 10 characters".to_string())
    );
    assert!(!definition.set(&mut instance, "handle", "x".to_string()));
}

#[test]
fn length_check_message_names_field_and_limit() {
    let check = LengthCheck { field: "title".to_string(), limit: 0 };
    assert_eq!(check.check(""), Err("title must be shorter than 0 characters".to_string()));
    let check = LengthCheck { field: "t".to_string(), limit: 18446744073709551615 };
    assert!(check.check("abc").is_ok());
    let check = LengthCheck { field: "t".to_string(), limit: 105 };
    let long = "x".repeat(105);
    assert_eq!(check.check(&long), Err("t must be shorter than 105 characters".to_string()));
    assert!(check.check(&long[1..]).is_ok());
}

#[test]
fn annotations_on_the_line_of_the_field() {
    let schema = compile("User {\n#[required] #[length<3] +Base::Name\n}").unwrap();
    let field = &schema.entities[0].fields[0];
    assert_eq!(field.name, "name");
    assert_eq!(field.constraints.len(), 2);
    assert_eq!(field.constraints[0].name, "required");
    assert_eq!(field.constraints[0].constraint, None);
    assert_eq!(field.constraints[1].name, "length");
    assert_eq!(field.constraints[1].constraint, Some("< 3".to_string()));
    let definition = emit(&schema.entities[0]);
    assert_eq!(definition.checks.len(), 1);
    assert_eq!(definition.checks[0].limit, 3);
}

#[test]
fn parent_is_a_marker() {
    let source = "User {\nname\n}\nSocialMediaUser {\ntrait User\nhandle\n}";
    let schema = compile(source).unwrap();
    let social = &schema.entities[1];
    assert_eq!(social.parent, Some("User".to_string()));
    assert_eq!(social.fields.len(), 1);
    assert_eq!(social.fields[0].name, "handle");
    let definition = emit(social);
    assert_eq!(definition.parent, Some("User".to_string()));
    assert_eq!(definition.fields, vec!["handle"]);
}

#[test]
fn dictionaries_and_imports_give_notices_only() {
    let schema = compile("dictionary Base\nimport Other\n").unwrap();
    assert!(schema.entities.is_empty());
    assert_eq!(
        schema.notices,
        vec!["Processing dictionary: Base", "Processing import: Other"]
    );
}

#[test]
fn entity_without_fields_is_legal() {
    let schema = compile("Empty {\n}\nGone {\n+A\n-A\n}").unwrap();
    assert!(schema.entities[0].fields.is_empty());
    assert!(schema.entities[1].fields.is_empty());
    let definition = emit(&schema.entities[1]);
    assert!(definition.fields.is_empty());
    assert!(definition.validate(&definition.new_instance()).is_ok());
}

#[test]
fn malformed_length_constraint_gives_no_check() {
    let source = "User {\n#[length < ten]\nname\n}";
    let schema = compile(source).unwrap();
    assert_eq!(schema.entities[0].fields[0].constraints.len(), 1);
    assert!(emit(&schema.entities[0]).checks.is_empty());
    match DataLangFile::parse_from_str(source).unwrap().check_directives() {
        Err(ParseError::StructuralError { context, issue }) => {
            assert_eq!(context, "name");
            assert_eq!(issue, "Length constraint must be of the form < N");
        }
        other => panic!("unexpected: {:?}", other),
    }
    let too_large = "User {\n#[length < 18446744073709551616]\nname\n}";
    assert!(emit(&compile(too_large).unwrap().entities[0]).checks.is_empty());
    assert!(DataLangFile::parse_from_str(too_large).unwrap().check_directives().is_err());
    let largest = "User {\n#[length < 18446744073709551615]\nname\n}";
    assert_eq!(emit(&compile(largest).unwrap().entities[0]).checks[0].limit, u64::MAX);
    assert!(DataLangFile::parse_from_str(largest).unwrap().check_directives().is_ok());
}

#[test]
fn bodies_on_one_line() {
    assert_eq!(names_of("E { +A -A +A }", "E"), vec!["a"]);
    assert_eq!(names_of("E { +A +A }", "E"), vec!["a"]);
    assert!(names_of("E { -A }", "E").is_empty());
    assert_eq!(names_of("term T has { +A +Base::B -A }", "T"), vec!["b"]);
    assert_eq!(names_of("E {+A}\nF { +B } // the second", "F"), vec!["b"]);
    let schema = compile("User { trait Base #[length < 10] name last_name }").unwrap();
    let user = &schema.entities[0];
    assert_eq!(user.parent, Some("Base".to_string()));
    assert_eq!(user.fields.len(), 2);
    assert_eq!(user.fields[0].constraints[0].constraint, Some("< 10".to_string()));
    assert_eq!(emit(user).checks[0].limit, 10);
}
