use datalang::emitter::{emit, Instance, TypeDefinition};
use datalang::schema::compile;

const SOCIAL_MEDIA: &str = "dictionary SocialMedia\nimport Base\n\nterm Handle {\n}\n\nSocialMediaUser {\n    +Name\n    +BirthDate\n    +Handle\n}\n";

fn social_definition(name: &str) -> TypeDefinition {
    let schema = compile(SOCIAL_MEDIA).unwrap();
    let entity = schema.entities.iter().find(|e| e.name == name).unwrap();
    emit(entity)
}

fn social_value<'a>(definition: &TypeDefinition, instance: &'a Instance, field: &str) -> &'a str {
    definition.get(instance, field).unwrap()
}

#[test]
fn test_handle_type() {
    let handle_type = social_definition("Handle");
    let handle = handle_type.new_instance();
    assert_eq!(social_value(&handle_type, &handle, "handle"), "");
}

#[test]
fn test_social_media_user_fields() {
    let social_type = social_definition("SocialMediaUser");
    let mut social_user = social_type.new_instance();
    assert!(social_type.set(&mut social_user, "name", "Jane".to_string()));
    assert!(social_type.set(&mut social_user, "birthdate", "1995-05-15".to_string()));
    assert!(social_type.set(&mut social_user, "handle", "@jane_dev".to_string()));

    assert_eq!(social_value(&social_type, &social_user, "name"), "Jane");
    assert_eq!(social_value(&social_type, &social_user, "birthdate"), "1995-05-15");
    assert_eq!(social_value(&social_type, &social_user, "handle"), "@jane_dev");
}

#[test]
fn test_social_media_user_excludes_lastname() {
    let social_type = social_definition("SocialMediaUser");
    let social_user = social_type.new_instance();

    assert!(social_type.get(&social_user, "name").is_some());
    assert!(social_type.get(&social_user, "birthdate").is_some());
    assert!(social_type.get(&social_user, "handle").is_some());

    assert!(social_type.get(&social_user, "lastname").is_none());
    assert_eq!(social_type.fields, vec!["name", "birthdate", "handle"]);

    assert!(true);
}

#[test]
fn test_social_media_user_constructor() {
    let social_type = social_definition("SocialMediaUser");
    let social_user = social_type.new_instance();

    assert_eq!(social_value(&social_type, &social_user, "name"), "");
    assert_eq!(social_value(&social_type, &social_user, "birthdate"), "");
    assert_eq!(social_value(&social_type, &social_user, "handle"), "");
}
