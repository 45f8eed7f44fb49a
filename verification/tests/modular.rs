use datalang::emitter::{emit, Instance, TypeDefinition};
use datalang::schema::compile;

const MODULES: &str = "dictionary Base\n\nterm Name {\n}\n\nterm LastName {\n}\n\nterm BirthDate {\n}\n\nterm User has {\n    +Name\n    +LastName\n    +BirthDate\n}\n\ndictionary SocialMedia\nimport Base\n\nterm Handle {\n}\n\nSocialMediaUser {\n    +Name\n    +BirthDate\n    +Handle\n}\n";

fn module_definition(name: &str) -> TypeDefinition {
    let schema = compile(MODULES).unwrap();
    let entity = schema.entities.iter().find(|e| e.name == name).unwrap();
    emit(entity)
}

fn module_value<'a>(definition: &TypeDefinition, instance: &'a Instance, field: &str) -> &'a str {
    definition.get(instance, field).unwrap()
}

#[test]
fn test_cross_module_types_exist() {
    let _user = module_definition("User").new_instance();
    let _social_user = module_definition("SocialMediaUser").new_instance();
    let _name = module_definition("Name").new_instance();
    let _handle = module_definition("Handle").new_instance();

    assert!(true);
}

#[test]
fn test_user_has_all_base_fields() {
    let user_type = module_definition("User");
    let mut user = user_type.new_instance();
    assert!(user_type.set(&mut user, "name", "Alice".to_string()));
    assert!(user_type.set(&mut user, "lastname", "Smith".to_string()));
    assert!(user_type.set(&mut user, "birthdate", "1985-12-25".to_string()));

    assert_eq!(module_value(&user_type, &user, "name"), "Alice");
    assert_eq!(module_value(&user_type, &user, "lastname"), "Smith");
    assert_eq!(module_value(&user_type, &user, "birthdate"), "1985-12-25");
}

#[test]
fn test_social_media_user_selective_fields() {
    let social_type = module_definition("SocialMediaUser");
    let mut social_user = social_type.new_instance();
    assert!(social_type.set(&mut social_user, "name", "Bob".to_string()));
    assert!(social_type.set(&mut social_user, "birthdate", "1990-06-15".to_string()));
    assert!(social_type.set(&mut social_user, "handle", "@bobsmith".to_string()));

    assert_eq!(module_value(&social_type, &social_user, "name"), "Bob");
    assert_eq!(module_value(&social_type, &social_user, "birthdate"), "1990-06-15");
    assert_eq!(module_value(&social_type, &social_user, "handle"), "@bobsmith");
}

#[test]
fn test_field_exclusion() {
    let user_type = module_definition("User");
    let social_type = module_definition("SocialMediaUser");
    let user = user_type.new_instance();
    let social_user = social_type.new_instance();

    // User has lastname
    assert!(user_type.get(&user, "lastname").is_some());

    // SocialMediaUser has no lastname
    assert!(social_type.get(&social_user, "lastname").is_none());

    // Both have name and birthdate
    assert!(user_type.get(&user, "name").is_some());
    assert!(user_type.get(&user, "birthdate").is_some());
    assert!(social_type.get(&social_user, "name").is_some());
    assert!(social_type.get(&social_user, "birthdate").is_some());

    // Only SocialMediaUser has handle
    assert!(social_type.get(&social_user, "handle").is_some());
    assert!(user_type.get(&user, "handle").is_none());

    assert!(true);
}

#[test]
fn test_types_can_coexist() {
    let user_type = module_definition("User");
    let social_type = module_definition("SocialMediaUser");
    let mut user = user_type.new_instance();
    let mut social_user = social_type.new_instance();

    assert!(user_type.set(&mut user, "name", "Alice".to_string()));
    assert!(social_type.set(&mut social_user, "name", "Bob".to_string()));

    assert_eq!(module_value(&user_type, &user, "name"), "Alice");
    assert_eq!(module_value(&social_type, &social_user, "name"), "Bob");

    assert_ne!(
        module_value(&user_type, &user, "name"),
        module_value(&social_type, &social_user, "name")
    );
}
