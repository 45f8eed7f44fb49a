use datalang::emitter::{emit, Instance, TypeDefinition};
use datalang::schema::compile;

const BASE: &str = "dictionary Base\n\nterm Name {\n}\n\nterm LastName {\n}\n\nterm BirthDate {\n}\n\nterm User has {\n    +Name\n    +LastName\n    +BirthDate\n}\n";

fn base_definition(name: &str) -> TypeDefinition {
    let schema = compile(BASE).unwrap();
    let entity = schema.entities.iter().find(|e| e.name == name).unwrap();
    emit(entity)
}

fn base_value<'a>(definition: &TypeDefinition, instance: &'a Instance, field: &str) -> &'a str {
    definition.get(instance, field).unwrap()
}

#[test]
fn test_individual_base_terms() {
    let name_type = base_definition("Name");
    let last_name_type = base_definition("LastName");
    let birth_date_type = base_definition("BirthDate");
    let name = name_type.new_instance();
    let last_name = last_name_type.new_instance();
    let birth_date = birth_date_type.new_instance();

    assert_eq!(base_value(&name_type, &name, "name"), "");
    assert_eq!(base_value(&last_name_type, &last_name, "lastname"), "");
    assert_eq!(base_value(&birth_date_type, &birth_date, "birthdate"), "");
}

#[test]
fn test_composite_user_type() {
    let user_type = base_definition("User");
    let mut user = user_type.new_instance();
    assert!(user_type.set(&mut user, "name", "John".to_string()));
    assert!(user_type.set(&mut user, "lastname", "Doe".to_string()));
    assert!(user_type.set(&mut user, "birthdate", "1990-01-01".to_string()));

    assert_eq!(base_value(&user_type, &user, "name"), "John");
    assert_eq!(base_value(&user_type, &user, "lastname"), "Doe");
    assert_eq!(base_value(&user_type, &user, "birthdate"), "1990-01-01");
}

#[test]
fn test_user_constructor() {
    let user_type = base_definition("User");
    let user = user_type.new_instance();

    assert_eq!(base_value(&user_type, &user, "name"), "");
    assert_eq!(base_value(&user_type, &user, "lastname"), "");
    assert_eq!(base_value(&user_type, &user, "birthdate"), "");
}
