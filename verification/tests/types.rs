//! Tests for type identity and descriptor assembly.

use di::{exactly_one, singleton, Type};

#[test]
fn type_of_should_be_stable() {
    // arrange
    let first = Type::of("di::test::TestServiceImpl");
    let second = Type::of("di::test::TestServiceImpl");

    // act
    let equal = first == second;

    // assert
    assert!(equal);
    assert_eq!(first.id(), second.id());
}

#[test]
fn type_of_should_differ_for_distinct_types() {
    // arrange
    let first = Type::of("di::test::TestServiceImpl");
    let second = Type::of("di::test::OtherTestServiceImpl");

    // act
    let equal = first == second;

    // assert
    assert!(!equal);
    assert_ne!(first.id(), second.id());
}

#[test]
fn type_keyed_should_differ_from_unkeyed() {
    // arrange
    let unkeyed = Type::of("dyn di::test::Thing");
    let keyed = Type::keyed("di::test::key::Thing1", "dyn di::test::Thing");

    // assert
    assert_ne!(unkeyed.id(), keyed.id());
    assert_eq!(unkeyed.name(), keyed.name());
}

#[test]
fn type_with_key_should_match_keyed() {
    // arrange
    let key = Type::of("di::test::key::Thing1");
    let unkeyed = Type::of("dyn di::test::Thing");

    // act
    let keyed = unkeyed.with_key(&key);

    // assert
    assert_eq!(keyed.id(), Type::keyed("di::test::key::Thing1", "dyn di::test::Thing").id());
}

#[test]
fn type_deconstruct_should_expose_name_and_key() {
    // arrange
    let keyed = Type::keyed("di::test::key::Thing1", "dyn di::test::Thing");

    // act
    let (name, key) = Type::deconstruct(&keyed);

    // assert
    assert_eq!(name, "dyn di::test::Thing");
    assert_eq!(key, Some("di::test::key::Thing1"));
}

#[test]
fn type_unknown_should_name_the_unit_type() {
    // arrange
    let unknown = Type::unknown();

    // assert
    assert_eq!(unknown.name(), "()");
}

#[test]
fn type_factory_of_should_wrap_the_service_name() {
    // arrange
    let factory = Type::factory_of("dyn di::test::TestService");

    // assert
    assert_eq!(
        factory.name(),
        "fn(&ServiceProvider) -> Ref<dyn di::test::TestService>",
    );
}

#[test]
fn depends_on_should_ignore_duplicate_dependency() {
    // arrange
    let service = Type::of("dyn di::test::OtherTestService");
    let implementation = Type::of("di::test::OtherTestServiceImpl");
    let dependency = Type::of("dyn di::test::TestService");

    // act
    let descriptor = singleton(service, implementation)
        .depends_on(exactly_one(dependency.clone()))
        .depends_on(exactly_one(dependency))
        .build();

    // assert
    assert_eq!(descriptor.dependencies().len(), 1);
}

#[test]
fn descriptor_should_expose_parts() {
    // arrange
    let service = Type::of("dyn di::test::TestService");
    let implementation = Type::of("di::test::TestServiceImpl");

    // act
    let descriptor = singleton(service.clone(), implementation.clone())
        .depends_on(exactly_one(Type::of("dyn di::test::OtherTestService")))
        .build();

    // assert
    assert_eq!(descriptor.lifetime(), di::ServiceLifetime::Singleton);
    assert_eq!(descriptor.service_type().id(), service.id());
    assert_eq!(descriptor.implementation_type().id(), implementation.id());
    assert_eq!(descriptor.dependencies().len(), 1);
    assert_eq!(
        descriptor.dependencies()[0].cardinality(),
        di::ServiceCardinality::ExactlyOne,
    );
}

#[test]
fn dec_string_should_render_decimal() {
    // arrange and act
    let zero = di::text::dec_string(0);
    let seven = di::text::dec_string(7);
    let large = di::text::dec_string(1204);

    // assert
    assert_eq!(zero, "0");
    assert_eq!(seven, "7");
    assert_eq!(large, "1204");
}
