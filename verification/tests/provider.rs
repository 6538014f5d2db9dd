//! Tests for the resolution engine: lookup, lifetimes, and scoping.

use di::{scoped, singleton, singleton_with_key, transient, Type};

fn test_service() -> Type {
    Type::of("dyn di::test::TestService")
}

fn test_service_impl() -> Type {
    Type::of("di::test::TestServiceImpl")
}

fn test_service_2_impl() -> Type {
    Type::of("di::test::TestService2Impl")
}

fn other_test_service() -> Type {
    Type::of("dyn di::test::OtherTestService")
}

fn other_test_service_impl() -> Type {
    Type::of("di::test::OtherTestServiceImpl")
}

fn thing() -> Type {
    Type::of("dyn di::test::Thing")
}

#[test]
fn get_should_return_none_when_service_is_unregistered() {
    // arrange
    let mut services = di::ServiceCollection::new().build_provider().unwrap();

    // act
    let result = services.get(&test_service());

    // assert
    assert!(result.is_none());
}

#[test]
fn get_by_key_should_return_none_when_service_is_unregistered() {
    // arrange
    let mut services = di::ServiceCollection::new().build_provider().unwrap();

    // act
    let result = services.get_by_key(&Type::of("di::test::key::Thingy"), &test_service());

    // assert
    assert!(result.is_none());
}

#[test]
fn get_should_return_registered_service() {
    // arrange
    let mut collection = di::ServiceCollection::new();
    collection.add(singleton(test_service(), test_service_impl()).build());
    let mut services = collection.build_provider().unwrap();

    // act
    let result = services.get(&test_service());

    // assert
    assert!(result.is_some());
}

#[test]
fn get_by_key_should_return_registered_service() {
    // arrange
    let key = Type::of("di::test::key::Thingy");
    let mut collection = di::ServiceCollection::new();
    collection.add(singleton_with_key(&key, &thing(), Type::of("di::test::Thing1")).build());
    collection.add(singleton(thing(), Type::of("di::test::Thing1")).build());
    let mut services = collection.build_provider().unwrap();

    // act
    let result = services.get_by_key(&key, &thing());

    // assert
    assert!(result.is_some());
}

#[test]
fn get_required_should_return_registered_service() {
    // arrange
    let mut collection = di::ServiceCollection::new();
    collection.add(singleton(test_service(), test_service_impl()).build());
    let mut services = collection.build_provider().unwrap();

    // act
    let _ = services.get_required(&test_service());

    // assert
    // did not fail
}

#[test]
fn get_required_by_key_should_return_registered_service() {
    // arrange
    let key = Type::of("di::test::key::Thingy");
    let mut collection = di::ServiceCollection::new();
    collection.add(singleton_with_key(&key, &thing(), Type::of("di::test::Thing3")).build());
    collection.add(singleton(thing(), Type::of("di::test::Thing1")).build());
    let mut services = collection.build_provider().unwrap();

    // act
    let thing3 = services.get_required_by_key(&key, &thing());

    // assert
    assert_eq!(thing3.implementation_type().name(), "di::test::Thing3");
}

#[test]
fn get_should_return_same_instance_for_singleton_service() {
    // arrange
    let mut collection = di::ServiceCollection::new();
    collection.add(singleton(test_service(), test_service_impl()).build());
    collection.add(singleton(other_test_service(), other_test_service_impl()).build());
    let mut services = collection.build_provider().unwrap();

    // act
    let svc2 = services.get_required(&other_test_service());
    let svc1 = services.get_required(&other_test_service());

    // assert
    assert_eq!(svc1.instance(), svc2.instance());
}

#[test]
fn get_should_return_different_instances_for_transient_service() {
    // arrange
    let mut collection = di::ServiceCollection::new();
    collection.add(transient(test_service(), test_service_impl()).build());
    let mut services = collection.build_provider().unwrap();

    // act
    let svc1 = services.get_required(&test_service());
    let svc2 = services.get_required(&test_service());

    // assert
    assert_ne!(svc1.instance(), svc2.instance());
}

#[test]
fn get_should_return_last_registered_service() {
    // arrange
    let mut collection = di::ServiceCollection::new();
    collection.add(singleton(test_service(), test_service_impl()).build());
    collection.add(singleton(test_service(), test_service_2_impl()).build());
    let mut services = collection.build_provider().unwrap();

    // act
    let winner = services.get_required(&test_service());

    // assert
    assert_eq!(winner.implementation_type().name(), "di::test::TestService2Impl");
}

#[test]
fn get_all_should_return_all_services() {
    // arrange
    let mut collection = di::ServiceCollection::new();
    collection.add(singleton(test_service(), test_service_impl()).build());
    collection.add(singleton(test_service(), test_service_2_impl()).build());
    let mut provider = collection.build_provider().unwrap();

    // act
    let services = provider.get_all(&test_service());
    let values: Vec<&str> = services.iter().map(|s| s.implementation_type().name()).collect();

    // assert
    assert_eq!(
        &values,
        &["di::test::TestServiceImpl", "di::test::TestService2Impl"],
    );
}

#[test]
fn get_all_by_key_should_return_all_services() {
    // arrange
    let key = Type::of("di::test::key::Thingies");
    let mut collection = di::ServiceCollection::new();
    collection.add(singleton_with_key(&key, &thing(), Type::of("di::test::Thing1")).build());
    collection.add(singleton_with_key(&key, &thing(), Type::of("di::test::Thing2")).build());
    collection.add(singleton_with_key(&key, &thing(), Type::of("di::test::Thing3")).build());
    let mut provider = collection.build_provider().unwrap();

    // act
    let services = provider.get_all_by_key(&key, &thing());
    let values: Vec<String> = services
        .iter()
        .map(|s| s.implementation_type().name().to_owned())
        .collect();

    // assert
    assert_eq!(
        &values,
        &[
            "di::test::Thing1".to_owned(),
            "di::test::Thing2".to_owned(),
            "di::test::Thing3".to_owned(),
        ],
    );
}

#[test]
fn two_scoped_service_providers_should_create_different_instances() {
    // arrange
    let mut collection = di::ServiceCollection::new();
    collection.add(scoped(test_service(), test_service_impl()).build());
    let mut services = collection.build_provider().unwrap();
    let scope1 = services.create_scope();
    let scope2 = services.create_scope();

    // act
    let svc1 = services.get_required_in(&test_service(), &scope1);
    let svc2 = services.get_required_in(&test_service(), &scope2);

    // assert
    assert_ne!(svc1.instance(), svc2.instance());
}

#[test]
fn parent_child_scoped_service_providers_should_create_different_instances() {
    // arrange
    let mut collection = di::ServiceCollection::new();
    collection.add(scoped(test_service(), test_service_impl()).build());
    let mut services = collection.build_provider().unwrap();
    let scope1 = services.create_scope();
    let scope2 = services.create_scope();

    // act
    let svc1 = services.get_required_in(&test_service(), &scope1);
    let svc2 = services.get_required_in(&test_service(), &scope2);

    // assert
    assert_ne!(svc1.instance(), svc2.instance());
}

#[test]
fn scoped_service_should_be_same_within_one_scope() {
    // arrange
    let mut collection = di::ServiceCollection::new();
    collection.add(scoped(test_service(), test_service_impl()).build());
    let mut services = collection.build_provider().unwrap();
    let scope1 = services.create_scope();

    // act
    let svc1 = services.get_required_in(&test_service(), &scope1);
    let svc2 = services.get_required_in(&test_service(), &scope1);

    // assert
    assert_eq!(svc1.instance(), svc2.instance());
}

#[test]
fn scoped_service_provider_should_have_same_singleton_when_eager_created_in_parent() {
    // arrange
    let mut collection = di::ServiceCollection::new();
    collection.add(singleton(test_service(), test_service_impl()).build());
    let mut services = collection.build_provider().unwrap();
    let svc1 = services.get_required(&test_service());
    let scope1 = services.create_scope();
    let scope2 = services.create_scope();

    // act
    let svc2 = services.get_required_in(&test_service(), &scope1);
    let svc3 = services.get_required_in(&test_service(), &scope2);

    // assert
    assert_eq!(svc1.instance(), svc2.instance());
    assert_eq!(svc1.instance(), svc3.instance());
}

#[test]
fn scoped_service_provider_should_have_same_singleton_when_lazy_created_in_parent() {
    // arrange
    let mut collection = di::ServiceCollection::new();
    collection.add(singleton(test_service(), test_service_impl()).build());
    let mut services = collection.build_provider().unwrap();
    let scope1 = services.create_scope();
    let scope2 = services.create_scope();
    let svc1 = services.get_required(&test_service());

    // act
    let svc2 = services.get_required_in(&test_service(), &scope1);
    let svc3 = services.get_required_in(&test_service(), &scope2);

    // assert
    assert_eq!(svc1.instance(), svc2.instance());
    assert_eq!(svc1.instance(), svc3.instance());
}

#[test]
fn factory_should_register_service() {
    // arrange
    let mut collection = di::ServiceCollection::new();
    collection.add(di::transient_factory(test_service()));
    let mut services = collection.build_provider().unwrap();

    // act
    let result = services.get(&test_service());

    // assert
    let resolved = result.unwrap();
    assert_eq!(
        resolved.implementation_type().name(),
        "fn(&ServiceProvider) -> Ref<dyn di::test::TestService>",
    );
}

#[test]
fn keyed_ref_should_hold_service() {
    // arrange
    let mut collection = di::ServiceCollection::new();
    collection.add(singleton(test_service(), test_service_impl()).build());
    let mut services = collection.build_provider().unwrap();

    // act
    let inst = services.get_required(&test_service());
    let token = inst.instance();
    let keyed = di::KeyedRef::new(inst);

    // assert
    assert_eq!(keyed.value().instance(), token);
}
