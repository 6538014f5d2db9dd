//! Tests for the service collection's mutation operations.

use di::{singleton, transient, Type};

fn test_service() -> Type {
    Type::of("dyn di::test::TestService")
}

fn test_service_impl() -> Type {
    Type::of("di::test::TestServiceImpl")
}

fn test_service_2_impl() -> Type {
    Type::of("di::test::TestService2Impl")
}

fn other_test_service() -> Type {
    Type::of("dyn di::test::OtherTestService")
}

fn other_test_service_impl() -> Type {
    Type::of("di::test::OtherTestServiceImpl")
}

#[test]
fn is_empty_should_return_true_when_empty() {
    // arrange
    let collection = di::ServiceCollection::default();

    // act
    let empty = collection.is_empty();

    // assert
    assert!(empty);
}

#[test]
fn length_should_return_zero_when_empty() {
    // arrange
    let collection = di::ServiceCollection::default();

    // act
    let length = collection.len();

    // assert
    assert_eq!(length, 0);
}

#[test]
fn is_empty_should_return_false_when_not_empty() {
    // arrange
    let descriptor = singleton(test_service(), test_service_impl()).build();
    let mut collection = di::ServiceCollection::new();

    collection.add(descriptor);

    // act
    let not_empty = !collection.is_empty();

    // assert
    assert!(not_empty);
}

#[test]
fn length_should_return_count_when_not_empty() {
    // arrange
    let descriptor = singleton(test_service(), test_service_impl()).build();
    let mut collection = di::ServiceCollection::new();

    collection.add(descriptor);

    // act
    let length = collection.len();

    // assert
    assert_eq!(length, 1);
}

#[test]
fn clear_should_remove_all_elements() {
    // arrange
    let descriptor = singleton(test_service(), test_service_impl()).build();
    let mut collection = di::ServiceCollection::new();

    collection.add(descriptor);

    // act
    collection.clear();

    // assert
    assert!(collection.is_empty());
}

#[test]
fn try_add_should_do_nothing_when_service_is_registered() {
    // arrange
    let mut collection = di::ServiceCollection::new();

    collection.add(singleton(test_service(), test_service_impl()).build());

    // act
    collection.try_add(singleton(test_service(), test_service_impl()).build());

    // assert
    assert_eq!(collection.len(), 1);
}

#[test]
fn try_add_to_all_should_add_descriptor_when_implementation_is_unregistered() {
    // arrange
    let mut collection = di::ServiceCollection::new();

    collection.add(singleton(test_service(), test_service_impl()).build());
    collection.try_add_to_all(singleton(other_test_service(), other_test_service_impl()).build());

    // act
    let count = collection.len();

    // assert
    assert_eq!(count, 2);
}

#[test]
fn try_add_to_all_should_not_add_descriptor_when_implementation_is_registered() {
    // arrange
    let mut collection = di::ServiceCollection::new();

    collection.add(singleton(test_service(), test_service_impl()).build());
    collection.try_add_to_all(transient(test_service(), test_service_impl()).build());

    // act
    let count = collection.len();

    // assert
    assert_eq!(count, 1);
}

#[test]
fn try_add_all_should_only_add_descriptors_for_unregistered_implementations() {
    // arrange
    let descriptors = vec![
        singleton(test_service(), test_service_impl()).build(),
        transient(test_service(), test_service_impl()).build(),
    ];
    let mut collection = di::ServiceCollection::new();

    collection.try_add_all(descriptors);

    // act
    let count = collection.len();

    // assert
    assert_eq!(count, 1);
}

#[test]
fn replace_should_replace_first_registered_service() {
    // arrange
    let mut collection = di::ServiceCollection::new();

    collection.add(singleton(test_service(), test_service_impl()).build());
    collection.add(singleton(test_service(), test_service_impl()).build());

    // act
    collection.replace(singleton(test_service(), test_service_impl()).build());

    // assert
    assert_eq!(collection.len(), 2);
}

#[test]
fn remove_all_should_remove_registered_services() {
    // arrange
    let mut collection = di::ServiceCollection::new();

    collection.add(singleton(test_service(), test_service_impl()).build());
    collection.add(singleton(test_service(), test_service_impl()).build());

    // act
    collection.remove_all(&test_service());

    // assert
    assert!(collection.is_empty());
}

#[test]
fn try_replace_should_do_nothing_when_service_is_registered() {
    // arrange
    let mut collection = di::ServiceCollection::new();

    collection.add(singleton(test_service(), test_service_impl()).build());

    // act
    collection.try_replace(singleton(test_service(), test_service_2_impl()).build());

    // assert
    let mut provider = collection.build_provider().unwrap();
    let value = provider.get_required(&test_service());
    assert_eq!(value.implementation_type().name(), "di::test::TestServiceImpl");
}

#[test]
fn remove_should_remove_element_at_index() {
    // arrange
    let descriptor = singleton(test_service(), test_service_impl()).build();
    let mut collection = di::ServiceCollection::new();

    collection.add(descriptor);

    // act
    let _ = collection.remove(0);

    // assert
    assert!(collection.is_empty());
}
