//! Tests for lazy service resolution.

use di::lazy::LazyValue;
use di::{transient_as_self, Type};

fn bar() -> Type {
    Type::of("di::test::Bar")
}

#[test]
fn missing_should_initialize_lazy() {
    // arrange
    let mut lazy = di::lazy::missing(bar());

    // act
    let value = lazy.value();

    // assert
    assert!(value.is_none());
}

#[test]
fn empty_should_initialize_lazy() {
    // arrange
    let mut lazy = di::lazy::empty(bar());

    // act
    let value = lazy.value();

    // assert
    assert!(value.is_empty());
}

#[test]
fn lazy_should_resolve_required_service() {
    // arrange
    let mut collection = di::ServiceCollection::new();
    collection.add(transient_as_self(bar()).build());
    let provider = collection.build_provider().unwrap();
    let mut lazy = di::lazy::exactly_one(provider, bar());

    // act
    let value = lazy.value();

    // assert
    match value {
        LazyValue::One(inst) => {
            assert_eq!(inst.implementation_type().name(), "di::test::Bar");
        },
        _ => panic!("expected a required resolution"),
    }
}

#[test]
fn lazy_should_resolve_optional_service() {
    // arrange
    let mut collection = di::ServiceCollection::new();
    collection.add(transient_as_self(bar()).build());
    let provider = collection.build_provider().unwrap();
    let mut lazy = di::lazy::zero_or_one(provider, bar());

    // act
    let value = lazy.value();

    // assert
    assert!(!value.is_none());
}

#[test]
fn lazy_should_allow_missing_optional_service() {
    // arrange
    let collection = di::ServiceCollection::new();
    let provider = collection.build_provider().unwrap();
    let mut lazy = di::lazy::zero_or_one(provider, bar());

    // act
    let value = lazy.value();

    // assert
    assert!(value.is_none());
}

#[test]
fn lazy_should_resolve_all_services() {
    // arrange
    let thing = Type::of("dyn di::test::Thing");
    let mut collection = di::ServiceCollection::new();
    collection.add(di::singleton(thing.clone(), Type::of("di::test::Thing1")).build());
    collection.add(di::singleton(thing.clone(), Type::of("di::test::Thing2")).build());
    let provider = collection.build_provider().unwrap();
    let mut lazy = di::lazy::zero_or_more(provider, thing);

    // act
    let value = lazy.value();

    // assert
    match value {
        LazyValue::Many(all) => {
            assert_eq!(all.len(), 2);
            assert_eq!(all[0].implementation_type().name(), "di::test::Thing1");
            assert_eq!(all[1].implementation_type().name(), "di::test::Thing2");
        },
        _ => panic!("expected a collection resolution"),
    }
}

#[test]
fn lazy_should_cache_resolved_value() {
    // arrange
    let mut collection = di::ServiceCollection::new();
    collection.add(transient_as_self(bar()).build());
    let provider = collection.build_provider().unwrap();
    let mut lazy = di::lazy::exactly_one(provider, bar());

    // act
    let first = match lazy.value() {
        LazyValue::One(inst) => inst.instance(),
        _ => panic!("expected a required resolution"),
    };
    let second = match lazy.value() {
        LazyValue::One(inst) => inst.instance(),
        _ => panic!("expected a required resolution"),
    };

    // assert
    assert_eq!(first, second);
}

#[test]
fn missing_with_key_should_initialize_lazy() {
    // arrange
    let key = Type::of("di::test::key::Thing1");
    let mut lazy = di::lazy::missing_with_key(&key, &bar());

    // act
    let value = lazy.value();

    // assert
    assert!(value.is_none());
}
