//! Tests for the three validation rules and the aggregated error.

use di::{
    exactly_one, exactly_one_with_key, scoped, singleton, singleton_as_self, transient,
    transient_with_key, validate, zero_or_one, zero_or_one_with_key, Type,
};

fn test_service() -> Type {
    Type::of("dyn di::test::TestService")
}

fn test_service_impl() -> Type {
    Type::of("di::test::TestServiceImpl")
}

fn other_test_service() -> Type {
    Type::of("dyn di::test::OtherTestService")
}

fn other_test_service_impl() -> Type {
    Type::of("di::test::OtherTestServiceImpl")
}

fn another_test_service() -> Type {
    Type::of("dyn di::test::AnotherTestService")
}

fn thing() -> Type {
    Type::of("dyn di::test::Thing")
}

#[test]
fn validate_should_report_missing_required_type() {
    // arrange
    let mut services = di::ServiceCollection::new();

    services.add(
        singleton(other_test_service(), other_test_service_impl())
            .depends_on(exactly_one(test_service()))
            .build(),
    );

    // act
    let result = validate(&services);

    // assert
    assert_eq!(
        &result.err().unwrap().message(),
        "Service 'di::test::OtherTestServiceImpl' requires dependent service \
         'dyn di::test::TestService', which has not be registered"
    );
}

#[test]
fn validate_should_report_missing_required_keyed_type() {
    // arrange
    let key1 = Type::of("di::test::key::Thing1");
    let key2 = Type::of("di::test::key::Thing2");
    let mut services = di::ServiceCollection::new();

    services.add(
        singleton_as_self(Type::of("di::test::CatInTheHat"))
            .depends_on(exactly_one_with_key(&key1, &thing()))
            .depends_on(zero_or_one_with_key(&key2, &thing()))
            .build(),
    );
    services.add(transient_with_key(&key2, &thing(), Type::of("di::test::Thing2")).build());

    // act
    let result = validate(&services);

    // assert
    assert_eq!(
        &result.err().unwrap().message(),
        "Service 'di::test::CatInTheHat' requires dependent service \
         'dyn di::test::Thing' with the key 'di::test::key::Thing1', which has not be registered"
    );
}

#[test]
fn validate_should_ignore_missing_optional_type() {
    // arrange
    let mut services = di::ServiceCollection::new();

    services.add(
        singleton(other_test_service(), Type::of("di::test::TestOptionalDepImpl"))
            .depends_on(zero_or_one(test_service()))
            .build(),
    );

    // act
    let result = validate(&services);

    // assert
    assert!(result.is_ok());
}

#[test]
fn validate_should_ignore_missing_optional_keyed_type() {
    // arrange
    let key1 = Type::of("di::test::key::Thing1");
    let key2 = Type::of("di::test::key::Thing2");
    let mut services = di::ServiceCollection::new();

    services.add(
        singleton_as_self(Type::of("di::test::CatInTheHat"))
            .depends_on(exactly_one_with_key(&key1, &thing()))
            .depends_on(zero_or_one_with_key(&key2, &thing()))
            .build(),
    );
    services.add(transient_with_key(&key1, &thing(), Type::of("di::test::Thing1")).build());

    // act
    let result = validate(&services);

    // assert
    assert!(result.is_ok());
}

#[test]
fn validate_should_report_circular_dependency() {
    // arrange
    let mut services = di::ServiceCollection::new();

    services.add(
        singleton(test_service(), Type::of("di::test::TestCircularDepImpl"))
            .depends_on(exactly_one(test_service()))
            .build(),
    );

    // act
    let result = validate(&services);

    // assert
    assert_eq!(
        &result.err().unwrap().message(),
        "A circular dependency was detected for service \
         'dyn di::test::TestService' on service 'di::test::TestCircularDepImpl'"
    );
}

#[test]
fn validate_should_report_multiple_issues() {
    // arrange
    let mut services = di::ServiceCollection::new();

    services.add(
        singleton(test_service(), Type::of("di::test::TestAllKindOfProblems"))
            .depends_on(exactly_one(other_test_service()))
            .depends_on(exactly_one(another_test_service()))
            .build(),
    );
    services.add(
        singleton(other_test_service(), other_test_service_impl())
            .depends_on(exactly_one(test_service()))
            .build(),
    );

    // act
    let result = validate(&services);

    // assert
    assert_eq!(
        &result.err().unwrap().message(),
        "One or more validation errors occurred.\n  \
          [1] Service 'di::test::TestAllKindOfProblems' requires dependent service 'dyn di::test::AnotherTestService', which has not be registered\n  \
          [2] A circular dependency was detected for service 'dyn di::test::TestService' on service 'di::test::TestAllKindOfProblems'\n  \
          [3] A circular dependency was detected for service 'dyn di::test::OtherTestService' on service 'di::test::OtherTestServiceImpl'");
}

#[test]
fn validation_error_should_count_findings() {
    // arrange
    let mut services = di::ServiceCollection::new();

    services.add(
        singleton(test_service(), Type::of("di::test::TestAllKindOfProblems"))
            .depends_on(exactly_one(other_test_service()))
            .depends_on(exactly_one(another_test_service()))
            .build(),
    );
    services.add(
        singleton(other_test_service(), other_test_service_impl())
            .depends_on(exactly_one(test_service()))
            .build(),
    );

    // act
    let result = validate(&services);

    // assert
    assert_eq!(result.err().unwrap().count(), 3);
}

#[test]
fn validate_should_report_scoped_service_in_singleton() {
    // arrange
    let mut services = di::ServiceCollection::new();

    services.add(scoped(test_service(), test_service_impl()).build());
    services.add(
        singleton(other_test_service(), other_test_service_impl())
            .depends_on(exactly_one(test_service()))
            .build(),
    );

    // act
    let result = validate(&services);

    // assert
    assert_eq!(
        &result.err().unwrap().message(),
        "The service 'di::test::OtherTestServiceImpl' has a singleton lifetime, \
         but its dependency 'dyn di::test::TestService' has a scoped lifetime"
    );
}

#[test]
fn validate_should_report_transitive_scoped_service_in_singleton() {
    // arrange
    let mut services = di::ServiceCollection::new();

    services.add(scoped(test_service(), test_service_impl()).build());
    services.add(
        transient(other_test_service(), other_test_service_impl())
            .depends_on(exactly_one(test_service()))
            .build(),
    );
    services.add(
        singleton(another_test_service(), Type::of("di::test::AnotherTestServiceImpl"))
            .depends_on(exactly_one(other_test_service()))
            .build(),
    );

    // act
    let result = validate(&services);

    // assert
    assert_eq!(
        &result.err().unwrap().message(),
        "The service 'di::test::AnotherTestServiceImpl' has a singleton lifetime, \
         but its transitive dependency 'dyn di::test::TestService' has a scoped lifetime"
    );
}

#[test]
fn validate_should_not_report_circular_dependency_when_visited_multiple_times() {
    // arrange
    let service_m = Type::of("dyn di::test::ServiceM");
    let service_b = Type::of("dyn di::test::ServiceB");
    let service_c = Type::of("dyn di::test::ServiceC");
    let service_a = Type::of("dyn di::test::ServiceA");
    let service_y = Type::of("dyn di::test::ServiceY");
    let service_x = Type::of("dyn di::test::ServiceX");
    let service_z = Type::of("dyn di::test::ServiceZ");
    let mut services = di::ServiceCollection::new();

    services.add(singleton(service_m.clone(), Type::of("di::test::ServiceMImpl")).build());
    services.add(
        singleton(service_b.clone(), Type::of("di::test::ServiceBImpl"))
            .depends_on(exactly_one(service_m.clone()))
            .build(),
    );
    services.add(
        singleton(service_c.clone(), Type::of("di::test::ServiceCImpl"))
            .depends_on(exactly_one(service_m.clone()))
            .build(),
    );
    services.add(
        singleton(service_a.clone(), Type::of("di::test::ServiceAImpl"))
            .depends_on(exactly_one(service_m.clone()))
            .depends_on(exactly_one(service_b.clone()))
            .build(),
    );
    services.add(
        singleton(service_y.clone(), Type::of("di::test::ServiceYImpl"))
            .depends_on(exactly_one(service_m.clone()))
            .depends_on(exactly_one(service_c.clone()))
            .build(),
    );
    services.add(
        singleton(service_x.clone(), Type::of("di::test::ServiceXImpl"))
            .depends_on(exactly_one(service_m.clone()))
            .depends_on(exactly_one(service_y.clone()))
            .build(),
    );
    services.add(
        singleton(service_z, Type::of("di::test::ServiceZImpl"))
            .depends_on(exactly_one(service_m))
            .depends_on(exactly_one(service_a))
            .depends_on(exactly_one(service_x))
            .build(),
    );

    // act
    let result = validate(&services);

    // assert
    assert!(result.is_ok());
}

#[test]
fn validate_should_report_circular_dependency_in_complex_dependency_tree() {
    // arrange
    let service_m = Type::of("dyn di::test::ServiceM");
    let service_b = Type::of("dyn di::test::ServiceB");
    let service_c = Type::of("dyn di::test::ServiceC");
    let service_a = Type::of("dyn di::test::ServiceA");
    let service_y = Type::of("dyn di::test::ServiceY");
    let service_x = Type::of("dyn di::test::ServiceX");
    let service_z = Type::of("dyn di::test::ServiceZ");
    let mut services = di::ServiceCollection::new();

    services.add(singleton(service_m.clone(), Type::of("di::test::ServiceMImpl")).build());
    services.add(
        singleton(service_b.clone(), Type::of("di::test::ServiceBImpl"))
            .depends_on(exactly_one(service_m.clone()))
            .build(),
    );
    services.add(
        singleton(service_c.clone(), Type::of("di::test::ServiceCWithCircleRefToXImpl"))
            .depends_on(exactly_one(service_m.clone()))
            .depends_on(exactly_one(service_x.clone()))
            .build(),
    );
    services.add(
        singleton(service_a.clone(), Type::of("di::test::ServiceAImpl"))
            .depends_on(exactly_one(service_m.clone()))
            .depends_on(exactly_one(service_b.clone()))
            .build(),
    );
    services.add(
        singleton(service_y.clone(), Type::of("di::test::ServiceYImpl"))
            .depends_on(exactly_one(service_m.clone()))
            .depends_on(exactly_one(service_c.clone()))
            .build(),
    );
    services.add(
        singleton(service_x.clone(), Type::of("di::test::ServiceXImpl"))
            .depends_on(exactly_one(service_m.clone()))
            .depends_on(exactly_one(service_y.clone()))
            .build(),
    );
    services.add(
        singleton(service_z, Type::of("di::test::ServiceZImpl"))
            .depends_on(exactly_one(service_m))
            .depends_on(exactly_one(service_a))
            .depends_on(exactly_one(service_x))
            .build(),
    );

    // act
    let result = validate(&services);

    // assert
    assert!(result.is_err());
}

#[test]
fn validate_should_accept_empty_collection() {
    // arrange
    let services = di::ServiceCollection::new();

    // act
    let result = validate(&services);

    // assert
    assert!(result.is_ok());
}

#[test]
fn build_provider_should_fail_when_validation_fails() {
    // arrange
    let mut services = di::ServiceCollection::new();

    services.add(
        singleton(other_test_service(), other_test_service_impl())
            .depends_on(exactly_one(test_service()))
            .build(),
    );

    // act
    let result = services.build_provider();

    // assert
    assert!(result.is_err());
}
