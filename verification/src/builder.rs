//! Convenience constructors for descriptor builders and dependency edges,
//! one per lifetime and cardinality, with keyed and as-self variants.

use vstd::prelude::*;
use crate::ty::{factory_name_of, Type};
use crate::dependency::{ServiceCardinality, ServiceDependency};
use crate::descriptor::{ServiceDescriptor, ServiceLifetime};
use crate::descriptor_builder::ServiceDescriptorBuilder;

verus! {

/// Initializes a new singleton [`ServiceDescriptorBuilder`].
pub fn singleton(service_type: Type, implementation_type: Type) -> (b: ServiceDescriptorBuilder)
    ensures
        b@.lifetime == ServiceLifetime::Singleton,
        b@.service == service_type@,
        b@.implementation == implementation_type@,
        b@.deps.len() == 0,
{
    ServiceDescriptorBuilder::new(ServiceLifetime::Singleton, service_type, implementation_type)
}

/// Initializes a new keyed singleton [`ServiceDescriptorBuilder`].
pub fn singleton_with_key(
    key_type: &Type,
    service_type: &Type,
    implementation_type: Type,
) -> (b: ServiceDescriptorBuilder)
    ensures
        b@.lifetime == ServiceLifetime::Singleton,
        b@.service.name == service_type@.name,
        b@.service.key == Option::Some(key_type@.name),
        b@.implementation == implementation_type@,
        b@.deps.len() == 0,
{
    ServiceDescriptorBuilder::keyed(
        ServiceLifetime::Singleton,
        key_type,
        service_type,
        implementation_type,
    )
}

/// Initializes a new singleton [`ServiceDescriptorBuilder`] that maps a
/// concrete type to itself rather than an abstraction.
pub fn singleton_as_self(implementation_type: Type) -> (b: ServiceDescriptorBuilder)
    ensures
        b@.lifetime == ServiceLifetime::Singleton,
        b@.service == implementation_type@,
        b@.implementation == implementation_type@,
        b@.deps.len() == 0,
{
    let service_type = implementation_type.clone();
    ServiceDescriptorBuilder::new(ServiceLifetime::Singleton, service_type, implementation_type)
}

/// Initializes a new scoped [`ServiceDescriptorBuilder`].
pub fn scoped(service_type: Type, implementation_type: Type) -> (b: ServiceDescriptorBuilder)
    ensures
        b@.lifetime == ServiceLifetime::Scoped,
        b@.service == service_type@,
        b@.implementation == implementation_type@,
        b@.deps.len() == 0,
{
    ServiceDescriptorBuilder::new(ServiceLifetime::Scoped, service_type, implementation_type)
}

/// Initializes a new keyed scoped [`ServiceDescriptorBuilder`].
pub fn scoped_with_key(
    key_type: &Type,
    service_type: &Type,
    implementation_type: Type,
) -> (b: ServiceDescriptorBuilder)
    ensures
        b@.lifetime == ServiceLifetime::Scoped,
        b@.service.name == service_type@.name,
        b@.service.key == Option::Some(key_type@.name),
        b@.implementation == implementation_type@,
        b@.deps.len() == 0,
{
    ServiceDescriptorBuilder::keyed(
        ServiceLifetime::Scoped,
        key_type,
        service_type,
        implementation_type,
    )
}

/// Initializes a new transient [`ServiceDescriptorBuilder`].
pub fn transient(service_type: Type, implementation_type: Type) -> (b: ServiceDescriptorBuilder)
    ensures
        b@.lifetime == ServiceLifetime::Transient,
        b@.service == service_type@,
        b@.implementation == implementation_type@,
        b@.deps.len() == 0,
{
    ServiceDescriptorBuilder::new(ServiceLifetime::Transient, service_type, implementation_type)
}

/// Initializes a new keyed transient [`ServiceDescriptorBuilder`].
pub fn transient_with_key(
    key_type: &Type,
    service_type: &Type,
    implementation_type: Type,
) -> (b: ServiceDescriptorBuilder)
    ensures
        b@.lifetime == ServiceLifetime::Transient,
        b@.service.name == service_type@.name,
        b@.service.key == Option::Some(key_type@.name),
        b@.implementation == implementation_type@,
        b@.deps.len() == 0,
{
    ServiceDescriptorBuilder::keyed(
        ServiceLifetime::Transient,
        key_type,
        service_type,
        implementation_type,
    )
}

/// Initializes a new transient [`ServiceDescriptorBuilder`] that maps a
/// concrete type to itself rather than an abstraction.
pub fn transient_as_self(implementation_type: Type) -> (b: ServiceDescriptorBuilder)
    ensures
        b@.lifetime == ServiceLifetime::Transient,
        b@.service == implementation_type@,
        b@.implementation == implementation_type@,
        b@.deps.len() == 0,
{
    let service_type = implementation_type.clone();
    ServiceDescriptorBuilder::new(ServiceLifetime::Transient, service_type, implementation_type)
}

/// Initializes a new keyed transient [`ServiceDescriptorBuilder`] that
/// maps a concrete type to itself rather than an abstraction.
pub fn transient_with_key_as_self(
    key_type: &Type,
    implementation_type: Type,
) -> (b: ServiceDescriptorBuilder)
    ensures
        b@.lifetime == ServiceLifetime::Transient,
        b@.service.name == implementation_type@.name,
        b@.service.key == Option::Some(key_type@.name),
        b@.implementation == implementation_type@,
        b@.deps.len() == 0,
{
    let service_type = implementation_type.clone();
    ServiceDescriptorBuilder::keyed(
        ServiceLifetime::Transient,
        key_type,
        &service_type,
        implementation_type,
    )
}

/// Initializes a new singleton [`ServiceDescriptor`] for a bare factory
/// registration: the implementation is recorded as a factory of the
/// service type.
pub fn singleton_factory(service_type: Type) -> (d: ServiceDescriptor)
    ensures
        d@.lifetime == ServiceLifetime::Singleton,
        d@.service == service_type@,
        d@.implementation.name == factory_name_of(service_type@.name),
        d@.deps.len() == 0,
{
    let implementation_type = Type::factory_of(service_type.name());
    ServiceDescriptorBuilder::new(
        ServiceLifetime::Singleton,
        service_type,
        implementation_type,
    ).build()
}

/// Initializes a new scoped [`ServiceDescriptor`] for a bare factory
/// registration.
pub fn scoped_factory(service_type: Type) -> (d: ServiceDescriptor)
    ensures
        d@.lifetime == ServiceLifetime::Scoped,
        d@.service == service_type@,
        d@.implementation.name == factory_name_of(service_type@.name),
        d@.deps.len() == 0,
{
    let implementation_type = Type::factory_of(service_type.name());
    ServiceDescriptorBuilder::new(
        ServiceLifetime::Scoped,
        service_type,
        implementation_type,
    ).build()
}

/// Initializes a new transient [`ServiceDescriptor`] for a bare factory
/// registration.
pub fn transient_factory(service_type: Type) -> (d: ServiceDescriptor)
    ensures
        d@.lifetime == ServiceLifetime::Transient,
        d@.service == service_type@,
        d@.implementation.name == factory_name_of(service_type@.name),
        d@.deps.len() == 0,
{
    let implementation_type = Type::factory_of(service_type.name());
    ServiceDescriptorBuilder::new(
        ServiceLifetime::Transient,
        service_type,
        implementation_type,
    ).build()
}

/// Initializes a new keyed singleton [`ServiceDescriptor`] for a bare
/// factory registration.
pub fn singleton_with_key_factory(key_type: &Type, service_type: &Type) -> (d: ServiceDescriptor)
    ensures
        d@.lifetime == ServiceLifetime::Singleton,
        d@.service.name == service_type@.name,
        d@.service.key == Option::Some(key_type@.name),
        d@.implementation.name == factory_name_of(service_type@.name),
        d@.deps.len() == 0,
{
    let implementation_type = Type::factory_of(service_type.name());
    ServiceDescriptorBuilder::keyed(
        ServiceLifetime::Singleton,
        key_type,
        service_type,
        implementation_type,
    ).build()
}

/// Initializes a new keyed scoped [`ServiceDescriptor`] for a bare
/// factory registration.
pub fn scoped_with_key_factory(key_type: &Type, service_type: &Type) -> (d: ServiceDescriptor)
    ensures
        d@.lifetime == ServiceLifetime::Scoped,
        d@.service.name == service_type@.name,
        d@.service.key == Option::Some(key_type@.name),
        d@.implementation.name == factory_name_of(service_type@.name),
        d@.deps.len() == 0,
{
    let implementation_type = Type::factory_of(service_type.name());
    ServiceDescriptorBuilder::keyed(
        ServiceLifetime::Scoped,
        key_type,
        service_type,
        implementation_type,
    ).build()
}

/// Initializes a new keyed transient [`ServiceDescriptor`] for a bare
/// factory registration.
pub fn transient_with_key_factory(key_type: &Type, service_type: &Type) -> (d: ServiceDescriptor)
    ensures
        d@.lifetime == ServiceLifetime::Transient,
        d@.service.name == service_type@.name,
        d@.service.key == Option::Some(key_type@.name),
        d@.implementation.name == factory_name_of(service_type@.name),
        d@.deps.len() == 0,
{
    let implementation_type = Type::factory_of(service_type.name());
    ServiceDescriptorBuilder::keyed(
        ServiceLifetime::Transient,
        key_type,
        service_type,
        implementation_type,
    ).build()
}

/// Creates a new [`ServiceDependency`] with a cardinality of exactly one
/// (1:1).
pub fn exactly_one(injected_type: Type) -> (d: ServiceDependency)
    ensures
        d@.ty == injected_type@,
        d@.cardinality == ServiceCardinality::ExactlyOne,
{
    ServiceDependency::new(injected_type, ServiceCardinality::ExactlyOne)
}

/// Creates a new keyed [`ServiceDependency`] with a cardinality of exactly
/// one (1:1).
pub fn exactly_one_with_key(key_type: &Type, injected_type: &Type) -> (d: ServiceDependency)
    ensures
        d@.ty.name == injected_type@.name,
        d@.ty.key == Option::Some(key_type@.name),
        d@.cardinality == ServiceCardinality::ExactlyOne,
{
    ServiceDependency::new(
        injected_type.with_key(key_type),
        ServiceCardinality::ExactlyOne,
    )
}

/// Creates a new [`ServiceDependency`] with a cardinality of zero or one
/// (0:1).
pub fn zero_or_one(injected_type: Type) -> (d: ServiceDependency)
    ensures
        d@.ty == injected_type@,
        d@.cardinality == ServiceCardinality::ZeroOrOne,
{
    ServiceDependency::new(injected_type, ServiceCardinality::ZeroOrOne)
}

/// Creates a new keyed [`ServiceDependency`] with a cardinality of zero or
/// one (0:1).
pub fn zero_or_one_with_key(key_type: &Type, injected_type: &Type) -> (d: ServiceDependency)
    ensures
        d@.ty.name == injected_type@.name,
        d@.ty.key == Option::Some(key_type@.name),
        d@.cardinality == ServiceCardinality::ZeroOrOne,
{
    ServiceDependency::new(
        injected_type.with_key(key_type),
        ServiceCardinality::ZeroOrOne,
    )
}

/// Creates a new [`ServiceDependency`] with a cardinality of zero or more
/// (0:*).
pub fn zero_or_more(injected_type: Type) -> (d: ServiceDependency)
    ensures
        d@.ty == injected_type@,
        d@.cardinality == ServiceCardinality::ZeroOrMore,
{
    ServiceDependency::new(injected_type, ServiceCardinality::ZeroOrMore)
}

/// Creates a new keyed [`ServiceDependency`] with a cardinality of zero or
/// more (0:*).
pub fn zero_or_more_with_key(key_type: &Type, injected_type: &Type) -> (d: ServiceDependency)
    ensures
        d@.ty.name == injected_type@.name,
        d@.ty.key == Option::Some(key_type@.name),
        d@.cardinality == ServiceCardinality::ZeroOrMore,
{
    ServiceDependency::new(
        injected_type.with_key(key_type),
        ServiceCardinality::ZeroOrMore,
    )
}

} // verus!
