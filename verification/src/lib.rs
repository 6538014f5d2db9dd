//! A dependency-injection container: a registry mapping service types
//! (optionally qualified by a key type) to registrations with configurable
//! lifetimes (singleton, scoped, transient), graph validation run before a
//! provider is built, and a resolution engine that enforces the lifetime
//! semantics instance by instance.

pub mod ty;
pub mod dependency;
pub mod descriptor;
pub mod descriptor_builder;
pub mod builder;
pub mod collection;
pub mod text;
pub mod validation;
pub mod provider;
pub mod lazy;
pub mod keyed;

pub use ty::Type;
pub use dependency::{ServiceCardinality, ServiceDependency};
pub use descriptor::{ServiceDescriptor, ServiceLifetime};
pub use descriptor_builder::ServiceDescriptorBuilder;
pub use collection::ServiceCollection;
pub use validation::{validate, ValidationError};
pub use provider::{Scope, ServiceInstance, ServiceProvider};
pub use keyed::KeyedRef;
pub use builder::{exactly_one, exactly_one_with_key, scoped, scoped_factory, scoped_with_key, scoped_with_key_factory, singleton, singleton_as_self, singleton_factory, singleton_with_key, singleton_with_key_factory, transient, transient_as_self, transient_factory, transient_with_key, transient_with_key_factory, transient_with_key_as_self, zero_or_more, zero_or_more_with_key, zero_or_one, zero_or_one_with_key};
