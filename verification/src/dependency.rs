//! Dependency declaration: one required/optional/collection edge from a
//! service to another type, consumed only by the validator.

use vstd::prelude::*;
use crate::ty::{Type, TypeView};

verus! {

/// Represents the possible cardinalities of a service dependency.
#[derive(Clone, Copy, Debug, PartialEq, Eq, Structural)]
pub enum ServiceCardinality {
    /// Indicates a cardinality of zero or one (0:1).
    ZeroOrOne,
    /// Indicates a cardinality of exactly one (1:1).
    ExactlyOne,
    /// Indicates a cardinality of zero or more (0:*).
    ZeroOrMore,
}

/// The mathematical content of a [`ServiceDependency`]: the injected type
/// and the cardinality of the edge.
pub ghost struct DependencyView {
    pub ty: TypeView,
    pub cardinality: ServiceCardinality,
}

/// Represents a service dependency.
pub struct ServiceDependency {
    injected_type: Type,
    cardinality: ServiceCardinality,
}

impl View for ServiceDependency {
    type V = DependencyView;

    closed spec fn view(&self) -> DependencyView {
        DependencyView { ty: self.injected_type@, cardinality: self.cardinality }
    }
}

impl ServiceDependency {
    /// Initializes a new service dependency.
    ///
    /// # Arguments
    ///
    /// * `injected_type` - The injected [type](Type) of the service dependency
    /// * `cardinality` - The [cardinality](ServiceCardinality) of the service dependency
    pub fn new(injected_type: Type, cardinality: ServiceCardinality) -> (d: Self)
        ensures
            d@.ty == injected_type@,
            d@.cardinality == cardinality,
    {
        Self { injected_type, cardinality }
    }

    /// Gets the injected [type](Type) associated with the service dependency.
    pub fn injected_type(&self) -> (t: &Type)
        ensures
            t@ == self@.ty,
    {
        &self.injected_type
    }

    /// Gets the [cardinality](ServiceCardinality) associated with the
    /// service dependency.
    pub fn cardinality(&self) -> (c: ServiceCardinality)
        ensures
            c == self@.cardinality,
    {
        self.cardinality
    }
}

impl Clone for ServiceDependency {
    fn clone(&self) -> (d: Self)
        ensures
            d@ == self@,
    {
        Self {
            injected_type: self.injected_type.clone(),
            cardinality: self.cardinality,
        }
    }
}

impl PartialEq for ServiceDependency {
    fn eq(&self, other: &ServiceDependency) -> (r: bool) {
        self.injected_type == other.injected_type && self.cardinality == other.cardinality
    }
}

impl vstd::std_specs::cmp::PartialEqSpecImpl for ServiceDependency {
    open spec fn obeys_eq_spec() -> bool {
        true
    }

    open spec fn eq_spec(&self, other: &ServiceDependency) -> bool {
        self@.ty.id == other@.ty.id && self@.cardinality == other@.cardinality
    }
}

} // verus!
