//! Builder assembling a [`ServiceDescriptor`] from a lifetime, a service
//! type, an implementation type, and declared dependencies.

use vstd::prelude::*;
use crate::ty::{Type, TypeView};
use crate::dependency::{DependencyView, ServiceDependency};
use crate::descriptor::{deps_view, ServiceDescriptor, ServiceLifetime};

verus! {

/// The mathematical content of a [`ServiceDescriptorBuilder`].
pub ghost struct BuilderView {
    pub lifetime: ServiceLifetime,
    pub service: TypeView,
    pub implementation: TypeView,
    pub deps: Seq<DependencyView>,
}

/// Whether two dependency edges are equal: equal injected type identity
/// and equal cardinality.
pub open spec fn dep_matches(a: DependencyView, b: DependencyView) -> bool {
    a.ty.id == b.ty.id && a.cardinality == b.cardinality
}

/// Whether the dependency list already declares an edge equal to `d`.
pub open spec fn declares_dependency(deps: Seq<DependencyView>, d: DependencyView) -> bool {
    exists|i: int| 0 <= i < deps.len() && dep_matches(#[trigger] deps[i], d)
}

/// Represents a [`ServiceDescriptor`] builder.
pub struct ServiceDescriptorBuilder {
    lifetime: ServiceLifetime,
    service_type: Type,
    implementation_type: Type,
    dependencies: Vec<ServiceDependency>,
}

impl View for ServiceDescriptorBuilder {
    type V = BuilderView;

    closed spec fn view(&self) -> BuilderView {
        BuilderView {
            lifetime: self.lifetime,
            service: self.service_type@,
            implementation: self.implementation_type@,
            deps: deps_view(self.dependencies@),
        }
    }
}

impl ServiceDescriptorBuilder {
    /// Initializes a new service descriptor builder.
    ///
    /// # Arguments
    ///
    /// * `lifetime` - The [lifetime](ServiceLifetime) of the service
    /// * `service_type` - The service [type](Type) the registration is looked up under
    /// * `implementation_type` - The service implementation [type](Type)
    pub fn new(
        lifetime: ServiceLifetime,
        service_type: Type,
        implementation_type: Type,
    ) -> (b: Self)
        ensures
            b@.lifetime == lifetime,
            b@.service == service_type@,
            b@.implementation == implementation_type@,
            b@.deps == Seq::<DependencyView>::empty(),
    {
        proof {
            assert(deps_view(Seq::<ServiceDependency>::empty())
                =~= Seq::<DependencyView>::empty());
        }
        Self { lifetime, service_type, implementation_type, dependencies: Vec::new() }
    }

    /// Initializes a new service descriptor builder for a keyed
    /// registration.
    ///
    /// # Arguments
    ///
    /// * `lifetime` - The [lifetime](ServiceLifetime) of the service
    /// * `key_type` - The [type](Type) used as the registration's key
    /// * `service_type` - The service [type](Type) the registration is looked up under
    /// * `implementation_type` - The service implementation [type](Type)
    pub fn keyed(
        lifetime: ServiceLifetime,
        key_type: &Type,
        service_type: &Type,
        implementation_type: Type,
    ) -> (b: Self)
        ensures
            b@.lifetime == lifetime,
            b@.service.name == service_type@.name,
            b@.service.key == Option::Some(key_type@.name),
            b@.implementation == implementation_type@,
            b@.deps == Seq::<DependencyView>::empty(),
    {
        Self::new(lifetime, service_type.with_key(key_type), implementation_type)
    }

    /// Defines a dependency used by the service. Adding an edge equal to
    /// one already declared (same injected type identity and cardinality)
    /// is a no-op.
    ///
    /// # Arguments
    ///
    /// * `dependency` - The [dependency](ServiceDependency) associated with the service
    pub fn depends_on(self, dependency: ServiceDependency) -> (b: Self)
        ensures
            b@.lifetime == self@.lifetime,
            b@.service == self@.service,
            b@.implementation == self@.implementation,
            b@.deps == (if declares_dependency(self@.deps, dependency@) {
                self@.deps
            } else {
                self@.deps.push(dependency@)
            }),
    {
        let mut found = false;
        let n = self.dependencies.len();
        for i in 0..n
            invariant
                n == self.dependencies@.len(),
                found == (exists|j: int|
                    0 <= j < i && dep_matches(
                        #[trigger] deps_view(self.dependencies@)[j],
                        dependency@,
                    )),
        {
            let hit = self.dependencies[i] == dependency;
            proof {
                assert(deps_view(self.dependencies@)[i as int] == self.dependencies@[i as int]@);
            }
            if hit {
                found = true;
            }
        }
        if found {
            self
        } else {
            let mut b = self;
            b.dependencies.push(dependency);
            proof {
                assert(deps_view(b.dependencies@) =~= deps_view(b.dependencies@.drop_last())
                    .push(dependency@));
            }
            b
        }
    }

    /// Finalizes the builder into a [`ServiceDescriptor`].
    pub fn build(self) -> (d: ServiceDescriptor)
        ensures
            d@.lifetime == self@.lifetime,
            d@.service == self@.service,
            d@.implementation == self@.implementation,
            d@.deps == self@.deps,
    {
        ServiceDescriptor::new(
            self.lifetime,
            self.service_type,
            self.implementation_type,
            self.dependencies,
        )
    }
}

} // verus!
