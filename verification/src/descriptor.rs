//! Service descriptor: the record bound to one registration, carrying a
//! lifetime, the service type it is looked up under, the concrete
//! implementation type, and the dependency edges used by validation.

use vstd::prelude::*;
use crate::ty::{Type, TypeView};
use crate::dependency::{DependencyView, ServiceDependency};

verus! {

/// Represents the possible service lifetimes.
#[derive(Clone, Copy, Debug, PartialEq, Eq, Structural)]
pub enum ServiceLifetime {
    /// Indicates that a single instance of the service will be created.
    Singleton,
    /// Indicates that a new instance of the service will be created for
    /// each scope.
    Scoped,
    /// Indicates that a new instance of the service will be created every
    /// time it is requested.
    Transient,
}

/// The mathematical content of a [`ServiceDescriptor`].
pub ghost struct DescriptorView {
    pub lifetime: ServiceLifetime,
    pub service: TypeView,
    pub implementation: TypeView,
    pub deps: Seq<DependencyView>,
}

/// The views of a sequence of dependencies.
pub open spec fn deps_view(deps: Seq<ServiceDependency>) -> Seq<DependencyView> {
    deps.map_values(|d: ServiceDependency| d@)
}

/// The views of a sequence of descriptors.
pub open spec fn descs_view(s: Seq<ServiceDescriptor>) -> Seq<DescriptorView> {
    s.map_values(|d: ServiceDescriptor| d@)
}

/// Represents the description of a service with its service type,
/// implementation, and lifetime.
pub struct ServiceDescriptor {
    lifetime: ServiceLifetime,
    service_type: Type,
    implementation_type: Type,
    dependencies: Vec<ServiceDependency>,
}

impl View for ServiceDescriptor {
    type V = DescriptorView;

    closed spec fn view(&self) -> DescriptorView {
        DescriptorView {
            lifetime: self.lifetime,
            service: self.service_type@,
            implementation: self.implementation_type@,
            deps: deps_view(self.dependencies@),
        }
    }
}

impl ServiceDescriptor {
    pub(crate) fn new(
        lifetime: ServiceLifetime,
        service_type: Type,
        implementation_type: Type,
        dependencies: Vec<ServiceDependency>,
    ) -> (d: Self)
        ensures
            d@.lifetime == lifetime,
            d@.service == service_type@,
            d@.implementation == implementation_type@,
            d@.deps == deps_view(dependencies@),
    {
        Self { lifetime, service_type, implementation_type, dependencies }
    }

    /// Gets the [lifetime](ServiceLifetime) associated with the service
    /// descriptor.
    pub fn lifetime(&self) -> (l: ServiceLifetime)
        ensures
            l == self@.lifetime,
    {
        self.lifetime
    }

    /// Gets the service [type](Type) associated with the service
    /// descriptor.
    pub fn service_type(&self) -> (t: &Type)
        ensures
            t@ == self@.service,
    {
        &self.service_type
    }

    /// Gets the implementation [type](Type) associated with the service
    /// descriptor.
    pub fn implementation_type(&self) -> (t: &Type)
        ensures
            t@ == self@.implementation,
    {
        &self.implementation_type
    }

    /// Gets the associated [service dependencies](ServiceDependency), if
    /// any.
    pub fn dependencies(&self) -> (deps: &Vec<ServiceDependency>)
        ensures
            deps_view(deps@) == self@.deps,
    {
        &self.dependencies
    }

    /// Clones the descriptor, keeping or dropping the dependency edges:
    /// they matter only to validation, so the copies held by a provider
    /// drop them.
    pub(crate) fn clone_with(&self, dependencies: bool) -> (d: Self)
        ensures
            d@.lifetime == self@.lifetime,
            d@.service == self@.service,
            d@.implementation == self@.implementation,
            d@.deps == (if dependencies {
                self@.deps
            } else {
                Seq::<DependencyView>::empty()
            }),
    {
        let deps: Vec<ServiceDependency> = if dependencies {
            let cloned_deps = self.dependencies.clone();
            proof {
                assert(deps_view(cloned_deps@) =~= deps_view(self.dependencies@));
            }
            cloned_deps
        } else {
            Vec::new()
        };
        proof {
            assert(deps_view(Seq::<ServiceDependency>::empty())
                =~= Seq::<DependencyView>::empty());
        }
        Self {
            lifetime: self.lifetime,
            service_type: self.service_type.clone(),
            implementation_type: self.implementation_type.clone(),
            dependencies: deps,
        }
    }
}

impl Clone for ServiceDescriptor {
    fn clone(&self) -> (d: Self)
        ensures
            d@ == self@,
    {
        self.clone_with(true)
    }
}

} // verus!
