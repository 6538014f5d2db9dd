//! Lazy service resolution: a holder that owns a provider and a requested
//! type, and resolves on first use, caching what came back.

use vstd::prelude::*;
use crate::ty::{Type, TypeView};
use crate::dependency::ServiceCardinality;
use crate::collection::has_service;
use crate::provider::{
    insts_view, provider_wf, resolve_all_from, resolve_one, InstanceView, ProviderView,
    ServiceInstance, ServiceProvider,
};

verus! {

/// The mathematical content of a resolved lazy value.
pub ghost enum LazyValueView {
    One(InstanceView),
    Maybe(Option<InstanceView>),
    Many(Seq<InstanceView>),
}

/// A resolved lazy value: one instance for a required service, an
/// optional instance for an optional one, a list for a collection.
pub enum LazyValue {
    One(ServiceInstance),
    Maybe(Option<ServiceInstance>),
    Many(Vec<ServiceInstance>),
}

impl View for LazyValue {
    type V = LazyValueView;

    closed spec fn view(&self) -> LazyValueView {
        match self {
            LazyValue::One(inst) => LazyValueView::One(inst@),
            LazyValue::Maybe(o) => LazyValueView::Maybe(
                match o {
                    Option::Some(inst) => Option::Some(inst@),
                    Option::None => Option::None,
                },
            ),
            LazyValue::Many(v) => LazyValueView::Many(insts_view(v@)),
        }
    }
}

impl LazyValue {
    /// Whether this is an optional value that resolved to nothing.
    pub fn is_none(&self) -> (b: bool)
        ensures
            b == (self@ == LazyValueView::Maybe(Option::<InstanceView>::None)),
    {
        match self {
            LazyValue::Maybe(Option::None) => true,
            _ => false,
        }
    }

    /// Whether this is a collection value that resolved to no instances.
    pub fn is_empty(&self) -> (b: bool)
        ensures
            b == (self@ matches LazyValueView::Many(q) && q.len() == 0),
    {
        match self {
            LazyValue::Many(v) => v.len() == 0,
            _ => false,
        }
    }
}

/// The mathematical content of a [`Lazy`] holder.
pub ghost struct LazyView {
    pub services: ProviderView,
    pub ty: TypeView,
    pub cardinality: ServiceCardinality,
    pub value: Option<LazyValueView>,
}

/// What resolving a lazy holder computes from its provider: a singular
/// required lookup, a singular optional lookup, or a collection lookup,
/// each in the provider's root scope.
pub open spec fn lazy_value_spec(l: LazyView) -> (ProviderView, LazyValueView) {
    match l.cardinality {
        ServiceCardinality::ExactlyOne => {
            let r = resolve_one(l.services, 0, l.ty.id);
            (r.0, LazyValueView::One(r.1->0))
        },
        ServiceCardinality::ZeroOrOne => {
            let r = resolve_one(l.services, 0, l.ty.id);
            (r.0, LazyValueView::Maybe(r.1))
        },
        ServiceCardinality::ZeroOrMore => {
            let r = resolve_all_from(l.services, 0, l.ty.id, 0);
            (r.0, LazyValueView::Many(r.1))
        },
    }
}

/// Represents a holder for lazily-initialized service resolution.
pub struct Lazy {
    services: ServiceProvider,
    service_type: Type,
    cardinality: ServiceCardinality,
    value: Option<LazyValue>,
}

impl View for Lazy {
    type V = LazyView;

    closed spec fn view(&self) -> LazyView {
        LazyView {
            services: self.services@,
            ty: self.service_type@,
            cardinality: self.cardinality,
            value: match self.value {
                Option::Some(ref v) => Option::Some(v@),
                Option::None => Option::None,
            },
        }
    }
}

impl Lazy {
    fn new(
        services: ServiceProvider,
        service_type: Type,
        cardinality: ServiceCardinality,
    ) -> (l: Self)
        ensures
            l@.services == services@,
            l@.ty == service_type@,
            l@.cardinality == cardinality,
            l@.value is None,
    {
        Self { services, service_type, cardinality, value: Option::None }
    }

    /// Resolves and returns the underlying, lazily-initialized value: the
    /// first call resolves against the held provider and caches what came
    /// back; later calls return the cached value unchanged.
    pub fn value(&mut self) -> (v: &LazyValue)
        requires
            provider_wf(old(self)@.services),
            old(self)@.services.next_instance + old(self)@.services.entries.len() < u64::MAX,
            old(self)@.cardinality == ServiceCardinality::ExactlyOne && old(self)@.value is None
                ==> has_service(old(self)@.services.entries, old(self)@.ty.id),
        ensures
            match old(self)@.value {
                Option::Some(stored) => final(self)@ == old(self)@ && v@ == stored,
                Option::None => {
                    let computed = lazy_value_spec(old(self)@);
                    &&& final(self)@.services == computed.0
                    &&& final(self)@.ty == old(self)@.ty
                    &&& final(self)@.cardinality == old(self)@.cardinality
                    &&& final(self)@.value == Option::Some(computed.1)
                    &&& v@ == computed.1
                },
            },
    {
        if self.value.is_none() {
            let computed = match self.cardinality {
                ServiceCardinality::ExactlyOne => LazyValue::One(
                    self.services.get_required(&self.service_type),
                ),
                ServiceCardinality::ZeroOrOne => LazyValue::Maybe(
                    self.services.get(&self.service_type),
                ),
                ServiceCardinality::ZeroOrMore => LazyValue::Many(
                    self.services.get_all(&self.service_type),
                ),
            };
            self.value = Option::Some(computed);
        }
        match &self.value {
            Option::Some(v) => v,
            Option::None => vstd::pervasive::unreached(),
        }
    }
}

/// Creates and returns a holder for a lazily-initialized, required
/// service.
///
/// # Arguments
///
/// * `services` - The [provider](ServiceProvider) used to resolve the service
/// * `service_type` - The service [type](Type) to resolve
pub fn exactly_one(services: ServiceProvider, service_type: Type) -> (l: Lazy)
    ensures
        l@.services == services@,
        l@.ty == service_type@,
        l@.cardinality == ServiceCardinality::ExactlyOne,
        l@.value is None,
{
    Lazy::new(services, service_type, ServiceCardinality::ExactlyOne)
}

/// Creates and returns a holder for a lazily-initialized, keyed, required
/// service.
pub fn exactly_one_with_key(
    key_type: &Type,
    services: ServiceProvider,
    service_type: &Type,
) -> (l: Lazy)
    ensures
        l@.services == services@,
        l@.ty.name == service_type@.name,
        l@.ty.key == Option::Some(key_type@.name),
        l@.cardinality == ServiceCardinality::ExactlyOne,
        l@.value is None,
{
    Lazy::new(services, service_type.with_key(key_type), ServiceCardinality::ExactlyOne)
}

/// Creates and returns a holder for a lazily-initialized, optional
/// service.
pub fn zero_or_one(services: ServiceProvider, service_type: Type) -> (l: Lazy)
    ensures
        l@.services == services@,
        l@.ty == service_type@,
        l@.cardinality == ServiceCardinality::ZeroOrOne,
        l@.value is None,
{
    Lazy::new(services, service_type, ServiceCardinality::ZeroOrOne)
}

/// Creates and returns a holder for a lazily-initialized, keyed, optional
/// service.
pub fn zero_or_one_with_key(
    key_type: &Type,
    services: ServiceProvider,
    service_type: &Type,
) -> (l: Lazy)
    ensures
        l@.services == services@,
        l@.ty.name == service_type@.name,
        l@.ty.key == Option::Some(key_type@.name),
        l@.cardinality == ServiceCardinality::ZeroOrOne,
        l@.value is None,
{
    Lazy::new(services, service_type.with_key(key_type), ServiceCardinality::ZeroOrOne)
}

/// Creates and returns a holder for multiple, lazily-initialized services.
pub fn zero_or_more(services: ServiceProvider, service_type: Type) -> (l: Lazy)
    ensures
        l@.services == services@,
        l@.ty == service_type@,
        l@.cardinality == ServiceCardinality::ZeroOrMore,
        l@.value is None,
{
    Lazy::new(services, service_type, ServiceCardinality::ZeroOrMore)
}

/// Creates and returns a holder for multiple, lazily-initialized, keyed
/// services.
pub fn zero_or_more_with_key(
    key_type: &Type,
    services: ServiceProvider,
    service_type: &Type,
) -> (l: Lazy)
    ensures
        l@.services == services@,
        l@.ty.name == service_type@.name,
        l@.ty.key == Option::Some(key_type@.name),
        l@.cardinality == ServiceCardinality::ZeroOrMore,
        l@.value is None,
{
    Lazy::new(services, service_type.with_key(key_type), ServiceCardinality::ZeroOrMore)
}

/// Creates and returns a holder for a lazily-initialized, optional service
/// that is missing: it resolves against an empty provider.
pub fn missing(service_type: Type) -> (l: Lazy)
    ensures
        l@.services.entries.len() == 0,
        provider_wf(l@.services),
        l@.services.next_instance == 0,
        l@.ty == service_type@,
        l@.cardinality == ServiceCardinality::ZeroOrOne,
        l@.value is None,
{
    Lazy::new(ServiceProvider::default(), service_type, ServiceCardinality::ZeroOrOne)
}

/// Creates and returns a holder for a lazily-initialized, keyed, optional
/// service that is missing.
pub fn missing_with_key(key_type: &Type, service_type: &Type) -> (l: Lazy)
    ensures
        l@.services.entries.len() == 0,
        provider_wf(l@.services),
        l@.services.next_instance == 0,
        l@.ty.name == service_type@.name,
        l@.ty.key == Option::Some(key_type@.name),
        l@.cardinality == ServiceCardinality::ZeroOrOne,
        l@.value is None,
{
    Lazy::new(
        ServiceProvider::default(),
        service_type.with_key(key_type),
        ServiceCardinality::ZeroOrOne,
    )
}

/// Creates and returns a holder for an empty collection of
/// lazily-initialized services: it resolves against an empty provider.
pub fn empty(service_type: Type) -> (l: Lazy)
    ensures
        l@.services.entries.len() == 0,
        provider_wf(l@.services),
        l@.services.next_instance == 0,
        l@.ty == service_type@,
        l@.cardinality == ServiceCardinality::ZeroOrMore,
        l@.value is None,
{
    Lazy::new(ServiceProvider::default(), service_type, ServiceCardinality::ZeroOrMore)
}

/// Creates and returns a holder for an empty collection of
/// lazily-initialized, keyed services.
pub fn empty_with_key(key_type: &Type, service_type: &Type) -> (l: Lazy)
    ensures
        l@.services.entries.len() == 0,
        provider_wf(l@.services),
        l@.services.next_instance == 0,
        l@.ty.name == service_type@.name,
        l@.ty.key == Option::Some(key_type@.name),
        l@.cardinality == ServiceCardinality::ZeroOrMore,
        l@.value is None,
{
    Lazy::new(
        ServiceProvider::default(),
        service_type.with_key(key_type),
        ServiceCardinality::ZeroOrMore,
    )
}

} // verus!
