//! Holder marking a service resolved under a keyed registration.

use vstd::prelude::*;
use crate::provider::{InstanceView, ServiceInstance};

verus! {

/// Represents a holder for a keyed service.
pub struct KeyedRef {
    service: ServiceInstance,
}

impl View for KeyedRef {
    type V = InstanceView;

    closed spec fn view(&self) -> InstanceView {
        self.service@
    }
}

impl KeyedRef {
    /// Initializes a new holder for the specified keyed service.
    ///
    /// # Arguments
    ///
    /// * `service` - The keyed service the holder is for
    pub fn new(service: ServiceInstance) -> (r: Self)
        ensures
            r@ == service@,
    {
        Self { service }
    }

    /// Gets the held service.
    pub fn value(&self) -> (r: &ServiceInstance)
        ensures
            r@ == self@,
    {
        &self.service
    }
}

impl Clone for KeyedRef {
    fn clone(&self) -> (r: Self)
        ensures
            r@ == self@,
    {
        Self { service: self.service.clone() }
    }
}

} // verus!
