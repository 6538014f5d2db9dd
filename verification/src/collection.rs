//! Service collection: an ordered, mutable list of descriptors, the sole
//! input to building a provider. Insertion order is significant: singular
//! lookups resolve to the last matching registration, and diagnostics are
//! reported in registration order.

use vstd::prelude::*;
use crate::ty::Type;
use crate::descriptor::{descs_view, DescriptorView, ServiceDescriptor};
use crate::provider::{built_from, provider_wf, ServiceProvider};
use crate::validation::{validate, validation_msgs, ValidationError};

verus! {

/// Whether some descriptor is registered under the given service type
/// identity.
pub open spec fn has_service(s: Seq<DescriptorView>, id: u64) -> bool {
    exists|i: int| 0 <= i < s.len() && (#[trigger] s[i]).service.id == id
}

/// Whether some descriptor is registered under the given service type
/// identity with the given implementation type identity.
pub open spec fn has_service_with_impl(s: Seq<DescriptorView>, sid: u64, iid: u64) -> bool {
    exists|i: int|
        0 <= i < s.len() && (#[trigger] s[i]).service.id == sid
            && s[i].implementation.id == iid
}

/// What `try_add` leaves behind: the collection unchanged when the service
/// type is already registered, else the descriptor appended.
pub open spec fn try_add_spec(s: Seq<DescriptorView>, d: DescriptorView) -> Seq<DescriptorView> {
    if has_service(s, d.service.id) {
        s
    } else {
        s.push(d)
    }
}

/// What `try_add_to_all` leaves behind: a no-op for as-self registrations
/// and for an already-registered (service, implementation) pair, else the
/// descriptor appended.
pub open spec fn try_add_to_all_spec(
    s: Seq<DescriptorView>,
    d: DescriptorView,
) -> Seq<DescriptorView> {
    if d.service.id == d.implementation.id {
        s
    } else if has_service_with_impl(s, d.service.id, d.implementation.id) {
        s
    } else {
        s.push(d)
    }
}

/// What `try_add_all` leaves behind: `try_add_to_all` folded over the
/// given descriptors in order.
pub open spec fn try_add_all_spec(
    s: Seq<DescriptorView>,
    ds: Seq<DescriptorView>,
) -> Seq<DescriptorView>
    decreases ds.len(),
{
    if ds.len() == 0 {
        s
    } else {
        try_add_all_spec(try_add_to_all_spec(s, ds[0]), ds.drop_first())
    }
}

/// The index of the first descriptor registered under the given service
/// type identity, or -1 when there is none.
pub open spec fn first_service_index(s: Seq<DescriptorView>, id: u64) -> int
    decreases s.len(),
{
    if s.len() == 0 {
        -1
    } else if s[0].service.id == id {
        0
    } else {
        let r = first_service_index(s.drop_first(), id);
        if r < 0 {
            -1
        } else {
            r + 1
        }
    }
}

/// `first_service_index` returns the smallest matching index, and -1
/// exactly when no descriptor matches.
pub proof fn lemma_first_service_index(s: Seq<DescriptorView>, id: u64)
    ensures
        has_service(s, id) ==> {
            let f = first_service_index(s, id);
            &&& 0 <= f < s.len()
            &&& s[f].service.id == id
            &&& forall|j: int| 0 <= j < f ==> (#[trigger] s[j]).service.id != id
        },
        !has_service(s, id) ==> first_service_index(s, id) == -1,
    decreases s.len(),
{
    if s.len() > 0 && s[0].service.id != id {
        lemma_first_service_index(s.drop_first(), id);
        let rest = s.drop_first();
        assert(forall|i: int|
            0 < i < s.len() ==> (#[trigger] s[i]).service.id == rest[i - 1].service.id);
        if has_service(s, id) {
            let w = choose|i: int| 0 <= i < s.len() && (#[trigger] s[i]).service.id == id;
            assert(rest[w - 1].service.id == id);
            assert(has_service(rest, id));
        } else {
            if has_service(rest, id) {
                let w = choose|i: int|
                    0 <= i < rest.len() && (#[trigger] rest[i]).service.id == id;
                assert(s[w + 1].service.id == id);
            }
        }
    }
}

/// What `replace` leaves behind: the first registration of the same
/// service type removed, if any, and the descriptor appended.
pub open spec fn replace_spec(s: Seq<DescriptorView>, d: DescriptorView) -> Seq<DescriptorView> {
    if has_service(s, d.service.id) {
        s.remove(first_service_index(s, d.service.id)).push(d)
    } else {
        s.push(d)
    }
}

/// Represents a service collection.
pub struct ServiceCollection {
    items: Vec<ServiceDescriptor>,
}

impl View for ServiceCollection {
    type V = Seq<DescriptorView>;

    closed spec fn view(&self) -> Seq<DescriptorView> {
        descs_view(self.items@)
    }
}

impl Default for ServiceCollection {
    fn default() -> (c: Self)
        ensures
            c@ == Seq::<DescriptorView>::empty(),
    {
        proof {
            assert(descs_view(Seq::<ServiceDescriptor>::empty())
                =~= Seq::<DescriptorView>::empty());
        }
        Self { items: Vec::new() }
    }
}

impl ServiceCollection {
    /// Creates and returns a new instance of the service collection.
    pub fn new() -> (c: Self)
        ensures
            c@ == Seq::<DescriptorView>::empty(),
    {
        Self::default()
    }

    /// Returns true if the collection contains no elements.
    pub fn is_empty(&self) -> (r: bool)
        ensures
            r == (self@.len() == 0),
    {
        self.items.len() == 0
    }

    /// Returns the number of elements in the collection.
    pub fn len(&self) -> (n: usize)
        ensures
            n == self@.len(),
    {
        self.items.len()
    }

    /// Gets read-only access to the descriptors in the collection, in
    /// registration order.
    pub fn descriptors(&self) -> (r: &Vec<ServiceDescriptor>)
        ensures
            descs_view(r@) == self@,
    {
        &self.items
    }

    /// Removes all elements from the collection.
    pub fn clear(&mut self)
        ensures
            final(self)@ == Seq::<DescriptorView>::empty(),
    {
        self.items.clear();
        proof {
            assert(self@ =~= Seq::<DescriptorView>::empty());
        }
    }

    /// Removes and returns the element at position `index` within the
    /// collection.
    ///
    /// # Arguments
    ///
    /// * `index` - The index of the element to remove
    pub fn remove(&mut self, index: usize) -> (d: ServiceDescriptor)
        requires
            index < old(self)@.len(),
        ensures
            d@ == old(self)@[index as int],
            final(self)@ == old(self)@.remove(index as int),
    {
        let d = self.items.remove(index);
        proof {
            assert(self@ =~= old(self)@.remove(index as int));
        }
        d
    }

    /// Adds a service using the specified service descriptor.
    ///
    /// # Arguments
    ///
    /// * `descriptor` - The [`ServiceDescriptor`] to register
    pub fn add(&mut self, descriptor: ServiceDescriptor)
        ensures
            final(self)@ == old(self)@.push(descriptor@),
    {
        let ghost dv = descriptor@;
        let ghost before = self@;
        self.items.push(descriptor);
        proof {
            assert(self@ =~= before.push(dv));
        }
    }

    /// Adds a service using the specified service descriptor if the
    /// service type has not already been registered.
    ///
    /// # Arguments
    ///
    /// * `descriptor` - The [`ServiceDescriptor`] to register
    pub fn try_add(&mut self, descriptor: ServiceDescriptor)
        ensures
            final(self)@ == try_add_spec(old(self)@, descriptor@),
    {
        let sid = descriptor.service_type().id();
        let n = self.items.len();
        for i in 0..n
            invariant
                self@ == old(self)@,
                n == self@.len(),
                sid == descriptor@.service.id,
                forall|j: int| 0 <= j < i ==> (#[trigger] self@[j]).service.id != sid,
        {
            proof {
                assert(self@[i as int] == self.items@[i as int]@);
            }
            if self.items[i].service_type().id() == sid {
                return ;
            }
        }
        self.add(descriptor);
    }

    /// Adds a service using the specified service descriptor if a service
    /// with the same service and implementation type has not already been
    /// registered. As-self registrations (service type equal to
    /// implementation type) are never added this way.
    ///
    /// # Arguments
    ///
    /// * `descriptor` - The [`ServiceDescriptor`] to register
    pub fn try_add_to_all(&mut self, descriptor: ServiceDescriptor)
        ensures
            final(self)@ == try_add_to_all_spec(old(self)@, descriptor@),
    {
        let sid = descriptor.service_type().id();
        let iid = descriptor.implementation_type().id();
        if sid == iid {
            return ;
        }
        let n = self.items.len();
        for i in 0..n
            invariant
                self@ == old(self)@,
                n == self@.len(),
                sid == descriptor@.service.id,
                iid == descriptor@.implementation.id,
                sid != iid,
                forall|j: int|
                    0 <= j < i ==> !((#[trigger] self@[j]).service.id == sid
                        && self@[j].implementation.id == iid),
        {
            proof {
                assert(self@[i as int] == self.items@[i as int]@);
            }
            if self.items[i].service_type().id() == sid
                && self.items[i].implementation_type().id() == iid {
                return ;
            }
        }
        self.add(descriptor);
    }

    /// Adds each of the specified service descriptors if it is not already
    /// registered with the same service and implementation type.
    ///
    /// # Arguments
    ///
    /// * `descriptors` - The [`ServiceDescriptor`] sequence to register
    pub fn try_add_all(&mut self, descriptors: Vec<ServiceDescriptor>)
        ensures
            final(self)@ == try_add_all_spec(old(self)@, descs_view(descriptors@)),
    {
        let ghost ds = descs_view(descriptors@);
        let n = descriptors.len();
        proof {
            assert(ds.skip(0) =~= ds);
        }
        for i in 0..n
            invariant
                n == descriptors@.len(),
                ds == descs_view(descriptors@),
                try_add_all_spec(self@, ds.skip(i as int)) == try_add_all_spec(old(self)@, ds),
        {
            proof {
                assert(ds[i as int] == descriptors@[i as int]@);
                assert(ds.skip(i as int).len() > 0);
                assert(ds.skip(i as int)[0] == ds[i as int]);
                assert(ds.skip(i as int).drop_first() =~= ds.skip(i + 1));
            }
            let d = descriptors[i].clone();
            self.try_add_to_all(d);
        }
        proof {
            assert(ds.skip(n as int) =~= Seq::<DescriptorView>::empty());
        }
    }

    /// Removes the first service descriptor with the same service type, if
    /// any, and adds the replacement at the end.
    ///
    /// # Arguments
    ///
    /// * `descriptor` - The replacement [`ServiceDescriptor`]
    pub fn replace(&mut self, descriptor: ServiceDescriptor)
        ensures
            final(self)@ == replace_spec(old(self)@, descriptor@),
    {
        let sid = descriptor.service_type().id();
        let n = self.items.len();
        for i in 0..n
            invariant
                self@ == old(self)@,
                n == self@.len(),
                sid == descriptor@.service.id,
                forall|j: int| 0 <= j < i ==> (#[trigger] self@[j]).service.id != sid,
        {
            proof {
                assert(self@[i as int] == self.items@[i as int]@);
            }
            if self.items[i].service_type().id() == sid {
                proof {
                    lemma_first_service_index(self@, sid);
                    assert(first_service_index(self@, sid) == i as int);
                }
                let _ = self.remove(i);
                self.add(descriptor);
                return ;
            }
        }
        self.add(descriptor);
    }

    /// Adds or replaces a service with the specified descriptor if the
    /// service type has not already been registered.
    ///
    /// # Arguments
    ///
    /// * `descriptor` - The replacement [`ServiceDescriptor`]
    pub fn try_replace(&mut self, descriptor: ServiceDescriptor)
        ensures
            final(self)@ == try_add_spec(old(self)@, descriptor@),
    {
        self.try_add(descriptor);
    }

    /// Builds and returns a new [`ServiceProvider`]: the validation rules
    /// run first over the whole collection, and only a collection with no
    /// findings yields a provider - over these registrations, with empty
    /// instance cells.
    pub fn build_provider(&self) -> (r: Result<ServiceProvider, ValidationError>)
        ensures
            match r {
                Result::Ok(p) => {
                    &&& validation_msgs(self@).len() == 0
                    &&& provider_wf(p@)
                    &&& built_from(self@, p@)
                },
                Result::Err(e) => {
                    &&& validation_msgs(self@).len() > 0
                    &&& e@ == validation_msgs(self@)
                },
            },
    {
        match validate(self) {
            Result::Err(e) => Result::Err(e),
            Result::Ok(()) => Result::Ok(ServiceProvider::new(&self.items)),
        }
    }

    /// Removes all descriptors registered under the specified service
    /// type.
    ///
    /// # Arguments
    ///
    /// * `service_type` - The service [type](Type) whose registrations are removed
    pub fn remove_all(&mut self, service_type: &Type)
        ensures
            final(self)@ == old(self)@.filter(
                |d: DescriptorView| d.service.id != service_type@.id,
            ),
    {
        let sid = service_type.id();
        let ghost pred = |d: DescriptorView| d.service.id != service_type@.id;
        let mut kept: Vec<ServiceDescriptor> = Vec::new();
        let n = self.items.len();
        proof {
            assert(self@.take(0).filter(pred) =~= Seq::<DescriptorView>::empty());
            assert(descs_view(kept@) =~= Seq::<DescriptorView>::empty());
        }
        for i in 0..n
            invariant
                self@ == old(self)@,
                n == self@.len(),
                sid == service_type@.id,
                pred == (|d: DescriptorView| d.service.id != service_type@.id),
                descs_view(kept@) == self@.take(i as int).filter(pred),
        {
            let ghost prefix = self@.take(i as int);
            let ghost next = self@.take(i + 1);
            proof {
                assert(self@[i as int] == self.items@[i as int]@);
                assert(next.drop_last() =~= prefix);
                assert(next.last() == self@[i as int]);
            }
            if self.items[i].service_type().id() != sid {
                let ghost kept_before = kept@;
                let d = self.items[i].clone();
                kept.push(d);
                proof {
                    assert(descs_view(kept@) =~= descs_view(kept_before).push(
                        self@[i as int],
                    ));
                    reveal_with_fuel(Seq::filter, 2);
                    assert(next.filter(pred) == prefix.filter(pred).push(next.last()));
                }
            } else {
                proof {
                    reveal_with_fuel(Seq::filter, 2);
                    assert(next.filter(pred) == prefix.filter(pred));
                }
            }
        }
        proof {
            assert(self@.take(n as int) =~= self@);
        }
        self.items = kept;
    }
}

} // verus!
