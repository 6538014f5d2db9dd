//! Service provider: the immutable registry built from a validated
//! collection, together with the per-scope instance cells that the
//! resolution engine fills lazily.
//!
//! An instance is identified by a token, minted fresh from a counter the
//! first time a registration must produce one. A singleton registration
//! owns one cell for the provider's whole lifetime; a scoped registration
//! owns one cell per scope; a transient registration bypasses the cells
//! and mints a fresh token on every resolution. Which token a resolution
//! returns is therefore a function of the provider state alone, and the
//! lifetime rules - sharing, isolation, freshness - are stated and proved
//! over that state.

use vstd::prelude::*;
use crate::ty::{Type, TypeView};
use crate::descriptor::{descs_view, DescriptorView, ServiceDescriptor, ServiceLifetime};
use crate::collection::has_service;

verus! {

/// The mathematical content of a [`ServiceProvider`]: the registrations in
/// registration order (their dependency edges already dropped), the
/// singleton cells, the scoped cells of every scope, and the next fresh
/// instance token.
pub ghost struct ProviderView {
    pub entries: Seq<DescriptorView>,
    pub singletons: Seq<Option<u64>>,
    pub scopes: Seq<Seq<Option<u64>>>,
    pub next_instance: u64,
}

/// The mathematical content of a [`ServiceInstance`].
pub ghost struct InstanceView {
    pub instance: u64,
    pub lifetime: ServiceLifetime,
    pub service: TypeView,
    pub implementation: TypeView,
}

/// The views of a sequence of instances.
pub open spec fn insts_view(v: Seq<ServiceInstance>) -> Seq<InstanceView> {
    v.map_values(|x: ServiceInstance| x@)
}

/// Well-formedness of a provider state: every scope has one cell per
/// registration, a filled cell belongs to the lifetime that uses it and
/// holds a token older than the counter, and no two cells hold the same
/// token.
pub open spec fn provider_wf(p: ProviderView) -> bool {
    &&& p.singletons.len() == p.entries.len()
    &&& p.scopes.len() >= 1
    &&& forall|sc: int|
        0 <= sc < p.scopes.len() ==> (#[trigger] p.scopes[sc]).len() == p.entries.len()
    &&& forall|j: int|
        0 <= j < p.entries.len() && (#[trigger] p.singletons[j]) is Some ==> p.entries[
            j
        ].lifetime == ServiceLifetime::Singleton && p.singletons[j]->0 < p.next_instance
    &&& forall|sc: int, j: int|
        0 <= sc < p.scopes.len() && 0 <= j < p.entries.len() && (#[trigger] p.scopes[sc][j])
            is Some ==> p.entries[j].lifetime == ServiceLifetime::Scoped && p.scopes[sc][j]->0
            < p.next_instance
    &&& forall|j1: int, j2: int|
        0 <= j1 < p.entries.len() && 0 <= j2 < p.entries.len() && j1 != j2 && (
        #[trigger] p.singletons[j1]) is Some && (#[trigger] p.singletons[j2]) is Some
            ==> p.singletons[j1]->0 != p.singletons[j2]->0
    &&& forall|sc: int, j1: int, j2: int|
        0 <= sc < p.scopes.len() && 0 <= j1 < p.entries.len() && 0 <= j2 < p.entries.len() && (
        #[trigger] p.scopes[sc][j1]) is Some && (#[trigger] p.singletons[j2]) is Some ==> p.scopes[
            sc
        ][j1]->0 != p.singletons[j2]->0
    &&& forall|sc1: int, j1: int, sc2: int, j2: int|
        0 <= sc1 < p.scopes.len() && 0 <= j1 < p.entries.len() && 0 <= sc2 < p.scopes.len() && 0
            <= j2 < p.entries.len() && !(sc1 == sc2 && j1 == j2) && (
        #[trigger] p.scopes[sc1][j1]) is Some && (#[trigger] p.scopes[sc2][j2]) is Some
            ==> p.scopes[sc1][j1]->0 != p.scopes[sc2][j2]->0
}

/// What a freshly built provider looks like: the given registrations with
/// their dependency edges dropped, one scope of empty cells, empty
/// singleton cells, and the token counter at zero.
pub open spec fn built_from(s: Seq<DescriptorView>, p: ProviderView) -> bool {
    &&& p.entries.len() == s.len()
    &&& forall|j: int|
        0 <= j < s.len() ==> {
            &&& (#[trigger] p.entries[j]).lifetime == s[j].lifetime
            &&& p.entries[j].service == s[j].service
            &&& p.entries[j].implementation == s[j].implementation
            &&& p.entries[j].deps.len() == 0
        }
    &&& p.singletons == Seq::new(s.len(), |j: int| Option::<u64>::None)
    &&& p.scopes == seq![Seq::new(s.len(), |j: int| Option::<u64>::None)]
    &&& p.next_instance == 0
}

/// The index of the last registration of the given service type identity,
/// or -1 when there is none: singular lookups are last-registration-wins.
pub open spec fn lookup_last(entries: Seq<DescriptorView>, id: u64) -> int
    decreases entries.len(),
{
    if entries.len() == 0 {
        -1
    } else if entries.last().service.id == id {
        entries.len() - 1
    } else {
        lookup_last(entries.drop_last(), id)
    }
}

/// `lookup_last` returns the largest matching index, and -1 exactly when
/// no registration matches.
pub proof fn lemma_lookup_last(entries: Seq<DescriptorView>, id: u64)
    ensures
        has_service(entries, id) ==> {
            let j = lookup_last(entries, id);
            &&& 0 <= j < entries.len()
            &&& entries[j].service.id == id
            &&& forall|k: int|
                j < k < entries.len() ==> (#[trigger] entries[k]).service.id != id
        },
        !has_service(entries, id) ==> lookup_last(entries, id) == -1,
    decreases entries.len(),
{
    if entries.len() > 0 && entries.last().service.id != id {
        lemma_lookup_last(entries.drop_last(), id);
        let rest = entries.drop_last();
        assert(forall|i: int|
            0 <= i < rest.len() ==> (#[trigger] entries[i]).service.id == rest[i].service.id);
        if has_service(entries, id) {
            let w = choose|i: int|
                0 <= i < entries.len() && (#[trigger] entries[i]).service.id == id;
            assert(rest[w].service.id == id);
            assert(has_service(rest, id));
        } else {
            if has_service(rest, id) {
                let w = choose|i: int|
                    0 <= i < rest.len() && (#[trigger] rest[i]).service.id == id;
                assert(entries[w].service.id == id);
            }
        }
    }
}

/// The instance produced by registration `j` under the given token.
pub open spec fn instance_of(p: ProviderView, j: int, token: u64) -> InstanceView {
    InstanceView {
        instance: token,
        lifetime: p.entries[j].lifetime,
        service: p.entries[j].service,
        implementation: p.entries[j].implementation,
    }
}

/// The state transition of resolving registration `j` in scope `sc`: a
/// transient registration mints a fresh token; a singleton or scoped
/// registration returns its cell's token, filling the cell with a fresh
/// token first if it was empty.
pub open spec fn resolve_at(p: ProviderView, sc: int, j: int) -> (ProviderView, InstanceView) {
    match p.entries[j].lifetime {
        ServiceLifetime::Transient => (
            (ProviderView { next_instance: (p.next_instance + 1) as u64, ..p }),
            instance_of(p, j, p.next_instance),
        ),
        ServiceLifetime::Singleton => match p.singletons[j] {
            Option::Some(t) => (p, instance_of(p, j, t)),
            Option::None => (
                (ProviderView {
                    singletons: p.singletons.update(j, Option::Some(p.next_instance)),
                    next_instance: (p.next_instance + 1) as u64,
                    ..p
                }),
                instance_of(p, j, p.next_instance),
            ),
        },
        ServiceLifetime::Scoped => match p.scopes[sc][j] {
            Option::Some(t) => (p, instance_of(p, j, t)),
            Option::None => (
                (ProviderView {
                    scopes: p.scopes.update(
                        sc,
                        p.scopes[sc].update(j, Option::Some(p.next_instance)),
                    ),
                    next_instance: (p.next_instance + 1) as u64,
                    ..p
                }),
                instance_of(p, j, p.next_instance),
            ),
        },
    }
}

/// The state transition of a singular lookup: resolve the last
/// registration of the requested type, or nothing when there is none.
pub open spec fn resolve_one(p: ProviderView, sc: int, id: u64) -> (
    ProviderView,
    Option<InstanceView>,
) {
    let j = lookup_last(p.entries, id);
    if j < 0 {
        (p, Option::None)
    } else {
        let r = resolve_at(p, sc, j);
        (r.0, Option::Some(r.1))
    }
}

/// The state transition of a collection lookup: resolve every registration
/// of the requested type from index `j` on, in registration order, each
/// one under its own lifetime.
pub open spec fn resolve_all_from(p: ProviderView, sc: int, id: u64, j: int) -> (
    ProviderView,
    Seq<InstanceView>,
)
    decreases p.entries.len() - j,
{
    if j < 0 || j >= p.entries.len() {
        (p, Seq::empty())
    } else if p.entries[j].service.id == id {
        let r = resolve_at(p, sc, j);
        let rest = resolve_all_from(r.0, sc, id, j + 1);
        (rest.0, seq![r.1] + rest.1)
    } else {
        resolve_all_from(p, sc, id, j + 1)
    }
}

/// Resolving one registration preserves well-formedness, the
/// registrations, the number of scopes, and never loses a filled cell.
pub proof fn lemma_resolve_at_wf(p: ProviderView, sc: int, j: int)
    requires
        provider_wf(p),
        0 <= sc < p.scopes.len(),
        0 <= j < p.entries.len(),
        p.next_instance < u64::MAX,
    ensures
        ({
            let (q, inst) = resolve_at(p, sc, j);
            &&& provider_wf(q)
            &&& q.entries == p.entries
            &&& q.scopes.len() == p.scopes.len()
            &&& p.next_instance <= q.next_instance <= p.next_instance + 1
            &&& forall|k: int|
                0 <= k < p.entries.len() && (#[trigger] p.singletons[k]) is Some
                    ==> q.singletons[k] == p.singletons[k]
            &&& forall|s2: int, k: int|
                0 <= s2 < p.scopes.len() && 0 <= k < p.entries.len() && (
                #[trigger] p.scopes[s2][k]) is Some ==> q.scopes[s2][k] == p.scopes[s2][k]
            &&& inst.lifetime == p.entries[j].lifetime
            &&& inst.service == p.entries[j].service
            &&& inst.implementation == p.entries[j].implementation
            &&& inst.instance < q.next_instance
        }),
{
    let (q, inst) = resolve_at(p, sc, j);
    match p.entries[j].lifetime {
        ServiceLifetime::Transient => {},
        ServiceLifetime::Singleton => {
            if p.singletons[j] is None {
                assert(q.scopes =~= p.scopes);
            }
        },
        ServiceLifetime::Scoped => {
            if p.scopes[sc][j] is None {
                assert(q.singletons =~= p.singletons);
            }
        },
    }
}

/// Represents a handle on one scope of a provider: an independent
/// resolution context whose scoped cells are its own, while singletons are
/// shared with every other scope.
#[derive(Clone, Copy)]
pub struct Scope {
    index: usize,
}

impl View for Scope {
    type V = int;

    closed spec fn view(&self) -> int {
        self.index as int
    }
}

/// Represents a resolved service: the instance token together with the
/// registration that produced it.
pub struct ServiceInstance {
    instance: u64,
    lifetime: ServiceLifetime,
    service_type: Type,
    implementation_type: Type,
}

impl View for ServiceInstance {
    type V = InstanceView;

    closed spec fn view(&self) -> InstanceView {
        InstanceView {
            instance: self.instance,
            lifetime: self.lifetime,
            service: self.service_type@,
            implementation: self.implementation_type@,
        }
    }
}

impl ServiceInstance {
    /// Gets the instance token: resolutions that return the same token
    /// returned the same instance.
    pub fn instance(&self) -> (t: u64)
        ensures
            t == self@.instance,
    {
        self.instance
    }

    /// Gets the [lifetime](ServiceLifetime) of the registration that
    /// produced the instance.
    pub fn lifetime(&self) -> (l: ServiceLifetime)
        ensures
            l == self@.lifetime,
    {
        self.lifetime
    }

    /// Gets the service [type](Type) the instance was resolved under.
    pub fn service_type(&self) -> (t: &Type)
        ensures
            t@ == self@.service,
    {
        &self.service_type
    }

    /// Gets the implementation [type](Type) of the registration that
    /// produced the instance.
    pub fn implementation_type(&self) -> (t: &Type)
        ensures
            t@ == self@.implementation,
    {
        &self.implementation_type
    }
}

impl Clone for ServiceInstance {
    fn clone(&self) -> (r: Self)
        ensures
            r@ == self@,
    {
        Self {
            instance: self.instance,
            lifetime: self.lifetime,
            service_type: self.service_type.clone(),
            implementation_type: self.implementation_type.clone(),
        }
    }
}

/// Represents a service provider.
pub struct ServiceProvider {
    entries: Vec<ServiceDescriptor>,
    singletons: Vec<Option<u64>>,
    scopes: Vec<Vec<Option<u64>>>,
    next_instance: u64,
}

impl View for ServiceProvider {
    type V = ProviderView;

    closed spec fn view(&self) -> ProviderView {
        ProviderView {
            entries: descs_view(self.entries@),
            singletons: self.singletons@,
            scopes: self.scopes@.map_values(|row: Vec<Option<u64>>| row@),
            next_instance: self.next_instance,
        }
    }
}

impl ServiceProvider {
    /// Initializes a new service provider over the given descriptors,
    /// whose dependency edges - useful only to validation - are dropped.
    ///
    /// # Arguments
    ///
    /// * `descriptors` - The descriptors the provider serves, in registration order
    pub fn new(descriptors: &Vec<ServiceDescriptor>) -> (p: Self)
        ensures
            built_from(descs_view(descriptors@), p@),
            provider_wf(p@),
    {
        let ghost s = descs_view(descriptors@);
        let n = descriptors.len();
        let mut entries: Vec<ServiceDescriptor> = Vec::new();
        let mut singletons: Vec<Option<u64>> = Vec::new();
        let mut row: Vec<Option<u64>> = Vec::new();
        for i in 0..n
            invariant
                s == descs_view(descriptors@),
                n == descriptors@.len(),
                entries@.len() == i,
                singletons@.len() == i,
                row@.len() == i,
                forall|j: int|
                    0 <= j < i ==> {
                        &&& (#[trigger] descs_view(entries@)[j]).lifetime == s[j].lifetime
                        &&& descs_view(entries@)[j].service == s[j].service
                        &&& descs_view(entries@)[j].implementation == s[j].implementation
                        &&& descs_view(entries@)[j].deps.len() == 0
                    },
                forall|j: int| 0 <= j < i ==> #[trigger] singletons@[j] is None,
                forall|j: int| 0 <= j < i ==> #[trigger] row@[j] is None,
        {
            proof {
                assert(s[i as int] == descriptors@[i as int]@);
            }
            let d = descriptors[i].clone_with(false);
            let ghost dv = d@;
            let ghost olde = entries@;
            entries.push(d);
            singletons.push(Option::None);
            row.push(Option::None);
            proof {
                assert forall|j: int| 0 <= j <= i as int implies {
                    &&& (#[trigger] descs_view(entries@)[j]).lifetime == s[j].lifetime
                    &&& descs_view(entries@)[j].service == s[j].service
                    &&& descs_view(entries@)[j].implementation == s[j].implementation
                    &&& descs_view(entries@)[j].deps.len() == 0
                } by {
                    assert(descs_view(entries@)[j] == entries@[j]@);
                    if j < i as int {
                        assert(descs_view(olde)[j] == olde[j]@);
                        assert(entries@[j] == olde[j]);
                    } else {
                        assert(entries@[j]@ == dv);
                    }
                }
            }
        }
        let mut scopes: Vec<Vec<Option<u64>>> = Vec::new();
        scopes.push(row);
        let p = Self { entries, singletons, scopes, next_instance: 0 };
        proof {
            assert(p@.singletons =~= Seq::new(s.len(), |j: int| Option::<u64>::None));
            assert(p@.scopes =~~= seq![Seq::new(s.len(), |j: int| Option::<u64>::None)]);
        }
        p
    }

    /// Gets the number of registrations the provider serves.
    pub fn registration_count(&self) -> (n: usize)
        ensures
            n == self@.entries.len(),
    {
        self.entries.len()
    }

    /// Gets the number of instance tokens minted so far: the next
    /// resolution that must create an instance uses this token.
    pub fn instances_minted(&self) -> (n: u64)
        ensures
            n == self@.next_instance,
    {
        self.next_instance
    }

    /// Gets the handle of the provider's own scope, the root of every
    /// scope created from it.
    pub fn root_scope(&self) -> (sc: Scope)
        ensures
            sc@ == 0,
    {
        Scope { index: 0 }
    }

    /// Creates and returns a new scope: an independent set of empty scoped
    /// cells over the same registrations and the same singleton cells.
    pub fn create_scope(&mut self) -> (sc: Scope)
        requires
            provider_wf(old(self)@),
        ensures
            provider_wf(final(self)@),
            sc@ == old(self)@.scopes.len(),
            final(self)@ == (ProviderView {
                scopes: old(self)@.scopes.push(
                    Seq::new(old(self)@.entries.len(), |j: int| Option::<u64>::None),
                ),
                ..old(self)@
            }),
    {
        let n = self.entries.len();
        let mut row: Vec<Option<u64>> = Vec::new();
        let mut i: usize = 0;
        while i < n
            invariant
                row@.len() == i,
                i <= n,
                forall|j: int| 0 <= j < i ==> #[trigger] row@[j] is None,
            decreases n - i,
        {
            row.push(Option::None);
            i = i + 1;
        }
        let index = self.scopes.len();
        self.scopes.push(row);
        proof {
            assert(row@ =~= Seq::new(old(self)@.entries.len(), |j: int| Option::<u64>::None));
            assert(self@.scopes =~= old(self)@.scopes.push(row@));
        }
        Scope { index }
    }

    /// Resolves registration `j` in the given scope, observing its
    /// lifetime.
    fn resolve_entry(&mut self, scope: &Scope, j: usize) -> (inst: ServiceInstance)
        requires
            provider_wf(old(self)@),
            0 <= scope@ < old(self)@.scopes.len(),
            j < old(self)@.entries.len(),
            old(self)@.next_instance < u64::MAX,
        ensures
            provider_wf(final(self)@),
            final(self)@ == resolve_at(old(self)@, scope@, j as int).0,
            inst@ == resolve_at(old(self)@, scope@, j as int).1,
    {
        let ghost p = self@;
        proof {
            assert(self.entries@.len() == p.entries.len());
            assert(self.singletons@.len() == p.singletons.len());
            assert(self.scopes@.len() == p.scopes.len());
            assert(self.scopes@[scope@]@ == p.scopes[scope@]);
            assert(p.scopes[scope@].len() == p.entries.len());
        }
        let service_type = self.entries[j].service_type().clone();
        let implementation_type = self.entries[j].implementation_type().clone();
        let lifetime = self.entries[j].lifetime();
        proof {
            assert(p.entries[j as int] == self.entries@[j as int]@);
        }
        let token: u64;
        match lifetime {
            ServiceLifetime::Transient => {
                token = self.next_instance;
                self.next_instance = self.next_instance + 1;
                proof {
                    assert(self@ =~= resolve_at(p, scope@, j as int).0) by {
                        assert(self@.entries =~= p.entries);
                        assert(self@.scopes =~= p.scopes);
                    }
                    lemma_resolve_at_wf(p, scope@, j as int);
                }
            },
            ServiceLifetime::Singleton => {
                match self.singletons[j] {
                    Option::Some(t) => {
                        token = t;
                        proof {
                            assert(self@ =~= p);
                        }
                    },
                    Option::None => {
                        token = self.next_instance;
                        self.singletons[j] = Option::Some(token);
                        self.next_instance = self.next_instance + 1;
                        proof {
                            assert(self@ =~= resolve_at(p, scope@, j as int).0) by {
                                assert(self@.entries =~= p.entries);
                                assert(self@.scopes =~= p.scopes);
                                assert(self@.singletons =~= p.singletons.update(
                                    j as int,
                                    Option::Some(p.next_instance),
                                ));
                            }
                            lemma_resolve_at_wf(p, scope@, j as int);
                        }
                    },
                }
            },
            ServiceLifetime::Scoped => {
                let sc = scope.index;
                match self.scopes[sc][j] {
                    Option::Some(t) => {
                        token = t;
                        proof {
                            assert(self@ =~= p);
                        }
                    },
                    Option::None => {
                        token = self.next_instance;
                        self.scopes[sc][j] = Option::Some(token);
                        self.next_instance = self.next_instance + 1;
                        proof {
                            assert(self@ =~= resolve_at(p, scope@, j as int).0) by {
                                assert(self@.entries =~= p.entries);
                                assert(self@.singletons =~= p.singletons);
                                assert(self@.scopes =~= p.scopes.update(
                                    scope@,
                                    p.scopes[scope@].update(
                                        j as int,
                                        Option::Some(p.next_instance),
                                    ),
                                ));
                            }
                            lemma_resolve_at_wf(p, scope@, j as int);
                        }
                    },
                }
            },
        }
        ServiceInstance { instance: token, lifetime, service_type, implementation_type }
    }

    /// Gets a service of the specified type, resolved in the given scope:
    /// the last matching registration wins, and absence is not an error.
    pub fn get_in(&mut self, service_type: &Type, scope: &Scope) -> (r: Option<ServiceInstance>)
        requires
            provider_wf(old(self)@),
            0 <= scope@ < old(self)@.scopes.len(),
            old(self)@.next_instance < u64::MAX,
        ensures
            provider_wf(final(self)@),
            final(self)@ == resolve_one(old(self)@, scope@, service_type@.id).0,
            match r {
                Option::Some(inst) => resolve_one(old(self)@, scope@, service_type@.id).1
                    == Option::Some(inst@),
                Option::None => resolve_one(old(self)@, scope@, service_type@.id).1 is None,
            },
    {
        let ghost p = self@;
        let id = service_type.id();
        proof {
            lemma_lookup_last(p.entries, id);
        }
        let n = self.entries.len();
        let mut j: usize = n;
        while j > 0
            invariant
                p == old(self)@,
                p == self@,
                provider_wf(p),
                0 <= scope@ < p.scopes.len(),
                p.next_instance < u64::MAX,
                id == service_type@.id,
                n == self@.entries.len(),
                j <= n,
                forall|k: int| j <= k < n ==> (#[trigger] p.entries[k]).service.id != id,
            decreases j,
        {
            j = j - 1;
            proof {
                assert(p.entries[j as int] == self.entries@[j as int]@);
            }
            if self.entries[j].service_type().id() == id {
                proof {
                    assert(has_service(p.entries, id));
                    lemma_lookup_last(p.entries, id);
                    let ll = lookup_last(p.entries, id);
                    assert(ll == j as int) by {
                        assert(p.entries[ll].service.id == id);
                        if ll > j as int {
                            assert(p.entries[ll].service.id != id);
                        }
                        if ll < j as int {
                            assert(p.entries[j as int].service.id != id);
                        }
                    };
                }
                let ghost jj = j as int;
                let inst = self.resolve_entry(scope, j);
                proof {
                    assert(lookup_last(p.entries, id) == jj);
                    assert(self@ == resolve_at(p, scope@, jj).0);
                    assert(inst@ == resolve_at(p, scope@, jj).1);
                    assert(self@ == resolve_one(p, scope@, id).0);
                    assert(resolve_one(p, scope@, id).1 == Option::Some(inst@));
                }
                return Option::Some(inst);
            }
        }
        proof {
            assert(!has_service(p.entries, id));
        }
        Option::None
    }

    /// Gets a service of the specified type from the provider's root
    /// scope.
    pub fn get(&mut self, service_type: &Type) -> (r: Option<ServiceInstance>)
        requires
            provider_wf(old(self)@),
            old(self)@.next_instance < u64::MAX,
        ensures
            provider_wf(final(self)@),
            final(self)@ == resolve_one(old(self)@, 0, service_type@.id).0,
            match r {
                Option::Some(inst) => resolve_one(old(self)@, 0, service_type@.id).1
                    == Option::Some(inst@),
                Option::None => resolve_one(old(self)@, 0, service_type@.id).1 is None,
            },
    {
        let root = self.root_scope();
        self.get_in(service_type, &root)
    }

    /// Gets a required service of the specified type, resolved in the
    /// given scope. A caller owes the proof that the type is registered:
    /// requesting an unregistered type as required is a programming error,
    /// not a recoverable outcome.
    pub fn get_required_in(&mut self, service_type: &Type, scope: &Scope) -> (r: ServiceInstance)
        requires
            provider_wf(old(self)@),
            0 <= scope@ < old(self)@.scopes.len(),
            old(self)@.next_instance < u64::MAX,
            has_service(old(self)@.entries, service_type@.id),
        ensures
            provider_wf(final(self)@),
            final(self)@ == resolve_one(old(self)@, scope@, service_type@.id).0,
            resolve_one(old(self)@, scope@, service_type@.id).1 == Option::Some(r@),
    {
        proof {
            lemma_lookup_last(old(self)@.entries, service_type@.id);
        }
        let r = self.get_in(service_type, scope);
        match r {
            Option::Some(inst) => inst,
            Option::None => vstd::pervasive::unreached(),
        }
    }

    /// Gets a required service of the specified type from the provider's
    /// root scope.
    pub fn get_required(&mut self, service_type: &Type) -> (r: ServiceInstance)
        requires
            provider_wf(old(self)@),
            old(self)@.next_instance < u64::MAX,
            has_service(old(self)@.entries, service_type@.id),
        ensures
            provider_wf(final(self)@),
            final(self)@ == resolve_one(old(self)@, 0, service_type@.id).0,
            resolve_one(old(self)@, 0, service_type@.id).1 == Option::Some(r@),
    {
        let root = self.root_scope();
        self.get_required_in(service_type, &root)
    }

    /// Gets all of the services of the specified type, resolved in the
    /// given scope, in registration order.
    pub fn get_all_in(&mut self, service_type: &Type, scope: &Scope) -> (r: Vec<ServiceInstance>)
        requires
            provider_wf(old(self)@),
            0 <= scope@ < old(self)@.scopes.len(),
            old(self)@.next_instance + old(self)@.entries.len() <= u64::MAX,
        ensures
            provider_wf(final(self)@),
            final(self)@ == resolve_all_from(old(self)@, scope@, service_type@.id, 0).0,
            insts_view(r@) == resolve_all_from(old(self)@, scope@, service_type@.id, 0).1,
    {
        let ghost p = self@;
        let id = service_type.id();
        let n = self.entries.len();
        let mut out: Vec<ServiceInstance> = Vec::new();
        proof {
            assert(insts_view(out@) =~= Seq::<InstanceView>::empty());
            assert(insts_view(out@) + resolve_all_from(self@, scope@, id, 0).1 =~= resolve_all_from(
                p,
                scope@,
                id,
                0,
            ).1);
        }
        for j in 0..n
            invariant
                n == self@.entries.len(),
                self@.entries == p.entries,
                provider_wf(self@),
                0 <= scope@ < self@.scopes.len(),
                self@.scopes.len() == p.scopes.len(),
                id == service_type@.id,
                self@.next_instance <= p.next_instance + j,
                p.next_instance + p.entries.len() <= u64::MAX,
                resolve_all_from(self@, scope@, id, j as int).0 == resolve_all_from(
                    p,
                    scope@,
                    id,
                    0,
                ).0,
                insts_view(out@) + resolve_all_from(self@, scope@, id, j as int).1
                    == resolve_all_from(p, scope@, id, 0).1,
        {
            let ghost cur = self@;
            proof {
                assert(cur.entries[j as int] == self.entries@[j as int]@);
            }
            if self.entries[j].service_type().id() == id {
                let ghost before = insts_view(out@);
                let inst = self.resolve_entry(scope, j);
                out.push(inst);
                proof {
                    lemma_resolve_at_wf(cur, scope@, j as int);
                    assert(insts_view(out@) =~= before.push(inst@));
                    assert(before.push(resolve_at(cur, scope@, j as int).1)
                        + resolve_all_from(self@, scope@, id, j + 1).1 =~= before + (seq![
                        resolve_at(cur, scope@, j as int).1,
                    ] + resolve_all_from(self@, scope@, id, j + 1).1));
                }
            }
        }
        proof {
            assert(resolve_all_from(self@, scope@, id, n as int).1
                =~= Seq::<InstanceView>::empty());
            assert(insts_view(out@) + resolve_all_from(self@, scope@, id, n as int).1
                =~= insts_view(out@));
        }
        out
    }

    /// Gets all of the services of the specified type from the provider's
    /// root scope, in registration order.
    pub fn get_all(&mut self, service_type: &Type) -> (r: Vec<ServiceInstance>)
        requires
            provider_wf(old(self)@),
            old(self)@.next_instance + old(self)@.entries.len() <= u64::MAX,
        ensures
            provider_wf(final(self)@),
            final(self)@ == resolve_all_from(old(self)@, 0, service_type@.id, 0).0,
            insts_view(r@) == resolve_all_from(old(self)@, 0, service_type@.id, 0).1,
    {
        let root = self.root_scope();
        self.get_all_in(service_type, &root)
    }

    /// Gets a keyed service of the specified type, resolved in the
    /// provider's root scope.
    pub fn get_by_key(&mut self, key_type: &Type, service_type: &Type) -> (r: Option<
        ServiceInstance,
    >)
        requires
            provider_wf(old(self)@),
            old(self)@.next_instance < u64::MAX,
        ensures
            provider_wf(final(self)@),
            ({
                let id = crate::ty::type_id_of(
                    service_type@.name,
                    Option::Some(key_type@.name),
                );
                &&& final(self)@ == resolve_one(old(self)@, 0, id).0
                &&& match r {
                    Option::Some(inst) => resolve_one(old(self)@, 0, id).1 == Option::Some(
                        inst@,
                    ),
                    Option::None => resolve_one(old(self)@, 0, id).1 is None,
                }
            }),
    {
        let keyed = service_type.with_key(key_type);
        self.get(&keyed)
    }

    /// Gets a required keyed service of the specified type, resolved in
    /// the provider's root scope.
    pub fn get_required_by_key(&mut self, key_type: &Type, service_type: &Type) -> (r:
        ServiceInstance)
        requires
            provider_wf(old(self)@),
            old(self)@.next_instance < u64::MAX,
            has_service(
                old(self)@.entries,
                crate::ty::type_id_of(service_type@.name, Option::Some(key_type@.name)),
            ),
        ensures
            ({
                let id = crate::ty::type_id_of(
                    service_type@.name,
                    Option::Some(key_type@.name),
                );
                &&& final(self)@ == resolve_one(old(self)@, 0, id).0
                &&& resolve_one(old(self)@, 0, id).1 == Option::Some(r@)
            }),
            provider_wf(final(self)@),
    {
        let keyed = service_type.with_key(key_type);
        let root = self.root_scope();
        self.get_required_in(&keyed, &root)
    }

    /// Gets all of the keyed services of the specified type, resolved in
    /// the provider's root scope, in registration order.
    pub fn get_all_by_key(&mut self, key_type: &Type, service_type: &Type) -> (r: Vec<
        ServiceInstance,
    >)
        requires
            provider_wf(old(self)@),
            old(self)@.next_instance + old(self)@.entries.len() <= u64::MAX,
        ensures
            ({
                let id = crate::ty::type_id_of(
                    service_type@.name,
                    Option::Some(key_type@.name),
                );
                &&& final(self)@ == resolve_all_from(old(self)@, 0, id, 0).0
                &&& insts_view(r@) == resolve_all_from(old(self)@, 0, id, 0).1
            }),
            provider_wf(final(self)@),
    {
        let keyed = service_type.with_key(key_type);
        let root = self.root_scope();
        self.get_all_in(&keyed, &root)
    }
}


// ------------------------------------------------------------------
// The lifetime laws.
// ------------------------------------------------------------------

/// The implementation types of the registrations of `id` from index `j`
/// on, in registration order.
pub open spec fn match_impls(entries: Seq<DescriptorView>, id: u64, j: int) -> Seq<TypeView>
    decreases entries.len() - j,
{
    if j < 0 || j >= entries.len() {
        Seq::empty()
    } else if entries[j].service.id == id {
        seq![entries[j].implementation] + match_impls(entries, id, j + 1)
    } else {
        match_impls(entries, id, j + 1)
    }
}

/// A collection lookup returns one instance per matching registration, in
/// registration order: its instances carry exactly the implementation
/// types of the registrations of the requested type, first to last.
pub proof fn lemma_resolve_all_order(p: ProviderView, sc: int, id: u64, j: int)
    requires
        0 <= j,
    ensures
        resolve_all_from(p, sc, id, j).1.map_values(|iv: InstanceView| iv.implementation)
            == match_impls(p.entries, id, j),
        resolve_all_from(p, sc, id, j).0.entries == p.entries,
    decreases p.entries.len() - j,
{
    if j < p.entries.len() {
        if p.entries[j].service.id == id {
            let r = resolve_at(p, sc, j);
            lemma_resolve_all_order(r.0, sc, id, j + 1);
            assert(r.0.entries == p.entries);
            assert((seq![r.1] + resolve_all_from(r.0, sc, id, j + 1).1).map_values(
                |iv: InstanceView| iv.implementation,
            ) =~= seq![r.1.implementation] + resolve_all_from(r.0, sc, id, j + 1).1.map_values(
                |iv: InstanceView| iv.implementation,
            ));
        } else {
            lemma_resolve_all_order(p, sc, id, j + 1);
        }
    } else {
        assert(resolve_all_from(p, sc, id, j).1.map_values(|iv: InstanceView| iv.implementation)
            =~= Seq::<TypeView>::empty());
    }
}

/// Last-registration-wins: when registrations `j1` and then `j2` share a
/// service type and no later registration matches it, a singular lookup
/// resolves `j2` - the instance carries `j2`'s implementation type - while
/// a collection lookup returns both, `j1`'s before `j2`'s.
pub proof fn lemma_last_registration_wins(p: ProviderView, sc: int, id: u64, j1: int, j2: int)
    requires
        provider_wf(p),
        0 <= sc < p.scopes.len(),
        0 <= j1 < j2 < p.entries.len(),
        p.entries[j1].service.id == id,
        p.entries[j2].service.id == id,
        forall|k: int| j2 < k < p.entries.len() ==> (#[trigger] p.entries[k]).service.id != id,
    ensures
        resolve_one(p, sc, id).1 is Some,
        resolve_one(p, sc, id).1->0.implementation == p.entries[j2].implementation,
        ({
            let impls = resolve_all_from(p, sc, id, 0).1.map_values(
                |iv: InstanceView| iv.implementation,
            );
            exists|k1: int, k2: int|
                0 <= k1 < k2 < impls.len() && impls[k1] == p.entries[j1].implementation
                    && impls[k2] == p.entries[j2].implementation
        }),
{
    assert(has_service(p.entries, id));
    lemma_lookup_last(p.entries, id);
    let ll = lookup_last(p.entries, id);
    assert(ll == j2) by {
        assert(p.entries[ll].service.id == id);
        if ll > j2 {
            assert(p.entries[ll].service.id != id);
        }
        if ll < j2 {
            assert(p.entries[j2].service.id != id);
        }
    };
    lemma_resolve_all_order(p, sc, id, 0);
    lemma_match_impls_positions(p.entries, id, 0, j1);
    let k1 = match_impls_position(p.entries, id, 0, j1);
    lemma_match_impls_positions(p.entries, id, 0, j2);
    let k2 = match_impls_position(p.entries, id, 0, j2);
    lemma_match_impls_position_order(p.entries, id, 0, j1, j2);
}

/// The position that registration `m` occupies among the matches of `id`
/// counted from index `j`.
pub open spec fn match_impls_position(entries: Seq<DescriptorView>, id: u64, j: int, m: int) -> int
    decreases m - j,
{
    if j < 0 || j >= m {
        0
    } else if entries[j].service.id == id {
        1 + match_impls_position(entries, id, j + 1, m)
    } else {
        match_impls_position(entries, id, j + 1, m)
    }
}

/// A matching registration appears among the matched implementations, at
/// its position.
pub proof fn lemma_match_impls_positions(entries: Seq<DescriptorView>, id: u64, j: int, m: int)
    requires
        0 <= j <= m < entries.len(),
        entries[m].service.id == id,
    ensures
        ({
            let k = match_impls_position(entries, id, j, m);
            &&& 0 <= k < match_impls(entries, id, j).len()
            &&& match_impls(entries, id, j)[k] == entries[m].implementation
        }),
    decreases m - j,
{
    if j < m {
        lemma_match_impls_positions(entries, id, j + 1, m);
    }
}

/// Matching positions respect registration order.
pub proof fn lemma_match_impls_position_order(
    entries: Seq<DescriptorView>,
    id: u64,
    j: int,
    m1: int,
    m2: int,
)
    requires
        0 <= j <= m1 < m2 < entries.len(),
        entries[m1].service.id == id,
        entries[m2].service.id == id,
    ensures
        match_impls_position(entries, id, j, m1) < match_impls_position(entries, id, j, m2),
    decreases m1 - j,
{
    if j < m1 {
        lemma_match_impls_position_order(entries, id, j + 1, m1, m2);
    } else {
        lemma_match_impls_position_lower(entries, id, j + 1, m2);
    }
}

/// A position counted from further right is never negative, and counts at
/// least the match at the left end.
pub proof fn lemma_match_impls_position_lower(
    entries: Seq<DescriptorView>,
    id: u64,
    j: int,
    m: int,
)
    requires
        0 <= j <= m,
    ensures
        match_impls_position(entries, id, j, m) >= 0,
    decreases m - j,
{
    if j < m {
        lemma_match_impls_position_lower(entries, id, j + 1, m);
    }
}

/// Singleton sharing: two singular resolutions of a singleton
/// registration, made one after the other in any two scopes of the same
/// provider, return the same instance.
pub proof fn lemma_singleton_sharing(p: ProviderView, sc1: int, sc2: int, id: u64)
    requires
        provider_wf(p),
        0 <= sc1 < p.scopes.len(),
        0 <= sc2 < p.scopes.len(),
        p.next_instance < u64::MAX,
        has_service(p.entries, id),
        p.entries[lookup_last(p.entries, id)].lifetime == ServiceLifetime::Singleton,
    ensures
        ({
            let first = resolve_one(p, sc1, id);
            let second = resolve_one(first.0, sc2, id);
            &&& first.1 is Some
            &&& second.1 is Some
            &&& first.1->0.instance == second.1->0.instance
        }),
{
    lemma_lookup_last(p.entries, id);
    let j = lookup_last(p.entries, id);
    let first = resolve_one(p, sc1, id);
    assert(first.0.entries == p.entries);
    assert(lookup_last(first.0.entries, id) == j);
    match p.singletons[j] {
        Option::Some(t) => {},
        Option::None => {
            assert(first.0.singletons[j] == Option::Some(p.next_instance));
        },
    }
}

/// Scoped isolation, same scope: two singular resolutions of a scoped
/// registration in the same scope return the same instance.
pub proof fn lemma_scoped_same_scope(p: ProviderView, sc: int, id: u64)
    requires
        provider_wf(p),
        0 <= sc < p.scopes.len(),
        p.next_instance < u64::MAX,
        has_service(p.entries, id),
        p.entries[lookup_last(p.entries, id)].lifetime == ServiceLifetime::Scoped,
    ensures
        ({
            let first = resolve_one(p, sc, id);
            let second = resolve_one(first.0, sc, id);
            &&& first.1 is Some
            &&& second.1 is Some
            &&& first.1->0.instance == second.1->0.instance
        }),
{
    lemma_lookup_last(p.entries, id);
    let j = lookup_last(p.entries, id);
    let first = resolve_one(p, sc, id);
    assert(first.0.entries == p.entries);
    assert(lookup_last(first.0.entries, id) == j);
    match p.scopes[sc][j] {
        Option::Some(t) => {},
        Option::None => {
            assert(first.0.scopes[sc][j] == Option::Some(p.next_instance));
        },
    }
}

/// Scoped isolation, distinct scopes: two singular resolutions of a
/// scoped registration in two different scopes return distinct instances.
pub proof fn lemma_scoped_isolation(p: ProviderView, sc1: int, sc2: int, id: u64)
    requires
        provider_wf(p),
        0 <= sc1 < p.scopes.len(),
        0 <= sc2 < p.scopes.len(),
        sc1 != sc2,
        p.next_instance + 2 <= u64::MAX,
        has_service(p.entries, id),
        p.entries[lookup_last(p.entries, id)].lifetime == ServiceLifetime::Scoped,
    ensures
        ({
            let first = resolve_one(p, sc1, id);
            let second = resolve_one(first.0, sc2, id);
            &&& first.1 is Some
            &&& second.1 is Some
            &&& first.1->0.instance != second.1->0.instance
        }),
{
    lemma_lookup_last(p.entries, id);
    let j = lookup_last(p.entries, id);
    let first = resolve_one(p, sc1, id);
    assert(first.0.entries == p.entries);
    assert(lookup_last(first.0.entries, id) == j);
    match p.scopes[sc1][j] {
        Option::Some(t1) => {
            assert(first.0 == p);
            match p.scopes[sc2][j] {
                Option::Some(t2) => {
                    assert(t1 != t2);
                },
                Option::None => {
                    assert(t1 < p.next_instance);
                },
            }
        },
        Option::None => {
            assert(first.0.scopes[sc2] == p.scopes[sc2]);
            match p.scopes[sc2][j] {
                Option::Some(t2) => {
                    assert(t2 < p.next_instance);
                },
                Option::None => {},
            }
        },
    }
}

/// Transient freshness: two consecutive singular resolutions of a
/// transient registration return distinct instances, whatever the scopes.
pub proof fn lemma_transient_freshness(p: ProviderView, sc1: int, sc2: int, id: u64)
    requires
        provider_wf(p),
        0 <= sc1 < p.scopes.len(),
        0 <= sc2 < p.scopes.len(),
        p.next_instance + 2 <= u64::MAX,
        has_service(p.entries, id),
        p.entries[lookup_last(p.entries, id)].lifetime == ServiceLifetime::Transient,
    ensures
        ({
            let first = resolve_one(p, sc1, id);
            let second = resolve_one(first.0, sc2, id);
            &&& first.1 is Some
            &&& second.1 is Some
            &&& first.1->0.instance != second.1->0.instance
        }),
{
    lemma_lookup_last(p.entries, id);
    let j = lookup_last(p.entries, id);
    let first = resolve_one(p, sc1, id);
    assert(first.0.entries == p.entries);
    assert(lookup_last(first.0.entries, id) == j);
}

impl Default for ServiceProvider {
    fn default() -> (p: Self)
        ensures
            p@.entries.len() == 0,
            p@.next_instance == 0,
            p@.scopes.len() == 1,
            provider_wf(p@),
    {
        let entries: Vec<ServiceDescriptor> = Vec::new();
        let singletons: Vec<Option<u64>> = Vec::new();
        let row: Vec<Option<u64>> = Vec::new();
        let mut scopes: Vec<Vec<Option<u64>>> = Vec::new();
        scopes.push(row);
        Self { entries, singletons, scopes, next_instance: 0 }
    }
}

} // verus!
