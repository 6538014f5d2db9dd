//! Validation of a service collection before a provider is built. Three
//! rules run over every descriptor, in registration order, and their
//! findings are collected - never short-circuited - into one error:
//!
//! 1. a required (exactly-one) dependency on a type with no registration;
//! 2. a dependency walk that reaches back to the root descriptor's own
//!    service type (a circular dependency), with a visited set per walk so
//!    that a diamond-shaped reconvergence is not re-reported;
//! 3. a singleton whose transitive dependency closure reaches a scoped
//!    registration, labelled "dependency" for a direct edge and
//!    "transitive dependency" otherwise.

use vstd::prelude::*;
use vstd::seq_lib::group_seq_properties;
use vstd::set_lib::group_set_properties;
use crate::ty::{Type, TypeView};
use crate::dependency::{DependencyView, ServiceCardinality, ServiceDependency};
use crate::descriptor::{descs_view, deps_view, DescriptorView, ServiceDescriptor, ServiceLifetime};
use crate::collection::{has_service, ServiceCollection};
use crate::text::{dec_digits, dec_string};

verus! {

broadcast use {group_seq_properties, group_set_properties, vstd::seq_lib::seq_to_set_is_finite};

// ------------------------------------------------------------------
// The registry, seen by the validator.
// ------------------------------------------------------------------

/// Every descriptor registered under the given service type identity, in
/// registration order.
pub open spec fn registrations_of(s: Seq<DescriptorView>, id: u64) -> Seq<DescriptorView> {
    s.filter(|d: DescriptorView| d.service.id == id)
}

/// The set of service type identities registered in the collection.
pub open spec fn sids(s: Seq<DescriptorView>) -> Set<u64> {
    s.map_values(|d: DescriptorView| d.service.id).to_set()
}

/// A type identity with at least one registration is in the identity set.
pub proof fn lemma_registered_in_sids(s: Seq<DescriptorView>, id: u64)
    requires
        registrations_of(s, id).len() > 0,
    ensures
        sids(s).contains(id),
{
    let regs = registrations_of(s, id);
    #[allow(deprecated)]
    s.filter_lemma(|d: DescriptorView| d.service.id == id);
    assert(s.contains(regs[0])) by {
        assert(regs[0].service.id == id);
        assert(regs.contains(regs[0]));
        seq_filter_contained_in_original(s, |d: DescriptorView| d.service.id == id, regs[0]);
    }
    let w = choose|i: int| 0 <= i < s.len() && s[i] == regs[0];
    assert(s.map_values(|d: DescriptorView| d.service.id)[w] == id);
    assert(s.map_values(|d: DescriptorView| d.service.id).contains(id));
}

/// An element of a filtered sequence is an element of the original.
proof fn seq_filter_contained_in_original<A>(s: Seq<A>, pred: spec_fn(A) -> bool, x: A)
    requires
        s.filter(pred).contains(x),
    ensures
        s.contains(x),
    decreases s.len(),
{
    reveal(Seq::filter);
    if s.len() > 0 {
        if s.drop_last().filter(pred).contains(x) {
            seq_filter_contained_in_original(s.drop_last(), pred, x);
            let w = choose|i: int| 0 <= i < s.drop_last().len() && s.drop_last()[i] == x;
            assert(s[w] == x);
        } else {
            assert(x == s.last());
        }
    }
}

/// One scan step: the registrations within a prefix one longer gain the
/// next descriptor exactly when it matches.
pub proof fn lemma_regs_take_step(s: Seq<DescriptorView>, id: u64, j: int)
    requires
        0 <= j < s.len(),
    ensures
        registrations_of(s.take(j + 1), id) == (if s[j].service.id == id {
            registrations_of(s.take(j), id).push(s[j])
        } else {
            registrations_of(s.take(j), id)
        }),
{
    reveal(Seq::filter);
    assert(s.take(j + 1).drop_last() =~= s.take(j));
    assert(s.take(j + 1).last() == s[j]);
}

// ------------------------------------------------------------------
// The diagnostic messages, character for character.
// ------------------------------------------------------------------

/// How a type is written in a diagnostic: quoted, with its key if it has
/// one.
pub open spec fn expand_type_msg(t: TypeView) -> Seq<char> {
    match t.key {
        Option::Some(k) => "'"@ + t.name + "' with the key '"@ + k + "'"@,
        Option::None => "'"@ + t.name + "'"@,
    }
}

/// The finding for a required dependency with no registration.
pub open spec fn missing_required_msg(d: DescriptorView, dep: DependencyView) -> Seq<char> {
    "Service '"@ + d.implementation.name + "' requires dependent service "@ + expand_type_msg(
        dep.ty,
    ) + ", which has not be registered"@
}

/// The finding for a dependency walk that reached back to the root.
pub open spec fn circular_msg(service: TypeView, root_impl_name: Seq<char>) -> Seq<char> {
    "A circular dependency was detected for service "@ + expand_type_msg(service)
        + " on service '"@ + root_impl_name + "'"@
}

/// The finding for a scoped registration reached from a singleton.
pub open spec fn lifetime_msg(root_impl: TypeView, direct: bool, dep_name: Seq<char>) -> Seq<
    char,
> {
    "The service "@ + expand_type_msg(root_impl) + " has a singleton lifetime, but its "@ + (
    if direct {
        Seq::<char>::empty()
    } else {
        "transitive "@
    }) + "dependency '"@ + dep_name + "' has a scoped lifetime"@
}

// ------------------------------------------------------------------
// Rule 1: missing required type.
// ------------------------------------------------------------------

/// The findings of the missing-required-type rule for the dependencies of
/// `d` from index `i` on: one finding per exactly-one edge whose target
/// has no registration.
pub open spec fn missing_msgs_deps(
    s: Seq<DescriptorView>,
    d: DescriptorView,
    i: int,
) -> Seq<Seq<char>>
    decreases d.deps.len() - i,
{
    if i < 0 || i >= d.deps.len() {
        Seq::empty()
    } else {
        (if d.deps[i].cardinality == ServiceCardinality::ExactlyOne && !has_service(
            s,
            d.deps[i].ty.id,
        ) {
            seq![missing_required_msg(d, d.deps[i])]
        } else {
            Seq::<Seq<char>>::empty()
        }) + missing_msgs_deps(s, d, i + 1)
    }
}

/// The findings of the missing-required-type rule for one descriptor.
pub open spec fn rule_missing(s: Seq<DescriptorView>, d: DescriptorView) -> Seq<Seq<char>> {
    missing_msgs_deps(s, d, 0)
}

// ------------------------------------------------------------------
// Rule 2: circular dependency.
// ------------------------------------------------------------------

/// One circular finding per registration reached under the root's own
/// service type.
pub open spec fn circ_msgs(q: Seq<DescriptorView>, root_impl_name: Seq<char>) -> Seq<Seq<char>> {
    q.map_values(|x: DescriptorView| circular_msg(x.service, root_impl_name))
}

/// The findings of one work-stack walk of the dependency graph. The stack
/// holds dependency edges still to process, newest on top. Processing an
/// edge whose target has registrations reports a cycle for each of them
/// when the target is the root's own service type, and expands the first
/// registration's dependencies once per target type: the visited set keeps
/// a diamond-shaped reconvergence from being walked again.
pub open spec fn cycle_walk(
    s: Seq<DescriptorView>,
    root_id: u64,
    root_impl_name: Seq<char>,
    stack: Seq<DependencyView>,
    visited: Set<u64>,
) -> Seq<Seq<char>>
    decreases sids(s).difference(visited).len(), stack.len(),
    via cycle_walk_decreases
{
    if stack.len() == 0 {
        Seq::empty()
    } else {
        let cur = stack.last();
        let rest = stack.drop_last();
        let id = cur.ty.id;
        let regs = registrations_of(s, id);
        if regs.len() == 0 {
            cycle_walk(s, root_id, root_impl_name, rest, visited)
        } else {
            let msgs = if id == root_id {
                circ_msgs(regs, root_impl_name)
            } else {
                Seq::<Seq<char>>::empty()
            };
            if visited.contains(id) {
                msgs + cycle_walk(s, root_id, root_impl_name, rest, visited)
            } else {
                msgs + cycle_walk(
                    s,
                    root_id,
                    root_impl_name,
                    rest + regs[0].deps,
                    visited.insert(id),
                )
            }
        }
    }
}

#[via_fn]
proof fn cycle_walk_decreases(
    s: Seq<DescriptorView>,
    root_id: u64,
    root_impl_name: Seq<char>,
    stack: Seq<DependencyView>,
    visited: Set<u64>,
) {
    if stack.len() > 0 {
        let id = stack.last().ty.id;
        let regs = registrations_of(s, id);
        if regs.len() > 0 && !visited.contains(id) {
            lemma_registered_in_sids(s, id);
            sids(s).lemma_set_insert_diff_decreases(visited, id);
        }
    }
}

/// The findings of the circular-dependency rule for the dependencies of
/// `d` from index `i` on: one walk per declared edge, each with a fresh
/// visited set holding only the root's service type.
pub open spec fn cycle_msgs_deps(
    s: Seq<DescriptorView>,
    d: DescriptorView,
    i: int,
) -> Seq<Seq<char>>
    decreases d.deps.len() - i,
{
    if i < 0 || i >= d.deps.len() {
        Seq::empty()
    } else {
        cycle_walk(s, d.service.id, d.implementation.name, seq![d.deps[i]], set![d.service.id])
            + cycle_msgs_deps(s, d, i + 1)
    }
}

/// The findings of the circular-dependency rule for one descriptor.
pub open spec fn rule_circular(s: Seq<DescriptorView>, d: DescriptorView) -> Seq<Seq<char>> {
    cycle_msgs_deps(s, d, 0)
}

// ------------------------------------------------------------------
// Rule 3: singleton depends on scoped.
// ------------------------------------------------------------------

/// One finding per scoped registration in the given list.
pub open spec fn scoped_msgs(
    q: Seq<DescriptorView>,
    root_impl: TypeView,
    direct: bool,
) -> Seq<Seq<char>> {
    q.filter(|x: DescriptorView| x.lifetime == ServiceLifetime::Scoped).map_values(
        |x: DescriptorView| lifetime_msg(root_impl, direct, x.service.name),
    )
}

/// The findings emitted while expanding the dependencies of `d` from index
/// `i` on.
pub open spec fn lifetime_msgs_deps(
    s: Seq<DescriptorView>,
    root_impl: TypeView,
    d: DescriptorView,
    direct: bool,
    i: int,
) -> Seq<Seq<char>>
    decreases d.deps.len() - i,
{
    if i < 0 || i >= d.deps.len() {
        Seq::empty()
    } else {
        scoped_msgs(registrations_of(s, d.deps[i].ty.id), root_impl, direct)
            + lifetime_msgs_deps(s, root_impl, d, direct, i + 1)
    }
}

/// The descriptors pushed while expanding the dependencies of `d` from
/// index `i` on: the registrations of each edge's target, in order.
pub open spec fn lifetime_pushes(
    s: Seq<DescriptorView>,
    d: DescriptorView,
    i: int,
) -> Seq<DescriptorView>
    decreases d.deps.len() - i,
{
    if i < 0 || i >= d.deps.len() {
        Seq::empty()
    } else {
        registrations_of(s, d.deps[i].ty.id) + lifetime_pushes(s, d, i + 1)
    }
}

/// The findings of one work-stack walk of the transitive dependency
/// closure of a singleton root. Each descriptor's service type is expanded
/// at most once; findings during the very first expansion - the root's own
/// direct dependencies - are labelled direct, all later ones transitive.
pub open spec fn lifetime_walk(
    s: Seq<DescriptorView>,
    root_impl: TypeView,
    stack: Seq<DescriptorView>,
    visited: Set<u64>,
    direct: bool,
) -> Seq<Seq<char>>
    decreases sids(s).difference(visited).len(), stack.len(),
    via lifetime_walk_decreases
{
    if stack.len() == 0 {
        Seq::empty()
    } else {
        let cur = stack.last();
        let rest = stack.drop_last();
        let id = cur.service.id;
        if visited.contains(id) || !sids(s).contains(id) {
            lifetime_walk(s, root_impl, rest, visited, false)
        } else {
            lifetime_msgs_deps(s, root_impl, cur, direct, 0) + lifetime_walk(
                s,
                root_impl,
                rest + lifetime_pushes(s, cur, 0),
                visited.insert(id),
                false,
            )
        }
    }
}

#[via_fn]
proof fn lifetime_walk_decreases(
    s: Seq<DescriptorView>,
    root_impl: TypeView,
    stack: Seq<DescriptorView>,
    visited: Set<u64>,
    direct: bool,
) {
    if stack.len() > 0 {
        let id = stack.last().service.id;
        if !visited.contains(id) && sids(s).contains(id) {
            sids(s).lemma_set_insert_diff_decreases(visited, id);
        }
    }
}

/// The findings of the singleton-depends-on-scoped rule for one
/// descriptor: nothing unless the root is a singleton.
pub open spec fn rule_lifetime(s: Seq<DescriptorView>, d: DescriptorView) -> Seq<Seq<char>> {
    if d.lifetime == ServiceLifetime::Singleton {
        lifetime_walk(s, d.implementation, seq![d], Set::empty(), true)
    } else {
        Seq::empty()
    }
}

// ------------------------------------------------------------------
// All rules together.
// ------------------------------------------------------------------

/// The findings of all three rules for one descriptor, in rule order.
pub open spec fn descriptor_msgs(s: Seq<DescriptorView>, d: DescriptorView) -> Seq<Seq<char>> {
    rule_missing(s, d) + rule_circular(s, d) + rule_lifetime(s, d)
}

/// The findings of the whole validation from descriptor `i` on.
pub open spec fn validation_msgs_from(s: Seq<DescriptorView>, i: int) -> Seq<Seq<char>>
    decreases s.len() - i,
{
    if i < 0 || i >= s.len() {
        Seq::empty()
    } else {
        descriptor_msgs(s, s[i]) + validation_msgs_from(s, i + 1)
    }
}

/// Every finding of the validation of the collection, in registration
/// order, then rule order, then dependency order.
pub open spec fn validation_msgs(s: Seq<DescriptorView>) -> Seq<Seq<char>> {
    validation_msgs_from(s, 0)
}

// ------------------------------------------------------------------
// The aggregated error.
// ------------------------------------------------------------------

/// The headline of an aggregated error: the single finding when there is
/// exactly one, a summary line otherwise.
pub open spec fn headline(results: Seq<Seq<char>>) -> Seq<char> {
    if results.len() == 0 {
        "Validation failed."@
    } else if results.len() == 1 {
        results[0]
    } else {
        "One or more validation errors occurred."@
    }
}

/// The enumerated list of findings from index `i` on, each on a line of
/// its own, numbered from one.
pub open spec fn enumerated(results: Seq<Seq<char>>, i: int) -> Seq<char>
    decreases results.len() - i,
{
    if i < 0 || i >= results.len() {
        Seq::empty()
    } else {
        "\n  ["@ + dec_digits((i + 1) as nat) + "] "@ + results[i] + enumerated(results, i + 1)
    }
}

/// The full text of an aggregated error: the headline alone for a single
/// finding, the headline and the enumerated findings otherwise.
pub open spec fn display_message(results: Seq<Seq<char>>) -> Seq<char> {
    if results.len() > 1 {
        headline(results) + enumerated(results, 0)
    } else {
        headline(results)
    }
}

/// Represents a validation error: the findings of all validation rules,
/// aggregated.
#[derive(Debug)]
pub struct ValidationError {
    results: Vec<String>,
}

impl View for ValidationError {
    type V = Seq<Seq<char>>;

    closed spec fn view(&self) -> Seq<Seq<char>> {
        self.results.deep_view()
    }
}

impl ValidationError {
    fn fail(results: Vec<String>) -> (e: Self)
        ensures
            e@ == results.deep_view(),
    {
        Self { results }
    }

    /// The number of individual findings.
    pub fn count(&self) -> (n: usize)
        ensures
            n == self@.len(),
    {
        self.results.len()
    }

    /// The full text of the error: one line when there is exactly one
    /// finding, a summary line followed by the enumerated findings when
    /// there are more.
    pub fn message(&self) -> (r: String)
        ensures
            r@ == display_message(self@),
    {
        let ghost rv = self@;
        let n = self.results.len();
        let mut s: String;
        if n == 0 {
            s = String::from_str("Validation failed.");
        } else if n == 1 {
            s = self.results[0].clone();
            proof {
                assert(self.results[0]@ == rv[0]);
            }
        } else {
            s = String::from_str("One or more validation errors occurred.");
        }
        assert(s@ == headline(rv));
        if n > 1 {
            for i in 0..n
                invariant
                    n == self.results@.len(),
                    rv == self@,
                    n > 1,
                    s@ + enumerated(rv, i as int) == headline(rv) + enumerated(rv, 0),
            {
                s.append("\n  [");
                let num = dec_string(i + 1);
                s.append(num.as_str());
                s.append("] ");
                s.append(self.results[i].as_str());
                proof {
                    assert(self.results[i as int]@ == rv[i as int]);
                    assert(s@ + enumerated(rv, i + 1) =~= headline(rv) + enumerated(rv, 0));
                }
            }
            proof {
                assert(enumerated(rv, n as int) =~= Seq::<char>::empty());
                assert(s@ =~= headline(rv) + enumerated(rv, 0));
            }
        }
        s
    }
}

// ------------------------------------------------------------------
// Building the messages.
// ------------------------------------------------------------------

fn expand_text(t: &Type) -> (r: String)
    ensures
        r@ == expand_type_msg(t@),
{
    let (name, key) = Type::deconstruct(t);
    let mut s = String::from_str("'");
    s.append(name);
    match key {
        Option::Some(k) => {
            s.append("' with the key '");
            s.append(k);
            s.append("'");
        },
        Option::None => {
            s.append("'");
        },
    }
    proof {
        assert(s@ =~= expand_type_msg(t@));
    }
    s
}

fn missing_text(implementation: &Type, dep: &ServiceDependency) -> (r: String)
    ensures
        forall|d: DescriptorView|
            d.implementation == implementation@ ==> r@ == #[trigger] missing_required_msg(
                d,
                dep@,
            ),
{
    let mut s = String::from_str("Service '");
    s.append(implementation.name());
    s.append("' requires dependent service ");
    let expanded = expand_text(dep.injected_type());
    s.append(expanded.as_str());
    s.append(", which has not be registered");
    proof {
        assert forall|d: DescriptorView| d.implementation == implementation@ implies s@
            == #[trigger] missing_required_msg(d, dep@) by {
            assert(s@ =~= missing_required_msg(d, dep@));
        }
    }
    s
}

fn circular_text(service: &Type, root_impl_name: &str) -> (r: String)
    ensures
        r@ == circular_msg(service@, root_impl_name@),
{
    let mut s = String::from_str("A circular dependency was detected for service ");
    let expanded = expand_text(service);
    s.append(expanded.as_str());
    s.append(" on service '");
    s.append(root_impl_name);
    s.append("'");
    proof {
        assert(s@ =~= circular_msg(service@, root_impl_name@));
    }
    s
}

fn lifetime_text(root_impl: &Type, direct: bool, dep_name: &str) -> (r: String)
    ensures
        r@ == lifetime_msg(root_impl@, direct, dep_name@),
{
    let mut s = String::from_str("The service ");
    let expanded = expand_text(root_impl);
    s.append(expanded.as_str());
    s.append(" has a singleton lifetime, but its ");
    if !direct {
        s.append("transitive ");
    }
    s.append("dependency '");
    s.append(dep_name);
    s.append("' has a scoped lifetime");
    proof {
        assert(s@ =~= lifetime_msg(root_impl@, direct, dep_name@));
    }
    s
}

// ------------------------------------------------------------------
// Running the rules.
// ------------------------------------------------------------------

/// Whether any registration carries the given service type identity.
fn has_service_scan(items: &Vec<ServiceDescriptor>, id: u64) -> (b: bool)
    ensures
        b == has_service(descs_view(items@), id),
{
    let ghost s = descs_view(items@);
    let n = items.len();
    for j in 0..n
        invariant
            s == descs_view(items@),
            n == items@.len(),
            forall|k: int| 0 <= k < j ==> (#[trigger] s[k]).service.id != id,
    {
        proof {
            assert(s[j as int] == items@[j as int]@);
        }
        if items[j].service_type().id() == id {
            return true;
        }
    }
    false
}

/// Whether the list of already-visited identities holds the given one.
fn contains_u64(v: &Vec<u64>, x: u64) -> (b: bool)
    ensures
        b == v@.to_set().contains(x),
{
    let n = v.len();
    for j in 0..n
        invariant
            n == v@.len(),
            forall|k: int| 0 <= k < j ==> v@[k] != x,
    {
        if v[j] == x {
            proof {
                assert(v@.contains(x));
            }
            return true;
        }
    }
    proof {
        assert(!v@.contains(x));
    }
    false
}

fn eval_missing(items: &Vec<ServiceDescriptor>, idx: usize, results: Vec<String>) -> (r: Vec<
    String,
>)
    requires
        idx < items@.len(),
    ensures
        r.deep_view() == results.deep_view() + rule_missing(
            descs_view(items@),
            descs_view(items@)[idx as int],
        ),
{
    let ghost s = descs_view(items@);
    let ghost dv = s[idx as int];
    let ghost entry = results.deep_view();
    proof {
        assert(dv == items@[idx as int]@);
    }
    let mut results = results;
    let deps = items[idx].dependencies();
    let n = deps.len();
    for i in 0..n
        invariant
            s == descs_view(items@),
            idx < items@.len(),
            dv == s[idx as int],
            deps_view(deps@) == dv.deps,
            n == deps@.len(),
            results.deep_view() + missing_msgs_deps(s, dv, i as int) == entry + missing_msgs_deps(
                s,
                dv,
                0,
            ),
    {
        proof {
            assert(deps@[i as int]@ == dv.deps[i as int]);
        }
        let required = deps[i].cardinality() == ServiceCardinality::ExactlyOne;
        if required && !has_service_scan(items, deps[i].injected_type().id()) {
            let ghost before = results.deep_view();
            let msg = missing_text(items[idx].implementation_type(), &deps[i]);
            results.push(msg);
            proof {
                assert(results.deep_view() =~= before.push(missing_required_msg(
                    dv,
                    dv.deps[i as int],
                )));
                assert(before.push(missing_required_msg(dv, dv.deps[i as int]))
                    + missing_msgs_deps(s, dv, i + 1) =~= before + missing_msgs_deps(
                    s,
                    dv,
                    i as int,
                ));
            }
        } else {
            proof {
                assert(results.deep_view() + missing_msgs_deps(s, dv, i + 1) =~= results.deep_view()
                    + missing_msgs_deps(s, dv, i as int));
            }
        }
    }
    proof {
        assert(missing_msgs_deps(s, dv, n as int) =~= Seq::<Seq<char>>::empty());
        assert(results.deep_view() + missing_msgs_deps(s, dv, n as int) =~= results.deep_view());
        assert(entry + missing_msgs_deps(s, dv, 0) =~= entry + rule_missing(s, dv));
    }
    results
}

/// One step of the circular-dependency walk: processes the top of the
/// stack, reports and expands as the walk requires, and recurses on the
/// remainder.
fn eval_circular_walk(
    items: &Vec<ServiceDescriptor>,
    root_id: u64,
    root_impl_name: &str,
    stack: Vec<ServiceDependency>,
    visited: Vec<u64>,
    results: Vec<String>,
) -> (r: Vec<String>)
    ensures
        r.deep_view() == results.deep_view() + cycle_walk(
            descs_view(items@),
            root_id,
            root_impl_name@,
            deps_view(stack@),
            visited@.to_set(),
        ),
    decreases sids(descs_view(items@)).difference(visited@.to_set()).len(), stack@.len(),
{
    let ghost s = descs_view(items@);
    let ghost stack0 = deps_view(stack@);
    let ghost vis0 = visited@.to_set();
    let ghost entry = results.deep_view();
    let mut stack = stack;
    let mut visited = visited;
    let mut results = results;
    match stack.pop() {
        Option::None => {
            proof {
                assert(stack0.len() == 0);
                assert(entry + cycle_walk(s, root_id, root_impl_name@, stack0, vis0) =~= entry);
            }
            results
        },
        Option::Some(cur) => {
            let ghost curv = cur@;
            let ghost rest = deps_view(stack@);
            proof {
                assert(rest =~= stack0.drop_last());
                assert(curv == stack0.last());
            }
            let id = cur.injected_type().id();
            let ghost regs = registrations_of(s, id);
            let mut first_match: usize = 0;
            let mut have_match = false;
            let n = items.len();
            for j in 0..n
                invariant
                    s == descs_view(items@),
                    n == items@.len(),
                    id == curv.ty.id,
                    regs == registrations_of(s, id),
                    have_match == (registrations_of(s.take(j as int), id).len() > 0),
                    have_match ==> first_match < j && s[first_match as int].service.id == id
                        && registrations_of(s.take(j as int), id)[0] == s[first_match as int],
                    results.deep_view() == entry + (if id == root_id {
                        circ_msgs(registrations_of(s.take(j as int), id), root_impl_name@)
                    } else {
                        Seq::<Seq<char>>::empty()
                    }),
            {
                let ghost partial = registrations_of(s.take(j as int), id);
                proof {
                    assert(s[j as int] == items@[j as int]@);
                    lemma_regs_take_step(s, id, j as int);
                }
                if items[j].service_type().id() == id {
                    if !have_match {
                        first_match = j;
                        have_match = true;
                    }
                    if id == root_id {
                        let ghost before = results.deep_view();
                        let msg = circular_text(items[j].service_type(), root_impl_name);
                        results.push(msg);
                        proof {
                            assert(results.deep_view() =~= before.push(circular_msg(
                                s[j as int].service,
                                root_impl_name@,
                            )));
                            assert(circ_msgs(partial.push(s[j as int]), root_impl_name@)
                                =~= circ_msgs(partial, root_impl_name@).push(circular_msg(
                                s[j as int].service,
                                root_impl_name@,
                            )));
                            assert(results.deep_view() =~= entry + circ_msgs(
                                partial.push(s[j as int]),
                                root_impl_name@,
                            ));
                        }
                    }
                }
            }
            proof {
                assert(s.take(n as int) =~= s);
            }
            if !have_match {
                proof {
                    assert(regs.len() == 0);
                    assert(cycle_walk(s, root_id, root_impl_name@, stack0, vis0) == cycle_walk(
                        s,
                        root_id,
                        root_impl_name@,
                        rest,
                        vis0,
                    ));
                }
                eval_circular_walk(items, root_id, root_impl_name, stack, visited, results)
            } else {
                let ghost msgs = if id == root_id {
                    circ_msgs(regs, root_impl_name@)
                } else {
                    Seq::<Seq<char>>::empty()
                };
                proof {
                    assert(regs.len() > 0);
                    assert(results.deep_view() == entry + msgs);
                }
                if contains_u64(&visited, id) {
                    proof {
                        assert(cycle_walk(s, root_id, root_impl_name@, stack0, vis0) == msgs
                            + cycle_walk(s, root_id, root_impl_name@, rest, vis0));
                    }
                    let r = eval_circular_walk(
                        items,
                        root_id,
                        root_impl_name,
                        stack,
                        visited,
                        results,
                    );
                    proof {
                        assert(entry + msgs + cycle_walk(s, root_id, root_impl_name@, rest, vis0)
                            =~= entry + (msgs + cycle_walk(
                            s,
                            root_id,
                            root_impl_name@,
                            rest,
                            vis0,
                        )));
                    }
                    r
                } else {
                    let ghost vis1 = vis0.insert(id);
                    visited.push(id);
                    proof {
                        assert(visited@.to_set() =~= vis1);
                    }
                    let deps = items[first_match].dependencies();
                    let dn = deps.len();
                    let ghost stack_before = deps_view(stack@);
                    for k in 0..dn
                        invariant
                            dn == deps@.len(),
                            deps_view(deps@) == regs[0].deps,
                            deps_view(stack@) == stack_before + deps_view(deps@).take(k as int),
                    {
                        let ghost sb = deps_view(stack@);
                        let d = deps[k].clone();
                        stack.push(d);
                        proof {
                            assert(deps_view(stack@) =~= sb.push(deps@[k as int]@));
                            assert(deps_view(deps@).take(k + 1) =~= deps_view(deps@).take(
                                k as int,
                            ).push(deps@[k as int]@));
                            assert(sb.push(deps@[k as int]@) =~= stack_before + deps_view(
                                deps@,
                            ).take(k + 1));
                        }
                    }
                    proof {
                        assert(deps_view(deps@).take(dn as int) =~= deps_view(deps@));
                        assert(deps_view(stack@) =~= rest + regs[0].deps);
                        assert(cycle_walk(s, root_id, root_impl_name@, stack0, vis0) == msgs
                            + cycle_walk(s, root_id, root_impl_name@, rest + regs[0].deps, vis1));
                        lemma_registered_in_sids(s, id);
                        sids(s).lemma_set_insert_diff_decreases(vis0, id);
                    }
                    let r = eval_circular_walk(
                        items,
                        root_id,
                        root_impl_name,
                        stack,
                        visited,
                        results,
                    );
                    proof {
                        assert(entry + msgs + cycle_walk(
                            s,
                            root_id,
                            root_impl_name@,
                            rest + regs[0].deps,
                            vis1,
                        ) =~= entry + (msgs + cycle_walk(
                            s,
                            root_id,
                            root_impl_name@,
                            rest + regs[0].deps,
                            vis1,
                        )));
                    }
                    r
                }
            }
        },
    }
}

fn eval_circular(items: &Vec<ServiceDescriptor>, idx: usize, results: Vec<String>) -> (r: Vec<
    String,
>)
    requires
        idx < items@.len(),
    ensures
        r.deep_view() == results.deep_view() + rule_circular(
            descs_view(items@),
            descs_view(items@)[idx as int],
        ),
{
    let ghost s = descs_view(items@);
    let ghost dv = s[idx as int];
    let ghost entry = results.deep_view();
    proof {
        assert(dv == items@[idx as int]@);
    }
    let mut results = results;
    let root_id = items[idx].service_type().id();
    let deps = items[idx].dependencies();
    let n = deps.len();
    for i in 0..n
        invariant
            s == descs_view(items@),
            idx < items@.len(),
            dv == s[idx as int],
            deps_view(deps@) == dv.deps,
            n == deps@.len(),
            root_id == dv.service.id,
            results.deep_view() + cycle_msgs_deps(s, dv, i as int) == entry + cycle_msgs_deps(
                s,
                dv,
                0,
            ),
    {
        proof {
            assert(deps@[i as int]@ == dv.deps[i as int]);
        }
        let mut stack: Vec<ServiceDependency> = Vec::new();
        let d = deps[i].clone();
        stack.push(d);
        let mut visited: Vec<u64> = Vec::new();
        visited.push(root_id);
        proof {
            assert(deps_view(stack@) =~= seq![dv.deps[i as int]]);
            assert(visited@.to_set() =~= set![dv.service.id]);
        }
        let ghost before = results.deep_view();
        results = eval_circular_walk(
            items,
            root_id,
            items[idx].implementation_type().name(),
            stack,
            visited,
            results,
        );
        proof {
            let walk = cycle_walk(
                s,
                dv.service.id,
                dv.implementation.name,
                seq![dv.deps[i as int]],
                set![dv.service.id],
            );
            assert(results.deep_view() =~= before + walk);
            assert(before + walk + cycle_msgs_deps(s, dv, i + 1) =~= before + (walk
                + cycle_msgs_deps(s, dv, i + 1)));
            assert(walk + cycle_msgs_deps(s, dv, i + 1) =~= cycle_msgs_deps(s, dv, i as int));
        }
    }
    proof {
        assert(cycle_msgs_deps(s, dv, n as int) =~= Seq::<Seq<char>>::empty());
        assert(results.deep_view() + cycle_msgs_deps(s, dv, n as int) =~= results.deep_view());
    }
    results
}

/// One step of the lifetime walk: processes the top of the stack,
/// reporting and pushing the registrations of each dependency of a
/// descriptor whose type was not walked yet.
fn eval_lifetime_walk(
    items: &Vec<ServiceDescriptor>,
    root_impl: &Type,
    stack: Vec<usize>,
    visited: Vec<u64>,
    direct: bool,
    results: Vec<String>,
) -> (r: Vec<String>)
    requires
        forall|k: int| 0 <= k < stack@.len() ==> #[trigger] stack@[k] < items@.len(),
    ensures
        r.deep_view() == results.deep_view() + lifetime_walk(
            descs_view(items@),
            root_impl@,
            stack@.map_values(|j: usize| descs_view(items@)[j as int]),
            visited@.to_set(),
            direct,
        ),
    decreases sids(descs_view(items@)).difference(visited@.to_set()).len(), stack@.len(),
{
    let ghost s = descs_view(items@);
    let ghost stack0 = stack@.map_values(|j: usize| descs_view(items@)[j as int]);
    let ghost vis0 = visited@.to_set();
    let ghost entry = results.deep_view();
    let mut stack = stack;
    let mut visited = visited;
    let mut results = results;
    match stack.pop() {
        Option::None => {
            proof {
                assert(stack0.len() == 0);
                assert(entry + lifetime_walk(s, root_impl@, stack0, vis0, direct) =~= entry);
            }
            results
        },
        Option::Some(cur_idx) => {
            let ghost curv = s[cur_idx as int];
            let ghost rest = stack@.map_values(|j: usize| descs_view(items@)[j as int]);
            proof {
                assert(rest =~= stack0.drop_last());
                assert(curv == stack0.last());
            }
            let id = items[cur_idx].service_type().id();
            proof {
                assert(s[cur_idx as int] == items@[cur_idx as int]@);
                assert(s.map_values(|d: DescriptorView| d.service.id)[cur_idx as int] == id);
                assert(sids(s).contains(id));
            }
            if contains_u64(&visited, id) {
                proof {
                    assert(lifetime_walk(s, root_impl@, stack0, vis0, direct) == lifetime_walk(
                        s,
                        root_impl@,
                        rest,
                        vis0,
                        false,
                    ));
                }
                eval_lifetime_walk(items, root_impl, stack, visited, false, results)
            } else {
                let ghost vis1 = vis0.insert(id);
                visited.push(id);
                proof {
                    assert(visited@.to_set() =~= vis1);
                }
                let deps = items[cur_idx].dependencies();
                let dn = deps.len();
                for i in 0..dn
                    invariant
                        s == descs_view(items@),
                        cur_idx < items@.len(),
                        curv == s[cur_idx as int],
                        deps_view(deps@) == curv.deps,
                        dn == deps@.len(),
                        root_impl@ == root_impl@,
                        forall|k: int| 0 <= k < stack@.len() ==> #[trigger] stack@[k]
                            < items@.len(),
                        stack@.map_values(|j: usize| descs_view(items@)[j as int]) == rest
                            + lifetime_pushes_upto(s, curv, i as int),
                        results.deep_view() == entry + lifetime_msgs_upto(
                            s,
                            root_impl@,
                            curv,
                            direct,
                            i as int,
                        ),
                {
                    proof {
                        assert(deps@[i as int]@ == curv.deps[i as int]);
                    }
                    let tid = deps[i].injected_type().id();
                    let ghost regs_i = registrations_of(s, tid);
                    let ghost stack_at = stack@.map_values(
                        |j: usize| descs_view(items@)[j as int],
                    );
                    let ghost results_at = results.deep_view();
                    let n = items.len();
                    for m in 0..n
                        invariant
                            s == descs_view(items@),
                            n == items@.len(),
                            cur_idx < items@.len(),
                            tid == curv.deps[i as int].ty.id,
                            regs_i == registrations_of(s, tid),
                            forall|k: int| 0 <= k < stack@.len() ==> #[trigger] stack@[k]
                                < items@.len(),
                            stack@.map_values(|j: usize| descs_view(items@)[j as int]) == stack_at
                                + registrations_of(s.take(m as int), tid),
                            results.deep_view() == results_at + scoped_msgs(
                                registrations_of(s.take(m as int), tid),
                                root_impl@,
                                direct,
                            ),
                    {
                        let ghost partial = registrations_of(s.take(m as int), tid);
                        proof {
                            assert(s[m as int] == items@[m as int]@);
                            lemma_regs_take_step(s, tid, m as int);
                        }
                        if items[m].service_type().id() == tid {
                            let ghost sb = stack@.map_values(
                                |j: usize| descs_view(items@)[j as int],
                            );
                            stack.push(m);
                            proof {
                                assert(stack@.map_values(|j: usize| descs_view(items@)[j as int])
                                    =~= sb.push(s[m as int]));
                                assert(sb.push(s[m as int]) =~= stack_at + partial.push(
                                    s[m as int],
                                ));
                            }
                            let scoped_hit = items[m].lifetime() == ServiceLifetime::Scoped;
                            proof {
                                lemma_scoped_msgs_push(partial, s[m as int], root_impl@, direct);
                            }
                            if scoped_hit {
                                let ghost before = results.deep_view();
                                let msg = lifetime_text(
                                    root_impl,
                                    direct,
                                    items[m].service_type().name(),
                                );
                                results.push(msg);
                                proof {
                                    assert(results.deep_view() =~= before.push(lifetime_msg(
                                        root_impl@,
                                        direct,
                                        s[m as int].service.name,
                                    )));
                                    assert(results.deep_view() =~= results_at + scoped_msgs(
                                        partial.push(s[m as int]),
                                        root_impl@,
                                        direct,
                                    ));
                                }
                            } else {
                                proof {
                                    assert(results.deep_view() =~= results_at + scoped_msgs(
                                        partial.push(s[m as int]),
                                        root_impl@,
                                        direct,
                                    ));
                                }
                            }
                        }
                    }
                    proof {
                        assert(s.take(n as int) =~= s);
                        assert(stack@.map_values(|j: usize| descs_view(items@)[j as int])
                            =~= rest + lifetime_pushes_upto(s, curv, i as int) + regs_i);
                        lemma_lifetime_upto_step(s, root_impl@, curv, direct, i as int);
                        assert(rest + lifetime_pushes_upto(s, curv, i as int) + regs_i =~= rest
                            + lifetime_pushes_upto(s, curv, i + 1));
                        assert(results.deep_view() =~= entry + lifetime_msgs_upto(
                            s,
                            root_impl@,
                            curv,
                            direct,
                            i + 1,
                        ));
                    }
                }
                proof {
                    lemma_lifetime_upto_all(s, root_impl@, curv, direct);
                    assert(lifetime_walk(s, root_impl@, stack0, vis0, direct)
                        == lifetime_msgs_deps(s, root_impl@, curv, direct, 0) + lifetime_walk(
                        s,
                        root_impl@,
                        rest + lifetime_pushes(s, curv, 0),
                        vis1,
                        false,
                    ));
                    sids(s).lemma_set_insert_diff_decreases(vis0, id);
                }
                let r = eval_lifetime_walk(items, root_impl, stack, visited, false, results);
                proof {
                    let tailw = lifetime_walk(
                        s,
                        root_impl@,
                        rest + lifetime_pushes(s, curv, 0),
                        vis1,
                        false,
                    );
                    assert(entry + lifetime_msgs_deps(s, root_impl@, curv, direct, 0) + tailw
                        =~= entry + (lifetime_msgs_deps(s, root_impl@, curv, direct, 0) + tailw));
                }
                r
            }
        },
    }
}

/// The descriptors pushed while expanding the dependencies of `d` before
/// index `i`.
pub open spec fn lifetime_pushes_upto(
    s: Seq<DescriptorView>,
    d: DescriptorView,
    i: int,
) -> Seq<DescriptorView>
    decreases i,
{
    if i <= 0 {
        Seq::empty()
    } else {
        lifetime_pushes_upto(s, d, i - 1) + registrations_of(s, d.deps[i - 1].ty.id)
    }
}

/// The findings emitted while expanding the dependencies of `d` before
/// index `i`.
pub open spec fn lifetime_msgs_upto(
    s: Seq<DescriptorView>,
    root_impl: TypeView,
    d: DescriptorView,
    direct: bool,
    i: int,
) -> Seq<Seq<char>>
    decreases i,
{
    if i <= 0 {
        Seq::empty()
    } else {
        lifetime_msgs_upto(s, root_impl, d, direct, i - 1) + scoped_msgs(
            registrations_of(s, d.deps[i - 1].ty.id),
            root_impl,
            direct,
        )
    }
}

proof fn lemma_lifetime_upto_step(
    s: Seq<DescriptorView>,
    root_impl: TypeView,
    d: DescriptorView,
    direct: bool,
    i: int,
)
    requires
        0 <= i,
    ensures
        lifetime_pushes_upto(s, d, i + 1) == lifetime_pushes_upto(s, d, i) + registrations_of(
            s,
            d.deps[i].ty.id,
        ),
        lifetime_msgs_upto(s, root_impl, d, direct, i + 1) == lifetime_msgs_upto(
            s,
            root_impl,
            d,
            direct,
            i,
        ) + scoped_msgs(registrations_of(s, d.deps[i].ty.id), root_impl, direct),
{
}

/// The forward and backward renderings of the expansion agree on the
/// whole dependency list.
proof fn lemma_lifetime_upto_all(
    s: Seq<DescriptorView>,
    root_impl: TypeView,
    d: DescriptorView,
    direct: bool,
)
    ensures
        lifetime_pushes_upto(s, d, d.deps.len() as int) == lifetime_pushes(s, d, 0),
        lifetime_msgs_upto(s, root_impl, d, direct, d.deps.len() as int) == lifetime_msgs_deps(
            s,
            root_impl,
            d,
            direct,
            0,
        ),
{
    let n = d.deps.len() as int;
    lemma_lifetime_split(s, root_impl, d, direct, n);
    assert(lifetime_pushes(s, d, n) =~= Seq::<DescriptorView>::empty());
    assert(lifetime_msgs_deps(s, root_impl, d, direct, n) =~= Seq::<Seq<char>>::empty());
    assert(lifetime_pushes_upto(s, d, n) + lifetime_pushes(s, d, n) =~= lifetime_pushes_upto(
        s,
        d,
        n,
    ));
    assert(lifetime_msgs_upto(s, root_impl, d, direct, n) + lifetime_msgs_deps(
        s,
        root_impl,
        d,
        direct,
        n,
    ) =~= lifetime_msgs_upto(s, root_impl, d, direct, n));
}

/// Splitting the expansion at any index gives the whole.
proof fn lemma_lifetime_split(
    s: Seq<DescriptorView>,
    root_impl: TypeView,
    d: DescriptorView,
    direct: bool,
    i: int,
)
    requires
        0 <= i <= d.deps.len(),
    ensures
        lifetime_pushes_upto(s, d, i) + lifetime_pushes(s, d, i) == lifetime_pushes(s, d, 0),
        lifetime_msgs_upto(s, root_impl, d, direct, i) + lifetime_msgs_deps(
            s,
            root_impl,
            d,
            direct,
            i,
        ) == lifetime_msgs_deps(s, root_impl, d, direct, 0),
    decreases i,
{
    if i == 0 {
        assert(lifetime_pushes_upto(s, d, 0) + lifetime_pushes(s, d, 0) =~= lifetime_pushes(
            s,
            d,
            0,
        ));
        assert(lifetime_msgs_upto(s, root_impl, d, direct, 0) + lifetime_msgs_deps(
            s,
            root_impl,
            d,
            direct,
            0,
        ) =~= lifetime_msgs_deps(s, root_impl, d, direct, 0));
    } else {
        lemma_lifetime_split(s, root_impl, d, direct, i - 1);
        assert(lifetime_pushes_upto(s, d, i) + lifetime_pushes(s, d, i) =~= lifetime_pushes_upto(
            s,
            d,
            i - 1,
        ) + lifetime_pushes(s, d, i - 1));
        assert(lifetime_msgs_upto(s, root_impl, d, direct, i) + lifetime_msgs_deps(
            s,
            root_impl,
            d,
            direct,
            i,
        ) =~= lifetime_msgs_upto(s, root_impl, d, direct, i - 1) + lifetime_msgs_deps(
            s,
            root_impl,
            d,
            direct,
            i - 1,
        ));
    }
}

/// Pushing one descriptor extends the scoped findings by one exactly when
/// it is scoped.
proof fn lemma_scoped_msgs_push(
    q: Seq<DescriptorView>,
    x: DescriptorView,
    root_impl: TypeView,
    direct: bool,
)
    ensures
        scoped_msgs(q.push(x), root_impl, direct) == (if x.lifetime == ServiceLifetime::Scoped {
            scoped_msgs(q, root_impl, direct).push(lifetime_msg(root_impl, direct, x.service.name))
        } else {
            scoped_msgs(q, root_impl, direct)
        }),
{
    reveal(Seq::filter);
    let pred = |y: DescriptorView| y.lifetime == ServiceLifetime::Scoped;
    assert(q.push(x).drop_last() =~= q);
    assert(q.push(x).last() == x);
    if x.lifetime == ServiceLifetime::Scoped {
        assert(q.push(x).filter(pred) == q.filter(pred).push(x));
        assert(scoped_msgs(q.push(x), root_impl, direct) =~= scoped_msgs(
            q,
            root_impl,
            direct,
        ).push(lifetime_msg(root_impl, direct, x.service.name)));
    } else {
        assert(q.push(x).filter(pred) == q.filter(pred));
    }
}

fn eval_lifetime(items: &Vec<ServiceDescriptor>, idx: usize, results: Vec<String>) -> (r: Vec<
    String,
>)
    requires
        idx < items@.len(),
    ensures
        r.deep_view() == results.deep_view() + rule_lifetime(
            descs_view(items@),
            descs_view(items@)[idx as int],
        ),
{
    let ghost s = descs_view(items@);
    let ghost dv = s[idx as int];
    let ghost entry = results.deep_view();
    proof {
        assert(dv == items@[idx as int]@);
    }
    if !(items[idx].lifetime() == ServiceLifetime::Singleton) {
        proof {
            assert(entry + rule_lifetime(s, dv) =~= entry);
        }
        return results;
    }
    let mut stack: Vec<usize> = Vec::new();
    stack.push(idx);
    let visited: Vec<u64> = Vec::new();
    proof {
        assert(stack@.map_values(|j: usize| descs_view(items@)[j as int]) =~= seq![dv]);
        assert(visited@.to_set() =~= Set::<u64>::empty());
    }
    let r = eval_lifetime_walk(items, items[idx].implementation_type(), stack, visited, true, results);
    proof {
        assert(r.deep_view() =~= entry + rule_lifetime(s, dv));
    }
    r
}


// ------------------------------------------------------------------
// The validation laws.
// ------------------------------------------------------------------

/// An element of the left part of a concatenation is an element of the
/// whole.
proof fn lemma_concat_contains_left<A>(a: Seq<A>, b: Seq<A>, x: A)
    requires
        a.contains(x),
    ensures
        (a + b).contains(x),
{
    let w = choose|i: int| 0 <= i < a.len() && a[i] == x;
    assert((a + b)[w] == x);
}

/// An element of the right part of a concatenation is an element of the
/// whole.
proof fn lemma_concat_contains_right<A>(a: Seq<A>, b: Seq<A>, x: A)
    requires
        b.contains(x),
    ensures
        (a + b).contains(x),
{
    let w = choose|i: int| 0 <= i < b.len() && b[i] == x;
    assert((a + b)[a.len() + w] == x);
}

/// A finding of some descriptor's rules is a finding of the whole
/// validation.
proof fn lemma_validation_from_contains(s: Seq<DescriptorView>, start: int, i: int, m: Seq<char>)
    requires
        0 <= start <= i < s.len(),
        descriptor_msgs(s, s[i]).contains(m),
    ensures
        validation_msgs_from(s, start).contains(m),
    decreases i - start,
{
    if start == i {
        lemma_concat_contains_left(descriptor_msgs(s, s[i]), validation_msgs_from(s, start + 1), m);
    } else {
        lemma_validation_from_contains(s, start + 1, i, m);
        lemma_concat_contains_right(
            descriptor_msgs(s, s[start]),
            validation_msgs_from(s, start + 1),
            m,
        );
    }
}

/// A finding of the missing-required-type rule for one dependency is a
/// finding of the rule for the whole descriptor.
proof fn lemma_missing_deps_contains(s: Seq<DescriptorView>, d: DescriptorView, j: int, k: int)
    requires
        0 <= j <= k < d.deps.len(),
        d.deps[k].cardinality == ServiceCardinality::ExactlyOne,
        !has_service(s, d.deps[k].ty.id),
    ensures
        missing_msgs_deps(s, d, j).contains(missing_required_msg(d, d.deps[k])),
    decreases k - j,
{
    if j == k {
        lemma_concat_contains_left(
            seq![missing_required_msg(d, d.deps[k])],
            missing_msgs_deps(s, d, j + 1),
            missing_required_msg(d, d.deps[k]),
        );
    } else {
        lemma_missing_deps_contains(s, d, j + 1, k);
        lemma_concat_contains_right(
            if d.deps[j].cardinality == ServiceCardinality::ExactlyOne && !has_service(
                s,
                d.deps[j].ty.id,
            ) {
                seq![missing_required_msg(d, d.deps[j])]
            } else {
                Seq::<Seq<char>>::empty()
            },
            missing_msgs_deps(s, d, j + 1),
            missing_required_msg(d, d.deps[k]),
        );
    }
}

/// Missing-dependency detection: a descriptor with an exactly-one
/// dependency on a type that has no registration makes the validation
/// fail, and its findings contain the exact message naming the dependent
/// implementation and the missing - possibly keyed - type.
pub proof fn lemma_missing_required_reported(s: Seq<DescriptorView>, i: int, k: int)
    requires
        0 <= i < s.len(),
        0 <= k < s[i].deps.len(),
        s[i].deps[k].cardinality == ServiceCardinality::ExactlyOne,
        !has_service(s, s[i].deps[k].ty.id),
    ensures
        validation_msgs(s).contains(missing_required_msg(s[i], s[i].deps[k])),
        validation_msgs(s).len() > 0,
{
    let m = missing_required_msg(s[i], s[i].deps[k]);
    lemma_missing_deps_contains(s, s[i], 0, k);
    lemma_concat_contains_left(rule_missing(s, s[i]), rule_circular(s, s[i]), m);
    lemma_concat_contains_left(
        rule_missing(s, s[i]) + rule_circular(s, s[i]),
        rule_lifetime(s, s[i]),
        m,
    );
    lemma_validation_from_contains(s, 0, i, m);
}

/// A dependency that is not exactly-one never produces a missing-type
/// finding, whether or not its target is registered.
pub proof fn lemma_optional_missing_ignored(s: Seq<DescriptorView>, d: DescriptorView, j: int)
    requires
        0 <= j,
        forall|k: int|
            j <= k < d.deps.len() ==> (#[trigger] d.deps[k]).cardinality
                != ServiceCardinality::ExactlyOne,
    ensures
        missing_msgs_deps(s, d, j).len() == 0,
    decreases d.deps.len() - j,
{
    if j < d.deps.len() {
        lemma_optional_missing_ignored(s, d, j + 1);
    }
}

/// A finding of one dependency's circular walk is a finding of the rule
/// for the whole descriptor.
proof fn lemma_cycle_deps_contains(s: Seq<DescriptorView>, d: DescriptorView, j: int, k: int, m: Seq<char>)
    requires
        0 <= j <= k < d.deps.len(),
        cycle_walk(s, d.service.id, d.implementation.name, seq![d.deps[k]], set![d.service.id])
            .contains(m),
    ensures
        cycle_msgs_deps(s, d, j).contains(m),
    decreases k - j,
{
    if j == k {
        lemma_concat_contains_left(
            cycle_walk(
                s,
                d.service.id,
                d.implementation.name,
                seq![d.deps[k]],
                set![d.service.id],
            ),
            cycle_msgs_deps(s, d, j + 1),
            m,
        );
    } else {
        lemma_cycle_deps_contains(s, d, j + 1, k, m);
        lemma_concat_contains_right(
            cycle_walk(
                s,
                d.service.id,
                d.implementation.name,
                seq![d.deps[j]],
                set![d.service.id],
            ),
            cycle_msgs_deps(s, d, j + 1),
            m,
        );
    }
}

/// Cycle detection, direct case: a descriptor with a declared dependency
/// on its own service type makes the validation fail with a circular
/// finding naming the offending type and the root implementation.
pub proof fn lemma_direct_cycle_reported(s: Seq<DescriptorView>, i: int, k: int)
    requires
        0 <= i < s.len(),
        0 <= k < s[i].deps.len(),
        s[i].deps[k].ty.id == s[i].service.id,
    ensures
        validation_msgs(s).contains(
            circular_msg(
                registrations_of(s, s[i].service.id)[0].service,
                s[i].implementation.name,
            ),
        ),
        validation_msgs(s).len() > 0,
{
    let d = s[i];
    let rid = d.service.id;
    let rin = d.implementation.name;
    let dep = d.deps[k];
    let regs = registrations_of(s, rid);
    assert(regs.len() > 0) by {
        #[allow(deprecated)]
        s.filter_lemma(|x: DescriptorView| x.service.id == rid);
        assert(s.contains(d));
        assert(regs.contains(d));
    }
    let stack = seq![dep];
    let visited = set![rid];
    let walk = cycle_walk(s, rid, rin, stack, visited);
    assert(stack.last() == dep);
    assert(stack.drop_last() =~= Seq::<DependencyView>::empty());
    assert(visited.contains(rid));
    let msgs = circ_msgs(regs, rin);
    assert(walk == msgs + cycle_walk(s, rid, rin, stack.drop_last(), visited));
    assert(cycle_walk(s, rid, rin, stack.drop_last(), visited) =~= Seq::<Seq<char>>::empty());
    let m = circular_msg(regs[0].service, rin);
    assert(msgs[0] == m);
    assert(msgs.contains(m));
    assert(walk =~= msgs);
    assert(walk.contains(m));
    lemma_cycle_deps_contains(s, d, 0, k, m);
    lemma_concat_contains_right(rule_missing(s, d), rule_circular(s, d), m);
    lemma_concat_contains_left(rule_missing(s, d) + rule_circular(s, d), rule_lifetime(s, d), m);
    lemma_validation_from_contains(s, 0, i, m);
}

/// A finding of one expansion's scoped registrations is a finding of the
/// expansion of the whole dependency list.
proof fn lemma_lifetime_deps_contains(
    s: Seq<DescriptorView>,
    root_impl: TypeView,
    d: DescriptorView,
    direct: bool,
    j: int,
    k: int,
    m: Seq<char>,
)
    requires
        0 <= j <= k < d.deps.len(),
        scoped_msgs(registrations_of(s, d.deps[k].ty.id), root_impl, direct).contains(m),
    ensures
        lifetime_msgs_deps(s, root_impl, d, direct, j).contains(m),
    decreases k - j,
{
    if j == k {
        lemma_concat_contains_left(
            scoped_msgs(registrations_of(s, d.deps[k].ty.id), root_impl, direct),
            lifetime_msgs_deps(s, root_impl, d, direct, j + 1),
            m,
        );
    } else {
        lemma_lifetime_deps_contains(s, root_impl, d, direct, j + 1, k, m);
        lemma_concat_contains_right(
            scoped_msgs(registrations_of(s, d.deps[j].ty.id), root_impl, direct),
            lifetime_msgs_deps(s, root_impl, d, direct, j + 1),
            m,
        );
    }
}

/// Lifetime-capture detection, direct case: a singleton descriptor with a
/// declared dependency whose target has a scoped registration makes the
/// validation fail, with a finding labelled as a direct dependency.
pub proof fn lemma_direct_scoped_in_singleton_reported(
    s: Seq<DescriptorView>,
    i: int,
    k: int,
    w: int,
)
    requires
        0 <= i < s.len(),
        s[i].lifetime == ServiceLifetime::Singleton,
        0 <= k < s[i].deps.len(),
        0 <= w < s.len(),
        s[w].service.id == s[i].deps[k].ty.id,
        s[w].lifetime == ServiceLifetime::Scoped,
    ensures
        validation_msgs(s).contains(
            lifetime_msg(s[i].implementation, true, s[w].service.name),
        ),
        validation_msgs(s).len() > 0,
{
    let d = s[i];
    let tid = d.deps[k].ty.id;
    let m = lifetime_msg(d.implementation, true, s[w].service.name);
    lemma_scoped_msgs_contains(s, d.implementation, true, tid, w);
    lemma_lifetime_deps_contains(s, d.implementation, d, true, 0, k, m);
    let stack = seq![d];
    let visited = Set::<u64>::empty();
    assert(stack.last() == d);
    assert(stack.drop_last() =~= Seq::<DescriptorView>::empty());
    assert(sids(s).contains(d.service.id)) by {
        assert(s.map_values(|x: DescriptorView| x.service.id)[i] == d.service.id);
        assert(s.map_values(|x: DescriptorView| x.service.id).contains(d.service.id));
    }
    let walk = lifetime_walk(s, d.implementation, stack, visited, true);
    assert(walk == lifetime_msgs_deps(s, d.implementation, d, true, 0) + lifetime_walk(
        s,
        d.implementation,
        stack.drop_last() + lifetime_pushes(s, d, 0),
        visited.insert(d.service.id),
        false,
    ));
    lemma_concat_contains_left(
        lifetime_msgs_deps(s, d.implementation, d, true, 0),
        lifetime_walk(
            s,
            d.implementation,
            stack.drop_last() + lifetime_pushes(s, d, 0),
            visited.insert(d.service.id),
            false,
        ),
        m,
    );
    assert(rule_lifetime(s, d).contains(m));
    lemma_concat_contains_right(
        rule_missing(s, d) + rule_circular(s, d),
        rule_lifetime(s, d),
        m,
    );
    lemma_validation_from_contains(s, 0, i, m);
}


/// Any dependency edge on the work stack that targets the root's own
/// service type is reported when it is popped, whatever the visited set
/// holds: the walk reports before it prunes.
proof fn lemma_cycle_walk_reports_stacked(
    s: Seq<DescriptorView>,
    root_id: u64,
    root_impl_name: Seq<char>,
    stack: Seq<DependencyView>,
    visited: Set<u64>,
    k: int,
)
    requires
        0 <= k < stack.len(),
        stack[k].ty.id == root_id,
        registrations_of(s, root_id).len() > 0,
    ensures
        cycle_walk(s, root_id, root_impl_name, stack, visited).contains(
            circular_msg(registrations_of(s, root_id)[0].service, root_impl_name),
        ),
    decreases sids(s).difference(visited).len(), stack.len(),
{
    let m = circular_msg(registrations_of(s, root_id)[0].service, root_impl_name);
    let cur = stack.last();
    let rest = stack.drop_last();
    let id = cur.ty.id;
    let regs = registrations_of(s, id);
    if k == stack.len() - 1 {
        let msgs = circ_msgs(regs, root_impl_name);
        assert(msgs[0] == m);
        assert(msgs.contains(m));
        if visited.contains(id) {
            lemma_concat_contains_left(
                msgs,
                cycle_walk(s, root_id, root_impl_name, rest, visited),
                m,
            );
        } else {
            lemma_concat_contains_left(
                msgs,
                cycle_walk(
                    s,
                    root_id,
                    root_impl_name,
                    rest + regs[0].deps,
                    visited.insert(id),
                ),
                m,
            );
        }
    } else {
        assert(rest[k] == stack[k]);
        if regs.len() == 0 {
            lemma_cycle_walk_reports_stacked(s, root_id, root_impl_name, rest, visited, k);
        } else {
            let msgs = if id == root_id {
                circ_msgs(regs, root_impl_name)
            } else {
                Seq::<Seq<char>>::empty()
            };
            if visited.contains(id) {
                lemma_cycle_walk_reports_stacked(s, root_id, root_impl_name, rest, visited, k);
                lemma_concat_contains_right(
                    msgs,
                    cycle_walk(s, root_id, root_impl_name, rest, visited),
                    m,
                );
            } else {
                lemma_registered_in_sids(s, id);
                sids(s).lemma_set_insert_diff_decreases(visited, id);
                assert((rest + regs[0].deps)[k] == stack[k]);
                lemma_cycle_walk_reports_stacked(
                    s,
                    root_id,
                    root_impl_name,
                    rest + regs[0].deps,
                    visited.insert(id),
                    k,
                );
                lemma_concat_contains_right(
                    msgs,
                    cycle_walk(
                        s,
                        root_id,
                        root_impl_name,
                        rest + regs[0].deps,
                        visited.insert(id),
                    ),
                    m,
                );
            }
        }
    }
}

/// Cycle detection, transitive case one hop deep: a descriptor whose
/// dependency leads to a type whose first registration depends back on
/// the root's own service type makes the validation fail with a circular
/// finding naming the root's service type and implementation. Deeper
/// chains through first registrations of fresh types report the same way;
/// a back edge held only by a later registration of an intermediate type
/// is not walked, exactly as the visited-set pruning prescribes.
pub proof fn lemma_transitive_cycle_reported(s: Seq<DescriptorView>, i: int, k: int, k2: int)
    requires
        0 <= i < s.len(),
        0 <= k < s[i].deps.len(),
        registrations_of(s, s[i].deps[k].ty.id).len() > 0,
        0 <= k2 < registrations_of(s, s[i].deps[k].ty.id)[0].deps.len(),
        registrations_of(s, s[i].deps[k].ty.id)[0].deps[k2].ty.id == s[i].service.id,
        s[i].deps[k].ty.id != s[i].service.id,
    ensures
        validation_msgs(s).contains(
            circular_msg(
                registrations_of(s, s[i].service.id)[0].service,
                s[i].implementation.name,
            ),
        ),
        validation_msgs(s).len() > 0,
{
    let d = s[i];
    let rid = d.service.id;
    let rin = d.implementation.name;
    let dep = d.deps[k];
    let tid = dep.ty.id;
    let regs_t = registrations_of(s, tid);
    assert(registrations_of(s, rid).len() > 0) by {
        #[allow(deprecated)]
        s.filter_lemma(|x: DescriptorView| x.service.id == rid);
        assert(s.contains(d));
        assert(registrations_of(s, rid).contains(d));
    }
    let m = circular_msg(registrations_of(s, rid)[0].service, rin);
    let stack = seq![dep];
    let visited = set![rid];
    assert(stack.last() == dep);
    assert(stack.drop_last() =~= Seq::<DependencyView>::empty());
    assert(!visited.contains(tid));
    let stack2 = stack.drop_last() + regs_t[0].deps;
    assert(stack2[k2] == regs_t[0].deps[k2]);
    lemma_cycle_walk_reports_stacked(s, rid, rin, stack2, visited.insert(tid), k2);
    assert(cycle_walk(s, rid, rin, stack, visited) == cycle_walk(s, rid, rin, stack2, visited.insert(tid)));
    lemma_cycle_deps_contains(s, d, 0, k, m);
    lemma_concat_contains_right(rule_missing(s, d), rule_circular(s, d), m);
    lemma_concat_contains_left(rule_missing(s, d) + rule_circular(s, d), rule_lifetime(s, d), m);
    lemma_validation_from_contains(s, 0, i, m);
}


/// A scoped registration of the given type yields its finding among the
/// scoped findings of that type's registrations.
proof fn lemma_scoped_msgs_contains(
    s: Seq<DescriptorView>,
    root_impl: TypeView,
    direct: bool,
    tid: u64,
    w: int,
)
    requires
        0 <= w < s.len(),
        s[w].service.id == tid,
        s[w].lifetime == ServiceLifetime::Scoped,
    ensures
        scoped_msgs(registrations_of(s, tid), root_impl, direct).contains(
            lifetime_msg(root_impl, direct, s[w].service.name),
        ),
{
    let regs = registrations_of(s, tid);
    let m = lifetime_msg(root_impl, direct, s[w].service.name);
    let idpred = |x: DescriptorView| x.service.id == tid;
    let scpred = |x: DescriptorView| x.lifetime == ServiceLifetime::Scoped;
    #[allow(deprecated)]
    s.filter_lemma(idpred);
    assert(s.contains(s[w]));
    assert(regs.contains(s[w]));
    #[allow(deprecated)]
    regs.filter_lemma(scpred);
    assert(regs.filter(scpred).contains(s[w]));
    let fw = choose|q: int|
        0 <= q < regs.filter(scpred).len() && regs.filter(scpred)[q] == s[w];
    assert(scoped_msgs(regs, root_impl, direct)[fw] == m);
}

/// Lifetime-capture detection, transitive case one hop deep, for a
/// single-dependency chain: a singleton whose one declared dependency has
/// exactly one registration, which in turn depends on a type with a
/// scoped registration, makes the validation fail with a finding
/// labelled as a transitive dependency.
pub proof fn lemma_transitive_scoped_in_singleton_reported(
    s: Seq<DescriptorView>,
    i: int,
    k2: int,
    w: int,
)
    requires
        0 <= i < s.len(),
        s[i].lifetime == ServiceLifetime::Singleton,
        s[i].deps.len() == 1,
        s[i].deps[0].ty.id != s[i].service.id,
        registrations_of(s, s[i].deps[0].ty.id).len() == 1,
        0 <= k2 < registrations_of(s, s[i].deps[0].ty.id)[0].deps.len(),
        0 <= w < s.len(),
        s[w].service.id == registrations_of(s, s[i].deps[0].ty.id)[0].deps[k2].ty.id,
        s[w].lifetime == ServiceLifetime::Scoped,
    ensures
        validation_msgs(s).contains(
            lifetime_msg(s[i].implementation, false, s[w].service.name),
        ),
        validation_msgs(s).len() > 0,
{
    let d = s[i];
    let rid = d.service.id;
    let rim = d.implementation;
    let tid = d.deps[0].ty.id;
    let regs_t = registrations_of(s, tid);
    let x = regs_t[0];
    let m = lifetime_msg(rim, false, s[w].service.name);
    assert(x.service.id == tid && s.contains(x)) by {
        #[allow(deprecated)]
        s.filter_lemma(|y: DescriptorView| y.service.id == tid);
        assert(regs_t.contains(x));
        seq_filter_contained_in_original(s, |y: DescriptorView| y.service.id == tid, x);
    }
    lemma_scoped_msgs_contains(s, rim, false, x.deps[k2].ty.id, w);
    lemma_lifetime_deps_contains(s, rim, x, false, 0, k2, m);
    let stack0 = seq![d];
    assert(stack0.last() == d);
    assert(stack0.drop_last() =~= Seq::<DescriptorView>::empty());
    assert(sids(s).contains(rid)) by {
        assert(s.map_values(|y: DescriptorView| y.service.id)[i] == rid);
        assert(s.map_values(|y: DescriptorView| y.service.id).contains(rid));
    }
    assert(sids(s).contains(tid)) by {
        let xw = choose|q: int| 0 <= q < s.len() && s[q] == x;
        assert(s.map_values(|y: DescriptorView| y.service.id)[xw] == tid);
        assert(s.map_values(|y: DescriptorView| y.service.id).contains(tid));
    }
    let stack1 = stack0.drop_last() + lifetime_pushes(s, d, 0);
    assert(lifetime_pushes(s, d, 1) =~= Seq::<DescriptorView>::empty());
    assert(lifetime_pushes(s, d, 0) =~= regs_t);
    assert(stack1 =~= regs_t);
    assert(stack1.last() == x);
    assert(stack1.drop_last() =~= Seq::<DescriptorView>::empty());
    let vis1 = Set::<u64>::empty().insert(rid);
    assert(!vis1.contains(tid));
    let walk0 = lifetime_walk(s, rim, stack0, Set::<u64>::empty(), true);
    let tail1 = lifetime_walk(s, rim, stack1, vis1, false);
    assert(walk0 == lifetime_msgs_deps(s, rim, d, true, 0) + tail1);
    let stack2 = stack1.drop_last() + lifetime_pushes(s, x, 0);
    let tail2 = lifetime_walk(s, rim, stack2, vis1.insert(tid), false);
    assert(tail1 == lifetime_msgs_deps(s, rim, x, false, 0) + tail2);
    lemma_concat_contains_left(lifetime_msgs_deps(s, rim, x, false, 0), tail2, m);
    lemma_concat_contains_right(lifetime_msgs_deps(s, rim, d, true, 0), tail1, m);
    assert(rule_lifetime(s, d).contains(m));
    lemma_concat_contains_right(rule_missing(s, d) + rule_circular(s, d), rule_lifetime(s, d), m);
    lemma_validation_from_contains(s, 0, i, m);
}

/// A walk whose stack holds no edge targeting the root reports nothing
/// when no declared dependency anywhere targets the root either.
proof fn lemma_cycle_walk_silent(
    s: Seq<DescriptorView>,
    root_id: u64,
    root_impl_name: Seq<char>,
    stack: Seq<DependencyView>,
    visited: Set<u64>,
)
    requires
        forall|q: int| 0 <= q < stack.len() ==> (#[trigger] stack[q]).ty.id != root_id,
        forall|x: int, dk: int|
            0 <= x < s.len() && 0 <= dk < s[x].deps.len() ==> (#[trigger] s[x].deps[dk]).ty.id
                != root_id,
    ensures
        cycle_walk(s, root_id, root_impl_name, stack, visited).len() == 0,
    decreases sids(s).difference(visited).len(), stack.len(),
{
    if stack.len() > 0 {
        let cur = stack.last();
        let rest = stack.drop_last();
        let id = cur.ty.id;
        let regs = registrations_of(s, id);
        assert(forall|q: int| 0 <= q < rest.len() ==> (#[trigger] rest[q]).ty.id != root_id);
        if regs.len() == 0 {
            lemma_cycle_walk_silent(s, root_id, root_impl_name, rest, visited);
        } else {
            assert(id != root_id);
            if visited.contains(id) {
                lemma_cycle_walk_silent(s, root_id, root_impl_name, rest, visited);
            } else {
                lemma_registered_in_sids(s, id);
                sids(s).lemma_set_insert_diff_decreases(visited, id);
                let x = regs[0];
                assert(x.service.id == id && s.contains(x)) by {
                    #[allow(deprecated)]
                    s.filter_lemma(|y: DescriptorView| y.service.id == id);
                    assert(regs.contains(x));
                    seq_filter_contained_in_original(
                        s,
                        |y: DescriptorView| y.service.id == id,
                        x,
                    );
                }
                let xw = choose|q: int| 0 <= q < s.len() && s[q] == x;
                assert(forall|q: int|
                    0 <= q < (rest + x.deps).len() ==> ((rest + x.deps)[q]).ty.id != root_id)
                    by {
                    assert(forall|dk: int|
                        0 <= dk < s[xw].deps.len() ==> (#[trigger] s[xw].deps[dk]).ty.id
                            != root_id);
                };
                lemma_cycle_walk_silent(
                    s,
                    root_id,
                    root_impl_name,
                    rest + x.deps,
                    visited.insert(id),
                );
            }
        }
    }
}

/// Cycle detection never over-reports a type that nothing depends on:
/// when no declared dependency in the whole collection targets a
/// descriptor's service type, the circular-dependency rule stays silent
/// for it, however its own dependency graph reconverges.
pub proof fn lemma_no_incoming_edge_no_cycle_reported(s: Seq<DescriptorView>, i: int)
    requires
        0 <= i < s.len(),
        forall|x: int, dk: int|
            0 <= x < s.len() && 0 <= dk < s[x].deps.len() ==> (#[trigger] s[x].deps[dk]).ty.id
                != s[i].service.id,
    ensures
        rule_circular(s, s[i]).len() == 0,
{
    lemma_cycle_deps_silent(s, s[i], 0, i);
}

/// The circular rule stays silent from any dependency index on when no
/// edge in the collection targets the root.
proof fn lemma_cycle_deps_silent(s: Seq<DescriptorView>, d: DescriptorView, j: int, i: int)
    requires
        0 <= i < s.len(),
        s[i] == d,
        0 <= j,
        forall|x: int, dk: int|
            0 <= x < s.len() && 0 <= dk < s[x].deps.len() ==> (#[trigger] s[x].deps[dk]).ty.id
                != d.service.id,
    ensures
        cycle_msgs_deps(s, d, j).len() == 0,
    decreases d.deps.len() - j,
{
    if j < d.deps.len() {
        assert(d.deps[j].ty.id != d.service.id) by {
            assert(s[i].deps[j].ty.id != d.service.id);
        }
        assert(forall|q: int|
            0 <= q < seq![d.deps[j]].len() ==> (#[trigger] seq![d.deps[j]][q]).ty.id
                != d.service.id);
        lemma_cycle_walk_silent(
            s,
            d.service.id,
            d.implementation.name,
            seq![d.deps[j]],
            set![d.service.id],
        );
        lemma_cycle_deps_silent(s, d, j + 1, i);
    }
}

// ------------------------------------------------------------------
// The validator.
// ------------------------------------------------------------------

/// Validates the specified [`ServiceCollection`]: runs the three rules
/// over every descriptor in registration order and returns all findings
/// aggregated into one error, or nothing when every rule passed on every
/// descriptor.
///
/// # Arguments
///
/// * `services` - The [`ServiceCollection`] to validate
pub fn validate(services: &ServiceCollection) -> (r: Result<(), ValidationError>)
    ensures
        match r {
            Result::Ok(()) => validation_msgs(services@).len() == 0,
            Result::Err(e) => validation_msgs(services@).len() > 0 && e@ == validation_msgs(
                services@,
            ),
        },
{
    let items = services.descriptors();
    let ghost s = services@;
    let mut results: Vec<String> = Vec::new();
    let n = items.len();
    proof {
        assert(results.deep_view() =~= Seq::<Seq<char>>::empty());
        assert(results.deep_view() + validation_msgs_from(s, 0) =~= validation_msgs(s));
    }
    for i in 0..n
        invariant
            s == descs_view(items@),
            s == services@,
            n == items@.len(),
            results.deep_view() + validation_msgs_from(s, i as int) == validation_msgs(s),
    {
        let ghost r0 = results.deep_view();
        results = eval_missing(items, i, results);
        results = eval_circular(items, i, results);
        results = eval_lifetime(items, i, results);
        proof {
            let dv = s[i as int];
            assert(results.deep_view() =~= r0 + rule_missing(s, dv) + rule_circular(s, dv)
                + rule_lifetime(s, dv));
            assert(r0 + rule_missing(s, dv) + rule_circular(s, dv) + rule_lifetime(s, dv)
                =~= r0 + descriptor_msgs(s, dv));
            assert(results.deep_view() + validation_msgs_from(s, i + 1) =~= r0
                + validation_msgs_from(s, i as int));
        }
    }
    proof {
        assert(validation_msgs_from(s, n as int) =~= Seq::<Seq<char>>::empty());
        assert(results.deep_view() =~= validation_msgs(s));
    }
    if results.len() == 0 {
        proof {
            assert(validation_msgs(s).len() == results.deep_view().len());
        }
        Result::Ok(())
    } else {
        proof {
            assert(validation_msgs(s).len() == results.deep_view().len());
        }
        Result::Err(ValidationError::fail(results))
    }
}

} // verus!
