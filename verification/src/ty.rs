//! Type identity: a hashable identifier standing in for "the type of a
//! service", optionally combined with a key type for qualified registrations.
//!
//! A type is named by its fully-qualified name, supplied by the caller; the
//! identifier is a 64-bit hash of that name (and, if keyed, of the key
//! type's name too). Two values compare equal exactly when their
//! identifiers match; a collision of the underlying hash on distinct names
//! is an accepted, unmitigated risk of this scheme.

use vstd::prelude::*;
use vstd::std_specs::hash::DefaultHasherAdditionalSpecFns;
use vstd::utf8::encode_utf8;
use std::collections::hash_map::DefaultHasher;
use std::hash::Hasher;

verus! {

/// The mathematical content of a [`Type`]: its identifier, its name, and
/// its optional key name.
pub ghost struct TypeView {
    pub id: u64,
    pub name: Seq<char>,
    pub key: Option<Seq<char>>,
}

/// The identifier a type with the given name and key hashes to: the
/// 64-bit finish of the standard hasher after writing the UTF-8 bytes of
/// the name and then, if present, of the key name.
pub open spec fn type_id_of(name: Seq<char>, key: Option<Seq<char>>) -> u64 {
    match key {
        Option::None => DefaultHasher::spec_finish(seq![encode_utf8(name)]),
        Option::Some(k) => DefaultHasher::spec_finish(
            seq![encode_utf8(name), encode_utf8(k)],
        ),
    }
}

/// The name under which a factory function for the named service type is
/// recorded.
pub open spec fn factory_name_of(name: Seq<char>) -> Seq<char> {
    "fn(&ServiceProvider) -> Ref<"@ + name + ">"@
}

/// Represents a type.
pub struct Type {
    id: u64,
    name: String,
    key: Option<String>,
}

impl View for Type {
    type V = TypeView;

    closed spec fn view(&self) -> TypeView {
        TypeView {
            id: self.id,
            name: self.name@,
            key: match self.key {
                Option::Some(ref k) => Option::Some(k@),
                Option::None => Option::None,
            },
        }
    }
}

fn compute_id(name: &str, key: &Option<String>) -> (id: u64)
    ensures
        id == type_id_of(name@, match key {
            Option::Some(k) => Option::Some(k@),
            Option::None => Option::None::<Seq<char>>,
        }),
{
    let mut hasher = DefaultHasher::new();
    hasher.write(name.as_bytes());
    match key {
        Option::Some(k) => {
            hasher.write(k.as_str().as_bytes());
            proof {
                assert(hasher@ =~= seq![encode_utf8(name@), encode_utf8(k@)]);
            }
        },
        Option::None => {
            proof {
                assert(hasher@ =~= seq![encode_utf8(name@)]);
            }
        },
    }
    hasher.finish()
}

impl Type {
    /// A type identity is well formed when its identifier is the hash of
    /// its name and key.
    #[verifier::type_invariant]
    pub open spec fn wf(&self) -> bool {
        self@.id == type_id_of(self@.name, self@.key)
    }

    fn new(name: String, key: Option<String>) -> (t: Self)
        ensures
            t@.name == name@,
            t@.key == (match key {
                Option::Some(ref k) => Option::Some(k@),
                Option::None => Option::None::<Seq<char>>,
            }),
            t@.id == type_id_of(t@.name, t@.key),
    {
        let id = compute_id(name.as_str(), &key);
        Self { id, name, key }
    }

    /// Initializes a new instance of a type from its fully-qualified name.
    pub fn of(name: &str) -> (t: Self)
        ensures
            t@.name == name@,
            t@.key is None,
            t@.id == type_id_of(t@.name, t@.key),
    {
        Type::new(name.to_owned(), Option::None)
    }

    /// Initializes a new instance of a type based on another type as a key.
    ///
    /// # Arguments
    ///
    /// * `key` - The fully-qualified name of the key type
    /// * `name` - The fully-qualified name of the type itself
    pub fn keyed(key: &str, name: &str) -> (t: Self)
        ensures
            t@.name == name@,
            t@.key == Option::Some(key@),
            t@.id == type_id_of(t@.name, t@.key),
    {
        Type::new(name.to_owned(), Option::Some(key.to_owned()))
    }

    /// Initializes a new instance of a type for a factory function based
    /// on the named return type.
    pub fn factory_of(name: &str) -> (t: Self)
        ensures
            t@.name == factory_name_of(name@),
            t@.key is None,
            t@.id == type_id_of(t@.name, t@.key),
    {
        let mut full = String::from_str("fn(&ServiceProvider) -> Ref<");
        full.append(name);
        full.append(">");
        Type::new(full, Option::None)
    }

    /// Initializes a new instance for an unknown type.
    pub fn unknown() -> (t: Self)
        ensures
            t@.name == "()"@,
            t@.key is None,
            t@.id == type_id_of(t@.name, t@.key),
    {
        Self::of("()")
    }

    /// Creates and returns a new type based on the specified key.
    ///
    /// # Arguments
    ///
    /// * `key` - The type to use as a key
    pub fn with_key(&self, key: &Self) -> (t: Self)
        ensures
            t@.name == self@.name,
            t@.key == Option::Some(key@.name),
            t@.id == type_id_of(t@.name, t@.key),
    {
        Type::new(self.name.clone(), Option::Some(key.name.clone()))
    }

    /// Gets the type identifier.
    pub fn id(&self) -> (id: u64)
        ensures
            id == self@.id,
    {
        self.id
    }

    /// Gets the type name.
    pub fn name(&self) -> (name: &str)
        ensures
            name@ == self@.name,
    {
        self.name.as_str()
    }

    /// Deconstructs the specified type into its name component and key
    /// component, if it is defined.
    pub fn deconstruct(t: &Type) -> (r: (&str, Option<&str>))
        ensures
            r.0@ == t@.name,
            t@.key is Some <==> r.1 is Some,
            r.1 is Some ==> r.1->0@ == t@.key->0,
    {
        (
            t.name.as_str(),
            match t.key {
                Option::Some(ref k) => Option::Some(k.as_str()),
                Option::None => Option::None,
            },
        )
    }
}

impl Clone for Type {
    fn clone(&self) -> (t: Self)
        ensures
            t@ == self@,
    {
        proof {
            use_type_invariant(self);
        }
        Self {
            id: self.id,
            name: self.name.clone(),
            key: match self.key {
                Option::Some(ref k) => Option::Some(k.clone()),
                Option::None => Option::None,
            },
        }
    }
}

impl PartialEq for Type {
    fn eq(&self, other: &Type) -> (r: bool) {
        self.id == other.id
    }
}

impl vstd::std_specs::cmp::PartialEqSpecImpl for Type {
    open spec fn obeys_eq_spec() -> bool {
        true
    }

    open spec fn eq_spec(&self, other: &Type) -> bool {
        self@.id == other@.id
    }
}

/// Identity stability: the type identity is a function of the name and key
/// alone, so two well-formed identities with the same name and the same key
/// carry the same identifier and compare equal.
pub proof fn lemma_type_identity(a: TypeView, b: TypeView)
    requires
        a.id == type_id_of(a.name, a.key),
        b.id == type_id_of(b.name, b.key),
        a.name == b.name,
        a.key == b.key,
    ensures
        a.id == b.id,
{
}

} // verus!
