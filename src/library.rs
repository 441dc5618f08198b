//! Read-only model of the introspected library: namespaces, their types and
//! the class hierarchy.

use vstd::prelude::*;
use crate::text::str_eq;

verus! {

/// The namespace currently being generated.
pub const MAIN: usize = 1;

/// Handle of a type: its namespace and its position there.
#[derive(Clone, Copy, Debug, PartialEq, Eq, Structural)]
pub struct TypeId {
    pub ns_id: usize,
    pub id: usize,
}

/// A type as the library knows it.
pub struct TypeInfo {
    /// Local name, without namespace.
    pub name: String,
    /// The types that naming this type brings in, when they can be derived.
    pub used_types: Option<Vec<String>>,
}

pub struct Namespace {
    pub name: String,
    pub types: Vec<TypeInfo>,
}

pub struct Library {
    pub namespaces: Vec<Namespace>,
}

/// Direct and indirect supertypes of one type, nearest first.
pub struct Supertypes {
    pub type_id: TypeId,
    pub supertypes: Vec<TypeId>,
}

pub struct ClassHierarchy {
    pub entries: Vec<Supertypes>,
}

/// The position of the first `x` in `s`, if any.
pub open spec fn first_index<A>(s: Seq<A>, x: A) -> Option<int> {
    if exists|i: int| is_first_index(s, x, i) {
        Some(choose|i: int| is_first_index(s, x, i))
    } else {
        None
    }
}

pub open spec fn is_first_index<A>(s: Seq<A>, x: A, i: int) -> bool {
    0 <= i < s.len() && s[i] == x && forall|j: int| 0 <= j < i ==> s[j] != x
}

proof fn lemma_first_index_unique<A>(s: Seq<A>, x: A, i: int)
    requires
        is_first_index(s, x, i),
    ensures
        first_index(s, x) == Some(i),
{
    let k = choose|k: int| is_first_index(s, x, k);
    assert(is_first_index(s, x, k));
    if k < i {
        assert(s[k] != x);
    } else if i < k {
        assert(s[i] != x);
    }
}

proof fn lemma_first_index_none<A>(s: Seq<A>, x: A)
    requires
        forall|j: int| 0 <= j < s.len() ==> s[j] != x,
    ensures
        first_index(s, x) is None,
{
}

impl TypeId {
    /// The sentinel that stands for "no type".
    pub open spec fn none() -> TypeId {
        TypeId { ns_id: 0, id: 0 }
    }

    pub fn tid_none() -> (r: TypeId)
        ensures
            r == TypeId::none(),
    {
        TypeId { ns_id: 0, id: 0 }
    }

    /// Fully qualified name: namespace, a dot, local name.
    pub fn full_name(&self, library: &Library) -> (r: String)
        requires
            library.has_type(*self),
        ensures
            r@ == library.full_name_of(*self),
    {
        let ns = &library.namespaces[self.ns_id];
        let mut r = ns.name.clone();
        r.append(".");
        r.append(ns.types[self.id].name.as_str());
        r
    }
}

impl Library {
    pub open spec fn has_type(&self, t: TypeId) -> bool {
        &&& t.ns_id < self.namespaces@.len()
        &&& t.id < self.namespaces@[t.ns_id as int].types@.len()
    }

    pub open spec fn type_of(&self, t: TypeId) -> TypeInfo {
        self.namespaces@[t.ns_id as int].types@[t.id as int]
    }

    pub open spec fn name_of(&self, t: TypeId) -> Seq<char> {
        self.type_of(t).name@
    }

    pub open spec fn full_name_of(&self, t: TypeId) -> Seq<char> {
        self.namespaces@[t.ns_id as int].name@ + "."@ + self.name_of(t)
    }

    pub open spec fn namespace_names(&self) -> Seq<Seq<char>> {
        self.namespaces@.map_values(|n: Namespace| n.name@)
    }

    pub open spec fn type_names(&self, ns_id: int) -> Seq<Seq<char>> {
        self.namespaces@[ns_id].types@.map_values(|t: TypeInfo| t.name@)
    }

    /// The type named `name` in the first namespace named `ns`.
    pub open spec fn find_type_spec(&self, ns: Seq<char>, name: Seq<char>) -> Option<TypeId> {
        match first_index(self.namespace_names(), ns) {
            Some(n) => match first_index(self.type_names(n), name) {
                Some(i) => Some(TypeId { ns_id: n as usize, id: i as usize }),
                None => None,
            },
            None => None,
        }
    }

    pub fn find_type(&self, ns: &str, name: &str) -> (r: Option<TypeId>)
        ensures
            r == self.find_type_spec(ns@, name@),
            r matches Some(t) ==> self.has_type(t),
    {
        let mut n: usize = 0;
        while n < self.namespaces.len()
            invariant
                n <= self.namespaces@.len(),
                forall|j: int| 0 <= j < n ==> self.namespace_names()[j] != ns@,
            decreases self.namespaces@.len() - n,
        {
            if str_eq(self.namespaces[n].name.as_str(), ns) {
                proof {
                    lemma_first_index_unique(self.namespace_names(), ns@, n as int);
                }
                let types = &self.namespaces[n].types;
                let mut i: usize = 0;
                while i < types.len()
                    invariant
                        i <= types@.len(),
                        n < self.namespaces@.len(),
                        types@ == self.namespaces@[n as int].types@,
                        first_index(self.namespace_names(), ns@) == Some(n as int),
                        forall|j: int| 0 <= j < i ==> self.type_names(n as int)[j] != name@,
                    decreases types@.len() - i,
                {
                    if str_eq(types[i].name.as_str(), name) {
                        proof {
                            lemma_first_index_unique(self.type_names(n as int), name@, i as int);
                        }
                        return Some(TypeId { ns_id: n, id: i });
                    }
                    i += 1;
                }
                proof {
                    assert(i == types@.len());
                    lemma_first_index_none(self.type_names(n as int), name@);
                }
                return None;
            }
            n += 1;
        }
        proof {
            lemma_first_index_none(self.namespace_names(), ns@);
        }
        None
    }

    /// Local name of a type.
    pub fn local_name(&self, t: TypeId) -> (r: String)
        requires
            self.has_type(t),
        ensures
            r@ == self.name_of(t),
    {
        self.namespaces[t.ns_id].types[t.id].name.clone()
    }
}

impl ClassHierarchy {
    pub open spec fn keys(&self) -> Seq<TypeId> {
        self.entries@.map_values(|e: Supertypes| e.type_id)
    }

    /// Supertypes of `t` in the hierarchy's own order; none for a type it
    /// does not list.
    pub open spec fn supertypes_of(&self, t: TypeId) -> Seq<TypeId> {
        match first_index(self.keys(), t) {
            Some(i) => self.entries@[i].supertypes@,
            None => Seq::empty(),
        }
    }

    pub fn supertypes(&self, t: TypeId) -> (r: Vec<TypeId>)
        ensures
            r@ == self.supertypes_of(t),
    {
        let mut i: usize = 0;
        while i < self.entries.len()
            invariant
                i <= self.entries@.len(),
                forall|j: int| 0 <= j < i ==> self.keys()[j] != t,
            decreases self.entries@.len() - i,
        {
            if self.entries[i].type_id == t {
                proof {
                    lemma_first_index_unique(self.keys(), t, i as int);
                }
                let sups = &self.entries[i].supertypes;
                let mut r: Vec<TypeId> = Vec::new();
                let mut k: usize = 0;
                while k < sups.len()
                    invariant
                        k <= sups@.len(),
                        r@ == sups@.take(k as int),
                    decreases sups@.len() - k,
                {
                    r.push(sups[k]);
                    k += 1;
                    assert(r@ =~= sups@.take(k as int));
                }
                assert(r@ =~= sups@);
                return r;
            }
            i += 1;
        }
        proof {
            lemma_first_index_none(self.keys(), t);
        }
        Vec::new()
    }
}

} // verus!
