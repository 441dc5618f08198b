//! Resolution of a type's ancestor chain and of the ancestors it depends on.

use vstd::prelude::*;
use crate::env::Env;
use crate::gobjects::GStatus;
use crate::imports::Imports;
use crate::library::{first_index, is_first_index, Library, TypeId, MAIN};

verus! {

/// One resolved ancestor: its handle, local name and status.
#[derive(Clone, Debug)]
pub struct StatusedTypeId {
    pub type_id: TypeId,
    pub name: String,
    pub status: GStatus,
}

/// The universal base type; none where the library lacks it.
pub open spec fn base_type(library: &Library) -> Option<TypeId> {
    library.find_type_spec("GObject"@, "Object"@)
}

/// `s` with every occurrence of `b` left out, order kept; `s` itself when
/// there is no `b`.
pub open spec fn without(s: Seq<TypeId>, b: Option<TypeId>) -> Seq<TypeId>
    decreases s.len(),
{
    if s.len() == 0 {
        s
    } else {
        let r = without(s.drop_last(), b);
        if b == Some(s.last()) {
            r
        } else {
            r.push(s.last())
        }
    }
}

/// The ancestor chain of `t`: its supertypes in the hierarchy's order, the
/// universal base left out.
pub open spec fn ancestors(env: &Env, t: TypeId) -> Seq<TypeId> {
    without(env.class_hierarchy.supertypes_of(t), base_type(&env.library))
}

/// The elements of `s` whose status is `Generate`, order kept.
pub open spec fn generated_only(env: &Env, s: Seq<TypeId>) -> Seq<TypeId>
    decreases s.len(),
{
    if s.len() == 0 {
        s
    } else {
        let r = generated_only(env, s.drop_last());
        if env.status_of_type(s.last()).is_generated() {
            r.push(s.last())
        } else {
            r
        }
    }
}

/// The ancestors of `t` that are build dependencies.
pub open spec fn dependencies_of(env: &Env, t: TypeId) -> Seq<TypeId> {
    generated_only(env, ancestors(env, t))
}

/// Each name of `used`, qualified by the crate root.
pub open spec fn crate_paths(used: Seq<String>) -> Set<Seq<char>>
    decreases used.len(),
{
    if used.len() == 0 {
        Set::empty()
    } else {
        crate_paths(used.drop_last()).insert("crate::"@ + used.last()@)
    }
}

/// Whether naming ancestor `t` brings imports: it is handled, belongs to the
/// namespace being generated, and its used types can be derived.
pub open spec fn brings_imports(env: &Env, t: TypeId) -> bool {
    &&& !env.status_of_type(t).is_ignored()
    &&& t.ns_id == MAIN
    &&& env.library.type_of(t).used_types is Some
}

/// The import paths that the ancestors `s` bring.
pub open spec fn imports_of(env: &Env, s: Seq<TypeId>) -> Set<Seq<char>>
    decreases s.len(),
{
    if s.len() == 0 {
        Set::empty()
    } else {
        let r = imports_of(env, s.drop_last());
        if brings_imports(env, s.last()) {
            r.union(crate_paths(env.library.type_of(s.last()).used_types->Some_0@))
        } else {
            r
        }
    }
}

/// `a` describes type `t` of `env`.
pub open spec fn describes(env: &Env, a: StatusedTypeId, t: TypeId) -> bool {
    &&& a.type_id == t
    &&& a.name@ == env.library.name_of(t)
    &&& a.status == env.status_of_type(t)
}

proof fn lemma_supertypes_known(env: &Env, t: TypeId)
    requires
        env.wf(),
    ensures
        forall|k: int| 0 <= k < env.class_hierarchy.supertypes_of(t).len()
            ==> env.library.has_type(#[trigger] env.class_hierarchy.supertypes_of(t)[k]),
{
    let keys = env.class_hierarchy.keys();
    if exists|i: int| is_first_index(keys, t, i) {
        let i = choose|i: int| is_first_index(keys, t, i);
        assert(first_index(keys, t) == Some(i));
    }
}

fn find_base(library: &Library) -> (r: Option<TypeId>)
    ensures
        r == base_type(library),
{
    library.find_type("GObject", "Object")
}

fn is_base(base: Option<TypeId>, t: TypeId) -> (r: bool)
    ensures
        r == (base == Some(t)),
{
    match base {
        Some(b) => b == t,
        None => false,
    }
}

/// Resolves the ancestor chain of `type_id`, and merges into `imports` what
/// each handled ancestor of the main namespace brings.
pub fn analyze(env: &Env, type_id: TypeId, imports: &mut Imports) -> (r: Vec<StatusedTypeId>)
    requires
        env.wf(),
    ensures
        r@.len() == ancestors(env, type_id).len(),
        forall|k: int| 0 <= k < r@.len() ==> describes(env, #[trigger] r@[k], ancestors(env, type_id)[k]),
        final(imports)@ == old(imports)@.union(imports_of(env, ancestors(env, type_id))),
{
    let mut parents: Vec<StatusedTypeId> = Vec::new();
    let gobject_id = find_base(&env.library);
    let sups = env.class_hierarchy.supertypes(type_id);
    proof {
        lemma_supertypes_known(env, type_id);
    }
    let mut i: usize = 0;
    while i < sups.len()
        invariant
            env.wf(),
            i <= sups@.len(),
            gobject_id == base_type(&env.library),
            forall|k: int| 0 <= k < sups@.len() ==> env.library.has_type(#[trigger] sups@[k]),
            parents@.len() == without(sups@.take(i as int), gobject_id).len(),
            forall|k: int| 0 <= k < parents@.len()
                ==> describes(env, #[trigger] parents@[k], without(sups@.take(i as int), gobject_id)[k]),
            imports@ == old(imports)@.union(imports_of(env, without(sups@.take(i as int), gobject_id))),
        decreases sups@.len() - i,
    {
        let super_tid = sups[i];
        let ghost prev = without(sups@.take(i as int), gobject_id);
        assert(sups@.take(i + 1).drop_last() =~= sups@.take(i as int));
        if is_base(gobject_id, super_tid) {
            i += 1;
            continue;
        }
        let full_name = super_tid.full_name(&env.library);
        let status = env.type_status(full_name.as_str());
        parents.push(StatusedTypeId {
            type_id: super_tid,
            name: env.library.local_name(super_tid),
            status,
        });
        assert(without(sups@.take(i + 1), gobject_id) == prev.push(super_tid));
        assert(prev.push(super_tid).drop_last() =~= prev);
        let ghost next = prev.push(super_tid);
        assert(imports_of(env, next) == if brings_imports(env, super_tid) {
            imports_of(env, prev).union(crate_paths(env.library.type_of(super_tid).used_types->Some_0@))
        } else {
            imports_of(env, prev)
        });
        if !status.ignored() && super_tid.ns_id == MAIN {
            match &env.library.namespaces[super_tid.ns_id].types[super_tid.id].used_types {
                Some(used) => {
                    let ghost start = imports@;
                    let mut j: usize = 0;
                    while j < used.len()
                        invariant
                            j <= used@.len(),
                            imports@ == start.union(crate_paths(used@.take(j as int))),
                            start == old(imports)@.union(imports_of(env, prev)),
                        decreases used@.len() - j,
                    {
                        let mut path = String::from_str("crate::");
                        path.append(used[j].as_str());
                        imports.add(path.as_str());
                        assert(used@.take(j + 1).drop_last() =~= used@.take(j as int));
                        j += 1;
                        assert(imports@ =~= start.union(crate_paths(used@.take(j as int))));
                    }
                    assert(used@.take(used@.len() as int) =~= used@);
                    assert(brings_imports(env, super_tid));
                    assert(imports@ =~= old(imports)@.union(imports_of(env, next)));
                },
                None => {},
            }
        }
        i += 1;
    }
    assert(sups@.take(sups@.len() as int) =~= sups@);
    parents
}

/// The ancestors of `type_id` whose status is `Generate`, in chain order.
pub fn dependencies(env: &Env, type_id: TypeId) -> (r: Vec<TypeId>)
    requires
        env.wf(),
    ensures
        r@ == dependencies_of(env, type_id),
{
    let mut parents: Vec<TypeId> = Vec::new();
    let gobject_id = find_base(&env.library);
    let sups = env.class_hierarchy.supertypes(type_id);
    proof {
        lemma_supertypes_known(env, type_id);
    }
    let mut i: usize = 0;
    while i < sups.len()
        invariant
            env.wf(),
            i <= sups@.len(),
            gobject_id == base_type(&env.library),
            forall|k: int| 0 <= k < sups@.len() ==> env.library.has_type(#[trigger] sups@[k]),
            parents@ == generated_only(env, without(sups@.take(i as int), gobject_id)),
        decreases sups@.len() - i,
    {
        let super_tid = sups[i];
        assert(sups@.take(i + 1).drop_last() =~= sups@.take(i as int));
        if is_base(gobject_id, super_tid) {
            i += 1;
            continue;
        }
        let full_name = super_tid.full_name(&env.library);
        let status = env.type_status(full_name.as_str());
        let ghost prev = without(sups@.take(i as int), gobject_id);
        assert(without(sups@.take(i + 1), gobject_id) == prev.push(super_tid));
        assert(prev.push(super_tid).drop_last() =~= prev);
        if status.need_generate() {
            parents.push(super_tid);
        }
        i += 1;
    }
    assert(sups@.take(sups@.len() as int) =~= sups@);
    parents
}

proof fn lemma_without_excludes(s: Seq<TypeId>, b: Option<TypeId>)
    ensures
        forall|x: TypeId| b == Some(x) ==> !without(s, b).contains(x),
        b is None ==> without(s, b) == s,
        forall|x: TypeId| without(s, b).contains(x) ==> s.contains(x),
    decreases s.len(),
{
    if s.len() > 0 {
        lemma_without_excludes(s.drop_last(), b);
        let r = without(s.drop_last(), b);
        assert forall|x: TypeId| without(s, b).contains(x) implies s.contains(x) by {
            if r.contains(x) {
                assert(s.drop_last().contains(x));
                let k = choose|k: int| 0 <= k < s.drop_last().len() && s.drop_last()[k] == x;
                assert(s[k] == x);
            } else {
                let g = r.push(s.last());
                let k = choose|k: int| 0 <= k < g.len() && g[k] == x;
                assert(k == r.len());
                assert(s[s.len() - 1] == x);
            }
        }
        if b != Some(s.last()) {
            assert forall|x: TypeId| b == Some(x) implies !r.push(s.last()).contains(x) by {
                if r.push(s.last()).contains(x) {
                    let k = choose|k: int| 0 <= k < r.push(s.last()).len() && r.push(s.last())[k] == x;
                    if k < r.len() {
                        assert(r[k] == x);
                        assert(r.contains(x));
                    } else {
                        assert(x == s.last());
                    }
                }
            }
        }
        if b is None {
            assert(s.drop_last().push(s.last()) =~= s);
        }
    }
}

proof fn lemma_generated_only_subset(env: &Env, s: Seq<TypeId>)
    ensures
        forall|x: TypeId| generated_only(env, s).contains(x)
            ==> s.contains(x) && env.status_of_type(x) == GStatus::Generate,
    decreases s.len(),
{
    if s.len() > 0 {
        lemma_generated_only_subset(env, s.drop_last());
        let r = generated_only(env, s.drop_last());
        assert forall|x: TypeId| generated_only(env, s).contains(x)
            implies s.contains(x) && env.status_of_type(x) == GStatus::Generate by {
            if r.contains(x) {
                assert(s.drop_last().contains(x));
                let k = choose|k: int| 0 <= k < s.drop_last().len() && s.drop_last()[k] == x;
                assert(s[k] == x);
            } else {
                let g = r.push(s.last());
                let k = choose|k: int| 0 <= k < g.len() && g[k] == x;
                assert(k == r.len());
                assert(s[s.len() - 1] == x);
            }
        }
    }
}

/// The universal base type is never in a resolved ancestor chain; where the
/// library lacks it, the chain is the supertypes unchanged.
pub proof fn lemma_base_never_an_ancestor(env: &Env, t: TypeId)
    ensures
        forall|b: TypeId| base_type(&env.library) == Some(b) ==> !ancestors(env, t).contains(b),
        base_type(&env.library) is None ==> ancestors(env, t) == env.class_hierarchy.supertypes_of(t),
        forall|x: TypeId| ancestors(env, t).contains(x)
            ==> env.class_hierarchy.supertypes_of(t).contains(x),
{
    lemma_without_excludes(env.class_hierarchy.supertypes_of(t), base_type(&env.library));
}

/// Every dependency of a type is one of its ancestors, with status
/// `Generate`.
pub proof fn lemma_dependencies_are_generated_ancestors(env: &Env, t: TypeId)
    ensures
        forall|x: TypeId| dependencies_of(env, t).contains(x)
            ==> ancestors(env, t).contains(x) && env.status_of_type(x) == GStatus::Generate,
{
    lemma_generated_only_subset(env, ancestors(env, t));
}

} // verus!
