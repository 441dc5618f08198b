//! Synthesis of equality, ordering, display and hash trait impls for a type
//! from the native operations that the library provides for it.

use vstd::prelude::*;
use vstd::string::*;
use crate::sink::{same_policy, wrote_one, Sink};
use crate::special_functions::{Info, Infos, Type, Version};
use crate::text::{decimal, decimal_spec, str_eq};

verus! {

/// One declaration that the generator may emit.
#[derive(Clone, Copy, Debug, PartialEq, Eq, Structural)]
pub enum Emission {
    /// `PartialEq` and `Eq` through a comparison against zero.
    EqCompare,
    /// `PartialEq` and `Eq` through a dedicated equality function.
    Eq,
    /// `PartialOrd` and `Ord` through a comparison against zero.
    Ord,
    Display,
    Hash,
}

pub open spec fn str_view(o: Option<&str>) -> Option<Seq<char>> {
    match o {
        Some(s) => Some(s@),
        None => None,
    }
}

/// `args` separated by commas.
pub open spec fn join_spec(args: Seq<Seq<char>>) -> Seq<char>
    decreases args.len(),
{
    if args.len() == 0 {
        Seq::empty()
    } else if args.len() == 1 {
        args[0]
    } else {
        join_spec(args.drop_last()) + ", "@ + args.last()
    }
}

/// The argument list of a call: the receiver first when the call goes
/// through a trait, then `args`.
pub open spec fn args_text(args: Seq<Seq<char>>, in_trait: bool) -> Seq<char> {
    if in_trait {
        if args.len() == 0 {
            "self"@
        } else {
            "self"@ + ", "@ + join_spec(args)
        }
    } else {
        join_spec(args)
    }
}

/// A call of `func_name` on the receiver: a method call, or a call through
/// the trait `trait_name`.
pub open spec fn call_spec(func_name: Seq<char>, args: Seq<Seq<char>>, trait_name: Option<Seq<char>>) -> Seq<char> {
    match trait_name {
        Some(t) => t + "::"@ + func_name + "("@ + args_text(args, true) + ")"@,
        None => "self."@ + func_name + "("@ + args_text(args, false) + ")"@,
    }
}

/// Name of the cargo feature that enables version `v`; a zero patch level
/// is left out.
pub open spec fn feature_name(v: Version) -> Seq<char> {
    let base = "v"@ + decimal_spec(v.major as nat) + "_"@ + decimal_spec(v.minor as nat);
    if v.patch == 0 {
        base
    } else {
        base + "_"@ + decimal_spec(v.patch as nat)
    }
}

/// The guard line put before a declaration; nothing where no minimum
/// version is declared.
pub open spec fn guard_spec(version: Option<Version>) -> Seq<char> {
    match version {
        Some(v) => "#[cfg(any(feature = \""@ + feature_name(v) + "\", feature = \"dox\"))]\n"@,
        None => Seq::empty(),
    }
}

pub open spec fn eq_decl(self_name: Seq<char>, call: Seq<char>) -> Seq<char> {
    "impl PartialEq for "@ + self_name
        + " {\n    #[inline]\n    fn eq(&self, other: &Self) -> bool {\n        "@ + call
        + "\n    }\n}\n\nimpl Eq for "@ + self_name + " {}"@
}

pub open spec fn eq_compare_decl(self_name: Seq<char>, call: Seq<char>) -> Seq<char> {
    "impl PartialEq for "@ + self_name
        + " {\n    #[inline]\n    fn eq(&self, other: &Self) -> bool {\n        "@ + call
        + " == 0\n    }\n}\n\nimpl Eq for "@ + self_name + " {}"@
}

pub open spec fn ord_decl(self_name: Seq<char>, call: Seq<char>) -> Seq<char> {
    "impl PartialOrd for "@ + self_name
        + " {\n    #[inline]\n    fn partial_cmp(&self, other: &Self) -> Option<cmp::Ordering> {\n        "@
        + call + ".partial_cmp(&0)\n    }\n}\n\nimpl Ord for "@ + self_name
        + " {\n    #[inline]\n    fn cmp(&self, other: &Self) -> cmp::Ordering {\n        "@ + call
        + ".cmp(&0)\n    }\n}"@
}

/// The body of `fmt`: it branches on the result of a fallible call, and
/// writes the text of an infallible one.
pub open spec fn display_body(call: Seq<char>, throws: bool) -> Seq<char> {
    if throws {
        "if let Ok(val) = "@ + call
            + " {\n                f.write_str(val)\n            } else {\n                Err(fmt::Error)\n            }"@
    } else {
        "f.write_str(&"@ + call + ")"@
    }
}

pub open spec fn display_decl(self_name: Seq<char>, call: Seq<char>, throws: bool) -> Seq<char> {
    "impl fmt::Display for "@ + self_name
        + " {\n    #[inline]\n    fn fmt(&self, f: &mut fmt::Formatter) -> fmt::Result {\n        "@
        + display_body(call, throws) + "\n    }\n}"@
}

pub open spec fn hash_decl(self_name: Seq<char>, call: Seq<char>) -> Seq<char> {
    "impl hash::Hash for "@ + self_name
        + " {\n    #[inline]\n    fn hash<H>(&self, state: &mut H) where H: hash::Hasher {\n        hash::Hash::hash(&"@
        + call + ", state)\n    }\n}"@
}

/// A declaration as written: a blank line, the version guard, the text.
pub open spec fn fragment_spec(version: Option<Version>, decl: Seq<char>) -> Seq<char> {
    "\n"@ + guard_spec(version) + decl + "\n"@
}

/// The call that the body of emission `e` makes to `f`.
pub open spec fn emission_call(e: Emission, f: Info, trait_name: Option<Seq<char>>) -> Seq<char> {
    match e {
        Emission::Display | Emission::Hash => call_spec(f.name@, Seq::empty(), trait_name),
        _ => call_spec(f.name@, seq!["other"@], trait_name),
    }
}

/// The declaration text of emission `e` of type `self_name` through `f`.
pub open spec fn body_of(self_name: Seq<char>, e: Emission, f: Info, trait_name: Option<Seq<char>>) -> Seq<char> {
    let call = emission_call(e, f, trait_name);
    match e {
        Emission::EqCompare => eq_compare_decl(self_name, call),
        Emission::Eq => eq_decl(self_name, call),
        Emission::Ord => ord_decl(self_name, call),
        Emission::Display => display_decl(self_name, call, f.throws),
        Emission::Hash => hash_decl(self_name, call),
    }
}

/// The text written for emission `e` of type `self_name` through `f`.
pub open spec fn declaration(self_name: Seq<char>, e: Emission, f: Info, trait_name: Option<Seq<char>>) -> Seq<char> {
    fragment_spec(f.version, body_of(self_name, e, f, trait_name))
}

/// The first function of `fs` named `name` natively that is not ignored.
pub open spec fn find_fn(fs: Seq<Info>, name: Seq<char>) -> Option<Info>
    decreases fs.len(),
{
    if fs.len() == 0 {
        None
    } else if !fs[0].status.is_ignored() && fs[0].glib_name@ == name {
        Some(fs[0])
    } else {
        find_fn(fs.drop_first(), name)
    }
}

/// The function through which `kind` is actionable, if it is.
pub open spec fn actionable(fs: Seq<Info>, specials: &Infos, kind: Type) -> Option<Info> {
    match specials.name_for(kind) {
        Some(n) => find_fn(fs, n),
        None => None,
    }
}

/// The declarations to emit, in order: comparison and equality, display,
/// hash. A dedicated equality function suppresses the comparison-derived
/// equality; the ordering is emitted whenever a comparison is actionable.
pub open spec fn plan(fs: Seq<Info>, specials: &Infos) -> Seq<(Emission, Info)> {
    let compare = match actionable(fs, specials, Type::Compare) {
        Some(f) => if specials.has(Type::Equal) {
            seq![(Emission::Ord, f)]
        } else {
            seq![(Emission::EqCompare, f), (Emission::Ord, f)]
        },
        None => Seq::empty(),
    };
    let equal = match actionable(fs, specials, Type::Equal) {
        Some(f) => seq![(Emission::Eq, f)],
        None => Seq::empty(),
    };
    let display = match actionable(fs, specials, Type::Display) {
        Some(f) => seq![(Emission::Display, f)],
        None => Seq::empty(),
    };
    let hash = match actionable(fs, specials, Type::Hash) {
        Some(f) => seq![(Emission::Hash, f)],
        None => Seq::empty(),
    };
    compare + equal + display + hash
}

/// The texts of `plan(fs, specials)`, in order.
pub open spec fn fragments(
    self_name: Seq<char>,
    fs: Seq<Info>,
    specials: &Infos,
    trait_name: Option<Seq<char>>,
) -> Seq<Seq<char>> {
    plan(fs, specials).map_values(|p: (Emission, Info)| declaration(self_name, p.0, p.1, trait_name))
}

/// `w` takes each of the first `k` fragments of `frags`, written after
/// `start` one by one.
pub open spec fn accepted_upto<W: Sink>(w: W, start: Seq<Seq<char>>, frags: Seq<Seq<char>>, k: int) -> bool {
    forall|j: int| 0 <= j < k ==> #[trigger] w.accepts(start + frags.take(j), frags[j])
}

/// Fragment `k` is the first of `frags` that `w` refuses.
pub open spec fn refused_at<W: Sink>(w: W, start: Seq<Seq<char>>, frags: Seq<Seq<char>>, k: int) -> bool {
    &&& 0 <= k < frags.len()
    &&& accepted_upto(w, start, frags, k)
    &&& !w.accepts(start + frags.take(k), frags[k])
}

/// The first fragment of `frags` that `w` refuses, if any.
pub open spec fn first_refused<W: Sink>(w: W, start: Seq<Seq<char>>, frags: Seq<Seq<char>>) -> Option<int> {
    if exists|k: int| refused_at(w, start, frags, k) {
        Some(choose|k: int| refused_at(w, start, frags, k))
    } else {
        None
    }
}

pub open spec fn views(args: Seq<&str>) -> Seq<Seq<char>> {
    args.map_values(|a: &str| a@)
}

fn join(args: &[&str]) -> (r: String)
    ensures
        r@ == join_spec(views(args@)),
{
    let mut r = String::new();
    let mut i: usize = 0;
    while i < args.len()
        invariant
            i <= args@.len(),
            r@ == join_spec(views(args@).take(i as int)),
        decreases args@.len() - i,
    {
        assert(views(args@).take(i + 1).drop_last() =~= views(args@).take(i as int));
        if i == 0 {
            r = String::from_str(args[i]);
        } else {
            r.append(", ");
            r.append(args[i]);
        }
        i += 1;
    }
    assert(views(args@).take(args@.len() as int) =~= views(args@));
    r
}

/// A call of `func_name` with `args`: on the receiver, or through
/// `trait_name` with the receiver as first argument.
pub fn generate_call(func_name: &str, args: &[&str], trait_name: Option<&str>) -> (r: String)
    ensures
        r@ == call_spec(func_name@, views(args@), str_view(trait_name)),
{
    let mut args_string = String::new();
    let in_trait = trait_name.is_some();
    if in_trait {
        args_string.append("self");
    }
    if args.len() > 0 {
        if in_trait {
            args_string.append(", ");
        }
        let joined = join(args);
        args_string.append(joined.as_str());
    }
    assert(args_string@ =~= args_text(views(args@), in_trait));
    let mut r = match trait_name {
        Some(t) => {
            let mut r = String::from_str(t);
            r.append("::");
            r
        },
        None => String::from_str("self."),
    };
    r.append(func_name);
    r.append("(");
    r.append(args_string.as_str());
    r.append(")");
    r
}

/// The guard line for `version`; empty where there is none.
pub fn version_condition(version: Option<Version>) -> (r: String)
    ensures
        r@ == guard_spec(version),
{
    match version {
        Some(v) => {
            let mut r = String::from_str("#[cfg(any(feature = \"");
            r.append("v");
            r.append(decimal(v.major).as_str());
            r.append("_");
            r.append(decimal(v.minor).as_str());
            if v.patch != 0 {
                r.append("_");
                r.append(decimal(v.patch).as_str());
            }
            r.append("\", feature = \"dox\"))]\n");
            r
        },
        None => String::new(),
    }
}

fn write_declaration<W: Sink>(w: &mut W, version: Option<Version>, decl: String) -> (r: Result<(), W::Error>)
    ensures
        wrote_one(*old(w), *final(w), r, fragment_spec(version, decl@)),
{
    let mut text = String::from_str("\n");
    text.append(version_condition(version).as_str());
    text.append(decl.as_str());
    text.append("\n");
    w.write_str(text.as_str())
}

pub fn generate_display<W: Sink>(w: &mut W, self_name: &str, func: &Info, trait_name: Option<&str>) -> (r: Result<(), W::Error>)
    ensures
        wrote_one(*old(w), *final(w), r, declaration(self_name@, Emission::Display, *func, str_view(trait_name))),
{
    let no_args: Vec<&str> = Vec::new();
    let call = generate_call(func.name.as_str(), no_args.as_slice(), trait_name);
    assert(views(no_args@) =~= Seq::<Seq<char>>::empty());
    let body = if func.throws {
        let mut b = String::from_str("if let Ok(val) = ");
        b.append(call.as_str());
        b.append(" {\n                f.write_str(val)\n            } else {\n                Err(fmt::Error)\n            }");
        b
    } else {
        let mut b = String::from_str("f.write_str(&");
        b.append(call.as_str());
        b.append(")");
        b
    };
    let mut decl = String::from_str("impl fmt::Display for ");
    decl.append(self_name);
    decl.append(" {\n    #[inline]\n    fn fmt(&self, f: &mut fmt::Formatter) -> fmt::Result {\n        ");
    decl.append(body.as_str());
    decl.append("\n    }\n}");
    write_declaration(w, func.version, decl)
}

pub fn generate_hash<W: Sink>(w: &mut W, self_name: &str, func: &Info, trait_name: Option<&str>) -> (r: Result<(), W::Error>)
    ensures
        wrote_one(*old(w), *final(w), r, declaration(self_name@, Emission::Hash, *func, str_view(trait_name))),
{
    let no_args: Vec<&str> = Vec::new();
    let call = generate_call(func.name.as_str(), no_args.as_slice(), trait_name);
    assert(views(no_args@) =~= Seq::<Seq<char>>::empty());
    let mut decl = String::from_str("impl hash::Hash for ");
    decl.append(self_name);
    decl.append(" {\n    #[inline]\n    fn hash<H>(&self, state: &mut H) where H: hash::Hasher {\n        hash::Hash::hash(&");
    decl.append(call.as_str());
    decl.append(", state)\n    }\n}");
    write_declaration(w, func.version, decl)
}

fn other_call(func: &Info, trait_name: Option<&str>) -> (r: String)
    ensures
        r@ == call_spec(func.name@, seq!["other"@], str_view(trait_name)),
{
    let mut args: Vec<&str> = Vec::new();
    args.push("other");
    assert(views(args@) =~= seq!["other"@]);
    generate_call(func.name.as_str(), args.as_slice(), trait_name)
}

pub fn generate_eq<W: Sink>(w: &mut W, self_name: &str, func: &Info, trait_name: Option<&str>) -> (r: Result<(), W::Error>)
    ensures
        wrote_one(*old(w), *final(w), r, declaration(self_name@, Emission::Eq, *func, str_view(trait_name))),
{
    let call = other_call(func, trait_name);
    let mut decl = String::from_str("impl PartialEq for ");
    decl.append(self_name);
    decl.append(" {\n    #[inline]\n    fn eq(&self, other: &Self) -> bool {\n        ");
    decl.append(call.as_str());
    decl.append("\n    }\n}\n\nimpl Eq for ");
    decl.append(self_name);
    decl.append(" {}");
    write_declaration(w, func.version, decl)
}

pub fn generate_eq_compare<W: Sink>(w: &mut W, self_name: &str, func: &Info, trait_name: Option<&str>) -> (r: Result<(), W::Error>)
    ensures
        wrote_one(*old(w), *final(w), r, declaration(self_name@, Emission::EqCompare, *func, str_view(trait_name))),
{
    let call = other_call(func, trait_name);
    let mut decl = String::from_str("impl PartialEq for ");
    decl.append(self_name);
    decl.append(" {\n    #[inline]\n    fn eq(&self, other: &Self) -> bool {\n        ");
    decl.append(call.as_str());
    decl.append(" == 0\n    }\n}\n\nimpl Eq for ");
    decl.append(self_name);
    decl.append(" {}");
    write_declaration(w, func.version, decl)
}

pub fn generate_ord<W: Sink>(w: &mut W, self_name: &str, func: &Info, trait_name: Option<&str>) -> (r: Result<(), W::Error>)
    ensures
        wrote_one(*old(w), *final(w), r, declaration(self_name@, Emission::Ord, *func, str_view(trait_name))),
{
    let call = other_call(func, trait_name);
    let mut decl = String::from_str("impl PartialOrd for ");
    decl.append(self_name);
    decl.append(" {\n    #[inline]\n    fn partial_cmp(&self, other: &Self) -> Option<cmp::Ordering> {\n        ");
    decl.append(call.as_str());
    decl.append(".partial_cmp(&0)\n    }\n}\n\nimpl Ord for ");
    decl.append(self_name);
    decl.append(" {\n    #[inline]\n    fn cmp(&self, other: &Self) -> cmp::Ordering {\n        ");
    decl.append(call.as_str());
    decl.append(".cmp(&0)\n    }\n}");
    write_declaration(w, func.version, decl)
}

/// The first function of `functions` with native name `name` that is not
/// ignored.
pub fn lookup<'a>(functions: &'a [Info], name: &str) -> (r: Option<&'a Info>)
    ensures
        match r {
            Some(f) => find_fn(functions@, name@) == Some(*f),
            None => find_fn(functions@, name@) is None,
        },
{
    let mut i: usize = 0;
    assert(functions@.subrange(0, functions@.len() as int) =~= functions@);
    while i < functions.len()
        invariant
            i <= functions@.len(),
            find_fn(functions@, name@) == find_fn(functions@.subrange(i as int, functions@.len() as int), name@),
        decreases functions@.len() - i,
    {
        let ghost rest = functions@.subrange(i as int, functions@.len() as int);
        assert(rest.drop_first() =~= functions@.subrange(i + 1, functions@.len() as int));
        assert(rest[0] == functions@[i as int]);
        let f = &functions[i];
        if !f.status.ignored() && str_eq(f.glib_name.as_str(), name) {
            return Some(f);
        }
        i += 1;
    }
    None
}

fn lookup_kind<'a>(functions: &'a [Info], specials: &Infos, kind: Type) -> (r: Option<&'a Info>)
    ensures
        match r {
            Some(f) => actionable(functions@, specials, kind) == Some(*f),
            None => actionable(functions@, specials, kind) is None,
        },
{
    match specials.glib_name(kind) {
        Some(name) => lookup(functions, name.as_str()),
        None => None,
    }
}

proof fn lemma_refused_at_unique<W: Sink>(w: W, start: Seq<Seq<char>>, frags: Seq<Seq<char>>, k: int)
    requires
        refused_at(w, start, frags, k),
    ensures
        first_refused(w, start, frags) == Some(k),
{
    let c = choose|c: int| refused_at(w, start, frags, c);
    assert(refused_at(w, start, frags, c));
    if c < k {
        assert(w.accepts(start + frags.take(c), frags[c]));
    } else if k < c {
        assert(w.accepts(start + frags.take(k), frags[k]));
    }
}

proof fn lemma_none_refused<W: Sink>(w: W, start: Seq<Seq<char>>, frags: Seq<Seq<char>>)
    requires
        accepted_upto(w, start, frags, frags.len() as int),
    ensures
        first_refused(w, start, frags) is None,
{
    if exists|k: int| refused_at(w, start, frags, k) {
        let k = choose|k: int| refused_at(w, start, frags, k);
        assert(w.accepts(start + frags.take(k), frags[k]));
    }
}

/// One step of `generate`: fragment `n` of `all` was handed to the sink.
proof fn lemma_step<W: Sink>(
    w0: W,
    start: Seq<Seq<char>>,
    all: Seq<Seq<char>>,
    n: int,
    before: W,
    after: W,
    r: Result<(), W::Error>,
)
    requires
        0 <= n < all.len(),
        same_policy(w0, before),
        before.written() == start + all.take(n),
        accepted_upto(w0, start, all, n),
        wrote_one(before, after, r, all[n]),
    ensures
        same_policy(w0, after),
        r is Ok ==> after.written() == start + all.take(n + 1) && accepted_upto(w0, start, all, n + 1),
        r matches Err(e) ==> first_refused(w0, start, all) == Some(n)
            && e == w0.refusal(start + all.take(n), all[n])
            && after.written() == start + all.take(n),
{
    assert(before.accepts(before.written(), all[n]) == w0.accepts(start + all.take(n), all[n]));
    if r is Ok {
        assert(all.take(n + 1) =~= all.take(n).push(all[n]));
        assert((start + all.take(n)).push(all[n]) =~= start + all.take(n + 1));
        assert forall|j: int| 0 <= j < n + 1 implies #[trigger] w0.accepts(start + all.take(j), all[j]) by {
            if j < n {
                assert(w0.accepts(start + all.take(j), all[j]));
            }
        }
    } else {
        assert(refused_at(w0, start, all, n));
        lemma_refused_at_unique(w0, start, all, n);
    }
}

/// Writes to `w`, in order, the trait impls that the special operations of
/// type `self_name` allow. Every declaration is written as long as the sink
/// takes it; the first one it refuses stops the generation, and the sink's
/// error is returned as it came. What was written before stays.
pub fn generate<W: Sink>(
    w: &mut W,
    self_name: &str,
    functions: &[Info],
    specials: &Infos,
    trait_name: Option<&str>,
) -> (r: Result<(), W::Error>)
    ensures
        match first_refused(*old(w), old(w).written(), fragments(self_name@, functions@, specials, str_view(trait_name))) {
            None => r is Ok && final(w).written()
                == old(w).written() + fragments(self_name@, functions@, specials, str_view(trait_name)),
            Some(k) => r == Err::<(), W::Error>(old(w).refusal(
                old(w).written() + fragments(self_name@, functions@, specials, str_view(trait_name)).take(k),
                fragments(self_name@, functions@, specials, str_view(trait_name))[k],
            )) && final(w).written()
                == old(w).written() + fragments(self_name@, functions@, specials, str_view(trait_name)).take(k),
        },
{
    let ghost t = str_view(trait_name);
    let ghost all = fragments(self_name@, functions@, specials, t);
    let ghost w0 = *w;
    let ghost start = w.written();
    let ghost mut n: int = 0;
    assert(start + all.take(0) =~= start);
    if let Some(info) = lookup_kind(functions, specials, Type::Compare) {
        if !specials.has_trait(Type::Equal) {
            let ghost before = *w;
            assert(all[n] == declaration(self_name@, Emission::EqCompare, *info, t));
            let r = generate_eq_compare(w, self_name, info, trait_name);
            proof { lemma_step(w0, start, all, n, before, *w, r); }
            if r.is_err() {
                return r;
            }
            proof { n = n + 1; }
        }
        let ghost before = *w;
        assert(all[n] == declaration(self_name@, Emission::Ord, *info, t));
        let r = generate_ord(w, self_name, info, trait_name);
        proof { lemma_step(w0, start, all, n, before, *w, r); }
        if r.is_err() {
            return r;
        }
        proof { n = n + 1; }
    }
    if let Some(info) = lookup_kind(functions, specials, Type::Equal) {
        let ghost before = *w;
        assert(all[n] == declaration(self_name@, Emission::Eq, *info, t));
        let r = generate_eq(w, self_name, info, trait_name);
        proof { lemma_step(w0, start, all, n, before, *w, r); }
        if r.is_err() {
            return r;
        }
        proof { n = n + 1; }
    }
    if let Some(info) = lookup_kind(functions, specials, Type::Display) {
        let ghost before = *w;
        assert(all[n] == declaration(self_name@, Emission::Display, *info, t));
        let r = generate_display(w, self_name, info, trait_name);
        proof { lemma_step(w0, start, all, n, before, *w, r); }
        if r.is_err() {
            return r;
        }
        proof { n = n + 1; }
    }
    if let Some(info) = lookup_kind(functions, specials, Type::Hash) {
        let ghost before = *w;
        assert(all[n] == declaration(self_name@, Emission::Hash, *info, t));
        let r = generate_hash(w, self_name, info, trait_name);
        proof { lemma_step(w0, start, all, n, before, *w, r); }
        if r.is_err() {
            return r;
        }
        proof { n = n + 1; }
    }
    assert(n == all.len());
    assert(all.take(n) =~= all);
    proof { lemma_none_refused(w0, start, all); }
    Ok(())
}

pub open spec fn is_equality(e: Emission) -> bool {
    e == Emission::EqCompare || e == Emission::Eq
}

/// With both a comparison and a dedicated equality actionable, the plan
/// holds exactly one equality, the dedicated one, and exactly one ordering,
/// through the comparison.
pub proof fn lemma_equal_supersedes_compare(fs: Seq<Info>, specials: &Infos, fc: Info, fe: Info)
    requires
        actionable(fs, specials, Type::Compare) == Some(fc),
        actionable(fs, specials, Type::Equal) == Some(fe),
    ensures
        plan(fs, specials)[0] == (Emission::Ord, fc),
        plan(fs, specials)[1] == (Emission::Eq, fe),
        forall|k: int| 0 <= k < plan(fs, specials).len() && is_equality(#[trigger] plan(fs, specials)[k].0) ==> k == 1,
        forall|k: int| 0 <= k < plan(fs, specials).len() && #[trigger] plan(fs, specials)[k].0 == Emission::Ord ==> k == 0,
{
}

/// With a comparison and no dedicated equality, the plan opens with an
/// equality and an ordering, both through the comparison, and holds no
/// other equality or ordering.
pub proof fn lemma_compare_alone(fs: Seq<Info>, specials: &Infos, fc: Info, t: Option<Seq<char>>)
    requires
        actionable(fs, specials, Type::Compare) == Some(fc),
        !specials.has(Type::Equal),
    ensures
        plan(fs, specials)[0] == (Emission::EqCompare, fc),
        plan(fs, specials)[1] == (Emission::Ord, fc),
        emission_call(Emission::EqCompare, fc, t) == emission_call(Emission::Ord, fc, t),
        forall|k: int| 2 <= k < plan(fs, specials).len()
            ==> !is_equality(#[trigger] plan(fs, specials)[k].0) && plan(fs, specials)[k].0 != Emission::Ord,
{
}

/// A type none of whose special operations is actionable gets no
/// declaration.
pub proof fn lemma_nothing_actionable(self_name: Seq<char>, fs: Seq<Info>, specials: &Infos, t: Option<Seq<char>>)
    requires
        forall|k: Type| actionable(fs, specials, k) is None,
    ensures
        fragments(self_name, fs, specials, t) == Seq::<Seq<char>>::empty(),
{
    assert(actionable(fs, specials, Type::Compare) is None);
    assert(actionable(fs, specials, Type::Equal) is None);
    assert(actionable(fs, specials, Type::Display) is None);
    assert(actionable(fs, specials, Type::Hash) is None);
    assert(fragments(self_name, fs, specials, t) =~= Seq::<Seq<char>>::empty());
}

/// A declaration through a function of version 3.4 is preceded by the guard
/// of feature `v3_4`; one through a function without a version has no
/// guard.
pub proof fn lemma_version_guard(self_name: Seq<char>, e: Emission, f: Info, t: Option<Seq<char>>)
    ensures
        f.version == Some(Version { major: 3, minor: 4, patch: 0 }) ==> declaration(self_name, e, f, t)
            == "\n#[cfg(any(feature = \"v3_4\", feature = \"dox\"))]\n"@ + body_of(self_name, e, f, t) + "\n"@,
        f.version is None ==> declaration(self_name, e, f, t) == "\n"@ + body_of(self_name, e, f, t) + "\n"@,
{
    reveal_strlit("\n");
    reveal_strlit("\n#[cfg(any(feature = \"v3_4\", feature = \"dox\"))]\n");
    reveal_strlit("#[cfg(any(feature = \"");
    reveal_strlit("\", feature = \"dox\"))]\n");
    reveal_strlit("#[cfg(any(feature = \"v3_4\", feature = \"dox\"))]\n");
    reveal_strlit("v");
    reveal_strlit("_");
    if f.version == Some(Version { major: 3, minor: 4, patch: 0 }) {
        assert(decimal_spec(3) == seq!['3']);
        assert(decimal_spec(4) == seq!['4']);
        assert(feature_name(Version { major: 3, minor: 4, patch: 0 }) =~= seq!['v', '3', '_', '4']);
        assert(guard_spec(f.version) =~= "#[cfg(any(feature = \"v3_4\", feature = \"dox\"))]\n"@);
        assert("\n"@ + guard_spec(f.version) =~= "\n#[cfg(any(feature = \"v3_4\", feature = \"dox\"))]\n"@);
    }
    if f.version is None {
        assert("\n"@ + guard_spec(f.version) =~= "\n"@);
    }
}

/// A fallible display operation gives a body that branches on its result;
/// an infallible one a single write of its text.
pub proof fn lemma_display_shape(self_name: Seq<char>, f: Info, t: Option<Seq<char>>)
    ensures
        body_of(self_name, Emission::Display, f, t) == display_decl(
            self_name,
            call_spec(f.name@, Seq::empty(), t),
            f.throws,
        ),
        f.throws ==> display_body(call_spec(f.name@, Seq::empty(), t), f.throws) == "if let Ok(val) = "@
            + call_spec(f.name@, Seq::empty(), t)
            + " {\n                f.write_str(val)\n            } else {\n                Err(fmt::Error)\n            }"@,
        !f.throws ==> display_body(call_spec(f.name@, Seq::empty(), t), f.throws) == "f.write_str(&"@
            + call_spec(f.name@, Seq::empty(), t) + ")"@,
{
}

/// Registering a kind other than equality that is not actionable changes
/// nothing: the declarations are those of the registry without it.
pub proof fn lemma_inactive_kind_irrelevant(
    self_name: Seq<char>,
    fs: Seq<Info>,
    with_kind: &Infos,
    without_kind: &Infos,
    kind: Type,
    t: Option<Seq<char>>,
)
    requires
        kind != Type::Equal,
        actionable(fs, with_kind, kind) is None,
        without_kind.name_for(kind) is None,
        forall|k: Type| k != kind ==> #[trigger] with_kind.name_for(k) == without_kind.name_for(k),
    ensures
        plan(fs, with_kind) == plan(fs, without_kind),
        fragments(self_name, fs, with_kind, t) == fragments(self_name, fs, without_kind, t),
{
    assert(with_kind.name_for(Type::Equal) == without_kind.name_for(Type::Equal));
    assert(actionable(fs, with_kind, Type::Compare) == actionable(fs, without_kind, Type::Compare));
    assert(actionable(fs, with_kind, Type::Equal) == actionable(fs, without_kind, Type::Equal));
    assert(actionable(fs, with_kind, Type::Display) == actionable(fs, without_kind, Type::Display));
    assert(actionable(fs, with_kind, Type::Hash) == actionable(fs, without_kind, Type::Hash));
}

} // verus!
