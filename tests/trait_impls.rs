use gir::gobjects::GStatus;
use gir::sink::{Buffer, BufferFull, Sink};
use gir::special_functions::{Info, Infos, Type, Version};
use gir::trait_impls::{generate, generate_call, lookup, version_condition};

fn func(name: &str, glib_name: &str, version: Option<Version>, throws: bool) -> Info {
    Info {
        name: name.to_string(),
        glib_name: glib_name.to_string(),
        status: GStatus::Generate,
        version,
        throws,
    }
}

fn specials(kinds: &[(Type, &str)]) -> Infos {
    let mut s = Infos::new();
    for (k, n) in kinds {
        s.insert(*k, n.to_string());
    }
    s
}

const EQ_COMPARE: &str = "\nimpl PartialEq for Point {\n    #[inline]\n    fn eq(&self, other: &Self) -> bool {\n        self.point_compare(other) == 0\n    }\n}\n\nimpl Eq for Point {}\n";
const ORD: &str = "\nimpl PartialOrd for Point {\n    #[inline]\n    fn partial_cmp(&self, other: &Self) -> Option<cmp::Ordering> {\n        self.point_compare(other).partial_cmp(&0)\n    }\n}\n\nimpl Ord for Point {\n    #[inline]\n    fn cmp(&self, other: &Self) -> cmp::Ordering {\n        self.point_compare(other).cmp(&0)\n    }\n}\n";

fn run(functions: &[Info], specials: &Infos, trait_name: Option<&str>) -> Vec<String> {
    let mut w = Buffer::new();
    generate(&mut w, "Point", functions, specials, trait_name).unwrap();
    (0..w.len()).map(|i| w.fragment(i)).collect()
}

#[test]
fn point_compare_only_gives_eq_and_ord() {
    let functions = vec![func("point_compare", "point_compare", None, false)];
    let out = run(&functions, &specials(&[(Type::Compare, "point_compare")]), None);
    assert_eq!(out, vec![EQ_COMPARE.to_string(), ORD.to_string()]);
}

#[test]
fn dedicated_equal_supersedes_compare_equality() {
    let functions = vec![
        func("compare", "point_compare", None, false),
        func("equal", "point_equal", None, false),
    ];
    let s = specials(&[(Type::Equal, "point_equal"), (Type::Compare, "point_compare")]);
    let out = run(&functions, &s, None);
    assert_eq!(out.len(), 2);
    assert!(out[0].starts_with("\nimpl PartialOrd for Point {"));
    assert!(out[0].contains("self.compare(other).partial_cmp(&0)"));
    assert_eq!(
        out[1],
        "\nimpl PartialEq for Point {\n    #[inline]\n    fn eq(&self, other: &Self) -> bool {\n        self.equal(other)\n    }\n}\n\nimpl Eq for Point {}\n"
    );
    assert_eq!(out.iter().filter(|f| f.contains("impl PartialEq")).count(), 1);
    assert_eq!(out.iter().filter(|f| f.contains("impl PartialOrd")).count(), 1);
}

#[test]
fn nothing_actionable_writes_nothing() {
    let mut ignored = func("compare", "point_compare", None, false);
    ignored.status = GStatus::Ignore;
    let s = specials(&[(Type::Compare, "point_compare"), (Type::Hash, "point_hash")]);
    assert!(run(&[], &s, None).is_empty());
    assert!(run(&[ignored], &s, None).is_empty());
    assert!(run(&[func("hash", "other_hash", None, false)], &s, None).is_empty());
    assert!(run(&[func("hash", "point_hash", None, false)], &Infos::new(), None).is_empty());
}

#[test]
fn unrecognized_kinds_are_dropped() {
    let s = specials(&[(Type::Copy, "point_copy"), (Type::Free, "point_free"), (Type::Ref, "r"), (Type::Unref, "u")]);
    assert!(!s.has_trait(Type::Copy));
    assert!(s.glib_name(Type::Free).is_none());
    assert!(run(&[func("copy", "point_copy", None, false)], &s, None).is_empty());
}

#[test]
fn version_guard_precedes_declaration() {
    let v = Version { major: 3, minor: 4, patch: 0 };
    let functions = vec![func("hash", "point_hash", Some(v), false)];
    let out = run(&functions, &specials(&[(Type::Hash, "point_hash")]), None);
    assert_eq!(out.len(), 1);
    assert!(out[0].starts_with("\n#[cfg(any(feature = \"v3_4\", feature = \"dox\"))]\nimpl hash::Hash for Point {"));
    let functions = vec![func("hash", "point_hash", None, false)];
    let out = run(&functions, &specials(&[(Type::Hash, "point_hash")]), None);
    assert!(out[0].starts_with("\nimpl hash::Hash for Point {"));
    assert!(!out[0].contains("cfg"));
}

#[test]
fn version_condition_text() {
    assert_eq!(version_condition(None), "");
    assert_eq!(
        version_condition(Some(Version { major: 3, minor: 4, patch: 0 })),
        "#[cfg(any(feature = \"v3_4\", feature = \"dox\"))]\n"
    );
    assert_eq!(
        version_condition(Some(Version { major: 2, minor: 10, patch: 1 })),
        "#[cfg(any(feature = \"v2_10_1\", feature = \"dox\"))]\n"
    );
}

#[test]
fn fallible_display_branches() {
    let s = specials(&[(Type::Display, "point_to_string")]);
    let out = run(&[func("to_str", "point_to_string", None, true)], &s, None);
    assert_eq!(
        out[0],
        "\nimpl fmt::Display for Point {\n    #[inline]\n    fn fmt(&self, f: &mut fmt::Formatter) -> fmt::Result {\n        if let Ok(val) = self.to_str() {\n                f.write_str(val)\n            } else {\n                Err(fmt::Error)\n            }\n    }\n}\n"
    );
}

#[test]
fn infallible_display_writes_once() {
    let s = specials(&[(Type::Display, "point_to_string")]);
    let out = run(&[func("to_str", "point_to_string", None, false)], &s, None);
    assert_eq!(
        out[0],
        "\nimpl fmt::Display for Point {\n    #[inline]\n    fn fmt(&self, f: &mut fmt::Formatter) -> fmt::Result {\n        f.write_str(&self.to_str())\n    }\n}\n"
    );
}

#[test]
fn hash_forwards_to_state() {
    let s = specials(&[(Type::Hash, "point_hash")]);
    let out = run(&[func("hash", "point_hash", None, false)], &s, None);
    assert!(out[0].contains("hash::Hash::hash(&self.hash(), state)"));
}

#[test]
fn trait_qualified_calls() {
    let functions = vec![
        func("compare", "point_compare", None, false),
        func("hash", "point_hash", None, false),
    ];
    let s = specials(&[(Type::Compare, "point_compare"), (Type::Hash, "point_hash")]);
    let out = run(&functions, &s, Some("PointExt"));
    assert_eq!(out.len(), 3);
    assert!(out[0].contains("PointExt::compare(self, other) == 0"));
    assert!(out[1].contains("PointExt::compare(self, other).cmp(&0)"));
    assert!(out[2].contains("hash::Hash::hash(&PointExt::hash(self), state)"));
}

#[test]
fn declarations_come_in_fixed_order() {
    let functions = vec![
        func("hash", "point_hash", None, false),
        func("to_str", "point_to_string", None, false),
        func("equal", "point_equal", None, false),
    ];
    let s = specials(&[(Type::Hash, "point_hash"), (Type::Display, "point_to_string"), (Type::Equal, "point_equal")]);
    let out = run(&functions, &s, None);
    assert_eq!(out.len(), 3);
    assert!(out[0].contains("impl PartialEq for Point"));
    assert!(out[1].contains("impl fmt::Display for Point"));
    assert!(out[2].contains("impl hash::Hash for Point"));
}

#[test]
fn sink_failure_stops_generation() {
    let functions = vec![
        func("point_compare", "point_compare", None, false),
        func("to_str", "point_to_string", None, false),
    ];
    let s = specials(&[(Type::Compare, "point_compare"), (Type::Display, "point_to_string")]);
    let mut w = Buffer::with_limit(1);
    let r = generate(&mut w, "Point", &functions, &s, None);
    assert_eq!(r, Err(BufferFull));
    assert_eq!(w.len(), 1);
    assert_eq!(w.fragment(0), EQ_COMPARE);
    assert_eq!(w.text(), EQ_COMPARE);
}

#[test]
fn buffer_keeps_fragments_in_order() {
    let mut w = Buffer::new();
    w.write_str("a").unwrap();
    w.write_str("bc").unwrap();
    assert_eq!(w.len(), 2);
    assert_eq!(w.text(), "abc");
    let mut full = Buffer::with_limit(0);
    assert_eq!(full.write_str("x"), Err(BufferFull));
    assert_eq!(full.push_fragment("x"), Err(BufferFull));
    assert_eq!(full.len(), 0);
}

#[test]
fn calls_with_and_without_trait() {
    assert_eq!(generate_call("f", &[], None), "self.f()");
    assert_eq!(generate_call("f", &["a", "b"], None), "self.f(a, b)");
    assert_eq!(generate_call("f", &[], Some("T")), "T::f(self)");
    assert_eq!(generate_call("f", &["a", "b"], Some("T")), "T::f(self, a, b)");
}

#[test]
fn lookup_skips_ignored_functions() {
    let mut first = func("first", "point_equal", None, false);
    first.status = GStatus::Ignore;
    let functions = vec![first, func("second", "point_equal", None, false), func("third", "point_equal", None, false)];
    assert_eq!(lookup(&functions, "point_equal").unwrap().name, "second");
    assert!(lookup(&functions, "point_hash").is_none());
}

#[test]
fn registering_a_kind_again_replaces_it() {
    let mut s = Infos::new();
    assert!(!s.has_trait(Type::Hash));
    s.insert(Type::Hash, "old_hash".to_string());
    s.insert(Type::Hash, "point_hash".to_string());
    assert!(s.has_trait(Type::Hash));
    assert_eq!(s.glib_name(Type::Hash).unwrap(), "point_hash");
    let out = run(&[func("hash", "point_hash", None, false)], &s, None);
    assert_eq!(out.len(), 1);
}

#[test]
fn failure_on_first_declaration_writes_nothing() {
    let functions = vec![func("point_compare", "point_compare", None, false)];
    let s = specials(&[(Type::Compare, "point_compare")]);
    let mut w = Buffer::with_limit(0);
    assert_eq!(generate(&mut w, "Point", &functions, &s, None), Err(BufferFull));
    assert_eq!(w.len(), 0);
    let mut w = Buffer::with_limit(2);
    assert_eq!(generate(&mut w, "Point", &functions, &s, None), Ok(()));
    assert_eq!(w.len(), 2);
}

#[test]
fn inactive_kind_changes_nothing() {
    let functions = vec![func("point_compare", "point_compare", None, false)];
    let with_kind = specials(&[(Type::Compare, "point_compare"), (Type::Display, "point_to_string")]);
    let without_kind = specials(&[(Type::Compare, "point_compare")]);
    assert_eq!(run(&functions, &with_kind, None), run(&functions, &without_kind, None));
}
