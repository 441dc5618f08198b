use gir::env::Env;
use gir::gobjects::{GObject, GObjects, GStatus};
use gir::imports::Imports;
use gir::library::{ClassHierarchy, Library, Namespace, Supertypes, TypeId, TypeInfo};
use gir::supertypes::{analyze, dependencies};

fn type_info(name: &str, used: Option<Vec<&str>>) -> TypeInfo {
    TypeInfo {
        name: name.to_string(),
        used_types: used.map(|v| v.into_iter().map(|s| s.to_string()).collect()),
    }
}

fn status(name: &str, status: GStatus) -> GObject {
    GObject { name: name.to_string(), status }
}

const OBJECT: TypeId = TypeId { ns_id: 0, id: 0 };
const WIDGET: TypeId = TypeId { ns_id: 1, id: 0 };
const BASE: TypeId = TypeId { ns_id: 1, id: 1 };
const CONTAINER: TypeId = TypeId { ns_id: 1, id: 2 };
const BIN: TypeId = TypeId { ns_id: 1, id: 3 };

fn widget_env(with_base_type: bool) -> Env {
    let gobject = Namespace {
        name: if with_base_type { "GObject" } else { "Other" }.to_string(),
        types: vec![type_info("Object", None)],
    };
    let gtk = Namespace {
        name: "Gtk".to_string(),
        types: vec![
            type_info("Widget", Some(vec!["Widget"])),
            type_info("Base", Some(vec!["Base", "BaseExt"])),
            type_info("Container", Some(vec!["Container"])),
            type_info("Bin", None),
        ],
    };
    let mut config = GObjects::new();
    config.insert(status("Gtk.Base", GStatus::Generate));
    config.insert(status("Gtk.Container", GStatus::Manual));
    config.insert(status("Gtk.Bin", GStatus::Generate));
    Env {
        library: Library { namespaces: vec![gobject, gtk] },
        class_hierarchy: ClassHierarchy {
            entries: vec![
                Supertypes { type_id: WIDGET, supertypes: vec![BASE, OBJECT, CONTAINER] },
                Supertypes { type_id: BIN, supertypes: vec![CONTAINER, WIDGET, OBJECT] },
                Supertypes { type_id: BASE, supertypes: vec![OBJECT] },
            ],
        },
        config,
    }
}

#[test]
fn widget_ancestors_skip_universal_base() {
    let env = widget_env(true);
    let mut imports = Imports::new();
    let parents = analyze(&env, WIDGET, &mut imports);
    assert_eq!(parents.len(), 2);
    assert_eq!(parents[0].type_id, BASE);
    assert_eq!(parents[0].name, "Base");
    assert_eq!(parents[0].status, GStatus::Generate);
    assert_eq!(parents[1].type_id, CONTAINER);
    assert_eq!(parents[1].name, "Container");
    assert_eq!(parents[1].status, GStatus::Manual);
}

#[test]
fn ancestors_never_hold_universal_base() {
    let env = widget_env(true);
    for t in [WIDGET, BASE, CONTAINER, BIN, OBJECT] {
        let mut imports = Imports::new();
        let parents = analyze(&env, t, &mut imports);
        assert!(parents.iter().all(|p| p.type_id != OBJECT));
    }
}

#[test]
fn unlisted_status_defaults_to_ignore() {
    let env = widget_env(true);
    let mut imports = Imports::new();
    let parents = analyze(&env, BIN, &mut imports);
    assert_eq!(parents.len(), 2);
    assert_eq!(parents[1].type_id, WIDGET);
    assert_eq!(parents[1].status, GStatus::Ignore);
}

#[test]
fn handled_main_namespace_ancestors_bring_imports() {
    let env = widget_env(true);
    let mut imports = Imports::new();
    imports.add("std::fmt");
    analyze(&env, WIDGET, &mut imports);
    assert!(imports.contains("std::fmt"));
    assert!(imports.contains("crate::Base"));
    assert!(imports.contains("crate::BaseExt"));
    assert!(imports.contains("crate::Container"));
    assert_eq!(imports.names().len(), 4);
}

#[test]
fn ignored_ancestor_brings_no_import() {
    let env = widget_env(true);
    let mut imports = Imports::new();
    analyze(&env, BIN, &mut imports);
    assert!(imports.contains("crate::Container"));
    assert!(!imports.contains("crate::Widget"));
    assert_eq!(imports.names().len(), 1);
}

#[test]
fn leaf_type_has_no_ancestors() {
    let env = widget_env(true);
    let mut imports = Imports::new();
    assert!(analyze(&env, CONTAINER, &mut imports).is_empty());
    assert!(dependencies(&env, CONTAINER).is_empty());
    assert!(imports.names().is_empty());
}

#[test]
fn dependencies_are_generated_ancestors() {
    let env = widget_env(true);
    assert_eq!(dependencies(&env, WIDGET), vec![BASE]);
    assert_eq!(dependencies(&env, BIN), Vec::<TypeId>::new());
    let mut imports = Imports::new();
    for t in [WIDGET, BIN, BASE] {
        let parents = analyze(&env, t, &mut imports);
        for d in dependencies(&env, t) {
            let p = parents.iter().find(|p| p.type_id == d).unwrap();
            assert_eq!(p.status, GStatus::Generate);
        }
    }
}

#[test]
fn missing_universal_base_keeps_every_supertype() {
    let mut env = widget_env(false);
    env.config.insert(status("Other.Object", GStatus::Generate));
    assert_eq!(TypeId::tid_none(), OBJECT);
    assert_eq!(env.library.find_type("GObject", "Object"), None);
    assert_eq!(dependencies(&env, WIDGET), vec![BASE, OBJECT]);
    let mut imports = Imports::new();
    let parents = analyze(&env, WIDGET, &mut imports);
    let ids: Vec<TypeId> = parents.iter().map(|p| p.type_id).collect();
    assert_eq!(ids, vec![BASE, OBJECT, CONTAINER]);
    assert_eq!(parents[1].name, "Object");
    assert_eq!(parents[1].status, GStatus::Generate);
}

#[test]
fn full_and_local_names() {
    let env = widget_env(true);
    assert_eq!(BASE.full_name(&env.library), "Gtk.Base");
    assert_eq!(env.library.local_name(CONTAINER), "Container");
    assert_eq!(env.library.find_type("Gtk", "Container"), Some(CONTAINER));
    assert_eq!(env.library.find_type("Gtk", "Nothing"), None);
    assert_eq!(env.type_status("Gtk.Bin"), GStatus::Generate);
    assert_eq!(env.type_status("Gtk.Widget"), GStatus::Ignore);
    assert_eq!(env.class_hierarchy.supertypes(BASE), vec![OBJECT]);
    assert!(env.class_hierarchy.supertypes(CONTAINER).is_empty());
}
