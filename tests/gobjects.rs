use gir::gobjects::{add_status_shorthand, object_from_entry, GObject, GObjects, GStatus};
use gir::imports::Imports;
use gir::text::{decimal, str_eq};

#[test]
fn status_names_parse() {
    assert_eq!(GStatus::parse("manual"), Ok(GStatus::Manual));
    assert_eq!(GStatus::parse("generate"), Ok(GStatus::Generate));
    assert_eq!(GStatus::parse("comment"), Ok(GStatus::Comment));
    assert_eq!(GStatus::parse("ignore"), Ok(GStatus::Ignore));
    assert_eq!(GStatus::parse("Generate"), Err("Wrong object status".to_string()));
    assert_eq!(GStatus::parse(""), Err("Wrong object status".to_string()));
}

#[test]
fn status_defaults_and_predicates() {
    assert_eq!(GStatus::default(), GStatus::Ignore);
    assert!(GStatus::Ignore.ignored());
    assert!(!GStatus::Comment.ignored());
    assert!(GStatus::Generate.need_generate());
    assert!(!GStatus::Manual.need_generate());
    let d = GObject::default();
    assert_eq!(d.name, "Default");
    assert_eq!(d.status, GStatus::Ignore);
}

#[test]
fn object_entries() {
    let o = object_from_entry("Gtk.Widget".to_string(), Some("generate"));
    assert_eq!(o.name, "Gtk.Widget");
    assert_eq!(o.status, GStatus::Generate);
    assert_eq!(object_from_entry("A".to_string(), Some("bogus")).status, GStatus::Ignore);
    assert_eq!(object_from_entry("A".to_string(), None).status, GStatus::Ignore);
}

#[test]
fn registry_insert_replaces() {
    let mut objects = GObjects::new();
    assert!(!objects.contains("Gtk.Widget"));
    assert_eq!(objects.status("Gtk.Widget"), GStatus::Ignore);
    objects.insert(GObject { name: "Gtk.Widget".to_string(), status: GStatus::Generate });
    objects.insert(GObject { name: "Gtk.Label".to_string(), status: GStatus::Comment });
    assert_eq!(objects.status("Gtk.Widget"), GStatus::Generate);
    objects.insert(GObject { name: "Gtk.Widget".to_string(), status: GStatus::Manual });
    assert_eq!(objects.status("Gtk.Widget"), GStatus::Manual);
    assert_eq!(objects.status("Gtk.Label"), GStatus::Comment);
    assert!(objects.contains("Gtk.Label"));
}

#[test]
fn imports_are_kept_once() {
    let mut imports = Imports::new();
    imports.add("crate::Widget");
    imports.add("crate::Widget");
    imports.add("glib");
    let names = imports.names();
    assert_eq!(names.len(), 2);
    assert!(names.contains(&"crate::Widget".to_string()));
    assert!(names.contains(&"glib".to_string()));
    assert!(imports.contains("glib"));
    assert!(!imports.contains("crate::Label"));
}

#[test]
fn text_helpers() {
    assert_eq!(decimal(0), "0");
    assert_eq!(decimal(7), "7");
    assert_eq!(decimal(34), "34");
    assert_eq!(decimal(65535), "65535");
    assert!(str_eq("abc", "abc"));
    assert!(!str_eq("abc", "abd"));
    assert!(!str_eq("abc", "ab"));
    assert!(str_eq("", ""));
}

#[test]
fn status_from_str() {
    assert_eq!("comment".parse::<GStatus>(), Ok(GStatus::Comment));
    assert!("nothing".parse::<GStatus>().is_err());
}

#[test]
fn shorthand_adds_ignored_names() {
    let mut objects = GObjects::new();
    objects.insert(GObject { name: "Gtk.Widget".to_string(), status: GStatus::Generate });
    let names = vec!["Gtk.Label".to_string(), "Gtk.Entry".to_string()];
    assert_eq!(add_status_shorthand(&mut objects, &names), Ok(()));
    assert!(objects.contains("Gtk.Label"));
    assert_eq!(objects.status("Gtk.Entry"), GStatus::Ignore);
    assert_eq!(objects.status("Gtk.Widget"), GStatus::Generate);
}

#[test]
fn shorthand_rejects_defined_name() {
    let mut objects = GObjects::new();
    objects.insert(GObject { name: "Gtk.Widget".to_string(), status: GStatus::Generate });
    let names = vec!["Gtk.Label".to_string(), "Gtk.Widget".to_string(), "Gtk.Entry".to_string()];
    assert_eq!(add_status_shorthand(&mut objects, &names), Err("Gtk.Widget".to_string()));
    assert_eq!(objects.status("Gtk.Widget"), GStatus::Generate);
    let names = vec!["A".to_string(), "A".to_string()];
    assert_eq!(add_status_shorthand(&mut GObjects::new(), &names), Err("A".to_string()));
}

#[test]
fn status_debug_names_round_trip() {
    for st in [GStatus::Manual, GStatus::Generate, GStatus::Comment, GStatus::Ignore] {
        assert_eq!(format!("{:?}", st).to_ascii_lowercase().parse::<GStatus>(), Ok(st));
    }
    assert_eq!("Generate".parse::<GStatus>(), Err("Wrong object status".to_string()));
}
