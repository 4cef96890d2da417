use grr::database::{TypeDatabase, TypeDatabaseError};
use grr::enrich::EnrichError;
use grr::model::{
    Class, ClassField, Document, Field, Interface, Library, Method, OpaqueRecord, Parameter,
    Property, ReadWrite, Record, RegularParameter, TypeInfo,
};

fn ty(name: &str) -> TypeInfo {
    TypeInfo { name: name.to_owned(), c_type: None, is_const: false, is_contained: false, params: vec![] }
}

fn ty_with(name: &str, is_const: bool, is_contained: bool) -> TypeInfo {
    TypeInfo { name: name.to_owned(), c_type: None, is_const, is_contained, params: vec![] }
}

fn library(name: &str) -> Library {
    Library {
        name: name.to_owned(),
        version: "1.0".to_owned(),
        c_id_prefix: "Gtk".to_owned(),
        c_sym_prefix: "gtk_".to_owned(),
        shared_lib: None,
        classes: vec![],
        interfaces: vec![],
        opaque_records: vec![],
        records: vec![],
    }
}

fn class(name: &str) -> Class {
    Class {
        name: name.to_owned(),
        c_name: None,
        parent: Class::default_parent(),
        abstr: false,
        parent_and_priv_fields: Class::default_parent_and_priv_fields(),
        properties: vec![],
        fields: vec![],
        class_fields: vec![],
        methods: vec![],
    }
}

fn interface(name: &str) -> Interface {
    Interface { name: name.to_owned(), c_name: None, properties: vec![], methods: vec![] }
}

fn field(name: &str, t: TypeInfo) -> Field {
    Field { name: name.to_owned(), private: Field::default_private(), rw: Field::default_read_write(), type_info: t }
}

fn property(name: &str, rw: ReadWrite, t: TypeInfo) -> Property {
    Property { name: name.to_owned(), rw, type_info: t, getter_name: None, setter_name: None }
}

// ----------------------------------------------------------------------
// Defaults
// ----------------------------------------------------------------------

#[test]
fn defaults() {
    assert_eq!(Class::default_parent(), "GObject.Object");
    assert!(Class::default_parent_and_priv_fields());
    assert!(Field::default_private());
    assert_eq!(Field::default_read_write(), ReadWrite::Neither);
    assert_eq!(ReadWrite::default(), ReadWrite::ReadWrite);
    assert_eq!(Document::default().libraries.len(), 0);
    assert_eq!(TypeDatabase::default().library_to_type_to_c().len(), 0);
    assert_eq!(TypeDatabase::default().c_to_library_and_type().len(), 0);
}

#[test]
fn void_type() {
    let v = TypeInfo::make_void();
    assert_eq!(v.name, "none");
    assert_eq!(v.c_type.as_deref(), Some("void"));
    assert!(!v.is_const);
    assert!(!v.is_contained);
    assert!(v.params.is_empty());
}

#[test]
fn type_clone_is_equal() {
    let mut t = ty("GLib.List");
    t.params.push(ty_with("utf8", true, false));
    t.c_type = Some("GList*".to_owned());
    assert_eq!(t.clone(), t);
}

// ----------------------------------------------------------------------
// Database
// ----------------------------------------------------------------------

#[test]
fn insert_and_read_back() {
    let mut db = TypeDatabase::new();
    assert_eq!(db.insert("Gtk", "Widget", "GtkWidget"), Ok(()));
    assert_eq!(db.insert("Gtk", "Window", "GtkWindow"), Ok(()));
    let fwd = db.library_to_type_to_c();
    assert_eq!(fwd.len(), 2);
    assert_eq!(fwd[0].library, "Gtk");
    assert_eq!(fwd[0].typename, "Widget");
    assert_eq!(fwd[0].c_type, "GtkWidget");
    let back = db.c_to_library_and_type();
    assert_eq!(back.len(), 2);
    assert_eq!(back[1].c_type, "GtkWindow");
    assert_eq!(back[1].typename, "Window");
}

#[test]
fn insert_duplicate_type() {
    let mut db = TypeDatabase::new();
    db.insert("Gtk", "Widget", "GtkWidget").unwrap();
    let r = db.insert("Gtk", "Widget", "GtkOther");
    assert_eq!(
        r,
        Err(TypeDatabaseError::DuplicateType {
            library: "Gtk".to_owned(),
            typename: "Widget".to_owned(),
            one_c_type: "GtkWidget".to_owned(),
            other_c_type: "GtkOther".to_owned(),
        })
    );
    // nothing changed
    assert_eq!(db.library_to_type_to_c().len(), 1);
    assert_eq!(db.c_to_library_and_type().len(), 1);
}

#[test]
fn insert_duplicate_c_type() {
    let mut db = TypeDatabase::new();
    db.insert("Gtk", "Widget", "GtkWidget").unwrap();
    let r = db.insert("Gdk", "Widget", "GtkWidget");
    assert_eq!(
        r,
        Err(TypeDatabaseError::DuplicateCType {
            one_library: "Gtk".to_owned(),
            one_type: "Widget".to_owned(),
            other_library: "Gdk".to_owned(),
            other_type: "Widget".to_owned(),
            c_type: "GtkWidget".to_owned(),
        })
    );
    // the forward direction keeps the new pair, the backward one does not
    assert_eq!(db.library_to_type_to_c().len(), 2);
    assert_eq!(db.c_to_library_and_type().len(), 1);
}

#[test]
fn entries_come_in_key_order() {
    let mut db = TypeDatabase::new();
    db.insert("Gtk", "Window", "GtkWindow").unwrap();
    db.insert("Gdk", "Window", "GdkWindow").unwrap();
    db.insert("Gtk", "Box", "GtkBox").unwrap();
    db.insert("Gtk", "Bo", "AtkBo").unwrap();
    db.insert("Gtk", "\u{e9}t\u{e9}", "Zz").unwrap();
    let fwd: Vec<(&str, &str)> =
        db.library_to_type_to_c().iter().map(|e| (e.library.as_str(), e.typename.as_str())).collect();
    assert_eq!(fwd, vec![("Gdk", "Window"), ("Gtk", "Bo"), ("Gtk", "Box"), ("Gtk", "Window"), ("Gtk", "\u{e9}t\u{e9}")]);
    let back: Vec<&str> = db.c_to_library_and_type().iter().map(|e| e.c_type.as_str()).collect();
    assert_eq!(back, vec!["AtkBo", "GdkWindow", "GtkBox", "GtkWindow", "Zz"]);
    let mut sorted = back.clone();
    sorted.sort();
    assert_eq!(back, sorted);
}

#[test]
fn same_type_name_in_two_libraries() {
    let mut db = TypeDatabase::new();
    assert_eq!(db.insert("Gtk", "Widget", "GtkWidget"), Ok(()));
    assert_eq!(db.insert("Hdy", "Widget", "HdyWidget"), Ok(()));
}

// ----------------------------------------------------------------------
// Collecting types
// ----------------------------------------------------------------------

#[test]
fn collect_gives_default_c_names() {
    let mut lib = library("Gtk");
    lib.interfaces.push(interface("Buildable"));
    let mut c = class("Button");
    c.c_name = Some("GtkButtonImpl".to_owned());
    lib.classes.push(c);
    lib.records.push(Record { name: "Border".to_owned(), c_name: "GtkBorder".to_owned(), fields: vec![] });
    lib.opaque_records.push(OpaqueRecord { name: "Secret".to_owned(), c_name: None });
    let mut doc = Document { libraries: vec![lib] };
    let db = TypeDatabase::try_from_mut_document(&mut doc).unwrap();
    let lib = &doc.libraries[0];
    assert_eq!(lib.interfaces[0].c_name.as_deref(), Some("GtkBuildable"));
    assert_eq!(lib.classes[0].c_name.as_deref(), Some("GtkButtonImpl"));
    assert_eq!(lib.opaque_records[0].c_name.as_deref(), Some("GtkSecret"));
    let fwd = db.library_to_type_to_c();
    let order: Vec<&str> = fwd.iter().map(|e| e.typename.as_str()).collect();
    assert_eq!(order, vec!["Border", "Buildable", "Button", "Secret"]);
}

#[test]
fn collect_reports_duplicate() {
    let mut lib = library("Gtk");
    lib.interfaces.push(interface("Thing"));
    lib.classes.push(class("Thing"));
    lib.classes.push(class("Later"));
    let mut doc = Document { libraries: vec![lib] };
    let r = TypeDatabase::try_from_mut_document(&mut doc);
    assert_eq!(
        r.err(),
        Some(TypeDatabaseError::DuplicateType {
            library: "Gtk".to_owned(),
            typename: "Thing".to_owned(),
            one_c_type: "GtkThing".to_owned(),
            other_c_type: "GtkThing".to_owned(),
        })
    );
    // the class that failed got its name; the one after it did not
    assert_eq!(doc.libraries[0].classes[0].c_name.as_deref(), Some("GtkThing"));
    assert_eq!(doc.libraries[0].classes[1].c_name, None);
}

// ----------------------------------------------------------------------
// Enrichment
// ----------------------------------------------------------------------

fn db_with_types() -> TypeDatabase {
    let mut db = TypeDatabase::new();
    db.insert("Gtk", "Widget", "GtkWidget").unwrap();
    db.insert("Gdk", "Event", "GdkEvent").unwrap();
    db
}

fn enrich_one(t: TypeInfo) -> (Result<(), EnrichError>, TypeInfo) {
    let db = db_with_types();
    let mut lib = library("Gtk");
    let mut c = class("Box");
    c.fields.push(field("f", t));
    lib.classes.push(c);
    let mut doc = Document { libraries: vec![lib] };
    let r = db.enrich_document(&mut doc);
    let t = doc.libraries.remove(0).classes.remove(0).fields.remove(0).type_info;
    (r, t)
}

#[test]
fn enrich_universal_types() {
    let (r, t) = enrich_one(ty("GType"));
    assert_eq!(r, Ok(()));
    assert_eq!(t.c_type.as_deref(), Some("GType"));

    let (r, t) = enrich_one(ty("void"));
    assert_eq!(r, Ok(()));
    assert_eq!(t.name, "none");
    assert_eq!(t.c_type.as_deref(), Some("void"));

    let (_, t) = enrich_one(ty_with("utf8", true, false));
    assert_eq!(t.c_type.as_deref(), Some("const gchar*"));
    let (_, t) = enrich_one(ty("utf8"));
    assert_eq!(t.c_type.as_deref(), Some("gchar*"));
}

#[test]
fn enrich_local_types() {
    let (_, t) = enrich_one(ty("Widget"));
    assert_eq!(t.c_type.as_deref(), Some("GtkWidget*"));
    let (_, t) = enrich_one(ty_with("Widget", true, true));
    assert_eq!(t.c_type.as_deref(), Some("GtkWidget"));
}

#[test]
fn enrich_global_types() {
    let (_, t) = enrich_one(ty("GLib.List"));
    assert_eq!(t.c_type.as_deref(), Some("GList*"));
    let (_, t) = enrich_one(ty_with("GLib.List", false, true));
    assert_eq!(t.c_type.as_deref(), Some("GList"));
    let (_, t) = enrich_one(ty("GObject.Object"));
    assert_eq!(t.c_type.as_deref(), Some("GObject*"));
    let (_, t) = enrich_one(ty_with("GObject.Object", false, true));
    assert_eq!(t.c_type.as_deref(), Some("GObject"));
    let (_, t) = enrich_one(ty_with("Gdk.Event", true, false));
    assert_eq!(t.c_type.as_deref(), Some("const GdkEvent*"));
    let (_, t) = enrich_one(ty_with("Gdk.Event", false, true));
    assert_eq!(t.c_type.as_deref(), Some("GdkEvent"));
}

#[test]
fn enrich_errors() {
    let (r, t) = enrich_one(ty("Missing"));
    assert_eq!(r, Err(EnrichError::UnknownLocalUniversalType { name: "Missing".to_owned() }));
    assert_eq!(t.c_type, None);
    let (r, _) = enrich_one(ty("GLib.Hash"));
    assert_eq!(r, Err(EnrichError::UnknownGlobalType { name: "GLib.Hash".to_owned() }));
    let (r, _) = enrich_one(ty("GObject.Thing"));
    assert_eq!(r, Err(EnrichError::UnknownGlobalType { name: "GObject.Thing".to_owned() }));
    let (r, _) = enrich_one(ty("Gdk.Missing"));
    assert_eq!(r, Err(EnrichError::UnknownGlobalType { name: "Gdk.Missing".to_owned() }));
    let (r, _) = enrich_one(ty("A.B.C"));
    assert_eq!(r, Err(EnrichError::NameTooManyDots { name: "A.B.C".to_owned(), dot_count: 2 }));
}

#[test]
fn enrich_keeps_given_c_type() {
    let mut t = ty("Whatever.Not.Known");
    t.c_type = Some("int".to_owned());
    t.params.push(ty("Missing"));
    let (r, t2) = enrich_one(t.clone());
    assert_eq!(r, Ok(()));
    assert_eq!(t2, t);
}

#[test]
fn enrich_parameters_in_order() {
    let mut t = ty("GLib.List");
    t.params.push(ty("Widget"));
    t.params.push(ty("Missing"));
    t.params.push(ty("utf8"));
    let (r, t) = enrich_one(t);
    assert_eq!(r, Err(EnrichError::UnknownLocalUniversalType { name: "Missing".to_owned() }));
    assert_eq!(t.c_type.as_deref(), Some("GList*"));
    assert_eq!(t.params[0].c_type.as_deref(), Some("GtkWidget*"));
    assert_eq!(t.params[1].c_type, None);
    assert_eq!(t.params[2].c_type, None);
}

#[test]
fn enrich_methods_and_records() {
    let db = db_with_types();
    let mut lib = library("Gtk");
    let mut iface = interface("Buildable");
    iface.methods.push(Method {
        name: "add".to_owned(),
        c_name: None,
        params: vec![
            Parameter::Instance,
            Parameter::Regular(RegularParameter { name: "w".to_owned(), type_info: ty("Widget") }),
        ],
        return_type: ty("void"),
        getter_for_property: None,
        setter_for_property: None,
    });
    lib.interfaces.push(iface);
    lib.records.push(Record {
        name: "R".to_owned(),
        c_name: "GtkR".to_owned(),
        fields: vec![field("x", ty("Gdk.Event"))],
    });
    let mut c = class("Box");
    c.class_fields.push(ClassField { name: "cf".to_owned(), type_info: ty("GType") });
    lib.classes.push(c);
    let mut doc = Document { libraries: vec![lib] };
    assert_eq!(db.enrich_document(&mut doc), Ok(()));
    let lib = &doc.libraries[0];
    let m = &lib.interfaces[0].methods[0];
    match &m.params[1] {
        Parameter::Regular(p) => assert_eq!(p.type_info.c_type.as_deref(), Some("GtkWidget*")),
        Parameter::Instance => panic!("expected a regular parameter"),
    }
    assert_eq!(m.return_type.name, "none");
    assert_eq!(m.return_type.c_type.as_deref(), Some("void"));
    assert_eq!(lib.records[0].fields[0].type_info.c_type.as_deref(), Some("GdkEvent*"));
    assert_eq!(lib.classes[0].class_fields[0].type_info.c_type.as_deref(), Some("GType"));
}

#[test]
fn enrich_twice_changes_nothing() {
    let db = db_with_types();
    let mut lib = library("Gtk");
    let mut c = class("Box");
    c.properties.push(property("child", ReadWrite::ReadWrite, ty("Widget")));
    c.fields.push(field("v", ty("void")));
    lib.classes.push(c);
    let mut doc = Document { libraries: vec![lib] };
    assert_eq!(db.enrich_document(&mut doc), Ok(()));
    let once = doc.clone();
    assert_eq!(db.enrich_document(&mut doc), Ok(()));
    assert_eq!(doc, once);
}

#[test]
fn error_messages() {
    let e = TypeDatabaseError::DuplicateType {
        library: "Gtk".to_owned(),
        typename: "Button".to_owned(),
        one_c_type: "GtkButton".to_owned(),
        other_c_type: "GtkButton2".to_owned(),
    };
    assert_eq!(e.to_string(), "duplicate type \"Gtk\".\"Button\", maps to C types \"GtkButton\" and \"GtkButton2\"");
    let e = TypeDatabaseError::DuplicateCType {
        one_library: "Gtk".to_owned(),
        one_type: "Button".to_owned(),
        other_library: "Gdk".to_owned(),
        other_type: "Knob".to_owned(),
        c_type: "GtkButton".to_owned(),
    };
    assert_eq!(e.to_string(), "duplicate C type \"GtkButton\", maps to types \"Gtk\".\"Button\" and \"Gdk\".\"Knob\"");
    let e = EnrichError::NameTooManyDots { name: "a.b.c".to_owned(), dot_count: 2 };
    assert_eq!(e.to_string(), "name \"a.b.c\" has too many dots (2)");
    let e = EnrichError::NameTooManyDots { name: "x\"y".to_owned(), dot_count: 10 };
    assert_eq!(e.to_string(), "name \"x\\\"y\" has too many dots (10)");
    let e = EnrichError::UnknownLocalUniversalType { name: "Widget".to_owned() };
    assert_eq!(e.to_string(), "failed to resolve local/universal type \"Widget\"");
    let e = EnrichError::UnknownGlobalType { name: "Gtk.Widget".to_owned() };
    assert_eq!(e.to_string(), "failed to resolve global type \"Gtk.Widget\"");
}
