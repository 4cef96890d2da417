use grr::model::{Class, Document, Field, Interface, Library, Method, Parameter, Property, ReadWrite, RegularParameter, TypeInfo};
use grr::realize::{realize_parent_and_priv_fields, realize_property_getters_and_setters};

fn ty(name: &str) -> TypeInfo {
    TypeInfo { name: name.to_owned(), c_type: None, is_const: false, is_contained: false, params: vec![] }
}

fn library() -> Library {
    Library {
        name: "Gtk".to_owned(),
        version: "4.0".to_owned(),
        c_id_prefix: "Gtk".to_owned(),
        c_sym_prefix: "gtk_".to_owned(),
        shared_lib: None,
        classes: vec![],
        interfaces: vec![],
        opaque_records: vec![],
        records: vec![],
    }
}

fn class(name: &str) -> Class {
    Class {
        name: name.to_owned(),
        c_name: None,
        parent: Class::default_parent(),
        abstr: false,
        parent_and_priv_fields: Class::default_parent_and_priv_fields(),
        properties: vec![],
        fields: vec![],
        class_fields: vec![],
        methods: vec![],
    }
}

fn property(name: &str, rw: ReadWrite) -> Property {
    Property { name: name.to_owned(), rw, type_info: ty("gint"), getter_name: None, setter_name: None }
}

fn doc_with(lib: Library) -> Document {
    Document { libraries: vec![lib] }
}

// ----------------------------------------------------------------------
// Parent and private fields
// ----------------------------------------------------------------------

#[test]
fn parent_and_priv_fields_are_prepended() {
    let mut c = class("Button");
    c.parent = "Gtk.Widget".to_owned();
    c.fields.push(Field { name: "label".to_owned(), private: false, rw: ReadWrite::ReadOnly, type_info: ty("utf8") });
    let mut lib = library();
    lib.classes.push(c);
    let mut doc = doc_with(lib);
    realize_parent_and_priv_fields(&mut doc);

    let lib = &doc.libraries[0];
    let c = &lib.classes[0];
    assert!(!c.parent_and_priv_fields);
    assert_eq!(c.fields.len(), 3);
    assert_eq!(c.fields[0].name, "parent");
    assert!(c.fields[0].private);
    assert_eq!(c.fields[0].rw, ReadWrite::WriteConstruct);
    assert_eq!(c.fields[0].type_info.name, "Gtk.Widget");
    assert!(c.fields[0].type_info.is_contained);
    assert_eq!(c.fields[1].name, "priv");
    assert!(c.fields[1].private);
    assert_eq!(c.fields[1].rw, ReadWrite::WriteConstruct);
    assert_eq!(c.fields[1].type_info.name, "ButtonPrivate");
    assert!(!c.fields[1].type_info.is_contained);
    assert_eq!(c.fields[2].name, "label");
    assert_eq!(lib.opaque_records.len(), 1);
    assert_eq!(lib.opaque_records[0].name, "ButtonPrivate");
    assert_eq!(lib.opaque_records[0].c_name, None);
}

#[test]
fn classes_without_request_are_untouched() {
    let mut c = class("Plain");
    c.parent_and_priv_fields = false;
    let mut lib = library();
    lib.classes.push(c);
    lib.classes.push(class("Other"));
    let mut doc = doc_with(lib);
    realize_parent_and_priv_fields(&mut doc);
    let lib = &doc.libraries[0];
    assert!(lib.classes[0].fields.is_empty());
    assert_eq!(lib.classes[1].fields.len(), 2);
    assert_eq!(lib.opaque_records.len(), 1);
    assert_eq!(lib.opaque_records[0].name, "OtherPrivate");
}

#[test]
fn parent_and_priv_fields_twice_changes_nothing() {
    let mut lib = library();
    lib.classes.push(class("Button"));
    lib.classes.push(class("Label"));
    let mut once = doc_with(lib);
    realize_parent_and_priv_fields(&mut once);
    let mut lib2 = library();
    lib2.classes.push(class("Button"));
    lib2.classes.push(class("Label"));
    let mut twice = doc_with(lib2);
    realize_parent_and_priv_fields(&mut twice);
    realize_parent_and_priv_fields(&mut twice);
    assert_eq!(once, twice);
    assert_eq!(twice.libraries[0].opaque_records.len(), 2);
}

// ----------------------------------------------------------------------
// Accessors
// ----------------------------------------------------------------------

fn accessor_names(rw: ReadWrite) -> Vec<String> {
    let mut c = class("Button");
    c.properties.push(property("label", rw));
    let mut lib = library();
    lib.classes.push(c);
    let mut doc = doc_with(lib);
    realize_property_getters_and_setters(&mut doc);
    doc.libraries[0].classes[0].methods.iter().map(|m| m.name.clone()).collect()
}

#[test]
fn accessors_follow_access() {
    assert_eq!(accessor_names(ReadWrite::Neither), Vec::<String>::new());
    assert_eq!(accessor_names(ReadWrite::ReadOnly), vec!["get_label"]);
    assert_eq!(accessor_names(ReadWrite::ReadConstruct), vec!["get_label"]);
    assert_eq!(accessor_names(ReadWrite::ReadWrite), vec!["get_label", "set_label"]);
    assert_eq!(accessor_names(ReadWrite::ReadWriteConstruct), vec!["get_label", "set_label"]);
    assert_eq!(accessor_names(ReadWrite::WriteOnly), vec!["set_label"]);
    assert_eq!(accessor_names(ReadWrite::WriteConstruct), vec!["set_label"]);
}

#[test]
fn getter_and_setter_shapes() {
    let mut c = class("MailWindow");
    c.methods.push(Method {
        name: "open".to_owned(),
        c_name: None,
        params: vec![],
        return_type: TypeInfo::make_void(),
        getter_for_property: None,
        setter_for_property: None,
    });
    c.properties.push(property("title", ReadWrite::ReadWrite));
    let mut lib = library();
    lib.classes.push(c);
    let mut doc = doc_with(lib);
    realize_property_getters_and_setters(&mut doc);
    let methods = &doc.libraries[0].classes[0].methods;
    assert_eq!(methods.len(), 3);
    assert_eq!(methods[0].name, "open");

    let getter = &methods[1];
    assert_eq!(getter.name, "get_title");
    // the library prefix and the snake-case type name, with no separator before the method name
    assert_eq!(getter.c_name.as_deref(), Some("gtk_mail_windowget_title"));
    assert_eq!(getter.params, vec![Parameter::Instance]);
    assert_eq!(getter.return_type, ty("gint"));
    assert_eq!(getter.getter_for_property.as_deref(), Some("title"));
    assert_eq!(getter.setter_for_property, None);

    let setter = &methods[2];
    assert_eq!(setter.name, "set_title");
    assert_eq!(setter.c_name.as_deref(), Some("gtk_mail_windowset_title"));
    assert_eq!(
        setter.params,
        vec![Parameter::Instance, Parameter::Regular(RegularParameter { name: "title".to_owned(), type_info: ty("gint") })]
    );
    assert_eq!(setter.return_type, TypeInfo::make_void());
    assert_eq!(setter.getter_for_property.as_deref(), Some("title"));
    assert_eq!(setter.setter_for_property, None);
}

#[test]
fn interface_accessors() {
    let mut lib = library();
    lib.interfaces.push(Interface {
        name: "Sortable".to_owned(),
        c_name: None,
        properties: vec![property("order", ReadWrite::ReadOnly), property("key", ReadWrite::WriteOnly)],
        methods: vec![],
    });
    let mut doc = doc_with(lib);
    realize_property_getters_and_setters(&mut doc);
    let iface = &doc.libraries[0].interfaces[0];
    let names: Vec<&str> = iface.methods.iter().map(|m| m.name.as_str()).collect();
    assert_eq!(names, vec!["get_order", "set_key"]);
    assert_eq!(iface.methods[0].c_name.as_deref(), Some("gtk_sortableget_order"));
    assert_eq!(iface.methods[1].c_name.as_deref(), Some("gtk_sortableset_key"));
    // the properties themselves are kept as they were
    assert_eq!(iface.properties.len(), 2);
    assert_eq!(iface.properties[0].getter_name, None);
}
