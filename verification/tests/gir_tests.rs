use grr::gir::{lib_to_gir, XmlAttribute, XmlElement, XmlNamespace};
use grr::model::{Class, Field, Interface, Library, Method, Parameter, Property, ReadWrite, RegularParameter, TypeInfo};
use grr::xml_out::lib_to_xml;

fn ty(name: &str) -> TypeInfo {
    TypeInfo { name: name.to_owned(), c_type: None, is_const: false, is_contained: false, params: vec![] }
}

fn cty(name: &str, c: &str) -> TypeInfo {
    TypeInfo { c_type: Some(c.to_owned()), ..ty(name) }
}

fn library() -> Library {
    Library {
        name: "Rr".to_owned(),
        version: "0.1".to_owned(),
        c_id_prefix: "Rr".to_owned(),
        c_sym_prefix: "rr_".to_owned(),
        shared_lib: None,
        classes: vec![],
        interfaces: vec![],
        opaque_records: vec![],
        records: vec![],
    }
}

fn class(name: &str, c_name: &str) -> Class {
    Class {
        name: name.to_owned(),
        c_name: Some(c_name.to_owned()),
        parent: Class::default_parent(),
        abstr: false,
        parent_and_priv_fields: false,
        properties: vec![],
        fields: vec![],
        class_fields: vec![],
        methods: vec![],
    }
}

fn attr(e: &XmlElement, ns: Option<XmlNamespace>, name: &str) -> Option<String> {
    e.attributes.iter().find(|a| a.namespace == ns && a.name == name).map(|a| a.value.clone())
}

fn names(attrs: &[XmlAttribute]) -> Vec<String> {
    attrs.iter().map(|a| a.name.clone()).collect()
}

#[test]
fn empty_library_repository() {
    let mut lib = library();
    lib.shared_lib = Some("librr.so".to_owned());
    let repo = lib_to_gir(&lib);
    assert_eq!(repo.name, "repository");
    assert_eq!(attr(&repo, None, "version").as_deref(), Some("1.2"));
    assert_eq!(repo.children.len(), 1);
    let ns = &repo.children[0];
    assert_eq!(ns.name, "namespace");
    assert_eq!(names(&ns.attributes), vec!["name", "version", "identifier-prefixes", "symbol-prefixes", "shared-library"]);
    assert_eq!(attr(ns, None, "name").as_deref(), Some("Rr"));
    assert_eq!(attr(ns, None, "version").as_deref(), Some("0.1"));
    assert_eq!(attr(ns, Some(XmlNamespace::C), "identifier-prefixes").as_deref(), Some("Rr"));
    assert_eq!(attr(ns, Some(XmlNamespace::C), "symbol-prefixes").as_deref(), Some("rr_"));
    assert_eq!(attr(ns, None, "shared-library").as_deref(), Some("librr.so"));
    assert!(ns.children.is_empty());
}

#[test]
fn no_shared_library_attribute_without_one() {
    let repo = lib_to_gir(&library());
    assert_eq!(attr(&repo.children[0], None, "shared-library"), None);
    assert_eq!(repo.children[0].attributes.len(), 4);
}

#[test]
fn interfaces_come_before_classes() {
    let mut lib = library();
    lib.classes.push(class("MailWindow", "RrMailWindow"));
    lib.interfaces.push(Interface { name: "Sortable".to_owned(), c_name: Some("RrSortable".to_owned()), properties: vec![], methods: vec![] });
    let repo = lib_to_gir(&lib);
    let ns = &repo.children[0];
    assert_eq!(ns.children.len(), 2);
    let iface = &ns.children[0];
    assert_eq!(iface.name, "interface");
    assert_eq!(attr(iface, None, "name").as_deref(), Some("Sortable"));
    assert_eq!(attr(iface, Some(XmlNamespace::GLib), "type-struct").as_deref(), Some("SortableInterface"));
    assert_eq!(attr(iface, Some(XmlNamespace::GLib), "get-type").as_deref(), Some("rr_sortable_get_type"));
    let cls = &ns.children[1];
    assert_eq!(cls.name, "class");
    assert_eq!(attr(cls, Some(XmlNamespace::C), "type").as_deref(), Some("RrMailWindow"));
    assert_eq!(attr(cls, Some(XmlNamespace::GLib), "type-name").as_deref(), Some("RrMailWindow"));
    assert_eq!(attr(cls, Some(XmlNamespace::C), "symbol-prefix").as_deref(), Some("rr_mail_window_"));
    assert_eq!(attr(cls, Some(XmlNamespace::GLib), "type-struct").as_deref(), Some("MailWindowClass"));
    assert_eq!(attr(cls, Some(XmlNamespace::GLib), "get-type").as_deref(), Some("rr_mail_window_get_type"));
}

#[test]
fn class_members_in_order() {
    let mut cls = class("MailWindow", "RrMailWindow");
    cls.fields.push(Field { name: "count".to_owned(), private: true, rw: ReadWrite::ReadConstruct, type_info: cty("gint", "gint") });
    cls.properties.push(Property {
        name: "title".to_owned(),
        rw: ReadWrite::WriteConstruct,
        type_info: cty("utf8", "gchar*"),
        getter_name: Some("get_title".to_owned()),
        setter_name: None,
    });
    cls.methods.push(Method {
        name: "open".to_owned(),
        c_name: None,
        params: vec![
            Parameter::Instance,
            Parameter::Regular(RegularParameter {
                name: "items".to_owned(),
                type_info: TypeInfo { params: vec![cty("utf8", "gchar*")], ..cty("GLib.List", "GList*") },
            }),
        ],
        return_type: TypeInfo::make_void(),
        getter_for_property: None,
        setter_for_property: None,
    });
    let mut lib = library();
    lib.classes.push(cls);
    let repo = lib_to_gir(&lib);
    let c = &repo.children[0].children[0];
    assert_eq!(c.children.len(), 3);

    let f = &c.children[0];
    assert_eq!(f.name, "field");
    assert_eq!(names(&f.attributes), vec!["name", "private", "readable", "writable", "construct-only"]);
    assert_eq!(f.children.len(), 1);
    assert_eq!(attr(&f.children[0], Some(XmlNamespace::C), "type").as_deref(), Some("gint"));

    let p = &c.children[1];
    assert_eq!(p.name, "property");
    assert_eq!(names(&p.attributes), vec!["name", "readable", "writable", "construct", "getter"]);
    assert_eq!(attr(p, None, "getter").as_deref(), Some("get_title"));

    let m = &c.children[2];
    assert_eq!(m.name, "method");
    assert_eq!(attr(m, None, "name").as_deref(), Some("open"));
    assert_eq!(attr(m, Some(XmlNamespace::C), "identifier").as_deref(), Some("rr_mail_window_open"));
    assert_eq!(m.children.len(), 2);
    let params = &m.children[0];
    assert_eq!(params.name, "parameters");
    assert_eq!(params.children.len(), 2);
    let inst = &params.children[0];
    assert_eq!(inst.name, "instance-parameter");
    assert_eq!(attr(inst, None, "name").as_deref(), Some("mail_window"));
    assert_eq!(attr(inst, None, "transfer-ownership").as_deref(), Some("none"));
    assert_eq!(attr(&inst.children[0], None, "name").as_deref(), Some("MailWindow"));
    assert_eq!(attr(&inst.children[0], Some(XmlNamespace::C), "type").as_deref(), Some("RrMailWindow*"));
    let reg = &params.children[1];
    assert_eq!(reg.name, "parameter");
    assert_eq!(attr(reg, None, "name").as_deref(), Some("items"));
    let list = &reg.children[0];
    assert_eq!(attr(list, Some(XmlNamespace::C), "type").as_deref(), Some("GList*"));
    assert_eq!(list.children.len(), 1);
    // only the outermost type element carries the C type
    assert_eq!(attr(&list.children[0], None, "name").as_deref(), Some("utf8"));
    assert_eq!(attr(&list.children[0], Some(XmlNamespace::C), "type"), None);
    let ret = &m.children[1];
    assert_eq!(ret.name, "return-value");
    assert_eq!(attr(&ret.children[0], None, "name").as_deref(), Some("none"));
    assert_eq!(attr(&ret.children[0], Some(XmlNamespace::C), "type").as_deref(), Some("void"));
}

#[test]
fn access_attributes() {
    let cases: Vec<(ReadWrite, Vec<(&str, &str)>)> = vec![
        (ReadWrite::Neither, vec![("readable", "0"), ("writable", "0")]),
        (ReadWrite::ReadOnly, vec![("readable", "1"), ("writable", "0")]),
        (ReadWrite::ReadConstruct, vec![("readable", "1"), ("writable", "1"), ("construct-only", "1")]),
        (ReadWrite::ReadWrite, vec![("readable", "1"), ("writable", "1")]),
        (ReadWrite::ReadWriteConstruct, vec![("readable", "1"), ("writable", "1"), ("construct", "1")]),
        (ReadWrite::WriteOnly, vec![("readable", "0"), ("writable", "1")]),
        (ReadWrite::WriteConstruct, vec![("readable", "0"), ("writable", "1"), ("construct", "1")]),
    ];
    for (rw, expected) in cases {
        let mut cls = class("A", "RrA");
        cls.fields.push(Field { name: "f".to_owned(), private: false, rw, type_info: ty("gint") });
        let mut lib = library();
        lib.classes.push(cls);
        let repo = lib_to_gir(&lib);
        let f = &repo.children[0].children[0].children[0];
        let got: Vec<(String, String)> = f.attributes[1..].iter().map(|a| (a.name.clone(), a.value.clone())).collect();
        let want: Vec<(String, String)> = expected.iter().map(|(n, v)| (n.to_string(), v.to_string())).collect();
        assert_eq!(got, want, "{:?}", rw);
    }
}

#[test]
fn xml_tree_of_small_library() {
    let mut lib = library();
    lib.classes.push(class("Rerere", "RrRerere"));
    let (arena, handle) = lib_to_xml(&lib).unwrap();
    let (xot, doc) = arena.into_parts(handle).unwrap();
    let text = xot.to_string(doc).unwrap();
    assert!(text.starts_with("<repository"), "{}", text);
    assert!(text.contains("xmlns=\"http://www.gtk.org/introspection/core/1.0\""), "{}", text);
    assert!(text.contains("xmlns:c=\"http://www.gtk.org/introspection/c/1.0\""), "{}", text);
    assert!(text.contains("xmlns:glib=\"http://www.gtk.org/introspection/glib/1.0\""), "{}", text);
    assert!(text.contains("version=\"1.2\""), "{}", text);
    assert!(text.contains("<namespace name=\"Rr\" version=\"0.1\" c:identifier-prefixes=\"Rr\" c:symbol-prefixes=\"rr_\">"), "{}", text);
    assert!(
        text.contains("<class name=\"Rerere\" c:type=\"RrRerere\" glib:type-name=\"RrRerere\" c:symbol-prefix=\"rr_rerere_\" glib:type-struct=\"RerereClass\" glib:get-type=\"rr_rerere_get_type\"/>"),
        "{}",
        text
    );
    assert!(text.ends_with("</namespace></repository>"), "{}", text);
}

#[test]
fn xml_document_of_library_with_members() {
    let mut lib = library();
    lib.shared_lib = Some("librr.so".to_owned());
    let mut cls = class("Rerere", "RrRerere");
    cls.fields.push(Field { name: "n".to_owned(), private: true, rw: ReadWrite::WriteConstruct, type_info: cty("gint", "gint") });
    lib.classes.push(cls);
    lib.interfaces.push(Interface { name: "Sortable".to_owned(), c_name: Some("RrSortable".to_owned()), properties: vec![], methods: vec![] });
    let (arena, handle) = lib_to_xml(&lib).unwrap();
    assert!(arena.into_parts(handle + 1).is_none());
    let (arena, handle) = lib_to_xml(&lib).unwrap();
    let (xot, doc) = arena.into_parts(handle).unwrap();
    let text = xot.to_string(doc).unwrap();
    let expected = [
        "<repository xmlns=\"http://www.gtk.org/introspection/core/1.0\" ",
        "xmlns:c=\"http://www.gtk.org/introspection/c/1.0\" ",
        "xmlns:glib=\"http://www.gtk.org/introspection/glib/1.0\" version=\"1.2\">",
        "<namespace name=\"Rr\" version=\"0.1\" c:identifier-prefixes=\"Rr\" c:symbol-prefixes=\"rr_\" shared-library=\"librr.so\">",
        "<interface name=\"Sortable\" c:type=\"RrSortable\" glib:type-name=\"RrSortable\" c:symbol-prefix=\"rr_sortable_\" glib:type-struct=\"SortableInterface\" glib:get-type=\"rr_sortable_get_type\"/>",
        "<class name=\"Rerere\" c:type=\"RrRerere\" glib:type-name=\"RrRerere\" c:symbol-prefix=\"rr_rerere_\" glib:type-struct=\"RerereClass\" glib:get-type=\"rr_rerere_get_type\">",
        "<field name=\"n\" private=\"1\" readable=\"0\" writable=\"1\" construct=\"1\"><type name=\"gint\" c:type=\"gint\"/></field>",
        "</class></namespace></repository>",
    ]
    .concat();
    assert_eq!(text, expected);
}
