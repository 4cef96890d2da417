//! The GIR (GObject introspection) XML document of a library.
//!
//! The document is first built as a tree of [`XmlElement`]s whose contents
//! the contracts state exactly; [`lib_to_xml`] then hands that tree to `xot`.
use vstd::prelude::*;

use crate::model::{
    Class, ClassField, ClassModel, Field, FieldModel, Interface, InterfaceModel, Library, LibraryModel, Method,
    MethodModel, Parameter, ParameterModel, Property, PropertyModel, ReadWrite, TypeInfo,
    TypeInfoModel,
};
use crate::naming::{pascal_to_snake_case, snake_case};
use crate::text::{concat2, concat3};

verus! {

// ----------------------------------------------------------------------
// The tree
// ----------------------------------------------------------------------

/// The XML namespaces of a GIR document.
#[derive(Clone, Copy, Debug, PartialEq, Eq, Hash, PartialOrd, Ord)]
pub enum XmlNamespace {
    /// `http://www.gtk.org/introspection/core/1.0`, the default namespace.
    Core,
    /// `http://www.gtk.org/introspection/c/1.0`, prefix `c`.
    C,
    /// `http://www.gtk.org/introspection/glib/1.0`, prefix `glib`.
    GLib,
}

/// An attribute: its namespace (none for a plain attribute), name and value.
#[derive(Clone, Debug, PartialEq, Eq, Hash, PartialOrd, Ord)]
pub struct XmlAttribute {
    pub namespace: Option<XmlNamespace>,
    pub name: String,
    pub value: String,
}

/// An element of the core namespace, with its attributes in the order they
/// were set and its children in order.
#[derive(Debug, PartialEq, Eq, Hash, PartialOrd, Ord)]
pub struct XmlElement {
    pub name: String,
    pub attributes: Vec<XmlAttribute>,
    pub children: Vec<XmlElement>,
}

pub ghost struct XmlAttributeModel {
    pub namespace: Option<XmlNamespace>,
    pub name: Seq<char>,
    pub value: Seq<char>,
}

pub ghost struct XmlElementModel {
    pub name: Seq<char>,
    pub attributes: Seq<XmlAttributeModel>,
    pub children: Seq<XmlElementModel>,
}

impl View for XmlAttribute {
    type V = XmlAttributeModel;

    open spec fn view(&self) -> XmlAttributeModel {
        XmlAttributeModel { namespace: self.namespace, name: self.name@, value: self.value@ }
    }
}

impl View for XmlElement {
    type V = XmlElementModel;

    open spec fn view(&self) -> XmlElementModel {
        element_model(*self)
    }
}

/// The view of an element.
pub open spec fn element_model(e: XmlElement) -> XmlElementModel
    decreases e,
{
    proof {
        assert(decreases_to!(e => e.children));
        assert(decreases_to!(e.children => e.children@));
    }
    XmlElementModel {
        name: e.name@,
        attributes: e.attributes@.map_values(|a: XmlAttribute| a@),
        children: elements_view(e.children@),
    }
}

/// The views of a sequence of elements.
pub open spec fn elements_view(s: Seq<XmlElement>) -> Seq<XmlElementModel>
    decreases s,
{
    if s.len() == 0 {
        Seq::empty()
    } else {
        seq![element_model(s[0])] + elements_view(s.subrange(1, s.len() as int))
    }
}

/// The view of a sequence of elements has one element for each, in order.
pub broadcast proof fn lemma_elements_view(s: Seq<XmlElement>)
    ensures
        #[trigger] elements_view(s).len() == s.len(),
        forall|i: int| 0 <= i < s.len() ==> elements_view(s)[i] == s[i]@,
    decreases s.len(),
{
    if s.len() > 0 {
        lemma_elements_view(s.subrange(1, s.len() as int));
    }
}

/// A plain attribute.
pub open spec fn attr(name: Seq<char>, value: Seq<char>) -> XmlAttributeModel {
    XmlAttributeModel { namespace: None, name, value }
}

/// An attribute of a namespace.
pub open spec fn ns_attr(ns: XmlNamespace, name: Seq<char>, value: Seq<char>) -> XmlAttributeModel {
    XmlAttributeModel { namespace: Some(ns), name, value }
}

/// An element without attributes or children.
pub fn new_element(name: &str) -> (r: XmlElement)
    ensures
        r@ == (XmlElementModel { name: name@, attributes: Seq::empty(), children: Seq::empty() }),
{
    let r = XmlElement { name: name.to_owned(), attributes: Vec::new(), children: Vec::new() };
    assert(r@.attributes =~= Seq::<XmlAttributeModel>::empty());
    assert(r@.children =~= Seq::<XmlElementModel>::empty());
    r
}

/// Sets a plain attribute (appends it to the attributes).
pub fn set_attribute_value(elem: &mut XmlElement, name: &str, value: &str)
    ensures
        final(elem)@ == (XmlElementModel {
            attributes: old(elem)@.attributes.push(attr(name@, value@)),
            ..old(elem)@
        }),
{
    elem.attributes.push(XmlAttribute { namespace: None, name: name.to_owned(), value: value.to_owned() });
    assert(elem@.attributes =~= old(elem)@.attributes.push(attr(name@, value@)));
}

/// Sets an attribute of a namespace (appends it to the attributes).
pub fn set_ns_attribute_value(elem: &mut XmlElement, name: &str, ns: XmlNamespace, value: &str)
    ensures
        final(elem)@ == (XmlElementModel {
            attributes: old(elem)@.attributes.push(ns_attr(ns, name@, value@)),
            ..old(elem)@
        }),
{
    elem.attributes.push(XmlAttribute { namespace: Some(ns), name: name.to_owned(), value: value.to_owned() });
    assert(elem@.attributes =~= old(elem)@.attributes.push(ns_attr(ns, name@, value@)));
}

/// Appends a child element.
pub fn append_child(parent: &mut XmlElement, child: XmlElement)
    ensures
        final(parent)@ == (XmlElementModel {
            children: old(parent)@.children.push(child@),
            ..old(parent)@
        }),
{
    proof {
        lemma_elements_view(parent.children@);
    }
    parent.children.push(child);
    proof {
        lemma_elements_view(parent.children@);
    }
    assert(parent@.children =~= old(parent)@.children.push(child@));
}

// ----------------------------------------------------------------------
// What the document holds
// ----------------------------------------------------------------------

/// The `type` element of a type: its name, its C type on the outermost
/// `type` element only, and a `type` element for each parameter.
pub open spec fn type_model(t: TypeInfoModel, topmost: bool) -> XmlElementModel
    decreases t,
{
    XmlElementModel {
        name: "type"@,
        attributes: seq![attr("name"@, t.name)] + match t.c_type {
            Some(c) => if topmost {
                seq![ns_attr(XmlNamespace::C, "type"@, c)]
            } else {
                Seq::empty()
            },
            None => Seq::empty(),
        },
        children: type_models(t.params),
    }
}

/// The inner `type` elements of a sequence of type parameters.
pub open spec fn type_models(s: Seq<TypeInfoModel>) -> Seq<XmlElementModel>
    decreases s,
{
    if s.len() == 0 {
        Seq::empty()
    } else {
        seq![type_model(s[0], false)] + type_models(s.subrange(1, s.len() as int))
    }
}

/// The inner `type` elements, one for each parameter, in order.
pub proof fn lemma_type_models(s: Seq<TypeInfoModel>)
    ensures
        type_models(s).len() == s.len(),
        forall|i: int| 0 <= i < s.len() ==> type_models(s)[i] == type_model(s[i], false),
    decreases s.len(),
{
    if s.len() > 0 {
        lemma_type_models(s.subrange(1, s.len() as int));
    }
}

/// The access attributes of a field or property.
pub open spec fn rw_attributes(rw: ReadWrite) -> Seq<XmlAttributeModel> {
    match rw {
        ReadWrite::Neither => seq![attr("readable"@, "0"@), attr("writable"@, "0"@)],
        ReadWrite::ReadOnly => seq![attr("readable"@, "1"@), attr("writable"@, "0"@)],
        ReadWrite::ReadConstruct => seq![
            attr("readable"@, "1"@),
            attr("writable"@, "1"@),
            attr("construct-only"@, "1"@),
        ],
        ReadWrite::ReadWrite => seq![attr("readable"@, "1"@), attr("writable"@, "1"@)],
        ReadWrite::ReadWriteConstruct => seq![
            attr("readable"@, "1"@),
            attr("writable"@, "1"@),
            attr("construct"@, "1"@),
        ],
        ReadWrite::WriteOnly => seq![attr("readable"@, "0"@), attr("writable"@, "1"@)],
        ReadWrite::WriteConstruct => seq![
            attr("readable"@, "0"@),
            attr("writable"@, "1"@),
            attr("construct"@, "1"@),
        ],
    }
}

/// The `field` element of a field.
pub open spec fn field_model(f: FieldModel) -> XmlElementModel {
    XmlElementModel {
        name: "field"@,
        attributes: seq![attr("name"@, f.name)] + (if f.private {
            seq![attr("private"@, "1"@)]
        } else {
            Seq::empty()
        }) + rw_attributes(f.rw),
        children: seq![type_model(f.type_info, true)],
    }
}

/// An optional attribute: present when the value is.
pub open spec fn opt_attr(name: Seq<char>, value: Option<Seq<char>>) -> Seq<XmlAttributeModel> {
    match value {
        Some(v) => seq![attr(name, v)],
        None => Seq::empty(),
    }
}

/// The `property` element of a property.
pub open spec fn property_model(p: PropertyModel) -> XmlElementModel {
    XmlElementModel {
        name: "property"@,
        attributes: seq![attr("name"@, p.name)] + rw_attributes(p.rw) + opt_attr(
            "getter"@,
            p.getter_name,
        ) + opt_attr("setter"@, p.setter_name),
        children: seq![type_model(p.type_info, true)],
    }
}

/// What the members of a class or interface need to know of it.
pub ghost struct OwnerModel {
    /// The name of the class or interface.
    pub ioc_name: Seq<char>,
    /// Its name in C.
    pub ioc_c_name: Seq<char>,
    /// The prefix of its C symbols.
    pub ioc_c_sym_prefix: Seq<char>,
}

/// The element of a parameter: the instance parameter is named after the
/// owner and points to it; a regular parameter carries its own type.
pub open spec fn parameter_model(owner: OwnerModel, p: ParameterModel) -> XmlElementModel {
    match p {
        ParameterModel::Instance => XmlElementModel {
            name: "instance-parameter"@,
            attributes: seq![
                attr("name"@, snake_case(owner.ioc_name)),
                attr("transfer-ownership"@, "none"@),
            ],
            children: seq![
                XmlElementModel {
                    name: "type"@,
                    attributes: seq![
                        attr("name"@, owner.ioc_name),
                        ns_attr(XmlNamespace::C, "type"@, owner.ioc_c_name + "*"@),
                    ],
                    children: Seq::empty(),
                },
            ],
        },
        ParameterModel::Regular(r) => XmlElementModel {
            name: "parameter"@,
            attributes: seq![attr("name"@, r.name)],
            children: seq![type_model(r.type_info, true)],
        },
    }
}

/// The `method` element of a method: its name, its C identifier (the
/// owner's symbol prefix and the method name), its parameters and its
/// return value.
pub open spec fn method_model(owner: OwnerModel, m: MethodModel) -> XmlElementModel {
    XmlElementModel {
        name: "method"@,
        attributes: seq![
            attr("name"@, m.name),
            ns_attr(XmlNamespace::C, "identifier"@, owner.ioc_c_sym_prefix + m.name),
        ],
        children: seq![
            XmlElementModel {
                name: "parameters"@,
                attributes: Seq::empty(),
                children: m.params.map_values(|p: ParameterModel| parameter_model(owner, p)),
            },
            XmlElementModel {
                name: "return-value"@,
                attributes: Seq::empty(),
                children: seq![type_model(m.return_type, true)],
            },
        ],
    }
}

/// The element of a class or interface: its names, symbol prefix, type
/// structure and `get_type` function, then its fields, properties and
/// methods.
pub open spec fn interface_or_class_model(
    owner: OwnerModel,
    elem_name: Seq<char>,
    type_struct_suffix: Seq<char>,
    fields: Seq<FieldModel>,
    properties: Seq<PropertyModel>,
    methods: Seq<MethodModel>,
) -> XmlElementModel {
    XmlElementModel {
        name: elem_name,
        attributes: seq![
            attr("name"@, owner.ioc_name),
            ns_attr(XmlNamespace::C, "type"@, owner.ioc_c_name),
            ns_attr(XmlNamespace::GLib, "type-name"@, owner.ioc_c_name),
            ns_attr(XmlNamespace::C, "symbol-prefix"@, owner.ioc_c_sym_prefix),
            ns_attr(XmlNamespace::GLib, "type-struct"@, owner.ioc_name + type_struct_suffix),
            ns_attr(XmlNamespace::GLib, "get-type"@, owner.ioc_c_sym_prefix + "get_type"@),
        ],
        children: fields.map_values(|f: FieldModel| field_model(f)) + properties.map_values(
            |p: PropertyModel| property_model(p),
        ) + methods.map_values(|m: MethodModel| method_model(owner, m)),
    }
}

/// The symbol prefix of a class or interface: the library's symbol prefix,
/// the snake-case type name and an underscore.
pub open spec fn symbol_prefix(l: LibraryModel, name: Seq<char>) -> Seq<char> {
    l.c_sym_prefix + snake_case(name) + "_"@
}

/// The element of an interface.
pub open spec fn interface_model(l: LibraryModel, i: InterfaceModel) -> XmlElementModel {
    interface_or_class_model(
        OwnerModel {
            ioc_name: i.name,
            ioc_c_name: i.c_name->Some_0,
            ioc_c_sym_prefix: symbol_prefix(l, i.name),
        },
        "interface"@,
        "Interface"@,
        Seq::empty(),
        i.properties,
        i.methods,
    )
}

/// The element of a class. (Class-structure fields are not written.)
pub open spec fn class_model(l: LibraryModel, c: ClassModel) -> XmlElementModel {
    interface_or_class_model(
        OwnerModel {
            ioc_name: c.name,
            ioc_c_name: c.c_name->Some_0,
            ioc_c_sym_prefix: symbol_prefix(l, c.name),
        },
        "class"@,
        "Class"@,
        c.fields,
        c.properties,
        c.methods,
    )
}

/// The `repository` element of a library: version 1.2, holding the
/// library's `namespace` element with its interfaces and then its classes.
pub open spec fn library_model(l: LibraryModel) -> XmlElementModel {
    XmlElementModel {
        name: "repository"@,
        attributes: seq![attr("version"@, "1.2"@)],
        children: seq![
            XmlElementModel {
                name: "namespace"@,
                attributes: seq![
                    attr("name"@, l.name),
                    attr("version"@, l.version),
                    ns_attr(XmlNamespace::C, "identifier-prefixes"@, l.c_id_prefix),
                    ns_attr(XmlNamespace::C, "symbol-prefixes"@, l.c_sym_prefix),
                ] + opt_attr("shared-library"@, l.shared_lib),
                children: l.interfaces.map_values(|i: InterfaceModel| interface_model(l, i))
                    + l.classes.map_values(|c: ClassModel| class_model(l, c)),
            },
        ],
    }
}

/// Every interface and class of the library has a C name.
pub open spec fn has_c_names(l: LibraryModel) -> bool {
    &&& forall|i: int| 0 <= i < l.interfaces.len() ==> (#[trigger] l.interfaces[i]).c_name is Some
    &&& forall|i: int| 0 <= i < l.classes.len() ==> (#[trigger] l.classes[i]).c_name is Some
}


// ----------------------------------------------------------------------
// Building the tree
// ----------------------------------------------------------------------

/// Appends the `type` element of a type (and of its parameters) to `parent`.
pub fn append_type(parent: &mut XmlElement, type_info: &TypeInfo, topmost: bool)
    ensures
        final(parent)@ == (XmlElementModel {
            children: old(parent)@.children.push(type_model(type_info@, topmost)),
            ..old(parent)@
        }),
    decreases type_info,
{
    let mut type_elem = new_element("type");
    set_attribute_value(&mut type_elem, "name", type_info.name.as_str());
    match &type_info.c_type {
        Some(c_type) => {
            if topmost {
                set_ns_attribute_value(&mut type_elem, "type", XmlNamespace::C, c_type.as_str());
            }
        },
        None => {},
    }
    let ghost attrs = type_elem@.attributes;
    let ghost params = type_info@.params;
    proof {
        crate::model::lemma_type_infos_view(type_info.params@);
        lemma_type_models(params);
    }
    assert(attrs =~= type_model(type_info@, topmost).attributes);
    assert(type_models(params).take(0) =~= Seq::<XmlElementModel>::empty());
    let mut i: usize = 0;
    while i < type_info.params.len()
        invariant
            i <= type_info.params.len(),
            params == type_info@.params,
            params.len() == type_info.params.len(),
            forall|k: int| 0 <= k < params.len() ==> params[k] == type_info.params@[k]@,
            type_models(params).len() == params.len(),
            forall|k: int| 0 <= k < params.len() ==> type_models(params)[k] == type_model(params[k], false),
            type_elem@ == (XmlElementModel {
                name: "type"@,
                attributes: attrs,
                children: type_models(params).take(i as int),
            }),
        decreases type_info.params.len() - i,
    {
        assert(decreases_to!(type_info => type_info.params));
        assert(decreases_to!(type_info.params => type_info.params[i as int]));
        append_type(&mut type_elem, &type_info.params[i], false);
        assert(type_models(params).take(i + 1) =~= type_models(params).take(i as int).push(
            type_model(params[i as int], false),
        ));
        i += 1;
    }
    assert(type_models(params).take(type_info.params.len() as int) =~= type_models(params));
    assert(type_elem@ == type_model(type_info@, topmost));
    append_child(parent, type_elem);
}

/// Sets the access attributes of a field or property.
fn append_rw_attributes(elem: &mut XmlElement, rw: ReadWrite)
    ensures
        final(elem)@ == (XmlElementModel {
            attributes: old(elem)@.attributes + rw_attributes(rw),
            ..old(elem)@
        }),
{
    match rw {
        ReadWrite::Neither => {
            set_attribute_value(elem, "readable", "0");
            set_attribute_value(elem, "writable", "0");
        },
        ReadWrite::ReadOnly => {
            set_attribute_value(elem, "readable", "1");
            set_attribute_value(elem, "writable", "0");
        },
        ReadWrite::ReadConstruct => {
            set_attribute_value(elem, "readable", "1");
            set_attribute_value(elem, "writable", "1");
            set_attribute_value(elem, "construct-only", "1");
        },
        ReadWrite::ReadWrite => {
            set_attribute_value(elem, "readable", "1");
            set_attribute_value(elem, "writable", "1");
        },
        ReadWrite::ReadWriteConstruct => {
            set_attribute_value(elem, "readable", "1");
            set_attribute_value(elem, "writable", "1");
            set_attribute_value(elem, "construct", "1");
        },
        ReadWrite::WriteOnly => {
            set_attribute_value(elem, "readable", "0");
            set_attribute_value(elem, "writable", "1");
        },
        ReadWrite::WriteConstruct => {
            set_attribute_value(elem, "readable", "0");
            set_attribute_value(elem, "writable", "1");
            set_attribute_value(elem, "construct", "1");
        },
    }
    assert(elem@.attributes =~= old(elem)@.attributes + rw_attributes(rw));
}

/// Appends the `field` element of a field to `parent`.
pub fn append_field(parent: &mut XmlElement, field: &Field)
    ensures
        final(parent)@ == (XmlElementModel {
            children: old(parent)@.children.push(field_model(field@)),
            ..old(parent)@
        }),
{
    let mut field_elem = new_element("field");
    set_attribute_value(&mut field_elem, "name", field.name.as_str());
    if field.private {
        set_attribute_value(&mut field_elem, "private", "1");
    }
    append_rw_attributes(&mut field_elem, field.rw);
    append_type(&mut field_elem, &field.type_info, true);
    assert(field_elem@.attributes =~= field_model(field@).attributes);
    assert(field_elem@.children =~= field_model(field@).children);
    append_child(parent, field_elem);
}

/// Appends the `property` element of a property to `parent`.
pub fn append_property(parent: &mut XmlElement, property: &Property)
    ensures
        final(parent)@ == (XmlElementModel {
            children: old(parent)@.children.push(property_model(property@)),
            ..old(parent)@
        }),
{
    let mut prop_elem = new_element("property");
    set_attribute_value(&mut prop_elem, "name", property.name.as_str());
    append_rw_attributes(&mut prop_elem, property.rw);
    match &property.getter_name {
        Some(getter_name) => {
            set_attribute_value(&mut prop_elem, "getter", getter_name.as_str());
        },
        None => {},
    }
    match &property.setter_name {
        Some(setter_name) => {
            set_attribute_value(&mut prop_elem, "setter", setter_name.as_str());
        },
        None => {},
    }
    append_type(&mut prop_elem, &property.type_info, true);
    assert(prop_elem@.attributes =~= property_model(property@).attributes);
    assert(prop_elem@.children =~= property_model(property@).children);
    append_child(parent, prop_elem);
}

/// What the members of a class or interface need to know of it.
pub struct InterfaceOrClassState<'a> {
    /// Name of the class or interface.
    pub ioc_name: &'a str,
    /// Name of the class or interface in the C representation.
    pub ioc_c_name: &'a str,
    /// The C symbol (e.g. function or global variable name) prefix of the
    /// class or interface.
    pub ioc_c_sym_prefix: &'a str,
    /// The C identifier (e.g. struct name) prefix of the library.
    pub lib_c_id_prefix: &'a str,
}

/// The view of a state.
pub open spec fn owner_of(state: &InterfaceOrClassState) -> OwnerModel {
    OwnerModel {
        ioc_name: state.ioc_name@,
        ioc_c_name: state.ioc_c_name@,
        ioc_c_sym_prefix: state.ioc_c_sym_prefix@,
    }
}

/// Appends the element of a parameter of a method to `parent`.
fn append_parameter(parent: &mut XmlElement, state: &InterfaceOrClassState, param: &Parameter)
    ensures
        final(parent)@ == (XmlElementModel {
            children: old(parent)@.children.push(parameter_model(owner_of(state), param@)),
            ..old(parent)@
        }),
{
    match param {
        Parameter::Instance => {
            let name = pascal_to_snake_case(state.ioc_name);
            let c_type = concat2(state.ioc_c_name, "*");
            let mut ipar_elem = new_element("instance-parameter");
            set_attribute_value(&mut ipar_elem, "name", name.as_str());
            set_attribute_value(&mut ipar_elem, "transfer-ownership", "none");
            let mut type_elem = new_element("type");
            set_attribute_value(&mut type_elem, "name", state.ioc_name);
            set_ns_attribute_value(&mut type_elem, "type", XmlNamespace::C, c_type.as_str());
            append_child(&mut ipar_elem, type_elem);
            assert(ipar_elem@.attributes =~= parameter_model(owner_of(state), param@).attributes);
            assert(ipar_elem@.children[0].attributes =~= parameter_model(
                owner_of(state),
                param@,
            ).children[0].attributes);
            assert(ipar_elem@.children =~= parameter_model(owner_of(state), param@).children);
            append_child(parent, ipar_elem);
        },
        Parameter::Regular(regular_parameter) => {
            let mut par_elem = new_element("parameter");
            set_attribute_value(&mut par_elem, "name", regular_parameter.name.as_str());
            append_type(&mut par_elem, &regular_parameter.type_info, true);
            assert(par_elem@.attributes =~= parameter_model(owner_of(state), param@).attributes);
            assert(par_elem@.children =~= parameter_model(owner_of(state), param@).children);
            append_child(parent, par_elem);
        },
    }
}

/// Appends the `method` element of a method to `parent`.
pub fn append_method(parent: &mut XmlElement, state: &InterfaceOrClassState, method: &Method)
    ensures
        final(parent)@ == (XmlElementModel {
            children: old(parent)@.children.push(method_model(owner_of(state), method@)),
            ..old(parent)@
        }),
{
    let ghost owner = owner_of(state);
    let mut method_elem = new_element("method");
    set_attribute_value(&mut method_elem, "name", method.name.as_str());
    let c_ident = concat2(state.ioc_c_sym_prefix, method.name.as_str());
    set_ns_attribute_value(&mut method_elem, "identifier", XmlNamespace::C, c_ident.as_str());
    let mut params_elem = new_element("parameters");
    let ghost ps = method@.params;
    assert(ps.map_values(|p: ParameterModel| parameter_model(owner, p)).take(0) =~= Seq::<
        XmlElementModel,
    >::empty());
    let mut i: usize = 0;
    while i < method.params.len()
        invariant
            i <= method.params.len(),
            ps == method@.params,
            owner == owner_of(state),
            params_elem@ == (XmlElementModel {
                name: "parameters"@,
                attributes: Seq::empty(),
                children: ps.map_values(|p: ParameterModel| parameter_model(owner, p)).take(i as int),
            }),
        decreases method.params.len() - i,
    {
        append_parameter(&mut params_elem, state, &method.params[i]);
        assert(ps.map_values(|p: ParameterModel| parameter_model(owner, p)).take(i + 1) =~= ps.map_values(
            |p: ParameterModel| parameter_model(owner, p),
        ).take(i as int).push(parameter_model(owner, method.params@[i as int]@)));
        i += 1;
    }
    assert(ps.map_values(|p: ParameterModel| parameter_model(owner, p)).take(method.params.len() as int)
        =~= ps.map_values(|p: ParameterModel| parameter_model(owner, p)));
    append_child(&mut method_elem, params_elem);
    let mut ret_val_elem = new_element("return-value");
    append_type(&mut ret_val_elem, &method.return_type, true);
    append_child(&mut method_elem, ret_val_elem);
    assert(method_elem@.attributes =~= method_model(owner, method@).attributes);
    assert(method_elem@.children[1].children =~= method_model(owner, method@).children[1].children);
    assert(method_elem@.children =~= method_model(owner, method@).children);
    append_child(parent, method_elem);
}


/// Appends the element of a class or interface (`elem_name`) to `parent`:
/// its attributes, then the elements of its fields, properties and methods.
/// Class-structure fields are not written.
pub fn append_interface_or_class(
    parent: &mut XmlElement,
    state: &InterfaceOrClassState,
    elem_name: &str,
    type_struct_suffix: &str,
    fields: &Vec<Field>,
    class_fields: &Vec<ClassField>,
    properties: &Vec<Property>,
    methods: &Vec<Method>,
)
    ensures
        final(parent)@ == (XmlElementModel {
            children: old(parent)@.children.push(
                interface_or_class_model(
                    owner_of(state),
                    elem_name@,
                    type_struct_suffix@,
                    fields@.map_values(|f: Field| f@),
                    properties@.map_values(|p: Property| p@),
                    methods@.map_values(|m: Method| m@),
                ),
            ),
            ..old(parent)@
        }),
{
    let ghost owner = owner_of(state);
    let ghost target = interface_or_class_model(
        owner,
        elem_name@,
        type_struct_suffix@,
        fields@.map_values(|f: Field| f@),
        properties@.map_values(|p: Property| p@),
        methods@.map_values(|m: Method| m@),
    );
    let mut ioc_elem = new_element(elem_name);
    set_attribute_value(&mut ioc_elem, "name", state.ioc_name);
    set_ns_attribute_value(&mut ioc_elem, "type", XmlNamespace::C, state.ioc_c_name);
    set_ns_attribute_value(&mut ioc_elem, "type-name", XmlNamespace::GLib, state.ioc_c_name);
    set_ns_attribute_value(&mut ioc_elem, "symbol-prefix", XmlNamespace::C, state.ioc_c_sym_prefix);
    // Somethingable -> SomethingableInterface/SomethingableClass
    let type_struct = concat2(state.ioc_name, type_struct_suffix);
    set_ns_attribute_value(&mut ioc_elem, "type-struct", XmlNamespace::GLib, type_struct.as_str());
    // prefix_, Somethingable -> prefix_somethingable_get_type
    let get_type_func = concat2(state.ioc_c_sym_prefix, "get_type");
    set_ns_attribute_value(&mut ioc_elem, "get-type", XmlNamespace::GLib, get_type_func.as_str());
    assert(ioc_elem@.attributes =~= target.attributes);
    assert(target.children.take(0) =~= Seq::<XmlElementModel>::empty());
    let nf = fields.len();
    let np = properties.len();
    let mut i: usize = 0;
    while i < fields.len()
        invariant
            i <= nf == fields.len(),
            ioc_elem@ == (XmlElementModel { children: target.children.take(i as int), ..target }),
            target == interface_or_class_model(
                owner,
                elem_name@,
                type_struct_suffix@,
                fields@.map_values(|f: Field| f@),
                properties@.map_values(|p: Property| p@),
                methods@.map_values(|m: Method| m@),
            ),
        decreases fields.len() - i,
    {
        append_field(&mut ioc_elem, &fields[i]);
        assert(target.children.take(i + 1) =~= target.children.take(i as int).push(target.children[i as int]));
        i += 1;
    }
    let mut j: usize = 0;
    while j < properties.len()
        invariant
            j <= np == properties.len(),
            nf == fields.len(),
            ioc_elem@ == (XmlElementModel { children: target.children.take(nf + j), ..target }),
            target == interface_or_class_model(
                owner,
                elem_name@,
                type_struct_suffix@,
                fields@.map_values(|f: Field| f@),
                properties@.map_values(|p: Property| p@),
                methods@.map_values(|m: Method| m@),
            ),
        decreases properties.len() - j,
    {
        append_property(&mut ioc_elem, &properties[j]);
        assert(target.children.take(nf + j + 1) =~= target.children.take(nf + j).push(target.children[nf + j]));
        j += 1;
    }
    let mut k: usize = 0;
    while k < methods.len()
        invariant
            k <= methods.len(),
            nf == fields.len(),
            np == properties.len(),
            owner == owner_of(state),
            ioc_elem@ == (XmlElementModel { children: target.children.take(nf + np + k), ..target }),
            target == interface_or_class_model(
                owner,
                elem_name@,
                type_struct_suffix@,
                fields@.map_values(|f: Field| f@),
                properties@.map_values(|p: Property| p@),
                methods@.map_values(|m: Method| m@),
            ),
        decreases methods.len() - k,
    {
        append_method(&mut ioc_elem, state, &methods[k]);
        assert(target.children.take(nf + np + k + 1) =~= target.children.take(nf + np + k).push(
            target.children[nf + np + k],
        ));
        k += 1;
    }
    assert(target.children.take(nf + np + methods.len()) =~= target.children);
    append_child(parent, ioc_elem);
}

/// The GIR document of a library: a `repository` element holding the
/// library's `namespace` element, which holds its interfaces and classes.
pub fn lib_to_gir(library: &Library) -> (r: XmlElement)
    requires
        has_c_names(library@),
    ensures
        r@ == library_model(library@),
{
    let ghost l = library@;
    let ghost target = library_model(l);
    let ghost ns_target = target.children[0];
    let mut repo_elem = new_element("repository");
    set_attribute_value(&mut repo_elem, "version", "1.2");
    let mut ns_elem = new_element("namespace");
    set_attribute_value(&mut ns_elem, "name", library.name.as_str());
    set_attribute_value(&mut ns_elem, "version", library.version.as_str());
    set_ns_attribute_value(&mut ns_elem, "identifier-prefixes", XmlNamespace::C, library.c_id_prefix.as_str());
    set_ns_attribute_value(&mut ns_elem, "symbol-prefixes", XmlNamespace::C, library.c_sym_prefix.as_str());
    match &library.shared_lib {
        Some(sl) => {
            set_attribute_value(&mut ns_elem, "shared-library", sl.as_str());
        },
        None => {},
    }
    assert(ns_elem@.attributes =~= ns_target.attributes);
    assert(ns_target.children.take(0) =~= Seq::<XmlElementModel>::empty());
    let ni = library.interfaces.len();
    let no_fields: Vec<Field> = Vec::new();
    let no_class_fields: Vec<ClassField> = Vec::new();
    let mut i: usize = 0;
    while i < library.interfaces.len()
        invariant
            i <= ni == library.interfaces.len(),
            l == library@,
            has_c_names(l),
            ns_target == library_model(l).children[0],
            no_fields@.len() == 0,
            ns_elem@ == (XmlElementModel { children: ns_target.children.take(i as int), ..ns_target }),
        decreases library.interfaces.len() - i,
    {
        let interface = &library.interfaces[i];
        assert(l.interfaces[i as int] == interface@);
        let symbol_prefix = concat3(
            library.c_sym_prefix.as_str(),
            pascal_to_snake_case(interface.name.as_str()).as_str(),
            "_",
        );
        let c_name = match &interface.c_name {
            Some(c) => c.as_str(),
            None => {
                assert(false);
                ""
            },
        };
        let state = InterfaceOrClassState {
            ioc_name: interface.name.as_str(),
            ioc_c_name: c_name,
            ioc_c_sym_prefix: symbol_prefix.as_str(),
            lib_c_id_prefix: library.c_id_prefix.as_str(),
        };
        append_interface_or_class(
            &mut ns_elem,
            &state,
            "interface",
            "Interface",
            &no_fields,
            &no_class_fields,
            &interface.properties,
            &interface.methods,
        );
        assert(no_fields@.map_values(|f: Field| f@) =~= Seq::<FieldModel>::empty());
        assert(ns_target.children[i as int] == interface_model(l, l.interfaces[i as int]));
        assert(ns_target.children.take(i + 1) =~= ns_target.children.take(i as int).push(
            ns_target.children[i as int],
        ));
        i += 1;
    }
    let mut j: usize = 0;
    while j < library.classes.len()
        invariant
            j <= library.classes.len(),
            ni == library.interfaces.len(),
            l == library@,
            has_c_names(l),
            ns_target == library_model(l).children[0],
            ns_elem@ == (XmlElementModel { children: ns_target.children.take(ni + j), ..ns_target }),
        decreases library.classes.len() - j,
    {
        let cls = &library.classes[j];
        assert(l.classes[j as int] == cls@);
        let symbol_prefix = concat3(
            library.c_sym_prefix.as_str(),
            pascal_to_snake_case(cls.name.as_str()).as_str(),
            "_",
        );
        let c_name = match &cls.c_name {
            Some(c) => c.as_str(),
            None => {
                assert(false);
                ""
            },
        };
        let state = InterfaceOrClassState {
            ioc_name: cls.name.as_str(),
            ioc_c_name: c_name,
            ioc_c_sym_prefix: symbol_prefix.as_str(),
            lib_c_id_prefix: library.c_id_prefix.as_str(),
        };
        append_interface_or_class(
            &mut ns_elem,
            &state,
            "class",
            "Class",
            &cls.fields,
            &cls.class_fields,
            &cls.properties,
            &cls.methods,
        );
        assert(ns_target.children[ni + j] == class_model(l, l.classes[j as int]));
        assert(ns_target.children.take(ni + j + 1) =~= ns_target.children.take(ni + j).push(
            ns_target.children[ni + j],
        ));
        j += 1;
    }
    assert(ns_target.children.take(ni + library.classes.len()) =~= ns_target.children);
    append_child(&mut repo_elem, ns_elem);
    assert(repo_elem@.children =~= target.children);
    repo_elem
}


// ----------------------------------------------------------------------
// Laws
// ----------------------------------------------------------------------

/// The element `e` is the element of property `p`: named `property`, with
/// an attribute `name` holding the property's name; an attribute named
/// `getter` exactly when the property has a getter name, holding that name;
/// an attribute named `setter` exactly when it has a setter name, holding
/// that name.
pub open spec fn is_property_element(e: XmlElementModel, p: PropertyModel) -> bool {
    &&& e.name == "property"@
    &&& e.attributes.contains(attr("name"@, p.name))
    &&& forall|k: int|
        0 <= k < e.attributes.len() && (#[trigger] e.attributes[k]).name == "getter"@ ==> e.attributes[k].namespace is None
            && p.getter_name == Some(e.attributes[k].value)
    &&& forall|v: Seq<char>| p.getter_name == Some(v) ==> #[trigger] e.attributes.contains(attr("getter"@, v))
    &&& forall|k: int|
        0 <= k < e.attributes.len() && (#[trigger] e.attributes[k]).name == "setter"@ ==> e.attributes[k].namespace is None
            && p.setter_name == Some(e.attributes[k].value)
    &&& forall|v: Seq<char>| p.setter_name == Some(v) ==> #[trigger] e.attributes.contains(attr("setter"@, v))
}

proof fn lemma_property_element(p: PropertyModel)
    ensures
        is_property_element(property_model(p), p),
{
    reveal_strlit("name");
    reveal_strlit("readable");
    reveal_strlit("writable");
    reveal_strlit("construct-only");
    reveal_strlit("construct");
    reveal_strlit("getter");
    reveal_strlit("setter");
    reveal_strlit("property");
    let e = property_model(p);
    let rw = rw_attributes(p.rw);
    let g = opt_attr("getter"@, p.getter_name);
    let st = opt_attr("setter"@, p.setter_name);
    assert(e.attributes == seq![attr("name"@, p.name)] + rw + g + st);
    assert("getter"@[0] != "setter"@[0]);
    assert("getter"@ != "setter"@);
    assert forall|k: int| 0 <= k < rw.len() implies rw[k].name.len() != 6 by {}
    let a = e.attributes;
    let n1: int = 1 + rw.len() as int;
    let n2: int = n1 + g.len() as int;
    assert forall|k: int| 0 <= k < a.len() && (#[trigger] a[k]).name == "getter"@ implies a[k].namespace is None
        && p.getter_name == Some(a[k].value) by {
        if k == 0 {
        } else if k < n1 {
            assert(a[k] == rw[k - 1]);
        } else if k < n2 {
            assert(a[k] == g[k - n1]);
        } else {
            assert(a[k] == st[k - n2]);
        }
    }
    assert forall|k: int| 0 <= k < a.len() && (#[trigger] a[k]).name == "setter"@ implies a[k].namespace is None
        && p.setter_name == Some(a[k].value) by {
        if k == 0 {
        } else if k < n1 {
            assert(a[k] == rw[k - 1]);
        } else if k < n2 {
            assert(a[k] == g[k - n1]);
        } else {
            assert(a[k] == st[k - n2]);
        }
    }
    assert(a[0] == attr("name"@, p.name));
    assert forall|v: Seq<char>| p.getter_name == Some(v) implies #[trigger] a.contains(attr("getter"@, v)) by {
        assert(a[n1] == attr("getter"@, v));
    }
    assert forall|v: Seq<char>| p.setter_name == Some(v) implies #[trigger] a.contains(attr("setter"@, v)) by {
        assert(a[n2] == attr("setter"@, v));
    }
}

/// In the GIR tree of a library, the `namespace` element has one element
/// for each interface and then one for each class. The element of an
/// interface is named `interface` and has, before its methods, one property
/// element for each of the interface's properties, in order; the element of
/// a class is named `class` and has, after its fields and before its
/// methods, one property element for each of the class's properties, in
/// order (see [`is_property_element`]).
pub proof fn lemma_gir_property_elements(l: LibraryModel)
    ensures
        library_model(l).children.len() == 1,
        library_model(l).children[0].name == "namespace"@,
        library_model(l).children[0].children.len() == l.interfaces.len() + l.classes.len(),
        forall|ii: int|
            #![trigger l.interfaces[ii]]
            0 <= ii < l.interfaces.len() ==> {
                let e = library_model(l).children[0].children[ii];
                &&& e.name == "interface"@
                &&& e.children.len() == l.interfaces[ii].properties.len() + l.interfaces[ii].methods.len()
                &&& forall|pi: int|
                    0 <= pi < l.interfaces[ii].properties.len() ==> is_property_element(
                        e.children[pi],
                        #[trigger] l.interfaces[ii].properties[pi],
                    )
            },
        forall|ci: int|
            #![trigger l.classes[ci]]
            0 <= ci < l.classes.len() ==> {
                let e = library_model(l).children[0].children[l.interfaces.len() + ci];
                let c = l.classes[ci];
                &&& e.name == "class"@
                &&& e.children.len() == c.fields.len() + c.properties.len() + c.methods.len()
                &&& forall|pi: int|
                    0 <= pi < c.properties.len() ==> is_property_element(
                        e.children[c.fields.len() + pi],
                        #[trigger] c.properties[pi],
                    )
            },
{
    let ns = library_model(l).children[0];
    let ic = l.interfaces.map_values(|i: InterfaceModel| interface_model(l, i));
    let cc = l.classes.map_values(|c: ClassModel| class_model(l, c));
    assert(ns.children == ic + cc);
    assert forall|ii: int| #![trigger l.interfaces[ii]] 0 <= ii < l.interfaces.len() implies {
        let e = library_model(l).children[0].children[ii];
        &&& e.name == "interface"@
        &&& e.children.len() == l.interfaces[ii].properties.len() + l.interfaces[ii].methods.len()
        &&& forall|pi: int|
            0 <= pi < l.interfaces[ii].properties.len() ==> is_property_element(
                e.children[pi],
                #[trigger] l.interfaces[ii].properties[pi],
            )
    } by {
        let i = l.interfaces[ii];
        let e = ns.children[ii];
        assert(e == interface_model(l, i));
        let f: Seq<FieldModel> = Seq::empty();
        let fe = f.map_values(|x: FieldModel| field_model(x));
        let pe = i.properties.map_values(|p: PropertyModel| property_model(p));
        assert(fe.len() == 0);
        assert forall|pi: int| 0 <= pi < i.properties.len() implies is_property_element(
            e.children[pi],
            #[trigger] i.properties[pi],
        ) by {
            assert(e.children[pi] == pe[pi]);
            lemma_property_element(i.properties[pi]);
        }
    }
    assert forall|ci: int| #![trigger l.classes[ci]] 0 <= ci < l.classes.len() implies {
        let e = library_model(l).children[0].children[l.interfaces.len() + ci];
        let c = l.classes[ci];
        &&& e.name == "class"@
        &&& e.children.len() == c.fields.len() + c.properties.len() + c.methods.len()
        &&& forall|pi: int|
            0 <= pi < c.properties.len() ==> is_property_element(
                e.children[c.fields.len() + pi],
                #[trigger] c.properties[pi],
            )
    } by {
        let c = l.classes[ci];
        let e = ns.children[l.interfaces.len() + ci];
        assert(e == cc[ci]);
        assert(e == class_model(l, c));
        let fe = c.fields.map_values(|x: FieldModel| field_model(x));
        let pe = c.properties.map_values(|p: PropertyModel| property_model(p));
        assert forall|pi: int| 0 <= pi < c.properties.len() implies is_property_element(
            e.children[c.fields.len() + pi],
            #[trigger] c.properties[pi],
        ) by {
            assert(e.children[c.fields.len() + pi] == pe[pi]);
            lemma_property_element(c.properties[pi]);
        }
    }
}

} // verus!
