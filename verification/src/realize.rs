//! Members that a document declares implicitly: the parent and private
//! fields of classes (with the private records they need), and the accessor
//! methods of properties.
use vstd::prelude::*;

use crate::model::{
    void_type_model, Class, ClassModel, Document, DocumentModel, Field, FieldModel, Interface,
    InterfaceModel, Library, LibraryModel, Method, MethodModel, OpaqueRecord, OpaqueRecordModel,
    Parameter, ParameterModel, Property, PropertyModel, ReadWrite, RegularParameter,
    RegularParameterModel, TypeInfo, TypeInfoModel,
};
use crate::naming::{pascal_to_snake_case, snake_case};
use crate::text::concat2;

verus! {

// ----------------------------------------------------------------------
// Parent and private fields
// ----------------------------------------------------------------------

/// The field that holds a class's parent instance: contained by value,
/// private, written at construction.
pub open spec fn parent_field_model(c: ClassModel) -> FieldModel {
    FieldModel {
        name: "parent"@,
        private: true,
        rw: ReadWrite::WriteConstruct,
        type_info: TypeInfoModel {
            name: c.parent,
            c_type: None,
            is_const: false,
            is_contained: true,
            params: Seq::empty(),
        },
    }
}

/// The name of a class's private structure: the class name followed by
/// `Private`.
pub open spec fn private_name(c: ClassModel) -> Seq<char> {
    c.name + "Private"@
}

/// The field that points to a class's private structure.
pub open spec fn priv_field_model(c: ClassModel) -> FieldModel {
    FieldModel {
        name: "priv"@,
        private: true,
        rw: ReadWrite::WriteConstruct,
        type_info: TypeInfoModel {
            name: private_name(c),
            c_type: None,
            is_const: false,
            is_contained: false,
            params: Seq::empty(),
        },
    }
}

/// A class that asks for them receives its parent and private fields in
/// front of its other fields, and stops asking.
pub open spec fn with_parent_and_priv_fields(c: ClassModel) -> ClassModel {
    if !c.parent_and_priv_fields {
        c
    } else {
        ClassModel {
            fields: seq![parent_field_model(c), priv_field_model(c)] + c.fields,
            parent_and_priv_fields: false,
            ..c
        }
    }
}

/// The opaque records for the private structures of the classes that ask
/// for parent and private fields, in class order.
pub open spec fn private_records(classes: Seq<ClassModel>) -> Seq<OpaqueRecordModel>
    decreases classes.len(),
{
    if classes.len() == 0 {
        Seq::empty()
    } else {
        let pre = private_records(classes.drop_last());
        let c = classes.last();
        if c.parent_and_priv_fields {
            pre.push(OpaqueRecordModel { name: private_name(c), c_name: None })
        } else {
            pre
        }
    }
}

/// A library after its classes received their parent and private fields.
pub open spec fn library_with_parent_and_priv_fields(l: LibraryModel) -> LibraryModel {
    LibraryModel {
        classes: l.classes.map_values(|c: ClassModel| with_parent_and_priv_fields(c)),
        opaque_records: l.opaque_records + private_records(l.classes),
        ..l
    }
}

/// A document after its classes received their parent and private fields.
pub open spec fn document_with_parent_and_priv_fields(d: DocumentModel) -> DocumentModel {
    DocumentModel {
        libraries: d.libraries.map_values(|l: LibraryModel| library_with_parent_and_priv_fields(l)),
    }
}

/// Gives a class that asks for them its parent and private fields; returns
/// the opaque record for its private structure in that case.
fn realize_class_fields(cls: &mut Class) -> (r: Option<OpaqueRecord>)
    ensures
        final(cls)@ == with_parent_and_priv_fields(old(cls)@),
        match r {
            Some(rec) => old(cls)@.parent_and_priv_fields && rec@ == (OpaqueRecordModel {
                name: private_name(old(cls)@),
                c_name: None,
            }),
            None => !old(cls)@.parent_and_priv_fields,
        },
{
    if !cls.parent_and_priv_fields {
        return None;
    }
    let priv_name = concat2(cls.name.as_str(), "Private");
    let parent_field = Field {
        name: "parent".to_owned(),
        private: true,
        rw: ReadWrite::WriteConstruct,
        type_info: TypeInfo {
            name: cls.parent.clone(),
            c_type: None,
            is_const: false,
            is_contained: true,
            params: Vec::with_capacity(0),
        },
    };
    let priv_field = Field {
        name: "priv".to_owned(),
        private: true,
        rw: ReadWrite::WriteConstruct,
        type_info: TypeInfo {
            name: concat2(cls.name.as_str(), "Private"),
            c_type: None,
            is_const: false,
            is_contained: false,
            params: Vec::with_capacity(0),
        },
    };
    assert(parent_field@ == parent_field_model(old(cls)@));
    assert(priv_field@ == priv_field_model(old(cls)@));
    let mut fields = vec![parent_field, priv_field];
    fields.append(&mut cls.fields);
    cls.fields = fields;
    cls.parent_and_priv_fields = false;
    assert(cls@.fields =~= seq![parent_field_model(old(cls)@), priv_field_model(old(cls)@)] + old(cls)@.fields);
    Some(OpaqueRecord { name: priv_name, c_name: None })
}

/// Gives the classes of a library that ask for them their parent and
/// private fields, adding an opaque record for each private structure.
fn realize_library_fields(library: &mut Library)
    ensures
        final(library)@ == library_with_parent_and_priv_fields(old(library)@),
{
    let ghost orig = old(library)@.classes;
    let mut i: usize = 0;
    while i < library.classes.len()
        invariant
            i <= library.classes.len(),
            orig == old(library)@.classes,
            library@.classes.len() == orig.len(),
            forall|k: int| 0 <= k < i ==> #[trigger] library@.classes[k] == with_parent_and_priv_fields(orig[k]),
            forall|k: int| i <= k < orig.len() ==> #[trigger] library@.classes[k] == orig[k],
            library@.opaque_records == old(library)@.opaque_records + private_records(orig.take(i as int)),
            library@.name == old(library)@.name,
            library@.version == old(library)@.version,
            library@.c_id_prefix == old(library)@.c_id_prefix,
            library@.c_sym_prefix == old(library)@.c_sym_prefix,
            library@.shared_lib == old(library)@.shared_lib,
            library@.interfaces == old(library)@.interfaces,
            library@.records == old(library)@.records,
        decreases library.classes.len() - i,
    {
        let ghost before = library@;
        assert(orig.take(i + 1).drop_last() =~= orig.take(i as int));
        assert(orig.take(i + 1).last() == orig[i as int]);
        assert(library@.classes[i as int] == library.classes@[i as int]@);
        let ghost recs_before = library.opaque_records@;
        let r = realize_class_fields(&mut library.classes[i]);
        assert(library@.classes =~= before.classes.update(i as int, library.classes@[i as int]@));
        match r {
            Some(rec) => {
                library.opaque_records.push(rec);
                assert(library@.opaque_records =~= before.opaque_records.push(rec@));
            },
            None => {
                assert(library@.opaque_records =~= before.opaque_records);
            },
        }
        assert(library@.opaque_records =~= old(library)@.opaque_records + private_records(orig.take(i + 1)));
        assert forall|k: int| 0 <= k < i + 1 implies #[trigger] library@.classes[k] == with_parent_and_priv_fields(orig[k]) by {
            if k < i {
                assert(library@.classes[k] == before.classes[k]);
            }
        }
        i += 1;
    }
    assert(orig.take(orig.len() as int) =~= orig);
    assert(library@.classes =~= orig.map_values(|c: ClassModel| with_parent_and_priv_fields(c)));
}

/// Gives every class that asks for them (all classes, unless they say
/// otherwise) a private `parent` field holding the parent instance and a
/// private `priv` field pointing to the class's private structure, in front
/// of its other fields, and adds an opaque record for that structure to the
/// class's library.
pub fn realize_parent_and_priv_fields(doc: &mut Document)
    ensures
        final(doc)@ == document_with_parent_and_priv_fields(old(doc)@),
{
    let ghost orig = old(doc)@.libraries;
    let mut i: usize = 0;
    while i < doc.libraries.len()
        invariant
            i <= doc.libraries.len(),
            orig == old(doc)@.libraries,
            doc@.libraries.len() == orig.len(),
            forall|k: int| 0 <= k < i ==> #[trigger] doc@.libraries[k] == library_with_parent_and_priv_fields(orig[k]),
            forall|k: int| i <= k < orig.len() ==> #[trigger] doc@.libraries[k] == orig[k],
        decreases doc.libraries.len() - i,
    {
        assert(doc@.libraries[i as int] == doc.libraries@[i as int]@);
        let ghost before = doc@.libraries;
        realize_library_fields(&mut doc.libraries[i]);
        assert(doc@.libraries =~= before.update(i as int, doc.libraries@[i as int]@));
        i += 1;
    }
    assert(doc@.libraries =~= orig.map_values(|l: LibraryModel| library_with_parent_and_priv_fields(l)));
}


// ----------------------------------------------------------------------
// Property accessors
// ----------------------------------------------------------------------

/// Whether a property with this access gets a getter.
pub open spec fn wants_getter(rw: ReadWrite) -> bool {
    match rw {
        ReadWrite::ReadOnly | ReadWrite::ReadConstruct | ReadWrite::ReadWrite
        | ReadWrite::ReadWriteConstruct => true,
        _ => false,
    }
}

/// Whether a property with this access gets a setter.
pub open spec fn wants_setter(rw: ReadWrite) -> bool {
    match rw {
        ReadWrite::ReadWrite | ReadWrite::ReadWriteConstruct | ReadWrite::WriteOnly
        | ReadWrite::WriteConstruct => true,
        _ => false,
    }
}

/// The getter of a property: `get_<name>`, taking the instance and returning
/// the property's type.
pub open spec fn getter_model(prefix: Seq<char>, p: PropertyModel) -> MethodModel {
    MethodModel {
        name: "get_"@ + p.name,
        c_name: Some(prefix + ("get_"@ + p.name)),
        params: seq![ParameterModel::Instance],
        return_type: p.type_info,
        getter_for_property: Some(p.name),
        setter_for_property: None,
    }
}

/// The setter of a property: `set_<name>`, taking the instance and a
/// parameter named like the property, returning nothing. It is marked, like
/// the getter, with the property it serves in `getter_for_property`.
pub open spec fn setter_model(prefix: Seq<char>, p: PropertyModel) -> MethodModel {
    MethodModel {
        name: "set_"@ + p.name,
        c_name: Some(prefix + ("set_"@ + p.name)),
        params: seq![
            ParameterModel::Instance,
            ParameterModel::Regular(RegularParameterModel { name: p.name, type_info: p.type_info }),
        ],
        return_type: void_type_model(),
        getter_for_property: Some(p.name),
        setter_for_property: None,
    }
}

/// The accessors of one property: its getter, then its setter, each if its
/// access calls for it.
pub open spec fn accessors(prefix: Seq<char>, p: PropertyModel) -> Seq<MethodModel> {
    (if wants_getter(p.rw) {
        seq![getter_model(prefix, p)]
    } else {
        Seq::empty()
    }) + (if wants_setter(p.rw) {
        seq![setter_model(prefix, p)]
    } else {
        Seq::empty()
    })
}

/// The accessors of a sequence of properties, in order.
pub open spec fn all_accessors(prefix: Seq<char>, props: Seq<PropertyModel>) -> Seq<MethodModel>
    decreases props.len(),
{
    if props.len() == 0 {
        Seq::empty()
    } else {
        all_accessors(prefix, props.drop_last()) + accessors(prefix, props.last())
    }
}

/// The C symbol prefix of the accessors of a class or interface: the
/// library's symbol prefix followed by the snake-case type name.
pub open spec fn accessor_prefix(l: LibraryModel, type_name_model: Seq<char>) -> Seq<char> {
    l.c_sym_prefix + snake_case(type_name_model)
}

/// An interface with the accessors of its properties appended to its methods.
pub open spec fn interface_with_accessors(l: LibraryModel, i: InterfaceModel) -> InterfaceModel {
    InterfaceModel {
        methods: i.methods + all_accessors(accessor_prefix(l, i.name), i.properties),
        ..i
    }
}

/// A class with the accessors of its properties appended to its methods.
pub open spec fn class_with_accessors(l: LibraryModel, c: ClassModel) -> ClassModel {
    ClassModel {
        methods: c.methods + all_accessors(accessor_prefix(l, c.name), c.properties),
        ..c
    }
}

/// A library whose interfaces and classes received their accessors.
pub open spec fn library_with_accessors(l: LibraryModel) -> LibraryModel {
    LibraryModel {
        interfaces: l.interfaces.map_values(|i: InterfaceModel| interface_with_accessors(l, i)),
        classes: l.classes.map_values(|c: ClassModel| class_with_accessors(l, c)),
        ..l
    }
}

/// A document whose interfaces and classes received their accessors.
pub open spec fn document_with_accessors(d: DocumentModel) -> DocumentModel {
    DocumentModel { libraries: d.libraries.map_values(|l: LibraryModel| library_with_accessors(l)) }
}

/// Appends the getter and the setter that a property's access calls for to
/// `methods`, with C names made from `parent_c_prefix`.
fn realize_property_getter_setter(
    parent_c_prefix: &str,
    property: &mut Property,
    methods: &mut Vec<Method>,
)
    ensures
        final(property)@ == old(property)@,
        final(methods)@.map_values(|m: Method| m@) == old(methods)@.map_values(|m: Method| m@)
            + accessors(parent_c_prefix@, old(property)@),
{
    let ghost m0 = methods@.map_values(|m: Method| m@);
    let (has_getter, has_setter) = match property.rw {
        ReadWrite::Neither => (false, false),
        ReadWrite::ReadOnly => (true, false),
        ReadWrite::ReadConstruct => (true, false),
        ReadWrite::ReadWrite => (true, true),
        ReadWrite::ReadWriteConstruct => (true, true),
        ReadWrite::WriteOnly => (false, true),
        ReadWrite::WriteConstruct => (false, true),
    };
    if has_getter {
        let name = concat2("get_", property.name.as_str());
        let c_name = concat2(parent_c_prefix, name.as_str());
        let getter_method = Method {
            name,
            c_name: Some(c_name),
            params: vec![Parameter::Instance],
            return_type: property.type_info.clone(),
            getter_for_property: Some(property.name.clone()),
            setter_for_property: None,
        };
        assert(getter_method@.params =~= seq![ParameterModel::Instance]);
        assert(getter_method@ == getter_model(parent_c_prefix@, property@));
        methods.push(getter_method);
    }
    let ghost m1 = methods@.map_values(|m: Method| m@);
    assert(m1 =~= m0 + (if wants_getter(property@.rw) {
        seq![getter_model(parent_c_prefix@, property@)]
    } else {
        Seq::empty()
    }));
    if has_setter {
        let name = concat2("set_", property.name.as_str());
        let c_name = concat2(parent_c_prefix, name.as_str());
        let setter_method = Method {
            name,
            c_name: Some(c_name),
            params: vec![
                Parameter::Instance,
                Parameter::Regular(
                    RegularParameter {
                        name: property.name.clone(),
                        type_info: property.type_info.clone(),
                    },
                ),
            ],
            return_type: TypeInfo::make_void(),
            getter_for_property: Some(property.name.clone()),
            setter_for_property: None,
        };
        assert(setter_method@.params =~= seq![
            ParameterModel::Instance,
            ParameterModel::Regular(RegularParameterModel { name: property@.name, type_info: property@.type_info }),
        ]);
        assert(setter_method@ == setter_model(parent_c_prefix@, property@));
        methods.push(setter_method);
    }
    assert(methods@.map_values(|m: Method| m@) =~= m1 + (if wants_setter(property@.rw) {
        seq![setter_model(parent_c_prefix@, property@)]
    } else {
        Seq::empty()
    }));
}

/// Appends the accessors of the given properties to the methods.
fn realize_accessors(prefix: &str, properties: &mut Vec<Property>, methods: &mut Vec<Method>)
    ensures
        final(properties)@.map_values(|p: Property| p@) == old(properties)@.map_values(|p: Property| p@),
        final(methods)@.map_values(|m: Method| m@) == old(methods)@.map_values(|m: Method| m@)
            + all_accessors(prefix@, old(properties)@.map_values(|p: Property| p@)),
{
    let ghost props = properties@.map_values(|p: Property| p@);
    let ghost m0 = methods@.map_values(|m: Method| m@);
    let mut i: usize = 0;
    while i < properties.len()
        invariant
            i <= properties.len(),
            properties@.map_values(|p: Property| p@) == props,
            props == old(properties)@.map_values(|p: Property| p@),
            m0 == old(methods)@.map_values(|m: Method| m@),
            methods@.map_values(|m: Method| m@) == m0 + all_accessors(prefix@, props.take(i as int)),
        decreases properties.len() - i,
    {
        assert(props.take(i + 1).drop_last() =~= props.take(i as int));
        assert(props.take(i + 1).last() == properties@[i as int]@);
        let ghost before = properties@.map_values(|p: Property| p@);
        realize_property_getter_setter(prefix, &mut properties[i], methods);
        assert(properties@.map_values(|p: Property| p@) =~= before);
        i += 1;
    }
    assert(props.take(properties.len() as int) =~= props);
}

/// Adds getter and setter methods for the properties of every interface and
/// class, as their access calls for; the C name of each is the library's
/// symbol prefix, the snake-case type name, and the method name.
pub fn realize_property_getters_and_setters(doc: &mut Document)
    ensures
        final(doc)@ == document_with_accessors(old(doc)@),
{
    let ghost orig = old(doc)@.libraries;
    let mut i: usize = 0;
    while i < doc.libraries.len()
        invariant
            i <= doc.libraries.len(),
            orig == old(doc)@.libraries,
            doc@.libraries.len() == orig.len(),
            forall|k: int| 0 <= k < i ==> #[trigger] doc@.libraries[k] == library_with_accessors(orig[k]),
            forall|k: int| i <= k < orig.len() ==> #[trigger] doc@.libraries[k] == orig[k],
        decreases doc.libraries.len() - i,
    {
        assert(doc@.libraries[i as int] == doc.libraries@[i as int]@);
        let ghost before = doc@.libraries;
        realize_library_accessors(&mut doc.libraries[i]);
        assert(doc@.libraries =~= before.update(i as int, doc.libraries@[i as int]@));
        i += 1;
    }
    assert(doc@.libraries =~= orig.map_values(|l: LibraryModel| library_with_accessors(l)));
}

/// Gives the interfaces and classes of a library their accessors.
fn realize_library_accessors(library: &mut Library)
    ensures
        final(library)@ == library_with_accessors(old(library)@),
{
    let ghost l0 = library@;
    let mut i: usize = 0;
    while i < library.interfaces.len()
        invariant
            i <= library.interfaces.len(),
            library@ == (LibraryModel { interfaces: library@.interfaces, ..l0 }),
            l0 == old(library)@,
            library@.interfaces.len() == l0.interfaces.len(),
            forall|k: int| 0 <= k < i ==> #[trigger] library@.interfaces[k] == interface_with_accessors(l0, l0.interfaces[k]),
            forall|k: int| i <= k < l0.interfaces.len() ==> #[trigger] library@.interfaces[k] == l0.interfaces[k],
        decreases library.interfaces.len() - i,
    {
        let ghost before = library@;
        let prefix = concat2(
            library.c_sym_prefix.as_str(),
            pascal_to_snake_case(library.interfaces[i].name.as_str()).as_str(),
        );
        assert(library@.interfaces[i as int] == library.interfaces@[i as int]@);
        let iface = &mut library.interfaces[i];
        realize_accessors(prefix.as_str(), &mut iface.properties, &mut iface.methods);
        assert(library@.interfaces =~= before.interfaces.update(i as int, library.interfaces@[i as int]@));
        i += 1;
    }
    let ghost l1 = library@;
    let mut j: usize = 0;
    while j < library.classes.len()
        invariant
            j <= library.classes.len(),
            library@ == (LibraryModel { classes: library@.classes, ..l1 }),
            l0 == old(library)@,
            l1.classes == l0.classes,
            l1.c_sym_prefix == l0.c_sym_prefix,
            library@.classes.len() == l0.classes.len(),
            forall|k: int| 0 <= k < j ==> #[trigger] library@.classes[k] == class_with_accessors(l0, l0.classes[k]),
            forall|k: int| j <= k < l0.classes.len() ==> #[trigger] library@.classes[k] == l0.classes[k],
        decreases library.classes.len() - j,
    {
        let ghost before = library@;
        let prefix = concat2(
            library.c_sym_prefix.as_str(),
            pascal_to_snake_case(library.classes[j].name.as_str()).as_str(),
        );
        assert(library@.classes[j as int] == library.classes@[j as int]@);
        let cls = &mut library.classes[j];
        realize_accessors(prefix.as_str(), &mut cls.properties, &mut cls.methods);
        assert(library@.classes =~= before.classes.update(j as int, library.classes@[j as int]@));
        j += 1;
    }
    assert(library@.interfaces =~= l0.interfaces.map_values(|i: InterfaceModel| interface_with_accessors(l0, i)));
    assert(library@.classes =~= l0.classes.map_values(|c: ClassModel| class_with_accessors(l0, c)));
}


// ----------------------------------------------------------------------
// Laws
// ----------------------------------------------------------------------

/// Classes that no longer ask for parent and private fields need no
/// private records.
proof fn lemma_private_records_none(classes: Seq<ClassModel>)
    requires
        forall|i: int| 0 <= i < classes.len() ==> !(#[trigger] classes[i]).parent_and_priv_fields,
    ensures
        private_records(classes) == Seq::<OpaqueRecordModel>::empty(),
    decreases classes.len(),
{
    if classes.len() > 0 {
        lemma_private_records_none(classes.drop_last());
    }
}

/// Giving classes their parent and private fields twice is giving them once:
/// after the first time, no class asks for them any more.
pub proof fn lemma_parent_and_priv_fields_idempotent(d: DocumentModel)
    ensures
        document_with_parent_and_priv_fields(document_with_parent_and_priv_fields(d))
            == document_with_parent_and_priv_fields(d),
{
    let d1 = document_with_parent_and_priv_fields(d);
    assert forall|i: int| 0 <= i < d1.libraries.len() implies library_with_parent_and_priv_fields(
        #[trigger] d1.libraries[i],
    ) == d1.libraries[i] by {
        let l1 = d1.libraries[i];
        lemma_private_records_none(l1.classes);
        assert(l1.opaque_records + private_records(l1.classes) =~= l1.opaque_records);
        assert(l1.classes.map_values(|c: ClassModel| with_parent_and_priv_fields(c)) =~= l1.classes);
    }
    assert(document_with_parent_and_priv_fields(d1).libraries =~= d1.libraries);
}


/// Whether a property with this access can be read.
pub open spec fn is_readable(rw: ReadWrite) -> bool {
    rw == ReadWrite::ReadOnly || rw == ReadWrite::ReadConstruct || rw == ReadWrite::ReadWrite
        || rw == ReadWrite::ReadWriteConstruct
}

/// Whether a property with this access can be written.
pub open spec fn is_writable(rw: ReadWrite) -> bool {
    rw == ReadWrite::ReadWrite || rw == ReadWrite::ReadWriteConstruct || rw == ReadWrite::WriteOnly
        || rw == ReadWrite::WriteConstruct
}

/// `m` is the getter of `p` for a type whose accessor C names start with
/// `prefix`: `get_<name>` (C name the prefix followed by that), taking the
/// instance, returning the property's type, marked as the getter of `p`.
pub open spec fn is_getter_of(m: MethodModel, p: PropertyModel, prefix: Seq<char>) -> bool {
    &&& m.name == "get_"@ + p.name
    &&& m.c_name == Some(prefix + ("get_"@ + p.name))
    &&& m.params == seq![ParameterModel::Instance]
    &&& m.return_type == p.type_info
    &&& m.getter_for_property == Some(p.name)
    &&& m.setter_for_property is None
}

/// `m` is the setter of `p` for a type whose accessor C names start with
/// `prefix`: `set_<name>` (C name the prefix followed by that), taking the
/// instance and a parameter named like the property of the property's type,
/// returning `none` (C type `void`), and marked, like the getter, with the
/// property in `getter_for_property`.
pub open spec fn is_setter_of(m: MethodModel, p: PropertyModel, prefix: Seq<char>) -> bool {
    &&& m.name == "set_"@ + p.name
    &&& m.c_name == Some(prefix + ("set_"@ + p.name))
    &&& m.params == seq![
        ParameterModel::Instance,
        ParameterModel::Regular(RegularParameterModel { name: p.name, type_info: p.type_info }),
    ]
    &&& m.return_type.name == "none"@
    &&& m.return_type.c_type == Some("void"@)
    &&& !m.return_type.is_const && !m.return_type.is_contained
    &&& m.return_type.params.len() == 0
    &&& m.getter_for_property == Some(p.name)
    &&& m.setter_for_property is None
}

/// `added` holds a getter for every readable property of `props` and a
/// setter for every writable one, and nothing but such getters and setters.
pub open spec fn accessors_of(added: Seq<MethodModel>, props: Seq<PropertyModel>, prefix: Seq<char>) -> bool {
    &&& forall|i: int|
        0 <= i < props.len() && is_readable(props[i].rw) ==> exists|k: int|
            0 <= k < added.len() && #[trigger] is_getter_of(added[k], props[i], prefix)
    &&& forall|i: int|
        0 <= i < props.len() && is_writable(props[i].rw) ==> exists|k: int|
            0 <= k < added.len() && #[trigger] is_setter_of(added[k], props[i], prefix)
    &&& forall|k: int|
        #![trigger added[k]]
        0 <= k < added.len() ==> exists|i: int|
            #![trigger props[i]]
            0 <= i < props.len() && (is_getter_of(added[k], props[i], prefix) || is_setter_of(
                added[k],
                props[i],
                prefix,
            ))
}

proof fn lemma_all_accessors(prefix: Seq<char>, props: Seq<PropertyModel>)
    ensures
        accessors_of(all_accessors(prefix, props), props, prefix),
    decreases props.len(),
{
    reveal_strlit("get_");
    reveal_strlit("set_");
    reveal_strlit("none");
    reveal_strlit("void");
    if props.len() > 0 {
        let pre = props.drop_last();
        let p = props.last();
        let a0 = all_accessors(prefix, pre);
        let acc = accessors(prefix, p);
        let a = all_accessors(prefix, props);
        lemma_all_accessors(prefix, pre);
        assert(a == a0 + acc);
        let n = props.len() - 1;
        assert(props[n] == p);
        assert forall|i: int| 0 <= i < props.len() && is_readable(props[i].rw) implies exists|k: int|
            0 <= k < a.len() && #[trigger] is_getter_of(a[k], props[i], prefix) by {
            if i < n {
                assert(pre[i] == props[i]);
                let k = choose|k: int| 0 <= k < a0.len() && #[trigger] is_getter_of(a0[k], pre[i], prefix);
                assert(a[k] == a0[k]);
            } else {
                assert(wants_getter(p.rw));
                assert(acc[0] == getter_model(prefix, p));
                assert(a[a0.len() as int] == acc[0]);
                assert(is_getter_of(a[a0.len() as int], props[i], prefix));
            }
        }
        assert forall|i: int| 0 <= i < props.len() && is_writable(props[i].rw) implies exists|k: int|
            0 <= k < a.len() && #[trigger] is_setter_of(a[k], props[i], prefix) by {
            if i < n {
                assert(pre[i] == props[i]);
                let k = choose|k: int| 0 <= k < a0.len() && #[trigger] is_setter_of(a0[k], pre[i], prefix);
                assert(a[k] == a0[k]);
            } else {
                assert(wants_setter(p.rw));
                let j: int = if wants_getter(p.rw) {
                    1
                } else {
                    0
                };
                assert(acc[j] == setter_model(prefix, p));
                assert(a[a0.len() + j] == acc[j]);
                assert(is_setter_of(a[a0.len() + j], props[i], prefix));
            }
        }
        assert forall|k: int| #![trigger a[k]] 0 <= k < a.len() implies exists|i: int|
            #![trigger props[i]]
            0 <= i < props.len() && (is_getter_of(a[k], props[i], prefix) || is_setter_of(
                a[k],
                props[i],
                prefix,
            )) by {
            if k < a0.len() {
                assert(a[k] == a0[k]);
                let i = choose|i: int|
                    #![trigger pre[i]]
                    0 <= i < pre.len() && (is_getter_of(a0[k], pre[i], prefix) || is_setter_of(a0[k], pre[i], prefix));
                assert(i < n);
                assert(pre[i] == props[i]);
                assert(is_getter_of(a[k], props[i], prefix) || is_setter_of(a[k], props[i], prefix));
            } else {
                let j = k - a0.len();
                assert(a[k] == acc[j]);
                if wants_getter(p.rw) && j == 0 {
                    assert(is_getter_of(a[k], props[n], prefix));
                } else {
                    assert(acc[j] == setter_model(prefix, p));
                    assert(is_setter_of(a[k], props[n], prefix));
                }
            }
        }
    }
}

/// Realizing accessors keeps every class's and interface's own methods
/// first and adds after them a getter for each readable property and a
/// setter for each writable one (see [`is_getter_of`] and
/// [`is_setter_of`]), with C names starting with the library's symbol
/// prefix and the snake-case type name, and no other method.
pub proof fn lemma_accessors_realized(d: DocumentModel)
    ensures
        document_with_accessors(d).libraries.len() == d.libraries.len(),
        forall|li: int, ci: int|
            #![trigger d.libraries[li].classes[ci]]
            0 <= li < d.libraries.len() && 0 <= ci < d.libraries[li].classes.len() ==> {
                let l = d.libraries[li];
                let c = l.classes[ci];
                let n = document_with_accessors(d).libraries[li].classes[ci];
                &&& n.methods.len() >= c.methods.len()
                &&& n.methods.take(c.methods.len() as int) == c.methods
                &&& accessors_of(
                    n.methods.skip(c.methods.len() as int),
                    c.properties,
                    l.c_sym_prefix + snake_case(c.name),
                )
            },
        forall|li: int, ii: int|
            #![trigger d.libraries[li].interfaces[ii]]
            0 <= li < d.libraries.len() && 0 <= ii < d.libraries[li].interfaces.len() ==> {
                let l = d.libraries[li];
                let i = l.interfaces[ii];
                let n = document_with_accessors(d).libraries[li].interfaces[ii];
                &&& n.methods.len() >= i.methods.len()
                &&& n.methods.take(i.methods.len() as int) == i.methods
                &&& accessors_of(
                    n.methods.skip(i.methods.len() as int),
                    i.properties,
                    l.c_sym_prefix + snake_case(i.name),
                )
            },
{
    let d2 = document_with_accessors(d);
    assert forall|li: int, ci: int|
        #![trigger d.libraries[li].classes[ci]]
        0 <= li < d.libraries.len() && 0 <= ci < d.libraries[li].classes.len() implies {
            let l = d.libraries[li];
            let c = l.classes[ci];
            let n = document_with_accessors(d).libraries[li].classes[ci];
            &&& n.methods.len() >= c.methods.len()
            &&& n.methods.take(c.methods.len() as int) == c.methods
            &&& accessors_of(n.methods.skip(c.methods.len() as int), c.properties, l.c_sym_prefix + snake_case(c.name))
        } by {
        let l = d.libraries[li];
        let c = l.classes[ci];
        let prefix = l.c_sym_prefix + snake_case(c.name);
        let n = d2.libraries[li].classes[ci];
        assert(d2.libraries[li] == library_with_accessors(l));
        assert(n == class_with_accessors(l, c));
        lemma_all_accessors(prefix, c.properties);
        assert(n.methods.take(c.methods.len() as int) =~= c.methods);
        assert(n.methods.skip(c.methods.len() as int) =~= all_accessors(prefix, c.properties));
    }
    assert forall|li: int, ii: int|
        #![trigger d.libraries[li].interfaces[ii]]
        0 <= li < d.libraries.len() && 0 <= ii < d.libraries[li].interfaces.len() implies {
            let l = d.libraries[li];
            let i = l.interfaces[ii];
            let n = document_with_accessors(d).libraries[li].interfaces[ii];
            &&& n.methods.len() >= i.methods.len()
            &&& n.methods.take(i.methods.len() as int) == i.methods
            &&& accessors_of(n.methods.skip(i.methods.len() as int), i.properties, l.c_sym_prefix + snake_case(i.name))
        } by {
        let l = d.libraries[li];
        let i = l.interfaces[ii];
        let prefix = l.c_sym_prefix + snake_case(i.name);
        let n = d2.libraries[li].interfaces[ii];
        assert(d2.libraries[li] == library_with_accessors(l));
        assert(n == interface_with_accessors(l, i));
        lemma_all_accessors(prefix, i.properties);
        assert(n.methods.take(i.methods.len() as int) =~= i.methods);
        assert(n.methods.skip(i.methods.len() as int) =~= all_accessors(prefix, i.properties));
    }
}


/// The private structure record of every class that asks for parent and
/// private fields is among the private records of the classes.
proof fn lemma_private_records_hold(classes: Seq<ClassModel>)
    ensures
        forall|ci: int|
            0 <= ci < classes.len() && (#[trigger] classes[ci]).parent_and_priv_fields ==> private_records(
                classes,
            ).contains(OpaqueRecordModel { name: classes[ci].name + "Private"@, c_name: None }),
    decreases classes.len(),
{
    if classes.len() > 0 {
        let pre = classes.drop_last();
        lemma_private_records_hold(pre);
        let r = private_records(classes);
        let r0 = private_records(pre);
        assert forall|ci: int| 0 <= ci < classes.len() && (#[trigger] classes[ci]).parent_and_priv_fields implies r.contains(
            OpaqueRecordModel { name: classes[ci].name + "Private"@, c_name: None },
        ) by {
            let want = OpaqueRecordModel { name: classes[ci].name + "Private"@, c_name: None };
            if ci < classes.len() - 1 {
                assert(pre[ci] == classes[ci]);
                assert(r0.contains(want));
                let k = choose|k: int| 0 <= k < r0.len() && r0[k] == want;
                assert(r[k] == r0[k]);
            } else {
                assert(r[r.len() - 1] == want);
            }
        }
    }
}

/// Giving classes their parent and private fields: a class that asks for
/// them gets, in front of its own fields, a private field `parent`, written
/// at construction, holding its parent class by value, and a private field
/// `priv`, written at construction, pointing to `<Name>Private`; it stops
/// asking, and nothing else about it changes. A class that does not ask is
/// unchanged. The library keeps its opaque records first and gains the
/// opaque record `<Name>Private` (without a C name) for each class that
/// asked; nothing else in the library changes.
pub proof fn lemma_parent_and_priv_fields_given(d: DocumentModel)
    ensures
        document_with_parent_and_priv_fields(d).libraries.len() == d.libraries.len(),
        forall|li: int, ci: int|
            #![trigger d.libraries[li].classes[ci]]
            0 <= li < d.libraries.len() && 0 <= ci < d.libraries[li].classes.len() ==> {
                let c = d.libraries[li].classes[ci];
                let n = document_with_parent_and_priv_fields(d).libraries[li].classes[ci];
                if c.parent_and_priv_fields {
                    &&& n == ClassModel { fields: n.fields, parent_and_priv_fields: false, ..c }
                    &&& n.fields.len() == c.fields.len() + 2
                    &&& n.fields.skip(2) == c.fields
                    &&& n.fields[0].name == "parent"@
                    &&& n.fields[0].private
                    &&& n.fields[0].rw == ReadWrite::WriteConstruct
                    &&& n.fields[0].type_info == (TypeInfoModel {
                        name: c.parent,
                        c_type: None,
                        is_const: false,
                        is_contained: true,
                        params: Seq::empty(),
                    })
                    &&& n.fields[1].name == "priv"@
                    &&& n.fields[1].private
                    &&& n.fields[1].rw == ReadWrite::WriteConstruct
                    &&& n.fields[1].type_info == (TypeInfoModel {
                        name: c.name + "Private"@,
                        c_type: None,
                        is_const: false,
                        is_contained: false,
                        params: Seq::empty(),
                    })
                } else {
                    n == c
                }
            },
        forall|li: int|
            #![trigger d.libraries[li]]
            0 <= li < d.libraries.len() ==> {
                let l = d.libraries[li];
                let n = document_with_parent_and_priv_fields(d).libraries[li];
                &&& n == LibraryModel { classes: n.classes, opaque_records: n.opaque_records, ..l }
                &&& n.classes.len() == l.classes.len()
                &&& n.opaque_records.len() >= l.opaque_records.len()
                &&& n.opaque_records.take(l.opaque_records.len() as int) == l.opaque_records
                &&& forall|ci: int|
                    0 <= ci < l.classes.len() && (#[trigger] l.classes[ci]).parent_and_priv_fields ==> n.opaque_records.contains(
                        OpaqueRecordModel { name: l.classes[ci].name + "Private"@, c_name: None },
                    )
            },
{
    let d2 = document_with_parent_and_priv_fields(d);
    assert forall|li: int, ci: int|
        #![trigger d.libraries[li].classes[ci]]
        0 <= li < d.libraries.len() && 0 <= ci < d.libraries[li].classes.len() implies {
            let c = d.libraries[li].classes[ci];
            let n = document_with_parent_and_priv_fields(d).libraries[li].classes[ci];
            if c.parent_and_priv_fields {
                &&& n == ClassModel { fields: n.fields, parent_and_priv_fields: false, ..c }
                &&& n.fields.len() == c.fields.len() + 2
                &&& n.fields.skip(2) == c.fields
                &&& n.fields[0].name == "parent"@
                &&& n.fields[0].private
                &&& n.fields[0].rw == ReadWrite::WriteConstruct
                &&& n.fields[0].type_info == (TypeInfoModel {
                    name: c.parent,
                    c_type: None,
                    is_const: false,
                    is_contained: true,
                    params: Seq::empty(),
                })
                &&& n.fields[1].name == "priv"@
                &&& n.fields[1].private
                &&& n.fields[1].rw == ReadWrite::WriteConstruct
                &&& n.fields[1].type_info == (TypeInfoModel {
                    name: c.name + "Private"@,
                    c_type: None,
                    is_const: false,
                    is_contained: false,
                    params: Seq::empty(),
                })
            } else {
                n == c
            }
        } by {
        let l = d.libraries[li];
        let c = l.classes[ci];
        assert(d2.libraries[li] == library_with_parent_and_priv_fields(l));
        let n = d2.libraries[li].classes[ci];
        assert(n == with_parent_and_priv_fields(c));
        if c.parent_and_priv_fields {
            assert(n.fields.skip(2) =~= c.fields);
        }
    }
    assert forall|li: int| #![trigger d.libraries[li]] 0 <= li < d.libraries.len() implies {
        let l = d.libraries[li];
        let n = document_with_parent_and_priv_fields(d).libraries[li];
        &&& n == LibraryModel { classes: n.classes, opaque_records: n.opaque_records, ..l }
        &&& n.classes.len() == l.classes.len()
        &&& n.opaque_records.len() >= l.opaque_records.len()
        &&& n.opaque_records.take(l.opaque_records.len() as int) == l.opaque_records
        &&& forall|ci: int|
            0 <= ci < l.classes.len() && (#[trigger] l.classes[ci]).parent_and_priv_fields ==> n.opaque_records.contains(
                OpaqueRecordModel { name: l.classes[ci].name + "Private"@, c_name: None },
            )
    } by {
        let l = d.libraries[li];
        let n = d2.libraries[li];
        assert(n == library_with_parent_and_priv_fields(l));
        let pr = private_records(l.classes);
        assert(n.opaque_records.take(l.opaque_records.len() as int) =~= l.opaque_records);
        lemma_private_records_hold(l.classes);
        assert forall|ci: int| 0 <= ci < l.classes.len() && (#[trigger] l.classes[ci]).parent_and_priv_fields implies n.opaque_records.contains(
            OpaqueRecordModel { name: l.classes[ci].name + "Private"@, c_name: None },
        ) by {
            let want = OpaqueRecordModel { name: l.classes[ci].name + "Private"@, c_name: None };
            assert(pr.contains(want));
            let k = choose|k: int| 0 <= k < pr.len() && pr[k] == want;
            assert(n.opaque_records[l.opaque_records.len() + k] == pr[k]);
        }
    }
}

} // verus!
