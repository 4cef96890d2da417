//! The data model of a `grr` document: libraries with their classes,
//! interfaces, records, properties, fields and methods, and the type
//! information attached to them.
//!
//! Every type has a view (`@`) in which strings are character sequences and
//! vectors are sequences of views; the contracts of the library speak of
//! these views.
use vstd::prelude::*;

verus! {

/// The view of an optional string.
pub open spec fn opt_view(o: Option<String>) -> Option<Seq<char>> {
    match o {
        Some(s) => Some(s@),
        None => None,
    }
}

/// A whole document: the libraries it describes.
#[derive(Clone, Debug, PartialEq, Eq, Hash, PartialOrd, Ord)]
pub struct Document {
    pub libraries: Vec<Library>,
}

/// One library (GIR namespace).
#[derive(Clone, Debug, PartialEq, Eq, Hash, PartialOrd, Ord)]
pub struct Library {
    pub name: String,
    pub version: String,
    pub c_id_prefix: String,
    pub c_sym_prefix: String,
    pub shared_lib: Option<String>,
    pub classes: Vec<Class>,
    pub interfaces: Vec<Interface>,
    pub opaque_records: Vec<OpaqueRecord>,
    pub records: Vec<Record>,
}

/// A GObject class.
#[derive(Clone, Debug, PartialEq, Eq, Hash, PartialOrd, Ord)]
pub struct Class {
    pub name: String,
    pub c_name: Option<String>,
    pub parent: String,
    pub abstr: bool,
    pub parent_and_priv_fields: bool,
    pub properties: Vec<Property>,
    pub fields: Vec<Field>,
    pub class_fields: Vec<ClassField>,
    pub methods: Vec<Method>,
}

/// A GObject interface.
#[derive(Clone, Debug, PartialEq, Eq, Hash, PartialOrd, Ord)]
pub struct Interface {
    pub name: String,
    pub c_name: Option<String>,
    pub properties: Vec<Property>,
    pub methods: Vec<Method>,
}

/// A record whose layout is not known.
#[derive(Clone, Debug, PartialEq, Eq, Hash, PartialOrd, Ord)]
pub struct OpaqueRecord {
    pub name: String,
    pub c_name: Option<String>,
}

/// A record (C struct) with known fields.
#[derive(Clone, Debug, PartialEq, Eq, Hash, PartialOrd, Ord)]
pub struct Record {
    pub name: String,
    pub c_name: String,
    pub fields: Vec<Field>,
}

/// A GObject property.
#[derive(Clone, Debug, PartialEq, Eq, Hash, PartialOrd, Ord)]
pub struct Property {
    pub name: String,
    pub rw: ReadWrite,
    pub type_info: TypeInfo,
    pub getter_name: Option<String>,
    pub setter_name: Option<String>,
}

/// An instance field of a class or a field of a record.
#[derive(Clone, Debug, PartialEq, Eq, Hash, PartialOrd, Ord)]
pub struct Field {
    pub name: String,
    pub private: bool,
    pub rw: ReadWrite,
    pub type_info: TypeInfo,
}

/// A field of a class structure.
#[derive(Clone, Debug, PartialEq, Eq, Hash, PartialOrd, Ord)]
pub struct ClassField {
    pub name: String,
    pub type_info: TypeInfo,
}

/// A method of a class or an interface.
#[derive(Clone, Debug, PartialEq, Eq, Hash, PartialOrd, Ord)]
pub struct Method {
    pub name: String,
    pub c_name: Option<String>,
    pub params: Vec<Parameter>,
    pub return_type: TypeInfo,
    pub getter_for_property: Option<String>,
    pub setter_for_property: Option<String>,
}

/// How a property or field may be accessed.
#[derive(Clone, Copy, Debug, PartialEq, Eq, Hash, PartialOrd, Ord)]
pub enum ReadWrite {
    /// The value is neither readable nor writable.
    Neither,
    /// The value can only be read, not written.
    ReadOnly,
    /// The value is provided during construction and can then only be read, not written.
    ReadConstruct,
    /// The value can be read and written.
    ReadWrite,
    /// The value is provided during construction and can be read and written.
    ReadWriteConstruct,
    /// The value can only be written, not read.
    WriteOnly,
    /// The value is provided during construction and can only be written, not read.
    WriteConstruct,
}

/// The type of a value, possibly with type parameters.
#[derive(Debug, PartialEq, Eq, Hash, PartialOrd, Ord)]
pub struct TypeInfo {
    pub name: String,
    pub c_type: Option<String>,
    pub is_const: bool,
    pub is_contained: bool,
    pub params: Vec<TypeInfo>,
}

/// A parameter of a method: the instance itself, or a regular parameter.
#[derive(Clone, Debug, PartialEq, Eq, Hash, PartialOrd, Ord)]
pub enum Parameter {
    Instance,
    Regular(RegularParameter),
}

/// A named, typed parameter.
#[derive(Clone, Debug, PartialEq, Eq, Hash, PartialOrd, Ord)]
pub struct RegularParameter {
    pub name: String,
    pub type_info: TypeInfo,
}

impl Class {
    /// The parent class that a class has unless it names one.
    pub fn default_parent() -> (r: String)
        ensures
            r@ == "GObject.Object"@,
    {
        "GObject.Object".to_owned()
    }

    /// Whether a class gets its parent and private fields unless it says otherwise.
    pub fn default_parent_and_priv_fields() -> (r: bool)
        ensures
            r,
    {
        true
    }
}

impl Field {
    /// Whether a field is private unless it says otherwise.
    pub fn default_private() -> (r: bool)
        ensures
            r,
    {
        true
    }

    /// How a field may be accessed unless it says otherwise.
    pub fn default_read_write() -> (r: ReadWrite)
        ensures
            r == ReadWrite::Neither,
    {
        ReadWrite::Neither
    }
}

impl Default for ReadWrite {
    fn default() -> (r: Self)
        ensures
            r == ReadWrite::ReadWrite,
    {
        ReadWrite::ReadWrite
    }
}

impl Default for Document {
    fn default() -> (r: Self)
        ensures
            r@.libraries.len() == 0,
    {
        Document { libraries: Vec::new() }
    }
}

/// The view of the `void` type.
pub open spec fn void_type_model() -> TypeInfoModel {
    TypeInfoModel {
        name: "none"@,
        c_type: Some("void"@),
        is_const: false,
        is_contained: false,
        params: Seq::empty(),
    }
}

impl TypeInfo {
    /// The `void` type: named `none`, with C type `void`.
    pub fn make_void() -> (r: Self)
        ensures
            r@ == void_type_model(),
    {
        let r = TypeInfo {
            name: "none".to_owned(),
            c_type: Some("void".to_owned()),
            is_const: false,
            is_contained: false,
            params: Vec::with_capacity(0),
        };
        assert(r@.params =~= Seq::<TypeInfoModel>::empty());
        r
    }

    /// A type with the given name and nothing else known of it.
    pub fn named(name: String) -> (r: Self)
        ensures
            r@ == (TypeInfoModel {
                name: name@,
                c_type: None,
                is_const: false,
                is_contained: false,
                params: Seq::empty(),
            }),
    {
        let r = TypeInfo {
            name,
            c_type: None,
            is_const: false,
            is_contained: false,
            params: Vec::with_capacity(0),
        };
        assert(r@.params =~= Seq::<TypeInfoModel>::empty());
        r
    }
}

impl Clone for TypeInfo {
    fn clone(&self) -> (r: Self)
        ensures
            r@ == self@,
        decreases self,
    {
        let mut params: Vec<TypeInfo> = Vec::with_capacity(self.params.len());
        let mut i: usize = 0;
        while i < self.params.len()
            invariant
                i <= self.params.len(),
                params.len() == i,
                forall|k: int| 0 <= k < i ==> #[trigger] params@[k]@ == self.params@[k]@,
            decreases self.params.len() - i,
        {
            let p = self.params[i].clone();
            params.push(p);
            i += 1;
        }
        let r = TypeInfo {
            name: self.name.clone(),
            c_type: crate::text::clone_opt_string(&self.c_type),
            is_const: self.is_const,
            is_contained: self.is_contained,
            params,
        };
        proof {
            lemma_type_infos_view(r.params@);
            lemma_type_infos_view(self.params@);
        }
        assert(r@.params =~= self@.params);
        r
    }
}

// ----------------------------------------------------------------------
// Views
// ----------------------------------------------------------------------

pub ghost struct TypeInfoModel {
    pub name: Seq<char>,
    pub c_type: Option<Seq<char>>,
    pub is_const: bool,
    pub is_contained: bool,
    pub params: Seq<TypeInfoModel>,
}

pub ghost struct RegularParameterModel {
    pub name: Seq<char>,
    pub type_info: TypeInfoModel,
}

pub ghost enum ParameterModel {
    Instance,
    Regular(RegularParameterModel),
}

pub ghost struct MethodModel {
    pub name: Seq<char>,
    pub c_name: Option<Seq<char>>,
    pub params: Seq<ParameterModel>,
    pub return_type: TypeInfoModel,
    pub getter_for_property: Option<Seq<char>>,
    pub setter_for_property: Option<Seq<char>>,
}

pub ghost struct ClassFieldModel {
    pub name: Seq<char>,
    pub type_info: TypeInfoModel,
}

pub ghost struct FieldModel {
    pub name: Seq<char>,
    pub private: bool,
    pub rw: ReadWrite,
    pub type_info: TypeInfoModel,
}

pub ghost struct PropertyModel {
    pub name: Seq<char>,
    pub rw: ReadWrite,
    pub type_info: TypeInfoModel,
    pub getter_name: Option<Seq<char>>,
    pub setter_name: Option<Seq<char>>,
}

pub ghost struct RecordModel {
    pub name: Seq<char>,
    pub c_name: Seq<char>,
    pub fields: Seq<FieldModel>,
}

pub ghost struct OpaqueRecordModel {
    pub name: Seq<char>,
    pub c_name: Option<Seq<char>>,
}

pub ghost struct InterfaceModel {
    pub name: Seq<char>,
    pub c_name: Option<Seq<char>>,
    pub properties: Seq<PropertyModel>,
    pub methods: Seq<MethodModel>,
}

pub ghost struct ClassModel {
    pub name: Seq<char>,
    pub c_name: Option<Seq<char>>,
    pub parent: Seq<char>,
    pub abstr: bool,
    pub parent_and_priv_fields: bool,
    pub properties: Seq<PropertyModel>,
    pub fields: Seq<FieldModel>,
    pub class_fields: Seq<ClassFieldModel>,
    pub methods: Seq<MethodModel>,
}

pub ghost struct LibraryModel {
    pub name: Seq<char>,
    pub version: Seq<char>,
    pub c_id_prefix: Seq<char>,
    pub c_sym_prefix: Seq<char>,
    pub shared_lib: Option<Seq<char>>,
    pub classes: Seq<ClassModel>,
    pub interfaces: Seq<InterfaceModel>,
    pub opaque_records: Seq<OpaqueRecordModel>,
    pub records: Seq<RecordModel>,
}

pub ghost struct DocumentModel {
    pub libraries: Seq<LibraryModel>,
}

impl View for TypeInfo {
    type V = TypeInfoModel;

    open spec fn view(&self) -> TypeInfoModel {
        type_info_model(*self)
    }
}

/// The view of a type: its strings as character sequences, and the views of
/// its parameters.
pub open spec fn type_info_model(t: TypeInfo) -> TypeInfoModel
    decreases t,
{
    proof {
        assert(decreases_to!(t => t.params));
        assert(decreases_to!(t.params => t.params@));
    }
    TypeInfoModel {
        name: t.name@,
        c_type: opt_view(t.c_type),
        is_const: t.is_const,
        is_contained: t.is_contained,
        params: type_infos_view(t.params@),
    }
}

/// The view of a sequence of types has one element for each, in order.
pub broadcast proof fn lemma_type_infos_view(s: Seq<TypeInfo>)
    ensures
        #[trigger] type_infos_view(s).len() == s.len(),
        forall|i: int| 0 <= i < s.len() ==> type_infos_view(s)[i] == s[i]@,
    decreases s.len(),
{
    if s.len() > 0 {
        lemma_type_infos_view(s.subrange(1, s.len() as int));
    }
}

/// The views of a sequence of types.
pub open spec fn type_infos_view(s: Seq<TypeInfo>) -> Seq<TypeInfoModel>
    decreases s,
{
    if s.len() == 0 {
        Seq::empty()
    } else {
        seq![type_info_model(s[0])] + type_infos_view(s.subrange(1, s.len() as int))
    }
}

impl View for RegularParameter {
    type V = RegularParameterModel;

    open spec fn view(&self) -> RegularParameterModel {
        RegularParameterModel { name: self.name@, type_info: self.type_info@ }
    }
}

impl View for Parameter {
    type V = ParameterModel;

    open spec fn view(&self) -> ParameterModel {
        match self {
            Parameter::Instance => ParameterModel::Instance,
            Parameter::Regular(r) => ParameterModel::Regular(r@),
        }
    }
}

impl View for Method {
    type V = MethodModel;

    open spec fn view(&self) -> MethodModel {
        MethodModel {
            name: self.name@,
            c_name: opt_view(self.c_name),
            params: self.params@.map_values(|p: Parameter| p@),
            return_type: self.return_type@,
            getter_for_property: opt_view(self.getter_for_property),
            setter_for_property: opt_view(self.setter_for_property),
        }
    }
}

impl View for ClassField {
    type V = ClassFieldModel;

    open spec fn view(&self) -> ClassFieldModel {
        ClassFieldModel { name: self.name@, type_info: self.type_info@ }
    }
}

impl View for Field {
    type V = FieldModel;

    open spec fn view(&self) -> FieldModel {
        FieldModel {
            name: self.name@,
            private: self.private,
            rw: self.rw,
            type_info: self.type_info@,
        }
    }
}

impl View for Property {
    type V = PropertyModel;

    open spec fn view(&self) -> PropertyModel {
        PropertyModel {
            name: self.name@,
            rw: self.rw,
            type_info: self.type_info@,
            getter_name: opt_view(self.getter_name),
            setter_name: opt_view(self.setter_name),
        }
    }
}

impl View for Record {
    type V = RecordModel;

    open spec fn view(&self) -> RecordModel {
        RecordModel {
            name: self.name@,
            c_name: self.c_name@,
            fields: self.fields@.map_values(|f: Field| f@),
        }
    }
}

impl View for OpaqueRecord {
    type V = OpaqueRecordModel;

    open spec fn view(&self) -> OpaqueRecordModel {
        OpaqueRecordModel { name: self.name@, c_name: opt_view(self.c_name) }
    }
}

impl View for Interface {
    type V = InterfaceModel;

    open spec fn view(&self) -> InterfaceModel {
        InterfaceModel {
            name: self.name@,
            c_name: opt_view(self.c_name),
            properties: self.properties@.map_values(|p: Property| p@),
            methods: self.methods@.map_values(|m: Method| m@),
        }
    }
}

impl View for Class {
    type V = ClassModel;

    open spec fn view(&self) -> ClassModel {
        ClassModel {
            name: self.name@,
            c_name: opt_view(self.c_name),
            parent: self.parent@,
            abstr: self.abstr,
            parent_and_priv_fields: self.parent_and_priv_fields,
            properties: self.properties@.map_values(|p: Property| p@),
            fields: self.fields@.map_values(|f: Field| f@),
            class_fields: self.class_fields@.map_values(|f: ClassField| f@),
            methods: self.methods@.map_values(|m: Method| m@),
        }
    }
}

impl View for Library {
    type V = LibraryModel;

    open spec fn view(&self) -> LibraryModel {
        LibraryModel {
            name: self.name@,
            version: self.version@,
            c_id_prefix: self.c_id_prefix@,
            c_sym_prefix: self.c_sym_prefix@,
            shared_lib: opt_view(self.shared_lib),
            classes: self.classes@.map_values(|c: Class| c@),
            interfaces: self.interfaces@.map_values(|i: Interface| i@),
            opaque_records: self.opaque_records@.map_values(|r: OpaqueRecord| r@),
            records: self.records@.map_values(|r: Record| r@),
        }
    }
}

impl View for Document {
    type V = DocumentModel;

    open spec fn view(&self) -> DocumentModel {
        DocumentModel { libraries: self.libraries@.map_values(|l: Library| l@) }
    }
}

} // verus!
