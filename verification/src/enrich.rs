//! Enriching a document with C types: every type without a C type receives
//! one, resolved from its name and the type database.
use vstd::prelude::*;

use crate::database::{TypeDatabase, TypeDatabaseModel};
use crate::fold::{
    fold_progress, fold_steps, lemma_fold_done, lemma_fold_fail, lemma_fold_idempotent,
    lemma_fold_next, lemma_fold_ok,
};
use crate::model::{
    lemma_type_infos_view, type_infos_view, Class, ClassField, ClassFieldModel, ClassModel, Document,
    DocumentModel, Field, FieldModel, Interface, InterfaceModel, Library, LibraryModel, Method,
    MethodModel, Parameter, ParameterModel, Property, PropertyModel, Record, RecordModel,
    RegularParameterModel, TypeInfo, TypeInfoModel,
};
use crate::text::{
    concat2, concat3, debug_str, decimal_digits, push_decimal, spec_debug_str, str_eq, string_from_range, to_chars,
};

verus! {
// ----------------------------------------------------------------------
// Enrichment with C types
// ----------------------------------------------------------------------

/// Why a type could not be given a C type.
#[derive(Clone, Debug, PartialEq, Eq, Hash, PartialOrd, Ord)]
pub enum EnrichError {
    NameTooManyDots { name: String, dot_count: usize },
    UnknownLocalUniversalType { name: String },
    UnknownGlobalType { name: String },
}

pub ghost enum EnrichErrorModel {
    NameTooManyDots { name: Seq<char>, dot_count: nat },
    UnknownLocalUniversalType { name: Seq<char> },
    UnknownGlobalType { name: Seq<char> },
}

impl View for EnrichError {
    type V = EnrichErrorModel;

    open spec fn view(&self) -> EnrichErrorModel {
        match self {
            EnrichError::NameTooManyDots { name, dot_count } => EnrichErrorModel::NameTooManyDots {
                name: name@,
                dot_count: *dot_count as nat,
            },
            EnrichError::UnknownLocalUniversalType { name } =>
                EnrichErrorModel::UnknownLocalUniversalType { name: name@ },
            EnrichError::UnknownGlobalType { name } => EnrichErrorModel::UnknownGlobalType {
                name: name@,
            },
        }
    }
}

/// The message of an error, the name in its `Debug` form (quoted, with
/// escapes).
pub open spec fn enrich_error_message(e: EnrichErrorModel) -> Seq<char> {
    match e {
        EnrichErrorModel::NameTooManyDots { name, dot_count } => "name "@ + spec_debug_str(name)
            + " has too many dots ("@ + decimal_digits(dot_count) + ")"@,
        EnrichErrorModel::UnknownLocalUniversalType { name } => "failed to resolve local/universal type "@
            + spec_debug_str(name),
        EnrichErrorModel::UnknownGlobalType { name } => "failed to resolve global type "@ + spec_debug_str(name),
    }
}

impl EnrichError {
    /// The error's message: `name "N" has too many dots (D)`, `failed to
    /// resolve local/universal type "N"` or `failed to resolve global type
    /// "N"`.
    pub fn to_string(&self) -> (r: String)
        ensures
            r@ == enrich_error_message(self@),
    {
        match self {
            EnrichError::NameTooManyDots { name, dot_count } => {
                let mut s = "name ".to_owned();
                s.append(debug_str(name.as_str()).as_str());
                s.append(" has too many dots (");
                push_decimal(&mut s, *dot_count as u128);
                s.append(")");
                s
            },
            EnrichError::UnknownLocalUniversalType { name } => {
                concat2("failed to resolve local/universal type ", debug_str(name.as_str()).as_str())
            },
            EnrichError::UnknownGlobalType { name } => {
                concat2("failed to resolve global type ", debug_str(name.as_str()).as_str())
            },
        }
    }
}

/// The error of a result, as a view.
pub open spec fn enrich_err(r: Result<(), EnrichError>) -> Option<EnrichErrorModel> {
    match r {
        Ok(()) => None,
        Err(e) => Some(e@),
    }
}

/// How often `c` occurs in `s`.
pub open spec fn count_char(s: Seq<char>, c: char) -> nat
    decreases s.len(),
{
    if s.len() == 0 {
        0
    } else {
        count_char(s.drop_last(), c) + if s.last() == c {
            1nat
        } else {
            0nat
        }
    }
}

/// `i` is the first position of `c` in `s`.
pub open spec fn is_first_index(s: Seq<char>, c: char, i: int) -> bool {
    &&& 0 <= i < s.len()
    &&& s[i] == c
    &&& forall|j: int| 0 <= j < i ==> s[j] != c
}

/// `s` split at its first dot: the part before, and the part after.
pub open spec fn split_at_dot(s: Seq<char>) -> (Seq<char>, Seq<char>) {
    let i = choose|i: int| is_first_index(s, '.', i);
    (s.take(i), s.skip(i + 1))
}

/// `*`, unless the type is contained by value.
pub open spec fn pointer_star(t: TypeInfoModel) -> Seq<char> {
    if t.is_contained {
        Seq::empty()
    } else {
        "*"@
    }
}

/// The name and the C type that a type without a C type receives, or why it
/// cannot receive one. `library` is the library in which the type is used.
///
/// A name without a dot is a universal type (`GType`, `void`, `utf8`) or a
/// type of `library`; a name with one dot is `Library.Type`, with `GLib.List`
/// and `GObject.Object` known without the database.
pub open spec fn resolve_type(db: TypeDatabaseModel, library: Seq<char>, t: TypeInfoModel) -> Result<
    (Seq<char>, Seq<char>),
    EnrichErrorModel,
> {
    let dots = count_char(t.name, '.');
    if dots == 0 {
        if t.name == "GType"@ {
            Ok((t.name, t.name))
        } else if t.name == "void"@ {
            Ok(("none"@, "void"@))
        } else if t.name == "utf8"@ {
            Ok(
                (
                    t.name,
                    if t.is_const {
                        "const gchar*"@
                    } else {
                        "gchar*"@
                    },
                ),
            )
        } else if db.types.contains_key((library, t.name)) {
            Ok((t.name, db.types[(library, t.name)] + pointer_star(t)))
        } else {
            Err(EnrichErrorModel::UnknownLocalUniversalType { name: t.name })
        }
    } else if dots == 1 {
        let (type_lib, local) = split_at_dot(t.name);
        if type_lib == "GLib"@ {
            if local == "List"@ {
                Ok(
                    (
                        t.name,
                        if t.is_contained {
                            "GList"@
                        } else {
                            "GList*"@
                        },
                    ),
                )
            } else {
                Err(EnrichErrorModel::UnknownGlobalType { name: t.name })
            }
        } else if type_lib == "GObject"@ {
            if local == "Object"@ {
                Ok(
                    (
                        t.name,
                        if t.is_contained {
                            "GObject"@
                        } else {
                            "GObject*"@
                        },
                    ),
                )
            } else {
                Err(EnrichErrorModel::UnknownGlobalType { name: t.name })
            }
        } else if db.types.contains_key((type_lib, local)) {
            let cst = if t.is_const {
                "const "@
            } else {
                Seq::empty()
            };
            Ok((t.name, cst + db.types[(type_lib, local)] + pointer_star(t)))
        } else {
            Err(EnrichErrorModel::UnknownGlobalType { name: t.name })
        }
    } else {
        Err(EnrichErrorModel::NameTooManyDots { name: t.name, dot_count: dots })
    }
}

/// Enriching one type: a type that has a C type is left alone; otherwise it
/// receives its C type and then its parameters are enriched in order. The
/// result is the type after that work, and the first error met.
pub open spec fn enrich_type(db: TypeDatabaseModel, library: Seq<char>, t: TypeInfoModel) -> (
    TypeInfoModel,
    Option<EnrichErrorModel>,
)
    decreases t,
{
    if t.c_type is Some {
        (t, None)
    } else {
        match resolve_type(db, library, t) {
            Err(e) => (t, Some(e)),
            Ok((name, c_type)) => {
                let (params, e) = enrich_types(db, library, t.params);
                (TypeInfoModel { name, c_type: Some(c_type), params, ..t }, e)
            },
        }
    }
}

/// Enriching a sequence of types in order, stopping at the first error.
pub open spec fn enrich_types(db: TypeDatabaseModel, library: Seq<char>, s: Seq<TypeInfoModel>) -> (
    Seq<TypeInfoModel>,
    Option<EnrichErrorModel>,
)
    decreases s,
{
    if s.len() == 0 {
        (s, None)
    } else {
        let (x, e) = enrich_type(db, library, s[0]);
        if e is Some {
            (seq![x] + s.subrange(1, s.len() as int), e)
        } else {
            let (rest, e2) = enrich_types(db, library, s.subrange(1, s.len() as int));
            (seq![x] + rest, e2)
        }
    }
}

/// `enrich_types` is the fold of `enrich_type`.
pub proof fn lemma_enrich_types_fold(db: TypeDatabaseModel, library: Seq<char>, s: Seq<TypeInfoModel>)
    ensures
        enrich_types(db, library, s) == fold_steps(s, type_step(db, library)),
    decreases s.len(),
{
    if s.len() > 0 {
        lemma_enrich_types_fold(db, library, s.subrange(1, s.len() as int));
        assert(s.drop_first() =~= s.subrange(1, s.len() as int));
    }
}

/// The enrichment of one type, as a step function.
pub open spec fn type_step(db: TypeDatabaseModel, library: Seq<char>) -> spec_fn(TypeInfoModel) -> (
    TypeInfoModel,
    Option<EnrichErrorModel>,
) {
    |t: TypeInfoModel| enrich_type(db, library, t)
}

/// Enriching a parameter: the instance parameter has nothing to enrich.
pub open spec fn enrich_parameter(db: TypeDatabaseModel, library: Seq<char>, p: ParameterModel) -> (
    ParameterModel,
    Option<EnrichErrorModel>,
) {
    match p {
        ParameterModel::Instance => (p, None),
        ParameterModel::Regular(r) => {
            let (t, e) = enrich_type(db, library, r.type_info);
            (ParameterModel::Regular(RegularParameterModel { type_info: t, ..r }), e)
        },
    }
}

pub open spec fn parameter_step(db: TypeDatabaseModel, library: Seq<char>) -> spec_fn(
    ParameterModel,
) -> (ParameterModel, Option<EnrichErrorModel>) {
    |p: ParameterModel| enrich_parameter(db, library, p)
}

/// Enriching a method: its parameters in order, then its return type.
pub open spec fn enrich_method(db: TypeDatabaseModel, library: Seq<char>, m: MethodModel) -> (
    MethodModel,
    Option<EnrichErrorModel>,
) {
    let (params, e) = fold_steps(m.params, parameter_step(db, library));
    if e is Some {
        (MethodModel { params, ..m }, e)
    } else {
        let (ret, e2) = enrich_type(db, library, m.return_type);
        (MethodModel { params, return_type: ret, ..m }, e2)
    }
}

pub open spec fn method_step(db: TypeDatabaseModel, library: Seq<char>) -> spec_fn(MethodModel) -> (
    MethodModel,
    Option<EnrichErrorModel>,
) {
    |m: MethodModel| enrich_method(db, library, m)
}

pub open spec fn property_step(db: TypeDatabaseModel, library: Seq<char>) -> spec_fn(
    PropertyModel,
) -> (PropertyModel, Option<EnrichErrorModel>) {
    |p: PropertyModel|
        {
            let (t, e) = enrich_type(db, library, p.type_info);
            (PropertyModel { type_info: t, ..p }, e)
        }
}

pub open spec fn field_step(db: TypeDatabaseModel, library: Seq<char>) -> spec_fn(FieldModel) -> (
    FieldModel,
    Option<EnrichErrorModel>,
) {
    |f: FieldModel|
        {
            let (t, e) = enrich_type(db, library, f.type_info);
            (FieldModel { type_info: t, ..f }, e)
        }
}

pub open spec fn class_field_step(db: TypeDatabaseModel, library: Seq<char>) -> spec_fn(
    ClassFieldModel,
) -> (ClassFieldModel, Option<EnrichErrorModel>) {
    |f: ClassFieldModel|
        {
            let (t, e) = enrich_type(db, library, f.type_info);
            (ClassFieldModel { type_info: t, ..f }, e)
        }
}

/// Enriching an interface: its properties, then its methods.
pub open spec fn enrich_interface(db: TypeDatabaseModel, library: Seq<char>, i: InterfaceModel) -> (
    InterfaceModel,
    Option<EnrichErrorModel>,
) {
    let (properties, e) = fold_steps(i.properties, property_step(db, library));
    if e is Some {
        (InterfaceModel { properties, ..i }, e)
    } else {
        let (methods, e2) = fold_steps(i.methods, method_step(db, library));
        (InterfaceModel { properties, methods, ..i }, e2)
    }
}

pub open spec fn interface_step(db: TypeDatabaseModel, library: Seq<char>) -> spec_fn(
    InterfaceModel,
) -> (InterfaceModel, Option<EnrichErrorModel>) {
    |i: InterfaceModel| enrich_interface(db, library, i)
}

/// Enriching a class: its class fields, its fields, its properties, then its
/// methods.
pub open spec fn enrich_class(db: TypeDatabaseModel, library: Seq<char>, c: ClassModel) -> (
    ClassModel,
    Option<EnrichErrorModel>,
) {
    let (class_fields, e1) = fold_steps(c.class_fields, class_field_step(db, library));
    if e1 is Some {
        (ClassModel { class_fields, ..c }, e1)
    } else {
        let (fields, e2) = fold_steps(c.fields, field_step(db, library));
        if e2 is Some {
            (ClassModel { class_fields, fields, ..c }, e2)
        } else {
            let (properties, e3) = fold_steps(c.properties, property_step(db, library));
            if e3 is Some {
                (ClassModel { class_fields, fields, properties, ..c }, e3)
            } else {
                let (methods, e4) = fold_steps(c.methods, method_step(db, library));
                (ClassModel { class_fields, fields, properties, methods, ..c }, e4)
            }
        }
    }
}

pub open spec fn class_step(db: TypeDatabaseModel, library: Seq<char>) -> spec_fn(ClassModel) -> (
    ClassModel,
    Option<EnrichErrorModel>,
) {
    |c: ClassModel| enrich_class(db, library, c)
}

pub open spec fn record_step(db: TypeDatabaseModel, library: Seq<char>) -> spec_fn(RecordModel) -> (
    RecordModel,
    Option<EnrichErrorModel>,
) {
    |r: RecordModel|
        {
            let (fields, e) = fold_steps(r.fields, field_step(db, library));
            (RecordModel { fields, ..r }, e)
        }
}

/// Enriching a library: its interfaces, its classes, then its records, with
/// undotted names looked up among the library's own types.
pub open spec fn enrich_library(db: TypeDatabaseModel, l: LibraryModel) -> (
    LibraryModel,
    Option<EnrichErrorModel>,
) {
    let (interfaces, e1) = fold_steps(l.interfaces, interface_step(db, l.name));
    if e1 is Some {
        (LibraryModel { interfaces, ..l }, e1)
    } else {
        let (classes, e2) = fold_steps(l.classes, class_step(db, l.name));
        if e2 is Some {
            (LibraryModel { interfaces, classes, ..l }, e2)
        } else {
            let (records, e3) = fold_steps(l.records, record_step(db, l.name));
            (LibraryModel { interfaces, classes, records, ..l }, e3)
        }
    }
}

pub open spec fn library_step(db: TypeDatabaseModel) -> spec_fn(LibraryModel) -> (
    LibraryModel,
    Option<EnrichErrorModel>,
) {
    |l: LibraryModel| enrich_library(db, l)
}

/// Enriching a document: its libraries in order.
pub open spec fn enrich_document_model(db: TypeDatabaseModel, d: DocumentModel) -> (
    DocumentModel,
    Option<EnrichErrorModel>,
) {
    let (libraries, e) = fold_steps(d.libraries, library_step(db));
    (DocumentModel { libraries }, e)
}

/// The number of dots in a character vector.
fn count_dots(chars: &Vec<char>) -> (r: usize)
    ensures
        r == count_char(chars@, '.'),
{
    let mut n: usize = 0;
    let mut i: usize = 0;
    while i < chars.len()
        invariant
            i <= chars.len(),
            n == count_char(chars@.take(i as int), '.'),
            n <= i,
        decreases chars.len() - i,
    {
        assert(chars@.take(i + 1).drop_last() =~= chars@.take(i as int));
        if chars[i] == '.' {
            n += 1;
        }
        i += 1;
    }
    assert(chars@.take(chars.len() as int) =~= chars@);
    n
}

/// The position of the first dot in a character vector that has one.
fn first_dot(chars: &Vec<char>) -> (r: usize)
    requires
        exists|i: int| 0 <= i < chars.len() && chars@[i] == '.',
    ensures
        is_first_index(chars@, '.', r as int),
{
    let mut i: usize = 0;
    while i < chars.len()
        invariant
            i <= chars.len(),
            forall|j: int| 0 <= j < i ==> chars@[j] != '.',
            exists|i: int| 0 <= i < chars.len() && chars@[i] == '.',
        decreases chars.len() - i,
    {
        if chars[i] == '.' {
            return i;
        }
        i += 1;
    }
    i
}

/// A string with one dot has a first dot.
proof fn lemma_count_positive(s: Seq<char>, c: char)
    requires
        count_char(s, c) > 0,
    ensures
        exists|i: int| 0 <= i < s.len() && s[i] == c,
    decreases s.len(),
{
    if s.last() == c {
        assert(s[s.len() - 1] == c);
    } else {
        lemma_count_positive(s.drop_last(), c);
        let i = choose|i: int| 0 <= i < s.drop_last().len() && s.drop_last()[i] == c;
        assert(s[i] == c);
    }
}

/// The first position of a character is unique.
proof fn lemma_first_index_unique(s: Seq<char>, c: char, i: int)
    requires
        is_first_index(s, c, i),
    ensures
        (choose|j: int| is_first_index(s, c, j)) == i,
{
    let j = choose|j: int| is_first_index(s, c, j);
    assert(is_first_index(s, c, j));
    if j < i {
        assert(s[j] != c);
    } else if i < j {
        assert(s[i] != c);
    }
}

impl TypeDatabase {
    /// The C type and the possibly new name of a type that has no C type yet.
    fn resolve(&self, t: &TypeInfo, library: &str) -> (r: Result<(String, String), EnrichError>)
        requires
            self.wf(),
        ensures
            match r {
                Ok((name, c)) => resolve_type(self@, library@, t@) == Ok::<
                    (Seq<char>, Seq<char>),
                    EnrichErrorModel,
                >((name@, c@)),
                Err(e) => resolve_type(self@, library@, t@) == Err::<
                    (Seq<char>, Seq<char>),
                    EnrichErrorModel,
                >(e@),
            },
    {
        let chars = to_chars(t.name.as_str());
        let dots = count_dots(&chars);
        let star = if t.is_contained {
            ""
        } else {
            "*"
        };
        proof {
            reveal_strlit("");
        }
        assert(star@ == pointer_star(t@));
        if dots == 0 {
            if str_eq(t.name.as_str(), "GType") {
                Ok((t.name.clone(), t.name.clone()))
            } else if str_eq(t.name.as_str(), "void") {
                Ok(("none".to_owned(), "void".to_owned()))
            } else if str_eq(t.name.as_str(), "utf8") {
                let c = if t.is_const {
                    "const gchar*".to_owned()
                } else {
                    "gchar*".to_owned()
                };
                Ok((t.name.clone(), c))
            } else {
                match self.lookup(library, t.name.as_str()) {
                    Some(found) => Ok((t.name.clone(), concat2(found.as_str(), star))),
                    None => Err(EnrichError::UnknownLocalUniversalType { name: t.name.clone() }),
                }
            }
        } else if dots == 1 {
            proof {
                lemma_count_positive(chars@, '.');
            }
            let k = first_dot(&chars);
            proof {
                lemma_first_index_unique(chars@, '.', k as int);
            }
            let type_lib = string_from_range(&chars, 0, k);
            let local = string_from_range(&chars, k + 1, chars.len());
            assert(type_lib@ == split_at_dot(t@.name).0);
            assert(local@ == split_at_dot(t@.name).1);
            if str_eq(type_lib.as_str(), "GLib") {
                if str_eq(local.as_str(), "List") {
                    let c = if t.is_contained {
                        "GList".to_owned()
                    } else {
                        "GList*".to_owned()
                    };
                    Ok((t.name.clone(), c))
                } else {
                    Err(EnrichError::UnknownGlobalType { name: t.name.clone() })
                }
            } else if str_eq(type_lib.as_str(), "GObject") {
                if str_eq(local.as_str(), "Object") {
                    let c = if t.is_contained {
                        "GObject".to_owned()
                    } else {
                        "GObject*".to_owned()
                    };
                    Ok((t.name.clone(), c))
                } else {
                    Err(EnrichError::UnknownGlobalType { name: t.name.clone() })
                }
            } else {
                match self.lookup(type_lib.as_str(), local.as_str()) {
                    Some(found) => {
                        let cst = if t.is_const {
                            "const "
                        } else {
                            ""
                        };
                        Ok((t.name.clone(), concat3(cst, found.as_str(), star)))
                    },
                    None => Err(EnrichError::UnknownGlobalType { name: t.name.clone() }),
                }
            }
        } else {
            Err(EnrichError::NameTooManyDots { name: t.name.clone(), dot_count: dots })
        }
    }
}


impl TypeDatabase {
    /// Gives a type without a C type its C type, then does the same for its
    /// parameters in order; stops at the first type that cannot be resolved.
    fn enrich_type_info(&self, type_info: &mut TypeInfo, library: &str) -> (r: Result<(), EnrichError>)
        requires
            self.wf(),
        ensures
            (final(type_info)@, enrich_err(r)) == enrich_type(self@, library@, old(type_info)@),
        decreases old(type_info)@,
    {
        if type_info.c_type.is_some() {
            return Ok(());
        }
        let (name, c_type) = match self.resolve(type_info, library) {
            Ok(nc) => nc,
            Err(e) => {
                return Err(e);
            },
        };
        let ghost orig = type_info@;
        let ghost ps = orig.params;
        let ghost f = type_step(self@, library@);
        proof {
            lemma_type_infos_view(type_info.params@);
        }
        type_info.name = name;
        type_info.c_type = Some(c_type);
        let mut i: usize = 0;
        while i < type_info.params.len()
            invariant
                self.wf(),
                f == type_step(self@, library@),
                ps == orig.params,
                orig == old(type_info)@,
                orig.c_type is None,
                type_info@.name == (match resolve_type(self@, library@, orig) {
                    Ok((n, _)) => n,
                    Err(_) => orig.name,
                }),
                resolve_type(self@, library@, orig) is Ok,
                type_info@.c_type == Some(resolve_type(self@, library@, orig)->Ok_0.1),
                type_info@.is_const == orig.is_const,
                type_info@.is_contained == orig.is_contained,
                fold_progress(ps, type_infos_view(type_info.params@), f, i as int),
                type_infos_view(type_info.params@).len() == type_info.params.len(),
            decreases type_info.params.len() - i,
        {
            proof {
                lemma_type_infos_view(type_info.params@);
            }
            let ghost before = type_info.params@;
            proof {
                assert(type_infos_view(before)[i as int] == ps[i as int]);
                assert(before[i as int]@ == ps[i as int]);
                assert(decreases_to!(orig => orig.params));
                assert(decreases_to!(orig.params => orig.params[i as int]));
                assert(decreases_to!(orig => orig.params[i as int]));
                assert(orig == old(type_info)@);
                assert(f(ps[i as int]) == enrich_type(self@, library@, ps[i as int]));
            }
            let r = self.enrich_type_info(&mut type_info.params[i], library);
            proof {
                lemma_type_infos_view(type_info.params@);
                lemma_type_infos_view(before);
                assert(type_infos_view(type_info.params@) =~= type_infos_view(before).update(
                    i as int,
                    type_info.params@[i as int]@,
                ));
            }
            match r {
                Ok(()) => {
                    proof {
                        lemma_fold_next(ps, type_infos_view(before), f, i as int);
                    }
                },
                Err(e) => {
                    proof {
                        lemma_fold_fail(ps, type_infos_view(before), f, i as int);
                        lemma_enrich_types_fold(self@, library@, ps);
                        assert(type_info@.params == enrich_types(self@, library@, ps).0);
                        assert(type_info@ == enrich_type(self@, library@, orig).0);
                    }
                    return Err(e);
                },
            }
            i += 1;
        }
        proof {
            lemma_fold_done(ps, type_infos_view(type_info.params@), f);
            lemma_enrich_types_fold(self@, library@, ps);
        }
        Ok(())
    }
}

impl TypeDatabase {
    /// Enriches the parameters in order, stopping at the first error.
    fn enrich_parameters(&self, v: &mut Vec<Parameter>, library: &str) -> (r: Result<(), EnrichError>)
        requires
            self.wf(),
        ensures
            (final(v)@.map_values(|x: Parameter| x@), enrich_err(r)) == fold_steps(
                old(v)@.map_values(|x: Parameter| x@),
                parameter_step(self@, library@),
            ),
    {
        let ghost orig = v@.map_values(|x: Parameter| x@);
        let ghost f = parameter_step(self@, library@);
        let mut i: usize = 0;
        while i < v.len()
            invariant
                self.wf(),
                f == parameter_step(self@, library@),
                orig == old(v)@.map_values(|x: Parameter| x@),
                fold_progress(orig, v@.map_values(|x: Parameter| x@), f, i as int),
            decreases v.len() - i,
        {
            let ghost before = v@.map_values(|x: Parameter| x@);
            assert(before[i as int] == orig[i as int]);
            assert(before[i as int] == v@[i as int]@);
            let r = self.enrich_parameter(&mut v[i], library);
            assert(v@.map_values(|x: Parameter| x@) =~= before.update(i as int, v@[i as int]@));
            match r {
                Ok(()) => {
                    proof {
                        lemma_fold_next(orig, before, f, i as int);
                    }
                },
                Err(e) => {
                    proof {
                        lemma_fold_fail(orig, before, f, i as int);
                    }
                    return Err(e);
                },
            }
            i += 1;
        }
        proof {
            lemma_fold_done(orig, v@.map_values(|x: Parameter| x@), f);
        }
        Ok(())
    }

    /// Enriches the methods in order, stopping at the first error.
    fn enrich_methods(&self, v: &mut Vec<Method>, library: &str) -> (r: Result<(), EnrichError>)
        requires
            self.wf(),
        ensures
            (final(v)@.map_values(|x: Method| x@), enrich_err(r)) == fold_steps(
                old(v)@.map_values(|x: Method| x@),
                method_step(self@, library@),
            ),
    {
        let ghost orig = v@.map_values(|x: Method| x@);
        let ghost f = method_step(self@, library@);
        let mut i: usize = 0;
        while i < v.len()
            invariant
                self.wf(),
                f == method_step(self@, library@),
                orig == old(v)@.map_values(|x: Method| x@),
                fold_progress(orig, v@.map_values(|x: Method| x@), f, i as int),
            decreases v.len() - i,
        {
            let ghost before = v@.map_values(|x: Method| x@);
            assert(before[i as int] == orig[i as int]);
            assert(before[i as int] == v@[i as int]@);
            let r = self.enrich_method(&mut v[i], library);
            assert(v@.map_values(|x: Method| x@) =~= before.update(i as int, v@[i as int]@));
            match r {
                Ok(()) => {
                    proof {
                        lemma_fold_next(orig, before, f, i as int);
                    }
                },
                Err(e) => {
                    proof {
                        lemma_fold_fail(orig, before, f, i as int);
                    }
                    return Err(e);
                },
            }
            i += 1;
        }
        proof {
            lemma_fold_done(orig, v@.map_values(|x: Method| x@), f);
        }
        Ok(())
    }

    /// Enriches the properties in order, stopping at the first error.
    fn enrich_properties(&self, v: &mut Vec<Property>, library: &str) -> (r: Result<(), EnrichError>)
        requires
            self.wf(),
        ensures
            (final(v)@.map_values(|x: Property| x@), enrich_err(r)) == fold_steps(
                old(v)@.map_values(|x: Property| x@),
                property_step(self@, library@),
            ),
    {
        let ghost orig = v@.map_values(|x: Property| x@);
        let ghost f = property_step(self@, library@);
        let mut i: usize = 0;
        while i < v.len()
            invariant
                self.wf(),
                f == property_step(self@, library@),
                orig == old(v)@.map_values(|x: Property| x@),
                fold_progress(orig, v@.map_values(|x: Property| x@), f, i as int),
            decreases v.len() - i,
        {
            let ghost before = v@.map_values(|x: Property| x@);
            assert(before[i as int] == orig[i as int]);
            assert(before[i as int] == v@[i as int]@);
            let r = self.enrich_property(&mut v[i], library);
            assert(v@.map_values(|x: Property| x@) =~= before.update(i as int, v@[i as int]@));
            match r {
                Ok(()) => {
                    proof {
                        lemma_fold_next(orig, before, f, i as int);
                    }
                },
                Err(e) => {
                    proof {
                        lemma_fold_fail(orig, before, f, i as int);
                    }
                    return Err(e);
                },
            }
            i += 1;
        }
        proof {
            lemma_fold_done(orig, v@.map_values(|x: Property| x@), f);
        }
        Ok(())
    }

    /// Enriches the fields in order, stopping at the first error.
    fn enrich_fields(&self, v: &mut Vec<Field>, library: &str) -> (r: Result<(), EnrichError>)
        requires
            self.wf(),
        ensures
            (final(v)@.map_values(|x: Field| x@), enrich_err(r)) == fold_steps(
                old(v)@.map_values(|x: Field| x@),
                field_step(self@, library@),
            ),
    {
        let ghost orig = v@.map_values(|x: Field| x@);
        let ghost f = field_step(self@, library@);
        let mut i: usize = 0;
        while i < v.len()
            invariant
                self.wf(),
                f == field_step(self@, library@),
                orig == old(v)@.map_values(|x: Field| x@),
                fold_progress(orig, v@.map_values(|x: Field| x@), f, i as int),
            decreases v.len() - i,
        {
            let ghost before = v@.map_values(|x: Field| x@);
            assert(before[i as int] == orig[i as int]);
            assert(before[i as int] == v@[i as int]@);
            let r = self.enrich_field(&mut v[i], library);
            assert(v@.map_values(|x: Field| x@) =~= before.update(i as int, v@[i as int]@));
            match r {
                Ok(()) => {
                    proof {
                        lemma_fold_next(orig, before, f, i as int);
                    }
                },
                Err(e) => {
                    proof {
                        lemma_fold_fail(orig, before, f, i as int);
                    }
                    return Err(e);
                },
            }
            i += 1;
        }
        proof {
            lemma_fold_done(orig, v@.map_values(|x: Field| x@), f);
        }
        Ok(())
    }

    /// Enriches the class fields in order, stopping at the first error.
    fn enrich_class_fields(&self, v: &mut Vec<ClassField>, library: &str) -> (r: Result<(), EnrichError>)
        requires
            self.wf(),
        ensures
            (final(v)@.map_values(|x: ClassField| x@), enrich_err(r)) == fold_steps(
                old(v)@.map_values(|x: ClassField| x@),
                class_field_step(self@, library@),
            ),
    {
        let ghost orig = v@.map_values(|x: ClassField| x@);
        let ghost f = class_field_step(self@, library@);
        let mut i: usize = 0;
        while i < v.len()
            invariant
                self.wf(),
                f == class_field_step(self@, library@),
                orig == old(v)@.map_values(|x: ClassField| x@),
                fold_progress(orig, v@.map_values(|x: ClassField| x@), f, i as int),
            decreases v.len() - i,
        {
            let ghost before = v@.map_values(|x: ClassField| x@);
            assert(before[i as int] == orig[i as int]);
            assert(before[i as int] == v@[i as int]@);
            let r = self.enrich_class_field(&mut v[i], library);
            assert(v@.map_values(|x: ClassField| x@) =~= before.update(i as int, v@[i as int]@));
            match r {
                Ok(()) => {
                    proof {
                        lemma_fold_next(orig, before, f, i as int);
                    }
                },
                Err(e) => {
                    proof {
                        lemma_fold_fail(orig, before, f, i as int);
                    }
                    return Err(e);
                },
            }
            i += 1;
        }
        proof {
            lemma_fold_done(orig, v@.map_values(|x: ClassField| x@), f);
        }
        Ok(())
    }

    /// Enriches the interfaces in order, stopping at the first error.
    fn enrich_interfaces(&self, v: &mut Vec<Interface>, library: &str) -> (r: Result<(), EnrichError>)
        requires
            self.wf(),
        ensures
            (final(v)@.map_values(|x: Interface| x@), enrich_err(r)) == fold_steps(
                old(v)@.map_values(|x: Interface| x@),
                interface_step(self@, library@),
            ),
    {
        let ghost orig = v@.map_values(|x: Interface| x@);
        let ghost f = interface_step(self@, library@);
        let mut i: usize = 0;
        while i < v.len()
            invariant
                self.wf(),
                f == interface_step(self@, library@),
                orig == old(v)@.map_values(|x: Interface| x@),
                fold_progress(orig, v@.map_values(|x: Interface| x@), f, i as int),
            decreases v.len() - i,
        {
            let ghost before = v@.map_values(|x: Interface| x@);
            assert(before[i as int] == orig[i as int]);
            assert(before[i as int] == v@[i as int]@);
            let r = self.enrich_interface(&mut v[i], library);
            assert(v@.map_values(|x: Interface| x@) =~= before.update(i as int, v@[i as int]@));
            match r {
                Ok(()) => {
                    proof {
                        lemma_fold_next(orig, before, f, i as int);
                    }
                },
                Err(e) => {
                    proof {
                        lemma_fold_fail(orig, before, f, i as int);
                    }
                    return Err(e);
                },
            }
            i += 1;
        }
        proof {
            lemma_fold_done(orig, v@.map_values(|x: Interface| x@), f);
        }
        Ok(())
    }

    /// Enriches the classes in order, stopping at the first error.
    fn enrich_classes(&self, v: &mut Vec<Class>, library: &str) -> (r: Result<(), EnrichError>)
        requires
            self.wf(),
        ensures
            (final(v)@.map_values(|x: Class| x@), enrich_err(r)) == fold_steps(
                old(v)@.map_values(|x: Class| x@),
                class_step(self@, library@),
            ),
    {
        let ghost orig = v@.map_values(|x: Class| x@);
        let ghost f = class_step(self@, library@);
        let mut i: usize = 0;
        while i < v.len()
            invariant
                self.wf(),
                f == class_step(self@, library@),
                orig == old(v)@.map_values(|x: Class| x@),
                fold_progress(orig, v@.map_values(|x: Class| x@), f, i as int),
            decreases v.len() - i,
        {
            let ghost before = v@.map_values(|x: Class| x@);
            assert(before[i as int] == orig[i as int]);
            assert(before[i as int] == v@[i as int]@);
            let r = self.enrich_class(&mut v[i], library);
            assert(v@.map_values(|x: Class| x@) =~= before.update(i as int, v@[i as int]@));
            match r {
                Ok(()) => {
                    proof {
                        lemma_fold_next(orig, before, f, i as int);
                    }
                },
                Err(e) => {
                    proof {
                        lemma_fold_fail(orig, before, f, i as int);
                    }
                    return Err(e);
                },
            }
            i += 1;
        }
        proof {
            lemma_fold_done(orig, v@.map_values(|x: Class| x@), f);
        }
        Ok(())
    }

    /// Enriches the records in order, stopping at the first error.
    fn enrich_records(&self, v: &mut Vec<Record>, library: &str) -> (r: Result<(), EnrichError>)
        requires
            self.wf(),
        ensures
            (final(v)@.map_values(|x: Record| x@), enrich_err(r)) == fold_steps(
                old(v)@.map_values(|x: Record| x@),
                record_step(self@, library@),
            ),
    {
        let ghost orig = v@.map_values(|x: Record| x@);
        let ghost f = record_step(self@, library@);
        let mut i: usize = 0;
        while i < v.len()
            invariant
                self.wf(),
                f == record_step(self@, library@),
                orig == old(v)@.map_values(|x: Record| x@),
                fold_progress(orig, v@.map_values(|x: Record| x@), f, i as int),
            decreases v.len() - i,
        {
            let ghost before = v@.map_values(|x: Record| x@);
            assert(before[i as int] == orig[i as int]);
            assert(before[i as int] == v@[i as int]@);
            let r = self.enrich_record(&mut v[i], library);
            assert(v@.map_values(|x: Record| x@) =~= before.update(i as int, v@[i as int]@));
            match r {
                Ok(()) => {
                    proof {
                        lemma_fold_next(orig, before, f, i as int);
                    }
                },
                Err(e) => {
                    proof {
                        lemma_fold_fail(orig, before, f, i as int);
                    }
                    return Err(e);
                },
            }
            i += 1;
        }
        proof {
            lemma_fold_done(orig, v@.map_values(|x: Record| x@), f);
        }
        Ok(())
    }

    /// Enriches a parameter; the instance parameter has nothing to enrich.
    fn enrich_parameter(&self, p: &mut Parameter, library: &str) -> (r: Result<(), EnrichError>)
        requires
            self.wf(),
        ensures
            (final(p)@, enrich_err(r)) == parameter_step(self@, library@)(old(p)@),
    {
        match p {
            Parameter::Instance => Ok(()),
            Parameter::Regular(rp) => self.enrich_type_info(&mut rp.type_info, library),
        }
    }

    /// Enriches the parameters of a method, then its return type.
    fn enrich_method(&self, method: &mut Method, library: &str) -> (r: Result<(), EnrichError>)
        requires
            self.wf(),
        ensures
            (final(method)@, enrich_err(r)) == method_step(self@, library@)(old(method)@),
    {
        match self.enrich_parameters(&mut method.params, library) {
            Ok(()) => {},
            Err(e) => {
                return Err(e);
            },
        }
        self.enrich_type_info(&mut method.return_type, library)
    }

    /// Enriches the type of a property.
    fn enrich_property(&self, p: &mut Property, library: &str) -> (r: Result<(), EnrichError>)
        requires
            self.wf(),
        ensures
            (final(p)@, enrich_err(r)) == property_step(self@, library@)(old(p)@),
    {
        self.enrich_type_info(&mut p.type_info, library)
    }

    /// Enriches the type of a field.
    fn enrich_field(&self, f: &mut Field, library: &str) -> (r: Result<(), EnrichError>)
        requires
            self.wf(),
        ensures
            (final(f)@, enrich_err(r)) == field_step(self@, library@)(old(f)@),
    {
        self.enrich_type_info(&mut f.type_info, library)
    }

    /// Enriches the type of a class field.
    fn enrich_class_field(&self, f: &mut ClassField, library: &str) -> (r: Result<(), EnrichError>)
        requires
            self.wf(),
        ensures
            (final(f)@, enrich_err(r)) == class_field_step(self@, library@)(old(f)@),
    {
        self.enrich_type_info(&mut f.type_info, library)
    }

    /// Enriches the properties of an interface, then its methods.
    fn enrich_interface(&self, i: &mut Interface, library: &str) -> (r: Result<(), EnrichError>)
        requires
            self.wf(),
        ensures
            (final(i)@, enrich_err(r)) == interface_step(self@, library@)(old(i)@),
    {
        match self.enrich_properties(&mut i.properties, library) {
            Ok(()) => {},
            Err(e) => {
                return Err(e);
            },
        }
        self.enrich_methods(&mut i.methods, library)
    }

    /// Enriches the class fields, fields, properties and methods of a class.
    fn enrich_class(&self, c: &mut Class, library: &str) -> (r: Result<(), EnrichError>)
        requires
            self.wf(),
        ensures
            (final(c)@, enrich_err(r)) == class_step(self@, library@)(old(c)@),
    {
        match self.enrich_class_fields(&mut c.class_fields, library) {
            Ok(()) => {},
            Err(e) => {
                return Err(e);
            },
        }
        match self.enrich_fields(&mut c.fields, library) {
            Ok(()) => {},
            Err(e) => {
                return Err(e);
            },
        }
        match self.enrich_properties(&mut c.properties, library) {
            Ok(()) => {},
            Err(e) => {
                return Err(e);
            },
        }
        self.enrich_methods(&mut c.methods, library)
    }

    /// Enriches the fields of a record.
    fn enrich_record(&self, rec: &mut Record, library: &str) -> (r: Result<(), EnrichError>)
        requires
            self.wf(),
        ensures
            (final(rec)@, enrich_err(r)) == record_step(self@, library@)(old(rec)@),
    {
        self.enrich_fields(&mut rec.fields, library)
    }

    /// Enriches the interfaces, classes and records of a library; undotted
    /// type names are looked up among the library's own types.
    fn enrich_library(&self, l: &mut Library) -> (r: Result<(), EnrichError>)
        requires
            self.wf(),
        ensures
            (final(l)@, enrich_err(r)) == library_step(self@)(old(l)@),
    {
        let name = l.name.clone();
        match self.enrich_interfaces(&mut l.interfaces, name.as_str()) {
            Ok(()) => {},
            Err(e) => {
                return Err(e);
            },
        }
        match self.enrich_classes(&mut l.classes, name.as_str()) {
            Ok(()) => {},
            Err(e) => {
                return Err(e);
            },
        }
        // opaque records do not have concrete types
        self.enrich_records(&mut l.records, name.as_str())
    }

    /// Enriches field, property, argument and return types with C type
    /// information gleaned from the other types in the document.
    ///
    /// The libraries are processed in order, and within each library the
    /// interfaces, classes and records; processing stops at the first type
    /// that cannot be resolved, leaving what was done before it in place.
    pub fn enrich_document(&self, document: &mut Document) -> (r: Result<(), EnrichError>)
        requires
            self.wf(),
        ensures
            (final(document)@, enrich_err(r)) == enrich_document_model(self@, old(document)@),
    {
        let ghost orig = document.libraries@.map_values(|x: Library| x@);
        let ghost f = library_step(self@);
        let mut i: usize = 0;
        while i < document.libraries.len()
            invariant
                self.wf(),
                f == library_step(self@),
                orig == old(document)@.libraries,
                fold_progress(orig, document.libraries@.map_values(|x: Library| x@), f, i as int),
            decreases document.libraries.len() - i,
        {
            let ghost before = document.libraries@.map_values(|x: Library| x@);
            assert(before[i as int] == orig[i as int]);
            assert(before[i as int] == document.libraries@[i as int]@);
            let r = self.enrich_library(&mut document.libraries[i]);
            assert(document.libraries@.map_values(|x: Library| x@) =~= before.update(
                i as int,
                document.libraries@[i as int]@,
            ));
            match r {
                Ok(()) => {
                    proof {
                        lemma_fold_next(orig, before, f, i as int);
                    }
                },
                Err(e) => {
                    proof {
                        lemma_fold_fail(orig, before, f, i as int);
                    }
                    return Err(e);
                },
            }
            i += 1;
        }
        proof {
            lemma_fold_done(orig, document.libraries@.map_values(|x: Library| x@), f);
        }
        Ok(())
    }
}




// ----------------------------------------------------------------------
// Laws
// ----------------------------------------------------------------------

/// A type enriched without an error has a C type, so enriching it again
/// leaves it alone.
pub proof fn lemma_type_step_stable(db: TypeDatabaseModel, library: Seq<char>, t: TypeInfoModel)
    requires
        enrich_type(db, library, t).1 is None,
    ensures
        enrich_type(db, library, enrich_type(db, library, t).0) == (
            enrich_type(db, library, t).0,
            None::<EnrichErrorModel>,
        ),
{
}

proof fn lemma_method_step_stable(db: TypeDatabaseModel, library: Seq<char>, m: MethodModel)
    requires
        enrich_method(db, library, m).1 is None,
    ensures
        enrich_method(db, library, enrich_method(db, library, m).0) == (
            enrich_method(db, library, m).0,
            None::<EnrichErrorModel>,
        ),
{
    let f = parameter_step(db, library);
    assert forall|i: int|
        0 <= i < m.params.len() && (#[trigger] f(m.params[i])).1 is None implies f(
        f(m.params[i]).0,
    ) == (f(m.params[i]).0, None::<EnrichErrorModel>) by {
        match m.params[i] {
            ParameterModel::Instance => {},
            ParameterModel::Regular(r) => {
                lemma_type_step_stable(db, library, r.type_info);
            },
        }
    }
    lemma_fold_idempotent(m.params, f);
    lemma_type_step_stable(db, library, m.return_type);
}

proof fn lemma_properties_stable(db: TypeDatabaseModel, library: Seq<char>, ps: Seq<PropertyModel>)
    requires
        fold_steps(ps, property_step(db, library)).1 is None,
    ensures
        fold_steps(fold_steps(ps, property_step(db, library)).0, property_step(db, library)) == (
            fold_steps(ps, property_step(db, library)).0,
            None::<EnrichErrorModel>,
        ),
{
    let f = property_step(db, library);
    assert forall|i: int| 0 <= i < ps.len() && (#[trigger] f(ps[i])).1 is None implies f(
        f(ps[i]).0,
    ) == (f(ps[i]).0, None::<EnrichErrorModel>) by {
        lemma_type_step_stable(db, library, ps[i].type_info);
    }
    lemma_fold_idempotent(ps, f);
}

proof fn lemma_fields_stable(db: TypeDatabaseModel, library: Seq<char>, fs: Seq<FieldModel>)
    requires
        fold_steps(fs, field_step(db, library)).1 is None,
    ensures
        fold_steps(fold_steps(fs, field_step(db, library)).0, field_step(db, library)) == (
            fold_steps(fs, field_step(db, library)).0,
            None::<EnrichErrorModel>,
        ),
{
    let f = field_step(db, library);
    assert forall|i: int| 0 <= i < fs.len() && (#[trigger] f(fs[i])).1 is None implies f(
        f(fs[i]).0,
    ) == (f(fs[i]).0, None::<EnrichErrorModel>) by {
        lemma_type_step_stable(db, library, fs[i].type_info);
    }
    lemma_fold_idempotent(fs, f);
}

proof fn lemma_class_fields_stable(db: TypeDatabaseModel, library: Seq<char>, fs: Seq<ClassFieldModel>)
    requires
        fold_steps(fs, class_field_step(db, library)).1 is None,
    ensures
        fold_steps(fold_steps(fs, class_field_step(db, library)).0, class_field_step(db, library))
            == (fold_steps(fs, class_field_step(db, library)).0, None::<EnrichErrorModel>),
{
    let f = class_field_step(db, library);
    assert forall|i: int| 0 <= i < fs.len() && (#[trigger] f(fs[i])).1 is None implies f(
        f(fs[i]).0,
    ) == (f(fs[i]).0, None::<EnrichErrorModel>) by {
        lemma_type_step_stable(db, library, fs[i].type_info);
    }
    lemma_fold_idempotent(fs, f);
}

proof fn lemma_methods_stable(db: TypeDatabaseModel, library: Seq<char>, ms: Seq<MethodModel>)
    requires
        fold_steps(ms, method_step(db, library)).1 is None,
    ensures
        fold_steps(fold_steps(ms, method_step(db, library)).0, method_step(db, library)) == (
            fold_steps(ms, method_step(db, library)).0,
            None::<EnrichErrorModel>,
        ),
{
    let f = method_step(db, library);
    assert forall|i: int| 0 <= i < ms.len() && (#[trigger] f(ms[i])).1 is None implies f(
        f(ms[i]).0,
    ) == (f(ms[i]).0, None::<EnrichErrorModel>) by {
        lemma_method_step_stable(db, library, ms[i]);
    }
    lemma_fold_idempotent(ms, f);
}

proof fn lemma_interface_step_stable(db: TypeDatabaseModel, library: Seq<char>, i: InterfaceModel)
    requires
        enrich_interface(db, library, i).1 is None,
    ensures
        enrich_interface(db, library, enrich_interface(db, library, i).0) == (
            enrich_interface(db, library, i).0,
            None::<EnrichErrorModel>,
        ),
{
    lemma_properties_stable(db, library, i.properties);
    lemma_methods_stable(db, library, i.methods);
}

proof fn lemma_class_step_stable(db: TypeDatabaseModel, library: Seq<char>, c: ClassModel)
    requires
        enrich_class(db, library, c).1 is None,
    ensures
        enrich_class(db, library, enrich_class(db, library, c).0) == (
            enrich_class(db, library, c).0,
            None::<EnrichErrorModel>,
        ),
{
    lemma_class_fields_stable(db, library, c.class_fields);
    lemma_fields_stable(db, library, c.fields);
    lemma_properties_stable(db, library, c.properties);
    lemma_methods_stable(db, library, c.methods);
}

proof fn lemma_library_step_stable(db: TypeDatabaseModel, l: LibraryModel)
    requires
        enrich_library(db, l).1 is None,
    ensures
        enrich_library(db, enrich_library(db, l).0) == (enrich_library(db, l).0, None::<EnrichErrorModel>),
{
    let fi = interface_step(db, l.name);
    assert forall|k: int| 0 <= k < l.interfaces.len() && (#[trigger] fi(l.interfaces[k])).1 is None implies fi(
        fi(l.interfaces[k]).0,
    ) == (fi(l.interfaces[k]).0, None::<EnrichErrorModel>) by {
        lemma_interface_step_stable(db, l.name, l.interfaces[k]);
    }
    lemma_fold_idempotent(l.interfaces, fi);
    let fc = class_step(db, l.name);
    assert forall|k: int| 0 <= k < l.classes.len() && (#[trigger] fc(l.classes[k])).1 is None implies fc(
        fc(l.classes[k]).0,
    ) == (fc(l.classes[k]).0, None::<EnrichErrorModel>) by {
        lemma_class_step_stable(db, l.name, l.classes[k]);
    }
    lemma_fold_idempotent(l.classes, fc);
    let fr = record_step(db, l.name);
    assert forall|k: int| 0 <= k < l.records.len() && (#[trigger] fr(l.records[k])).1 is None implies fr(
        fr(l.records[k]).0,
    ) == (fr(l.records[k]).0, None::<EnrichErrorModel>) by {
        lemma_fields_stable(db, l.name, l.records[k].fields);
    }
    lemma_fold_idempotent(l.records, fr);
}

/// Enriching a document that was enriched without an error changes
/// nothing and fails nowhere: every type it holds already has a C type.
pub proof fn lemma_enrich_idempotent(db: TypeDatabaseModel, d: DocumentModel)
    requires
        enrich_document_model(db, d).1 is None,
    ensures
        enrich_document_model(db, enrich_document_model(db, d).0) == (
            enrich_document_model(db, d).0,
            None::<EnrichErrorModel>,
        ),
{
    let f = library_step(db);
    assert forall|k: int| 0 <= k < d.libraries.len() && (#[trigger] f(d.libraries[k])).1 is None implies f(
        f(d.libraries[k]).0,
    ) == (f(d.libraries[k]).0, None::<EnrichErrorModel>) by {
        lemma_library_step_stable(db, d.libraries[k]);
    }
    lemma_fold_idempotent(d.libraries, f);
}


// ----------------------------------------------------------------------
// What enrichment gives every type
// ----------------------------------------------------------------------

/// `new` is what enriching `old` in library `library` owes: it has a C type;
/// a type that had a C type is unchanged; a type that had none takes the name
/// and C type that `resolve_type` gives it, keeps its flags, and each of its
/// parameters is enriched in the same way.
pub open spec fn type_enriched(db: TypeDatabaseModel, library: Seq<char>, old: TypeInfoModel, new: TypeInfoModel) -> bool
    decreases old,
{
    &&& new.c_type is Some
    &&& match old.c_type {
        Some(_) => new == old,
        None => match resolve_type(db, library, old) {
            Ok((name, c_type)) => {
                &&& new.name == name
                &&& new.c_type == Some(c_type)
                &&& new.is_const == old.is_const
                &&& new.is_contained == old.is_contained
                &&& new.params.len() == old.params.len()
                &&& forall|i: int|
                    0 <= i < old.params.len() ==> type_enriched(db, library, old.params[i], #[trigger] new.params[i])
            },
            Err(_) => false,
        },
    }
}

/// A property whose type is enriched, and nothing else changed.
pub open spec fn property_enriched(db: TypeDatabaseModel, library: Seq<char>, old: PropertyModel, new: PropertyModel) -> bool {
    &&& new == PropertyModel { type_info: new.type_info, ..old }
    &&& type_enriched(db, library, old.type_info, new.type_info)
}

/// A field whose type is enriched, and nothing else changed.
pub open spec fn field_enriched(db: TypeDatabaseModel, library: Seq<char>, old: FieldModel, new: FieldModel) -> bool {
    &&& new == FieldModel { type_info: new.type_info, ..old }
    &&& type_enriched(db, library, old.type_info, new.type_info)
}

/// A class field whose type is enriched, and nothing else changed.
pub open spec fn class_field_enriched(
    db: TypeDatabaseModel,
    library: Seq<char>,
    old: ClassFieldModel,
    new: ClassFieldModel,
) -> bool {
    &&& new == ClassFieldModel { type_info: new.type_info, ..old }
    &&& type_enriched(db, library, old.type_info, new.type_info)
}

/// A parameter enriched: the instance parameter stays; a regular one keeps
/// its name and has its type enriched.
pub open spec fn parameter_enriched(db: TypeDatabaseModel, library: Seq<char>, old: ParameterModel, new: ParameterModel) -> bool {
    match old {
        ParameterModel::Instance => new == ParameterModel::Instance,
        ParameterModel::Regular(r) => new matches ParameterModel::Regular(n) && n.name == r.name && type_enriched(
            db,
            library,
            r.type_info,
            n.type_info,
        ),
    }
}

/// A method whose parameters and return type are enriched, and nothing else
/// changed.
pub open spec fn method_enriched(db: TypeDatabaseModel, library: Seq<char>, old: MethodModel, new: MethodModel) -> bool {
    &&& new == MethodModel { params: new.params, return_type: new.return_type, ..old }
    &&& new.params.len() == old.params.len()
    &&& forall|i: int| 0 <= i < old.params.len() ==> parameter_enriched(db, library, old.params[i], #[trigger] new.params[i])
    &&& type_enriched(db, library, old.return_type, new.return_type)
}

/// An interface whose properties and methods are all enriched, and nothing
/// else changed.
pub open spec fn interface_enriched(db: TypeDatabaseModel, library: Seq<char>, old: InterfaceModel, new: InterfaceModel) -> bool {
    &&& new == InterfaceModel { properties: new.properties, methods: new.methods, ..old }
    &&& new.properties.len() == old.properties.len()
    &&& forall|i: int|
        0 <= i < old.properties.len() ==> property_enriched(db, library, old.properties[i], #[trigger] new.properties[i])
    &&& new.methods.len() == old.methods.len()
    &&& forall|i: int| 0 <= i < old.methods.len() ==> method_enriched(db, library, old.methods[i], #[trigger] new.methods[i])
}

/// A class whose class fields, fields, properties and methods are all
/// enriched, and nothing else changed.
pub open spec fn class_enriched(db: TypeDatabaseModel, library: Seq<char>, old: ClassModel, new: ClassModel) -> bool {
    &&& new == ClassModel {
        class_fields: new.class_fields,
        fields: new.fields,
        properties: new.properties,
        methods: new.methods,
        ..old
    }
    &&& new.class_fields.len() == old.class_fields.len()
    &&& forall|i: int|
        0 <= i < old.class_fields.len() ==> class_field_enriched(
            db,
            library,
            old.class_fields[i],
            #[trigger] new.class_fields[i],
        )
    &&& new.fields.len() == old.fields.len()
    &&& forall|i: int| 0 <= i < old.fields.len() ==> field_enriched(db, library, old.fields[i], #[trigger] new.fields[i])
    &&& new.properties.len() == old.properties.len()
    &&& forall|i: int|
        0 <= i < old.properties.len() ==> property_enriched(db, library, old.properties[i], #[trigger] new.properties[i])
    &&& new.methods.len() == old.methods.len()
    &&& forall|i: int| 0 <= i < old.methods.len() ==> method_enriched(db, library, old.methods[i], #[trigger] new.methods[i])
}

/// A record whose fields are all enriched, and nothing else changed.
pub open spec fn record_enriched(db: TypeDatabaseModel, library: Seq<char>, old: RecordModel, new: RecordModel) -> bool {
    &&& new == RecordModel { fields: new.fields, ..old }
    &&& new.fields.len() == old.fields.len()
    &&& forall|i: int| 0 <= i < old.fields.len() ==> field_enriched(db, library, old.fields[i], #[trigger] new.fields[i])
}

/// A library whose interfaces, classes and records are all enriched (with
/// undotted names looked up in the library itself), and nothing else
/// changed.
pub open spec fn library_enriched(db: TypeDatabaseModel, old: LibraryModel, new: LibraryModel) -> bool {
    &&& new == LibraryModel { interfaces: new.interfaces, classes: new.classes, records: new.records, ..old }
    &&& new.interfaces.len() == old.interfaces.len()
    &&& forall|i: int|
        0 <= i < old.interfaces.len() ==> interface_enriched(db, old.name, old.interfaces[i], #[trigger] new.interfaces[i])
    &&& new.classes.len() == old.classes.len()
    &&& forall|i: int| 0 <= i < old.classes.len() ==> class_enriched(db, old.name, old.classes[i], #[trigger] new.classes[i])
    &&& new.records.len() == old.records.len()
    &&& forall|i: int| 0 <= i < old.records.len() ==> record_enriched(db, old.name, old.records[i], #[trigger] new.records[i])
}

proof fn lemma_type_enriched(db: TypeDatabaseModel, library: Seq<char>, t: TypeInfoModel)
    requires
        enrich_type(db, library, t).1 is None,
    ensures
        type_enriched(db, library, t, enrich_type(db, library, t).0),
    decreases t,
{
    if t.c_type is None {
        let f = type_step(db, library);
        lemma_enrich_types_fold(db, library, t.params);
        lemma_fold_ok(t.params, f);
        let new = enrich_type(db, library, t).0;
        assert forall|i: int| 0 <= i < t.params.len() implies type_enriched(
            db,
            library,
            t.params[i],
            #[trigger] new.params[i],
        ) by {
            assert(f(t.params[i]) == enrich_type(db, library, t.params[i]));
            lemma_type_enriched(db, library, t.params[i]);
        }
    }
}

proof fn lemma_properties_enriched(db: TypeDatabaseModel, library: Seq<char>, ps: Seq<PropertyModel>)
    requires
        fold_steps(ps, property_step(db, library)).1 is None,
    ensures
        fold_steps(ps, property_step(db, library)).0.len() == ps.len(),
        forall|i: int|
            0 <= i < ps.len() ==> property_enriched(db, library, ps[i], #[trigger] fold_steps(ps, property_step(db, library)).0[i]),
{
    let f = property_step(db, library);
    lemma_fold_ok(ps, f);
    assert forall|i: int| 0 <= i < ps.len() implies property_enriched(db, library, ps[i], #[trigger] fold_steps(ps, f).0[i]) by {
        assert(f(ps[i]).1 is None);
        lemma_type_enriched(db, library, ps[i].type_info);
    }
}

proof fn lemma_fields_enriched(db: TypeDatabaseModel, library: Seq<char>, fs: Seq<FieldModel>)
    requires
        fold_steps(fs, field_step(db, library)).1 is None,
    ensures
        fold_steps(fs, field_step(db, library)).0.len() == fs.len(),
        forall|i: int|
            0 <= i < fs.len() ==> field_enriched(db, library, fs[i], #[trigger] fold_steps(fs, field_step(db, library)).0[i]),
{
    let f = field_step(db, library);
    lemma_fold_ok(fs, f);
    assert forall|i: int| 0 <= i < fs.len() implies field_enriched(db, library, fs[i], #[trigger] fold_steps(fs, f).0[i]) by {
        assert(f(fs[i]).1 is None);
        lemma_type_enriched(db, library, fs[i].type_info);
    }
}

proof fn lemma_class_fields_enriched(db: TypeDatabaseModel, library: Seq<char>, fs: Seq<ClassFieldModel>)
    requires
        fold_steps(fs, class_field_step(db, library)).1 is None,
    ensures
        fold_steps(fs, class_field_step(db, library)).0.len() == fs.len(),
        forall|i: int|
            0 <= i < fs.len() ==> class_field_enriched(
                db,
                library,
                fs[i],
                #[trigger] fold_steps(fs, class_field_step(db, library)).0[i],
            ),
{
    let f = class_field_step(db, library);
    lemma_fold_ok(fs, f);
    assert forall|i: int| 0 <= i < fs.len() implies class_field_enriched(db, library, fs[i], #[trigger] fold_steps(fs, f).0[i]) by {
        assert(f(fs[i]).1 is None);
        lemma_type_enriched(db, library, fs[i].type_info);
    }
}

proof fn lemma_method_enriched(db: TypeDatabaseModel, library: Seq<char>, m: MethodModel)
    requires
        enrich_method(db, library, m).1 is None,
    ensures
        method_enriched(db, library, m, enrich_method(db, library, m).0),
{
    let f = parameter_step(db, library);
    let (params, e) = fold_steps(m.params, f);
    lemma_fold_ok(m.params, f);
    assert forall|i: int| 0 <= i < m.params.len() implies parameter_enriched(db, library, m.params[i], #[trigger] params[i]) by {
        assert(f(m.params[i]).1 is None);
        match m.params[i] {
            ParameterModel::Instance => {},
            ParameterModel::Regular(r) => {
                lemma_type_enriched(db, library, r.type_info);
            },
        }
    }
    lemma_type_enriched(db, library, m.return_type);
}

proof fn lemma_methods_enriched(db: TypeDatabaseModel, library: Seq<char>, ms: Seq<MethodModel>)
    requires
        fold_steps(ms, method_step(db, library)).1 is None,
    ensures
        fold_steps(ms, method_step(db, library)).0.len() == ms.len(),
        forall|i: int|
            0 <= i < ms.len() ==> method_enriched(db, library, ms[i], #[trigger] fold_steps(ms, method_step(db, library)).0[i]),
{
    let f = method_step(db, library);
    lemma_fold_ok(ms, f);
    assert forall|i: int| 0 <= i < ms.len() implies method_enriched(db, library, ms[i], #[trigger] fold_steps(ms, f).0[i]) by {
        assert(f(ms[i]).1 is None);
        lemma_method_enriched(db, library, ms[i]);
    }
}

proof fn lemma_library_enriched(db: TypeDatabaseModel, l: LibraryModel)
    requires
        enrich_library(db, l).1 is None,
    ensures
        library_enriched(db, l, enrich_library(db, l).0),
{
    let fi = interface_step(db, l.name);
    lemma_fold_ok(l.interfaces, fi);
    let new_i = fold_steps(l.interfaces, fi).0;
    assert forall|k: int| 0 <= k < l.interfaces.len() implies interface_enriched(
        db,
        l.name,
        l.interfaces[k],
        #[trigger] new_i[k],
    ) by {
        let i = l.interfaces[k];
        assert(fi(i).1 is None);
        lemma_properties_enriched(db, l.name, i.properties);
        lemma_methods_enriched(db, l.name, i.methods);
    }
    let fc = class_step(db, l.name);
    lemma_fold_ok(l.classes, fc);
    let new_c = fold_steps(l.classes, fc).0;
    assert forall|k: int| 0 <= k < l.classes.len() implies class_enriched(db, l.name, l.classes[k], #[trigger] new_c[k]) by {
        let c = l.classes[k];
        assert(fc(c).1 is None);
        lemma_class_fields_enriched(db, l.name, c.class_fields);
        lemma_fields_enriched(db, l.name, c.fields);
        lemma_properties_enriched(db, l.name, c.properties);
        lemma_methods_enriched(db, l.name, c.methods);
    }
    let fr = record_step(db, l.name);
    lemma_fold_ok(l.records, fr);
    let new_r = fold_steps(l.records, fr).0;
    assert forall|k: int| 0 <= k < l.records.len() implies record_enriched(db, l.name, l.records[k], #[trigger] new_r[k]) by {
        assert(fr(l.records[k]).1 is None);
        lemma_fields_enriched(db, l.name, l.records[k].fields);
    }
}

/// Where enriching a document succeeds, every type that the document's
/// members hold (interface properties; method parameters and return types;
/// class fields, fields and properties; record fields) has a C type: the one
/// it had, or else the one `resolve_type` gives its name in its library,
/// with its parameters enriched in turn. Nothing else in the document
/// changes.
pub proof fn lemma_enrich_covers_every_type(db: TypeDatabaseModel, d: DocumentModel)
    requires
        enrich_document_model(db, d).1 is None,
    ensures
        enrich_document_model(db, d).0.libraries.len() == d.libraries.len(),
        forall|k: int|
            0 <= k < d.libraries.len() ==> library_enriched(
                db,
                d.libraries[k],
                #[trigger] enrich_document_model(db, d).0.libraries[k],
            ),
{
    let f = library_step(db);
    lemma_fold_ok(d.libraries, f);
    assert forall|k: int| 0 <= k < d.libraries.len() implies library_enriched(
        db,
        d.libraries[k],
        #[trigger] enrich_document_model(db, d).0.libraries[k],
    ) by {
        assert(f(d.libraries[k]).1 is None);
        lemma_library_enriched(db, d.libraries[k]);
    }
}

} // verus!
