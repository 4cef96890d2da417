//! Collecting the types that a document declares into a type database,
//! giving C names to those that have none.
use vstd::prelude::*;

use crate::database::{
    db_insert, empty_db, TypeDatabase, TypeDatabaseError, TypeDatabaseErrorModel,
    TypeDatabaseModel,
};
use crate::fold::{
    fold_state, fold_state_progress, lemma_fold_state_all, lemma_fold_state_done,
    lemma_fold_state_fail, lemma_fold_state_next, lemma_fold_state_related, lemma_fold_state_start,
};
use crate::model::{
    Class, ClassModel, Document, DocumentModel, Interface, InterfaceModel, Library, LibraryModel,
    OpaqueRecord, OpaqueRecordModel, Record, RecordModel,
};
use crate::text::concat2;

verus! {
// ----------------------------------------------------------------------
// Building the database from a document
// ----------------------------------------------------------------------

/// The error of a result, as a view.
pub open spec fn db_err<T>(r: Result<T, TypeDatabaseError>) -> Option<TypeDatabaseErrorModel> {
    match r {
        Ok(_) => None,
        Err(e) => Some(e@),
    }
}

/// The C name of a type: the one it gives, or else the library's
/// identifier prefix followed by its name.
pub open spec fn c_name_or_default(c_name: Option<Seq<char>>, c_id_prefix: Seq<char>, name: Seq<char>) -> Seq<char> {
    match c_name {
        Some(c) => c,
        None => c_id_prefix + name,
    }
}

pub open spec fn register_interface_step(library: Seq<char>, c_id_prefix: Seq<char>) -> spec_fn(
    InterfaceModel,
    TypeDatabaseModel,
) -> (InterfaceModel, TypeDatabaseModel, Option<TypeDatabaseErrorModel>) {
    |i: InterfaceModel, db: TypeDatabaseModel|
        {
            let c = c_name_or_default(i.c_name, c_id_prefix, i.name);
            let (db2, e) = db_insert(db, library, i.name, c);
            (InterfaceModel { c_name: Some(c), ..i }, db2, e)
        }
}

pub open spec fn register_class_step(library: Seq<char>, c_id_prefix: Seq<char>) -> spec_fn(
    ClassModel,
    TypeDatabaseModel,
) -> (ClassModel, TypeDatabaseModel, Option<TypeDatabaseErrorModel>) {
    |c: ClassModel, db: TypeDatabaseModel|
        {
            let cn = c_name_or_default(c.c_name, c_id_prefix, c.name);
            let (db2, e) = db_insert(db, library, c.name, cn);
            (ClassModel { c_name: Some(cn), ..c }, db2, e)
        }
}

pub open spec fn register_record_step(library: Seq<char>, c_id_prefix: Seq<char>) -> spec_fn(
    RecordModel,
    TypeDatabaseModel,
) -> (RecordModel, TypeDatabaseModel, Option<TypeDatabaseErrorModel>) {
    |r: RecordModel, db: TypeDatabaseModel|
        {
            let (db2, e) = db_insert(db, library, r.name, r.c_name);
            (r, db2, e)
        }
}

pub open spec fn register_opaque_record_step(library: Seq<char>, c_id_prefix: Seq<char>) -> spec_fn(
    OpaqueRecordModel,
    TypeDatabaseModel,
) -> (OpaqueRecordModel, TypeDatabaseModel, Option<TypeDatabaseErrorModel>) {
    |r: OpaqueRecordModel, db: TypeDatabaseModel|
        {
            let c = c_name_or_default(r.c_name, c_id_prefix, r.name);
            let (db2, e) = db_insert(db, library, r.name, c);
            (OpaqueRecordModel { c_name: Some(c), ..r }, db2, e)
        }
}

/// Registering the types of a library: its interfaces, classes, records and
/// opaque records, in that order, stopping at the first error.
pub open spec fn register_library(l: LibraryModel, db: TypeDatabaseModel) -> (
    LibraryModel,
    TypeDatabaseModel,
    Option<TypeDatabaseErrorModel>,
) {
    let (interfaces, db1, e1) = fold_state(
        l.interfaces,
        db,
        register_interface_step(l.name, l.c_id_prefix),
    );
    if e1 is Some {
        (LibraryModel { interfaces, ..l }, db1, e1)
    } else {
        let (classes, db2, e2) = fold_state(
            l.classes,
            db1,
            register_class_step(l.name, l.c_id_prefix),
        );
        if e2 is Some {
            (LibraryModel { interfaces, classes, ..l }, db2, e2)
        } else {
            let (records, db3, e3) = fold_state(
                l.records,
                db2,
                register_record_step(l.name, l.c_id_prefix),
            );
            if e3 is Some {
                (LibraryModel { interfaces, classes, records, ..l }, db3, e3)
            } else {
                let (opaque_records, db4, e4) = fold_state(
                    l.opaque_records,
                    db3,
                    register_opaque_record_step(l.name, l.c_id_prefix),
                );
                (LibraryModel { interfaces, classes, records, opaque_records, ..l }, db4, e4)
            }
        }
    }
}

pub open spec fn register_library_step() -> spec_fn(LibraryModel, TypeDatabaseModel) -> (
    LibraryModel,
    TypeDatabaseModel,
    Option<TypeDatabaseErrorModel>,
) {
    |l: LibraryModel, db: TypeDatabaseModel| register_library(l, db)
}

/// Collecting the types of a document, starting from an empty database: the
/// document with every collected type's C name filled in, the database, and
/// the first error, if any.
pub open spec fn collect_types(d: DocumentModel) -> (
    DocumentModel,
    TypeDatabaseModel,
    Option<TypeDatabaseErrorModel>,
) {
    let (libraries, db, e) = fold_state(d.libraries, empty_db(), register_library_step());
    (DocumentModel { libraries }, db, e)
}

impl TypeDatabase {
    /// Gives an interface its default C name if it has none, and registers it.
    fn register_interface(&mut self, iface: &mut Interface, library: &str, c_id_prefix: &str) -> (r: Result<(), TypeDatabaseError>)
        requires
            old(self).wf(),
        ensures
            final(self).wf(),
            (final(iface)@, final(self)@, db_err(r)) == register_interface_step(library@, c_id_prefix@)(old(iface)@, old(self)@),
    {
        if iface.c_name.is_none() {
            iface.c_name = Some(concat2(c_id_prefix, iface.name.as_str()));
        }
        match &iface.c_name {
            Some(c) => self.insert(library, iface.name.as_str(), c.as_str()),
            None => Ok(()),
        }
    }

    /// Gives a class its default C name if it has none, and registers it.
    fn register_class(&mut self, cls: &mut Class, library: &str, c_id_prefix: &str) -> (r: Result<(), TypeDatabaseError>)
        requires
            old(self).wf(),
        ensures
            final(self).wf(),
            (final(cls)@, final(self)@, db_err(r)) == register_class_step(library@, c_id_prefix@)(old(cls)@, old(self)@),
    {
        if cls.c_name.is_none() {
            cls.c_name = Some(concat2(c_id_prefix, cls.name.as_str()));
        }
        match &cls.c_name {
            Some(c) => self.insert(library, cls.name.as_str(), c.as_str()),
            None => Ok(()),
        }
    }

    /// Registers a record under its C name.
    fn register_record(&mut self, rec: &mut Record, library: &str, c_id_prefix: &str) -> (r: Result<(), TypeDatabaseError>)
        requires
            old(self).wf(),
        ensures
            final(self).wf(),
            (final(rec)@, final(self)@, db_err(r)) == register_record_step(library@, c_id_prefix@)(old(rec)@, old(self)@),
    {
        self.insert(library, rec.name.as_str(), rec.c_name.as_str())
    }

    /// Gives an opaque record its default C name if it has none, and
    /// registers it.
    fn register_opaque_record(&mut self, rec: &mut OpaqueRecord, library: &str, c_id_prefix: &str) -> (r: Result<(), TypeDatabaseError>)
        requires
            old(self).wf(),
        ensures
            final(self).wf(),
            (final(rec)@, final(self)@, db_err(r)) == register_opaque_record_step(library@, c_id_prefix@)(old(rec)@, old(self)@),
    {
        if rec.c_name.is_none() {
            rec.c_name = Some(concat2(c_id_prefix, rec.name.as_str()));
        }
        match &rec.c_name {
            Some(c) => self.insert(library, rec.name.as_str(), c.as_str()),
            None => Ok(()),
        }
    }

    /// Registers the interfaces of a library, in order, giving each without a
    /// C name the library's identifier prefix followed by its name.
    fn register_interfaces(&mut self, v: &mut Vec<Interface>, library: &str, c_id_prefix: &str) -> (r: Result<(), TypeDatabaseError>)
        requires
            old(self).wf(),
        ensures
            final(self).wf(),
            (final(v)@.map_values(|x: Interface| x@), final(self)@, db_err(r)) == fold_state(
                old(v)@.map_values(|x: Interface| x@),
                old(self)@,
                register_interface_step(library@, c_id_prefix@),
            ),
    {
        let ghost orig = v@.map_values(|x: Interface| x@);
        let ghost f = register_interface_step(library@, c_id_prefix@);
        let ghost st0 = self@;
        proof {
            lemma_fold_state_start(orig, st0, f);
        }
        let mut i: usize = 0;
        while i < v.len()
            invariant
                self.wf(),
                f == register_interface_step(library@, c_id_prefix@),
                orig == old(v)@.map_values(|x: Interface| x@),
                st0 == old(self)@,
                fold_state_progress(orig, v@.map_values(|x: Interface| x@), st0, self@, f, i as int),
            decreases v.len() - i,
        {
            let ghost before = v@.map_values(|x: Interface| x@);
            let ghost db_before = self@;
            assert(before[i as int] == orig[i as int]);
            assert(before[i as int] == v@[i as int]@);
            let r = self.register_interface(&mut v[i], library, c_id_prefix);
            assert(v@.map_values(|x: Interface| x@) =~= before.update(i as int, v@[i as int]@));
            match r {
                Ok(()) => {
                    proof {
                        lemma_fold_state_next(orig, before, st0, db_before, f, i as int);
                    }
                },
                Err(e) => {
                    proof {
                        lemma_fold_state_fail(orig, before, st0, db_before, f, i as int);
                    }
                    return Err(e);
                },
            }
            i += 1;
        }
        proof {
            lemma_fold_state_done(orig, v@.map_values(|x: Interface| x@), st0, self@, f);
        }
        Ok(())
    }

    /// Registers the classes of a library, in order, giving each without a
    /// C name the library's identifier prefix followed by its name.
    fn register_classes(&mut self, v: &mut Vec<Class>, library: &str, c_id_prefix: &str) -> (r: Result<(), TypeDatabaseError>)
        requires
            old(self).wf(),
        ensures
            final(self).wf(),
            (final(v)@.map_values(|x: Class| x@), final(self)@, db_err(r)) == fold_state(
                old(v)@.map_values(|x: Class| x@),
                old(self)@,
                register_class_step(library@, c_id_prefix@),
            ),
    {
        let ghost orig = v@.map_values(|x: Class| x@);
        let ghost f = register_class_step(library@, c_id_prefix@);
        let ghost st0 = self@;
        proof {
            lemma_fold_state_start(orig, st0, f);
        }
        let mut i: usize = 0;
        while i < v.len()
            invariant
                self.wf(),
                f == register_class_step(library@, c_id_prefix@),
                orig == old(v)@.map_values(|x: Class| x@),
                st0 == old(self)@,
                fold_state_progress(orig, v@.map_values(|x: Class| x@), st0, self@, f, i as int),
            decreases v.len() - i,
        {
            let ghost before = v@.map_values(|x: Class| x@);
            let ghost db_before = self@;
            assert(before[i as int] == orig[i as int]);
            assert(before[i as int] == v@[i as int]@);
            let r = self.register_class(&mut v[i], library, c_id_prefix);
            assert(v@.map_values(|x: Class| x@) =~= before.update(i as int, v@[i as int]@));
            match r {
                Ok(()) => {
                    proof {
                        lemma_fold_state_next(orig, before, st0, db_before, f, i as int);
                    }
                },
                Err(e) => {
                    proof {
                        lemma_fold_state_fail(orig, before, st0, db_before, f, i as int);
                    }
                    return Err(e);
                },
            }
            i += 1;
        }
        proof {
            lemma_fold_state_done(orig, v@.map_values(|x: Class| x@), st0, self@, f);
        }
        Ok(())
    }

    /// Registers the records of a library, in order, giving each without a
    /// C name the library's identifier prefix followed by its name.
    fn register_records(&mut self, v: &mut Vec<Record>, library: &str, c_id_prefix: &str) -> (r: Result<(), TypeDatabaseError>)
        requires
            old(self).wf(),
        ensures
            final(self).wf(),
            (final(v)@.map_values(|x: Record| x@), final(self)@, db_err(r)) == fold_state(
                old(v)@.map_values(|x: Record| x@),
                old(self)@,
                register_record_step(library@, c_id_prefix@),
            ),
    {
        let ghost orig = v@.map_values(|x: Record| x@);
        let ghost f = register_record_step(library@, c_id_prefix@);
        let ghost st0 = self@;
        proof {
            lemma_fold_state_start(orig, st0, f);
        }
        let mut i: usize = 0;
        while i < v.len()
            invariant
                self.wf(),
                f == register_record_step(library@, c_id_prefix@),
                orig == old(v)@.map_values(|x: Record| x@),
                st0 == old(self)@,
                fold_state_progress(orig, v@.map_values(|x: Record| x@), st0, self@, f, i as int),
            decreases v.len() - i,
        {
            let ghost before = v@.map_values(|x: Record| x@);
            let ghost db_before = self@;
            assert(before[i as int] == orig[i as int]);
            assert(before[i as int] == v@[i as int]@);
            let r = self.register_record(&mut v[i], library, c_id_prefix);
            assert(v@.map_values(|x: Record| x@) =~= before.update(i as int, v@[i as int]@));
            match r {
                Ok(()) => {
                    proof {
                        lemma_fold_state_next(orig, before, st0, db_before, f, i as int);
                    }
                },
                Err(e) => {
                    proof {
                        lemma_fold_state_fail(orig, before, st0, db_before, f, i as int);
                    }
                    return Err(e);
                },
            }
            i += 1;
        }
        proof {
            lemma_fold_state_done(orig, v@.map_values(|x: Record| x@), st0, self@, f);
        }
        Ok(())
    }

    /// Registers the opaque records of a library, in order, giving each without a
    /// C name the library's identifier prefix followed by its name.
    fn register_opaque_records(&mut self, v: &mut Vec<OpaqueRecord>, library: &str, c_id_prefix: &str) -> (r: Result<(), TypeDatabaseError>)
        requires
            old(self).wf(),
        ensures
            final(self).wf(),
            (final(v)@.map_values(|x: OpaqueRecord| x@), final(self)@, db_err(r)) == fold_state(
                old(v)@.map_values(|x: OpaqueRecord| x@),
                old(self)@,
                register_opaque_record_step(library@, c_id_prefix@),
            ),
    {
        let ghost orig = v@.map_values(|x: OpaqueRecord| x@);
        let ghost f = register_opaque_record_step(library@, c_id_prefix@);
        let ghost st0 = self@;
        proof {
            lemma_fold_state_start(orig, st0, f);
        }
        let mut i: usize = 0;
        while i < v.len()
            invariant
                self.wf(),
                f == register_opaque_record_step(library@, c_id_prefix@),
                orig == old(v)@.map_values(|x: OpaqueRecord| x@),
                st0 == old(self)@,
                fold_state_progress(orig, v@.map_values(|x: OpaqueRecord| x@), st0, self@, f, i as int),
            decreases v.len() - i,
        {
            let ghost before = v@.map_values(|x: OpaqueRecord| x@);
            let ghost db_before = self@;
            assert(before[i as int] == orig[i as int]);
            assert(before[i as int] == v@[i as int]@);
            let r = self.register_opaque_record(&mut v[i], library, c_id_prefix);
            assert(v@.map_values(|x: OpaqueRecord| x@) =~= before.update(i as int, v@[i as int]@));
            match r {
                Ok(()) => {
                    proof {
                        lemma_fold_state_next(orig, before, st0, db_before, f, i as int);
                    }
                },
                Err(e) => {
                    proof {
                        lemma_fold_state_fail(orig, before, st0, db_before, f, i as int);
                    }
                    return Err(e);
                },
            }
            i += 1;
        }
        proof {
            lemma_fold_state_done(orig, v@.map_values(|x: OpaqueRecord| x@), st0, self@, f);
        }
        Ok(())
    }

    /// Registers the types of a library: interfaces, classes, records and
    /// opaque records, in that order.
    fn register_library(&mut self, l: &mut Library) -> (r: Result<(), TypeDatabaseError>)
        requires
            old(self).wf(),
        ensures
            final(self).wf(),
            (final(l)@, final(self)@, db_err(r)) == register_library_step()(old(l)@, old(self)@),
    {
        let name = l.name.clone();
        let prefix = l.c_id_prefix.clone();
        match self.register_interfaces(&mut l.interfaces, name.as_str(), prefix.as_str()) {
            Ok(()) => {},
            Err(e) => {
                return Err(e);
            },
        }
        match self.register_classes(&mut l.classes, name.as_str(), prefix.as_str()) {
            Ok(()) => {},
            Err(e) => {
                return Err(e);
            },
        }
        match self.register_records(&mut l.records, name.as_str(), prefix.as_str()) {
            Ok(()) => {},
            Err(e) => {
                return Err(e);
            },
        }
        self.register_opaque_records(&mut l.opaque_records, name.as_str(), prefix.as_str())
    }

    /// Collects the type definitions in the document, generating C names
    /// where no explicit one is given.
    ///
    /// Libraries are processed in order, and within each library its
    /// interfaces, classes, records and opaque records; the first duplicate
    /// type or C type stops the collection, leaving the C names given so far
    /// in place.
    pub fn try_from_mut_document(document: &mut Document) -> (r: Result<Self, TypeDatabaseError>)
        ensures
            final(document)@ == collect_types(old(document)@).0,
            match r {
                Ok(db) => db.wf() && db@ == collect_types(old(document)@).1 && collect_types(
                    old(document)@,
                ).2 is None,
                Err(e) => collect_types(old(document)@).2 == Some(e@),
            },
    {
        let mut db = TypeDatabase::new();
        let ghost orig = document.libraries@.map_values(|x: Library| x@);
        let ghost f = register_library_step();
        let ghost st0 = db@;
        proof {
            lemma_fold_state_start(orig, st0, f);
        }
        let mut i: usize = 0;
        while i < document.libraries.len()
            invariant
                db.wf(),
                f == register_library_step(),
                orig == old(document)@.libraries,
                st0 == empty_db(),
                fold_state_progress(orig, document.libraries@.map_values(|x: Library| x@), st0, db@, f, i as int),
            decreases document.libraries.len() - i,
        {
            let ghost before = document.libraries@.map_values(|x: Library| x@);
            let ghost db_before = db@;
            assert(before[i as int] == orig[i as int]);
            assert(before[i as int] == document.libraries@[i as int]@);
            let r = db.register_library(&mut document.libraries[i]);
            assert(document.libraries@.map_values(|x: Library| x@) =~= before.update(
                i as int,
                document.libraries@[i as int]@,
            ));
            match r {
                Ok(()) => {
                    proof {
                        lemma_fold_state_next(orig, before, st0, db_before, f, i as int);
                    }
                },
                Err(e) => {
                    proof {
                        lemma_fold_state_fail(orig, before, st0, db_before, f, i as int);
                    }
                    return Err(e);
                },
            }
            i += 1;
        }
        proof {
            lemma_fold_state_done(orig, document.libraries@.map_values(|x: Library| x@), st0, db@, f);
        }
        Ok(db)
    }
}




// ----------------------------------------------------------------------
// Laws
// ----------------------------------------------------------------------

/// Every interface, class and opaque record of the library has a C name.
pub open spec fn library_has_c_names(l: LibraryModel) -> bool {
    &&& forall|i: int| 0 <= i < l.interfaces.len() ==> (#[trigger] l.interfaces[i]).c_name is Some
    &&& forall|i: int| 0 <= i < l.classes.len() ==> (#[trigger] l.classes[i]).c_name is Some
    &&& forall|i: int| 0 <= i < l.opaque_records.len() ==> (#[trigger] l.opaque_records[i]).c_name is Some
}

proof fn lemma_register_library_names(l: LibraryModel, db: TypeDatabaseModel)
    requires
        register_library(l, db).2 is None,
    ensures
        library_has_c_names(register_library(l, db).0),
{
    let (interfaces, db1, e1) = fold_state(l.interfaces, db, register_interface_step(l.name, l.c_id_prefix));
    lemma_fold_state_all(
        l.interfaces,
        db,
        register_interface_step(l.name, l.c_id_prefix),
        |x: InterfaceModel| x.c_name is Some,
    );
    let (classes, db2, e2) = fold_state(l.classes, db1, register_class_step(l.name, l.c_id_prefix));
    lemma_fold_state_all(
        l.classes,
        db1,
        register_class_step(l.name, l.c_id_prefix),
        |x: ClassModel| x.c_name is Some,
    );
    let (records, db3, e3) = fold_state(l.records, db2, register_record_step(l.name, l.c_id_prefix));
    lemma_fold_state_all(
        l.opaque_records,
        db3,
        register_opaque_record_step(l.name, l.c_id_prefix),
        |x: OpaqueRecordModel| x.c_name is Some,
    );
}

/// Where collecting the types of a document succeeds, every interface,
/// class and opaque record of the document has a C name afterwards.
pub proof fn lemma_collect_gives_c_names(d: DocumentModel)
    requires
        collect_types(d).2 is None,
    ensures
        forall|i: int| 0 <= i < collect_types(d).0.libraries.len() ==> library_has_c_names(
            #[trigger] collect_types(d).0.libraries[i],
        ),
{
    assert forall|l: LibraryModel, st2: TypeDatabaseModel|
        (#[trigger] register_library_step()(l, st2)).2 is None implies library_has_c_names(
        register_library_step()(l, st2).0,
    ) by {
        lemma_register_library_names(l, st2);
    }
    lemma_fold_state_all(
        d.libraries,
        empty_db(),
        register_library_step(),
        |l: LibraryModel| library_has_c_names(l),
    );
}


/// `b` holds every (library, type name) pair of `a`, with the same C type.
pub open spec fn db_extends(a: TypeDatabaseModel, b: TypeDatabaseModel) -> bool {
    forall|k: (Seq<char>, Seq<char>)|
        #[trigger] a.types.contains_key(k) ==> b.types.contains_key(k) && b.types[k] == a.types[k]
}

/// The database maps `typename` of `library` to `c_type`.
pub open spec fn db_maps(db: TypeDatabaseModel, library: Seq<char>, typename: Seq<char>, c_type: Seq<char>) -> bool {
    db.types.contains_key((library, typename)) && db.types[(library, typename)] == c_type
}

/// What collecting owes a type that may give a C name: it keeps a C name
/// it gives, and otherwise receives the library's identifier prefix followed
/// by its name; the database maps it to that C name.
pub open spec fn named_and_registered(
    db: TypeDatabaseModel,
    library: Seq<char>,
    c_id_prefix: Seq<char>,
    name: Seq<char>,
    old_c_name: Option<Seq<char>>,
    new_c_name: Option<Seq<char>>,
) -> bool {
    &&& match old_c_name {
        Some(c) => new_c_name == Some(c),
        None => new_c_name == Some(c_id_prefix + name),
    }
    &&& db_maps(db, library, name, new_c_name->Some_0)
}

/// An interface after collecting: only its C name may change, as
/// [`named_and_registered`] says.
pub open spec fn interface_registered(
    db: TypeDatabaseModel,
    library: Seq<char>,
    c_id_prefix: Seq<char>,
    old: InterfaceModel,
    new: InterfaceModel,
) -> bool {
    &&& new == InterfaceModel { c_name: new.c_name, ..old }
    &&& named_and_registered(db, library, c_id_prefix, old.name, old.c_name, new.c_name)
}

/// A class after collecting: only its C name may change, as
/// [`named_and_registered`] says.
pub open spec fn class_registered(
    db: TypeDatabaseModel,
    library: Seq<char>,
    c_id_prefix: Seq<char>,
    old: ClassModel,
    new: ClassModel,
) -> bool {
    &&& new == ClassModel { c_name: new.c_name, ..old }
    &&& named_and_registered(db, library, c_id_prefix, old.name, old.c_name, new.c_name)
}

/// An opaque record after collecting: only its C name may change, as
/// [`named_and_registered`] says.
pub open spec fn opaque_record_registered(
    db: TypeDatabaseModel,
    library: Seq<char>,
    c_id_prefix: Seq<char>,
    old: OpaqueRecordModel,
    new: OpaqueRecordModel,
) -> bool {
    &&& new == OpaqueRecordModel { c_name: new.c_name, ..old }
    &&& named_and_registered(db, library, c_id_prefix, old.name, old.c_name, new.c_name)
}

/// A record after collecting: unchanged, and mapped to its C name.
pub open spec fn record_registered(db: TypeDatabaseModel, library: Seq<char>, old: RecordModel, new: RecordModel) -> bool {
    &&& new == old
    &&& db_maps(db, library, old.name, old.c_name)
}

/// A library after collecting: its interfaces, classes, records and opaque
/// records each registered, and nothing else changed.
pub open spec fn library_registered(db: TypeDatabaseModel, old: LibraryModel, new: LibraryModel) -> bool {
    &&& new == LibraryModel {
        interfaces: new.interfaces,
        classes: new.classes,
        records: new.records,
        opaque_records: new.opaque_records,
        ..old
    }
    &&& new.interfaces.len() == old.interfaces.len()
    &&& forall|i: int|
        0 <= i < old.interfaces.len() ==> interface_registered(
            db,
            old.name,
            old.c_id_prefix,
            old.interfaces[i],
            #[trigger] new.interfaces[i],
        )
    &&& new.classes.len() == old.classes.len()
    &&& forall|i: int|
        0 <= i < old.classes.len() ==> class_registered(db, old.name, old.c_id_prefix, old.classes[i], #[trigger] new.classes[i])
    &&& new.records.len() == old.records.len()
    &&& forall|i: int| 0 <= i < old.records.len() ==> record_registered(db, old.name, old.records[i], #[trigger] new.records[i])
    &&& new.opaque_records.len() == old.opaque_records.len()
    &&& forall|i: int|
        0 <= i < old.opaque_records.len() ==> opaque_record_registered(
            db,
            old.name,
            old.c_id_prefix,
            old.opaque_records[i],
            #[trigger] new.opaque_records[i],
        )
}

/// A registration that succeeds keeps every earlier pair and maps the new
/// one.
proof fn lemma_db_insert_extends(db: TypeDatabaseModel, library: Seq<char>, typename: Seq<char>, c: Seq<char>)
    requires
        db_insert(db, library, typename, c).1 is None,
    ensures
        db_extends(db, db_insert(db, library, typename, c).0),
        db_maps(db_insert(db, library, typename, c).0, library, typename, c),
{
}

proof fn lemma_db_extends_facts()
    ensures
        forall|a: TypeDatabaseModel, b: TypeDatabaseModel, c: TypeDatabaseModel|
            #[trigger] db_extends(a, b) && #[trigger] db_extends(b, c) ==> db_extends(a, c),
        forall|a: TypeDatabaseModel| #[trigger] db_extends(a, a),
        forall|a: TypeDatabaseModel, b: TypeDatabaseModel, l: Seq<char>, t: Seq<char>, c: Seq<char>|
            #[trigger] db_maps(a, l, t, c) && #[trigger] db_extends(a, b) ==> db_maps(b, l, t, c),
{
    assert forall|a: TypeDatabaseModel, b: TypeDatabaseModel, c: TypeDatabaseModel|
        #[trigger] db_extends(a, b) && #[trigger] db_extends(b, c) implies db_extends(a, c) by {
        assert forall|k: (Seq<char>, Seq<char>)| #[trigger] a.types.contains_key(k) implies c.types.contains_key(k)
            && c.types[k] == a.types[k] by {
            assert(b.types.contains_key(k));
        }
    }
    assert forall|a: TypeDatabaseModel, b: TypeDatabaseModel, l: Seq<char>, t: Seq<char>, c: Seq<char>|
        #[trigger] db_maps(a, l, t, c) && #[trigger] db_extends(a, b) implies db_maps(b, l, t, c) by {
        assert(a.types.contains_key((l, t)));
    }
}

/// Registering the types of a library that succeeds: every type registered,
/// and the database extended.
proof fn lemma_register_library_registered(l: LibraryModel, db: TypeDatabaseModel)
    requires
        register_library(l, db).2 is None,
    ensures
        library_registered(register_library(l, db).1, l, register_library(l, db).0),
        db_extends(db, register_library(l, db).1),
{
    lemma_db_extends_facts();
    let lib = l.name;
    let pre = l.c_id_prefix;
    let keeps = |a: TypeDatabaseModel, b: TypeDatabaseModel| db_extends(a, b);

    let fi = register_interface_step(lib, pre);
    let ri = |x: InterfaceModel, y: InterfaceModel, d: TypeDatabaseModel| interface_registered(d, lib, pre, x, y);
    assert forall|x: InterfaceModel, st1: TypeDatabaseModel| (#[trigger] fi(x, st1)).2 is None implies ri(
        x,
        fi(x, st1).0,
        fi(x, st1).1,
    ) && keeps(st1, fi(x, st1).1) by {
        lemma_db_insert_extends(st1, lib, x.name, c_name_or_default(x.c_name, pre, x.name));
    }
    assert forall|x: InterfaceModel, y: InterfaceModel, s1: TypeDatabaseModel, s2: TypeDatabaseModel|
        #[trigger] ri(x, y, s1) && #[trigger] keeps(s1, s2) implies ri(x, y, s2) by {
        assert(db_maps(s1, lib, x.name, y.c_name->Some_0));
    }
    let (interfaces, db1, e1) = fold_state(l.interfaces, db, fi);
    lemma_fold_state_related(l.interfaces, db, fi, ri, keeps);

    let fc = register_class_step(lib, pre);
    let rc = |x: ClassModel, y: ClassModel, d: TypeDatabaseModel| class_registered(d, lib, pre, x, y);
    assert forall|x: ClassModel, st1: TypeDatabaseModel| (#[trigger] fc(x, st1)).2 is None implies rc(
        x,
        fc(x, st1).0,
        fc(x, st1).1,
    ) && keeps(st1, fc(x, st1).1) by {
        lemma_db_insert_extends(st1, lib, x.name, c_name_or_default(x.c_name, pre, x.name));
    }
    assert forall|x: ClassModel, y: ClassModel, s1: TypeDatabaseModel, s2: TypeDatabaseModel|
        #[trigger] rc(x, y, s1) && #[trigger] keeps(s1, s2) implies rc(x, y, s2) by {
        assert(db_maps(s1, lib, x.name, y.c_name->Some_0));
    }
    let (classes, db2, e2) = fold_state(l.classes, db1, fc);
    lemma_fold_state_related(l.classes, db1, fc, rc, keeps);

    let fr = register_record_step(lib, pre);
    let rr = |x: RecordModel, y: RecordModel, d: TypeDatabaseModel| record_registered(d, lib, x, y);
    assert forall|x: RecordModel, st1: TypeDatabaseModel| (#[trigger] fr(x, st1)).2 is None implies rr(
        x,
        fr(x, st1).0,
        fr(x, st1).1,
    ) && keeps(st1, fr(x, st1).1) by {
        lemma_db_insert_extends(st1, lib, x.name, x.c_name);
    }
    assert forall|x: RecordModel, y: RecordModel, s1: TypeDatabaseModel, s2: TypeDatabaseModel|
        #[trigger] rr(x, y, s1) && #[trigger] keeps(s1, s2) implies rr(x, y, s2) by {
        assert(db_maps(s1, lib, x.name, x.c_name));
    }
    let (records, db3, e3) = fold_state(l.records, db2, fr);
    lemma_fold_state_related(l.records, db2, fr, rr, keeps);

    let fo = register_opaque_record_step(lib, pre);
    let ro = |x: OpaqueRecordModel, y: OpaqueRecordModel, d: TypeDatabaseModel| opaque_record_registered(d, lib, pre, x, y);
    assert forall|x: OpaqueRecordModel, st1: TypeDatabaseModel| (#[trigger] fo(x, st1)).2 is None implies ro(
        x,
        fo(x, st1).0,
        fo(x, st1).1,
    ) && keeps(st1, fo(x, st1).1) by {
        lemma_db_insert_extends(st1, lib, x.name, c_name_or_default(x.c_name, pre, x.name));
    }
    assert forall|x: OpaqueRecordModel, y: OpaqueRecordModel, s1: TypeDatabaseModel, s2: TypeDatabaseModel|
        #[trigger] ro(x, y, s1) && #[trigger] keeps(s1, s2) implies ro(x, y, s2) by {
        assert(db_maps(s1, lib, x.name, y.c_name->Some_0));
    }
    let (opaque_records, db4, e4) = fold_state(l.opaque_records, db3, fo);
    lemma_fold_state_related(l.opaque_records, db3, fo, ro, keeps);

    let new = register_library(l, db).0;
    assert forall|i: int| 0 <= i < l.interfaces.len() implies interface_registered(
        db4,
        lib,
        pre,
        l.interfaces[i],
        #[trigger] new.interfaces[i],
    ) by {
        assert(ri(l.interfaces[i], interfaces[i], db1));
        assert(db_extends(db1, db3));
        assert(db_extends(db1, db4));
        assert(ri(l.interfaces[i], interfaces[i], db4));
    }
    assert forall|i: int| 0 <= i < l.classes.len() implies class_registered(
        db4,
        lib,
        pre,
        l.classes[i],
        #[trigger] new.classes[i],
    ) by {
        assert(rc(l.classes[i], classes[i], db2));
        assert(db_extends(db2, db4));
        assert(rc(l.classes[i], classes[i], db4));
    }
    assert forall|i: int| 0 <= i < l.records.len() implies record_registered(db4, lib, l.records[i], #[trigger] new.records[i]) by {
        assert(rr(l.records[i], records[i], db3));
        assert(rr(l.records[i], records[i], db4));
    }
    assert(db_extends(db, db2));
    assert(db_extends(db, db3));
}

/// Where collecting the types of a document succeeds, every interface,
/// class and opaque record keeps the C name it gives, and one that gives
/// none receives its library's identifier prefix followed by its name; the
/// database maps each interface, class, record and opaque record, under its
/// library's name and its own, to that C name. Nothing else in the document
/// changes.
pub proof fn lemma_collect_names_and_registers(d: DocumentModel)
    requires
        collect_types(d).2 is None,
    ensures
        collect_types(d).0.libraries.len() == d.libraries.len(),
        forall|k: int|
            0 <= k < d.libraries.len() ==> library_registered(
                collect_types(d).1,
                d.libraries[k],
                #[trigger] collect_types(d).0.libraries[k],
            ),
{
    lemma_db_extends_facts();
    let f = register_library_step();
    let keeps = |a: TypeDatabaseModel, b: TypeDatabaseModel| db_extends(a, b);
    let rl = |x: LibraryModel, y: LibraryModel, db: TypeDatabaseModel| library_registered(db, x, y);
    assert forall|x: LibraryModel, st1: TypeDatabaseModel| (#[trigger] f(x, st1)).2 is None implies rl(
        x,
        f(x, st1).0,
        f(x, st1).1,
    ) && keeps(st1, f(x, st1).1) by {
        lemma_register_library_registered(x, st1);
    }
    assert forall|x: LibraryModel, y: LibraryModel, s1: TypeDatabaseModel, s2: TypeDatabaseModel|
        #[trigger] rl(x, y, s1) && #[trigger] keeps(s1, s2) implies rl(x, y, s2) by {
        assert forall|i: int| 0 <= i < x.interfaces.len() implies interface_registered(
            s2,
            x.name,
            x.c_id_prefix,
            x.interfaces[i],
            #[trigger] y.interfaces[i],
        ) by {
            assert(db_maps(s1, x.name, x.interfaces[i].name, y.interfaces[i].c_name->Some_0));
        }
        assert forall|i: int| 0 <= i < x.classes.len() implies class_registered(
            s2,
            x.name,
            x.c_id_prefix,
            x.classes[i],
            #[trigger] y.classes[i],
        ) by {
            assert(db_maps(s1, x.name, x.classes[i].name, y.classes[i].c_name->Some_0));
        }
        assert forall|i: int| 0 <= i < x.records.len() implies record_registered(
            s2,
            x.name,
            x.records[i],
            #[trigger] y.records[i],
        ) by {
            assert(record_registered(s1, x.name, x.records[i], y.records[i]));
            assert(db_maps(s1, x.name, x.records[i].name, x.records[i].c_name));
        }
        assert forall|i: int| 0 <= i < x.opaque_records.len() implies opaque_record_registered(
            s2,
            x.name,
            x.c_id_prefix,
            x.opaque_records[i],
            #[trigger] y.opaque_records[i],
        ) by {
            assert(db_maps(s1, x.name, x.opaque_records[i].name, y.opaque_records[i].c_name->Some_0));
        }
    }
    lemma_fold_state_related(d.libraries, empty_db(), f, rl, keeps);
}

} // verus!
