//! The type database: which C type each (library, type name) maps to, and
//! which (library, type name) each C type maps back to.
use vstd::prelude::*;

use crate::order::{lemma_seq_lt_total, lemma_seq_lt_transitive, seq_lt, str_lt};
use crate::text::{debug_str, spec_debug_str, str_eq};

verus! {

/// One registered type: the library that declares it, its name there, and
/// its C type.
#[derive(Clone, Debug, PartialEq, Eq, Hash, PartialOrd, Ord)]
pub struct TypeEntry {
    pub library: String,
    pub typename: String,
    pub c_type: String,
}

pub ghost struct TypeEntryModel {
    pub library: Seq<char>,
    pub typename: Seq<char>,
    pub c_type: Seq<char>,
}

impl View for TypeEntry {
    type V = TypeEntryModel;

    open spec fn view(&self) -> TypeEntryModel {
        TypeEntryModel { library: self.library@, typename: self.typename@, c_type: self.c_type@ }
    }
}

/// Why a type could not be registered.
#[derive(Clone, Debug, PartialEq, Eq, Hash, PartialOrd, Ord)]
pub enum TypeDatabaseError {
    DuplicateType { library: String, typename: String, one_c_type: String, other_c_type: String },
    DuplicateCType {
        one_library: String,
        one_type: String,
        other_library: String,
        other_type: String,
        c_type: String,
    },
}

pub ghost enum TypeDatabaseErrorModel {
    DuplicateType {
        library: Seq<char>,
        typename: Seq<char>,
        one_c_type: Seq<char>,
        other_c_type: Seq<char>,
    },
    DuplicateCType {
        one_library: Seq<char>,
        one_type: Seq<char>,
        other_library: Seq<char>,
        other_type: Seq<char>,
        c_type: Seq<char>,
    },
}

impl View for TypeDatabaseError {
    type V = TypeDatabaseErrorModel;

    open spec fn view(&self) -> TypeDatabaseErrorModel {
        match self {
            TypeDatabaseError::DuplicateType { library, typename, one_c_type, other_c_type } =>
                TypeDatabaseErrorModel::DuplicateType {
                library: library@,
                typename: typename@,
                one_c_type: one_c_type@,
                other_c_type: other_c_type@,
            },
            TypeDatabaseError::DuplicateCType {
                one_library,
                one_type,
                other_library,
                other_type,
                c_type,
            } => TypeDatabaseErrorModel::DuplicateCType {
                one_library: one_library@,
                one_type: one_type@,
                other_library: other_library@,
                other_type: other_type@,
                c_type: c_type@,
            },
        }
    }
}

/// The message of an error, each name in its `Debug` form (quoted, with
/// escapes).
pub open spec fn database_error_message(e: TypeDatabaseErrorModel) -> Seq<char> {
    match e {
        TypeDatabaseErrorModel::DuplicateType { library, typename, one_c_type, other_c_type } =>
            "duplicate type "@ + spec_debug_str(library) + "."@ + spec_debug_str(typename)
            + ", maps to C types "@ + spec_debug_str(one_c_type) + " and "@ + spec_debug_str(other_c_type),
        TypeDatabaseErrorModel::DuplicateCType { one_library, one_type, other_library, other_type, c_type } =>
            "duplicate C type "@ + spec_debug_str(c_type) + ", maps to types "@ + spec_debug_str(one_library)
            + "."@ + spec_debug_str(one_type) + " and "@ + spec_debug_str(other_library) + "."@
            + spec_debug_str(other_type),
    }
}

impl TypeDatabaseError {
    /// The error's message: `duplicate type "L"."T", maps to C types "A" and
    /// "B"`, or `duplicate C type "C", maps to types "L1"."T1" and
    /// "L2"."T2"`.
    pub fn to_string(&self) -> (r: String)
        ensures
            r@ == database_error_message(self@),
    {
        match self {
            TypeDatabaseError::DuplicateType { library, typename, one_c_type, other_c_type } => {
                let mut s = "duplicate type ".to_owned();
                s.append(debug_str(library.as_str()).as_str());
                s.append(".");
                s.append(debug_str(typename.as_str()).as_str());
                s.append(", maps to C types ");
                s.append(debug_str(one_c_type.as_str()).as_str());
                s.append(" and ");
                s.append(debug_str(other_c_type.as_str()).as_str());
                s
            },
            TypeDatabaseError::DuplicateCType { one_library, one_type, other_library, other_type, c_type } => {
                let mut s = "duplicate C type ".to_owned();
                s.append(debug_str(c_type.as_str()).as_str());
                s.append(", maps to types ");
                s.append(debug_str(one_library.as_str()).as_str());
                s.append(".");
                s.append(debug_str(one_type.as_str()).as_str());
                s.append(" and ");
                s.append(debug_str(other_library.as_str()).as_str());
                s.append(".");
                s.append(debug_str(other_type.as_str()).as_str());
                s
            },
        }
    }
}

/// Which C type each (library, type name) maps to, and back.
///
/// Both directions are association lists in increasing key order (the
/// order in which a `BTreeMap` holds them); neither holds a key twice.
#[derive(Clone, Debug, PartialEq, Eq, Hash, PartialOrd, Ord)]
pub struct TypeDatabase {
    library_to_type_to_c: Vec<TypeEntry>,
    c_to_library_and_type: Vec<TypeEntry>,
}

/// The view of a type database: the two maps.
pub ghost struct TypeDatabaseModel {
    pub types: Map<(Seq<char>, Seq<char>), Seq<char>>,
    pub c_types: Map<Seq<char>, (Seq<char>, Seq<char>)>,
}

/// The key of an entry in the forward direction.
pub open spec fn type_key(e: TypeEntryModel) -> (Seq<char>, Seq<char>) {
    (e.library, e.typename)
}

/// The views of a vector of entries.
pub open spec fn entries_view(v: Seq<TypeEntry>) -> Seq<TypeEntryModel> {
    v.map_values(|e: TypeEntry| e@)
}

/// No two entries share a (library, type name) key.
pub open spec fn unique_type_keys(s: Seq<TypeEntryModel>) -> bool {
    forall|i: int, j: int|
        0 <= i < s.len() && 0 <= j < s.len() && i != j ==> type_key(#[trigger] s[i]) != type_key(
            #[trigger] s[j],
        )
}

/// No two entries share a C type.
pub open spec fn unique_c_keys(s: Seq<TypeEntryModel>) -> bool {
    forall|i: int, j: int|
        0 <= i < s.len() && 0 <= j < s.len() && i != j ==> (#[trigger] s[i]).c_type != (
        #[trigger] s[j]).c_type
}

/// The order of forward keys: by library, then by type name.
pub open spec fn key_lt(a: (Seq<char>, Seq<char>), b: (Seq<char>, Seq<char>)) -> bool {
    seq_lt(a.0, b.0) || (a.0 == b.0 && seq_lt(a.1, b.1))
}

/// The order of keys is transitive.
pub proof fn lemma_key_lt_transitive(a: (Seq<char>, Seq<char>), b: (Seq<char>, Seq<char>), c: (Seq<char>, Seq<char>))
    requires
        key_lt(a, b),
        key_lt(b, c),
    ensures
        key_lt(a, c),
{
    if seq_lt(a.0, b.0) && seq_lt(b.0, c.0) {
        lemma_seq_lt_transitive(a.0, b.0, c.0);
    } else if a.0 == b.0 && b.0 == c.0 {
        lemma_seq_lt_transitive(a.1, b.1, c.1);
    }
}

/// Of two different keys, one comes before the other.
pub proof fn lemma_key_lt_total(a: (Seq<char>, Seq<char>), b: (Seq<char>, Seq<char>))
    requires
        a != b,
    ensures
        key_lt(a, b) || key_lt(b, a),
{
    if a.0 != b.0 {
        lemma_seq_lt_total(a.0, b.0);
    } else {
        lemma_seq_lt_total(a.1, b.1);
    }
}

/// The entries come in strictly increasing (library, type name) order.
pub open spec fn sorted_by_type_key(s: Seq<TypeEntryModel>) -> bool {
    forall|i: int, j: int|
        0 <= i < j < s.len() ==> key_lt(type_key(#[trigger] s[i]), type_key(#[trigger] s[j]))
}

/// The entries come in strictly increasing C type order.
pub open spec fn sorted_by_c_type(s: Seq<TypeEntryModel>) -> bool {
    forall|i: int, j: int| 0 <= i < j < s.len() ==> seq_lt((#[trigger] s[i]).c_type, (#[trigger] s[j]).c_type)
}

/// Inserting an entry between the keys below it and the keys above it keeps
/// the forward order.
pub proof fn lemma_sorted_type_insert(s: Seq<TypeEntryModel>, p: int, e: TypeEntryModel)
    requires
        sorted_by_type_key(s),
        0 <= p <= s.len(),
        forall|j: int| 0 <= j < p ==> key_lt(type_key(#[trigger] s[j]), type_key(e)),
        forall|j: int| p <= j < s.len() ==> key_lt(type_key(e), type_key(#[trigger] s[j])),
    ensures
        sorted_by_type_key(s.insert(p, e)),
{
    s.insert_ensures(p, e);
    let t = s.insert(p, e);
    assert forall|i: int, j: int| 0 <= i < j < t.len() implies key_lt(type_key(t[i]), type_key(t[j])) by {
        if i < p {
            assert(t[i] == s[i]);
        } else if i > p {
            assert(t[i] == s[i - 1]);
        }
        if j < p {
            assert(t[j] == s[j]);
        } else if j > p {
            assert(t[j] == s[j - 1]);
        }
    }
}

/// Inserting an entry between the C types below it and the C types above it
/// keeps the backward order.
pub proof fn lemma_sorted_c_insert(s: Seq<TypeEntryModel>, p: int, e: TypeEntryModel)
    requires
        sorted_by_c_type(s),
        0 <= p <= s.len(),
        forall|j: int| 0 <= j < p ==> seq_lt((#[trigger] s[j]).c_type, e.c_type),
        forall|j: int| p <= j < s.len() ==> seq_lt(e.c_type, (#[trigger] s[j]).c_type),
    ensures
        sorted_by_c_type(s.insert(p, e)),
{
    s.insert_ensures(p, e);
    let t = s.insert(p, e);
    assert forall|i: int, j: int| 0 <= i < j < t.len() implies seq_lt(t[i].c_type, t[j].c_type) by {
        if i < p {
            assert(t[i] == s[i]);
        } else if i > p {
            assert(t[i] == s[i - 1]);
        }
        if j < p {
            assert(t[j] == s[j]);
        } else if j > p {
            assert(t[j] == s[j - 1]);
        }
    }
}

/// The forward map described by an association list.
pub open spec fn types_map(s: Seq<TypeEntryModel>) -> Map<(Seq<char>, Seq<char>), Seq<char>> {
    Map::new(
        |k: (Seq<char>, Seq<char>)| exists|i: int| 0 <= i < s.len() && type_key(s[i]) == k,
        |k: (Seq<char>, Seq<char>)|
            s[choose|i: int| 0 <= i < s.len() && type_key(s[i]) == k].c_type,
    )
}

/// The backward map described by an association list.
pub open spec fn c_types_map(s: Seq<TypeEntryModel>) -> Map<Seq<char>, (Seq<char>, Seq<char>)> {
    Map::new(
        |k: Seq<char>| exists|i: int| 0 <= i < s.len() && s[i].c_type == k,
        |k: Seq<char>| type_key(s[choose|i: int| 0 <= i < s.len() && s[i].c_type == k]),
    )
}

/// In an association list without repeated keys, the forward map gives each
/// entry's C type for its key.
pub proof fn lemma_types_map_at(s: Seq<TypeEntryModel>, i: int)
    requires
        unique_type_keys(s),
        0 <= i < s.len(),
    ensures
        types_map(s).contains_key(type_key(s[i])),
        types_map(s)[type_key(s[i])] == s[i].c_type,
{
    let k = type_key(s[i]);
    assert(exists|j: int| 0 <= j < s.len() && type_key(s[j]) == k);
    let j = choose|j: int| 0 <= j < s.len() && type_key(s[j]) == k;
    assert(i == j);
}

/// In an association list without repeated C types, the backward map gives
/// each entry's key for its C type.
pub proof fn lemma_c_types_map_at(s: Seq<TypeEntryModel>, i: int)
    requires
        unique_c_keys(s),
        0 <= i < s.len(),
    ensures
        c_types_map(s).contains_key(s[i].c_type),
        c_types_map(s)[s[i].c_type] == type_key(s[i]),
{
    let k = s[i].c_type;
    assert(exists|j: int| 0 <= j < s.len() && s[j].c_type == k);
    let j = choose|j: int| 0 <= j < s.len() && s[j].c_type == k;
    assert(i == j);
}

/// Inserting an entry with a fresh key into the forward list inserts it into
/// the forward map.
pub proof fn lemma_types_map_insert(s: Seq<TypeEntryModel>, p: int, e: TypeEntryModel)
    requires
        unique_type_keys(s),
        !types_map(s).contains_key(type_key(e)),
        0 <= p <= s.len(),
    ensures
        unique_type_keys(s.insert(p, e)),
        types_map(s.insert(p, e)) == types_map(s).insert(type_key(e), e.c_type),
{
    s.insert_ensures(p, e);
    let t = s.insert(p, e);
    assert forall|i: int| 0 <= i < t.len() && i != p implies #[trigger] t[i] == s[if i < p {
        i
    } else {
        i - 1
    }] by {
        if i > p {
            assert(t[i] == s[i - 1]);
        }
    }
    assert(unique_type_keys(t)) by {
        assert forall|i: int, j: int|
            0 <= i < t.len() && 0 <= j < t.len() && i != j implies type_key(t[i]) != type_key(
            t[j],
        ) by {
            let si = if i < p {
                i
            } else {
                i - 1
            };
            let sj = if j < p {
                j
            } else {
                j - 1
            };
            if i == p {
                assert(type_key(s[sj]) != type_key(e));
            } else if j == p {
                assert(type_key(s[si]) != type_key(e));
            } else {
                assert(si != sj);
            }
        }
    }
    assert forall|k: (Seq<char>, Seq<char>)|
        #![trigger types_map(t).contains_key(k)]
        types_map(t).contains_key(k) <==> types_map(s).insert(type_key(e), e.c_type).contains_key(
            k,
        ) by {
        if types_map(t).contains_key(k) {
            let i = choose|i: int| 0 <= i < t.len() && type_key(t[i]) == k;
            if i < p {
                assert(type_key(s[i]) == k);
            } else if i > p {
                assert(type_key(s[i - 1]) == k);
            }
        }
        if types_map(s).contains_key(k) {
            let i = choose|i: int| 0 <= i < s.len() && type_key(s[i]) == k;
            if i < p {
                assert(type_key(t[i]) == k);
            } else {
                assert(t[i + 1] == s[i]);
                assert(type_key(t[i + 1]) == k);
            }
        }
        if k == type_key(e) {
            assert(type_key(t[p]) == k);
        }
    }
    assert forall|k: (Seq<char>, Seq<char>)| #[trigger]
        types_map(t).contains_key(k) implies types_map(t)[k] == types_map(s).insert(
        type_key(e),
        e.c_type,
    )[k] by {
        let i = choose|i: int| 0 <= i < t.len() && type_key(t[i]) == k;
        lemma_types_map_at(t, i);
        if i < p {
            lemma_types_map_at(s, i);
        } else if i > p {
            lemma_types_map_at(s, i - 1);
        }
    }
    assert(types_map(t) =~= types_map(s).insert(type_key(e), e.c_type));
}

/// Inserting an entry with a fresh C type into the backward list inserts it
/// into the backward map.
pub proof fn lemma_c_types_map_insert(s: Seq<TypeEntryModel>, p: int, e: TypeEntryModel)
    requires
        unique_c_keys(s),
        !c_types_map(s).contains_key(e.c_type),
        0 <= p <= s.len(),
    ensures
        unique_c_keys(s.insert(p, e)),
        c_types_map(s.insert(p, e)) == c_types_map(s).insert(e.c_type, type_key(e)),
{
    s.insert_ensures(p, e);
    let t = s.insert(p, e);
    assert forall|i: int| 0 <= i < t.len() && i != p implies #[trigger] t[i] == s[if i < p {
        i
    } else {
        i - 1
    }] by {
        if i > p {
            assert(t[i] == s[i - 1]);
        }
    }
    assert(unique_c_keys(t)) by {
        assert forall|i: int, j: int|
            0 <= i < t.len() && 0 <= j < t.len() && i != j implies t[i].c_type != t[j].c_type by {
            let si = if i < p {
                i
            } else {
                i - 1
            };
            let sj = if j < p {
                j
            } else {
                j - 1
            };
            if i == p {
                assert(s[sj].c_type != e.c_type);
            } else if j == p {
                assert(s[si].c_type != e.c_type);
            } else {
                assert(si != sj);
            }
        }
    }
    assert forall|k: Seq<char>| #![trigger c_types_map(t).contains_key(k)]
        c_types_map(t).contains_key(k) <==> c_types_map(s).insert(
            e.c_type,
            type_key(e),
        ).contains_key(k) by {
        if c_types_map(t).contains_key(k) {
            let i = choose|i: int| 0 <= i < t.len() && t[i].c_type == k;
            if i < p {
                assert(s[i].c_type == k);
            } else if i > p {
                assert(s[i - 1].c_type == k);
            }
        }
        if c_types_map(s).contains_key(k) {
            let i = choose|i: int| 0 <= i < s.len() && s[i].c_type == k;
            if i < p {
                assert(t[i].c_type == k);
            } else {
                assert(t[i + 1] == s[i]);
                assert(t[i + 1].c_type == k);
            }
        }
        if k == e.c_type {
            assert(t[p].c_type == k);
        }
    }
    assert forall|k: Seq<char>| #[trigger]
        c_types_map(t).contains_key(k) implies c_types_map(t)[k] == c_types_map(s).insert(
        e.c_type,
        type_key(e),
    )[k] by {
        let i = choose|i: int| 0 <= i < t.len() && t[i].c_type == k;
        lemma_c_types_map_at(t, i);
        if i < p {
            lemma_c_types_map_at(s, i);
        } else if i > p {
            lemma_c_types_map_at(s, i - 1);
        }
    }
    assert(c_types_map(t) =~= c_types_map(s).insert(e.c_type, type_key(e)));
}

impl View for TypeDatabase {
    type V = TypeDatabaseModel;

    closed spec fn view(&self) -> TypeDatabaseModel {
        TypeDatabaseModel {
            types: types_map(entries_view(self.library_to_type_to_c@)),
            c_types: c_types_map(entries_view(self.c_to_library_and_type@)),
        }
    }
}

/// What registering a type does to a database: the new database, and the
/// error, if any.
///
/// A (library, type name) pair that is already known leaves the database as
/// it was. Otherwise the pair is recorded, and then a C type that is already
/// known is reported, with the pair kept in the forward map.
pub open spec fn db_insert(
    db: TypeDatabaseModel,
    library: Seq<char>,
    typename: Seq<char>,
    c_type: Seq<char>,
) -> (TypeDatabaseModel, Option<TypeDatabaseErrorModel>) {
    if db.types.contains_key((library, typename)) {
        (
            db,
            Some(
                TypeDatabaseErrorModel::DuplicateType {
                    library,
                    typename,
                    one_c_type: db.types[(library, typename)],
                    other_c_type: c_type,
                },
            ),
        )
    } else {
        let types = db.types.insert((library, typename), c_type);
        if db.c_types.contains_key(c_type) {
            (
                TypeDatabaseModel { types, c_types: db.c_types },
                Some(
                    TypeDatabaseErrorModel::DuplicateCType {
                        one_library: db.c_types[c_type].0,
                        one_type: db.c_types[c_type].1,
                        other_library: library,
                        other_type: typename,
                        c_type,
                    },
                ),
            )
        } else {
            (
                TypeDatabaseModel { types, c_types: db.c_types.insert(c_type, (library, typename)) },
                None,
            )
        }
    }
}

/// Where an entry with a fresh (library, type name) key goes in a forward
/// list in key order: after every smaller key, before every larger one.
fn type_position(entries: &Vec<TypeEntry>, library: &str, typename: &str) -> (p: usize)
    requires
        sorted_by_type_key(entries_view(entries@)),
        !types_map(entries_view(entries@)).contains_key((library@, typename@)),
    ensures
        p <= entries.len(),
        forall|j: int| 0 <= j < p ==> key_lt(type_key(#[trigger] entries_view(entries@)[j]), (library@, typename@)),
        forall|j: int|
            p <= j < entries.len() ==> key_lt((library@, typename@), type_key(#[trigger] entries_view(entries@)[j])),
{
    let ghost s = entries_view(entries@);
    let ghost k = (library@, typename@);
    let mut i: usize = 0;
    while i < entries.len()
        invariant
            i <= entries.len(),
            s == entries_view(entries@),
            k == (library@, typename@),
            sorted_by_type_key(s),
            !types_map(s).contains_key(k),
            forall|j: int| 0 <= j < i ==> key_lt(type_key(#[trigger] s[j]), k),
        decreases entries.len() - i,
    {
        let e = &entries[i];
        let before = str_lt(e.library.as_str(), library) || (str_eq(e.library.as_str(), library) && str_lt(
            e.typename.as_str(),
            typename,
        ));
        if !before {
            proof {
                assert(s[i as int] == e@);
                assert(type_key(s[i as int]) != k);
                lemma_key_lt_total(type_key(s[i as int]), k);
                assert forall|j: int| i <= j < entries.len() implies key_lt(k, type_key(#[trigger] s[j])) by {
                    if j > i {
                        lemma_key_lt_transitive(k, type_key(s[i as int]), type_key(s[j]));
                    }
                }
            }
            return i;
        }
        i += 1;
    }
    i
}

/// Where an entry with a fresh C type goes in a backward list in C type
/// order: after every smaller C type, before every larger one.
fn c_type_position(entries: &Vec<TypeEntry>, c_type: &str) -> (p: usize)
    requires
        sorted_by_c_type(entries_view(entries@)),
        !c_types_map(entries_view(entries@)).contains_key(c_type@),
    ensures
        p <= entries.len(),
        forall|j: int| 0 <= j < p ==> seq_lt((#[trigger] entries_view(entries@)[j]).c_type, c_type@),
        forall|j: int| p <= j < entries.len() ==> seq_lt(c_type@, (#[trigger] entries_view(entries@)[j]).c_type),
{
    let ghost s = entries_view(entries@);
    let mut i: usize = 0;
    while i < entries.len()
        invariant
            i <= entries.len(),
            s == entries_view(entries@),
            sorted_by_c_type(s),
            !c_types_map(s).contains_key(c_type@),
            forall|j: int| 0 <= j < i ==> seq_lt((#[trigger] s[j]).c_type, c_type@),
        decreases entries.len() - i,
    {
        let e = &entries[i];
        if !str_lt(e.c_type.as_str(), c_type) {
            proof {
                assert(s[i as int] == e@);
                assert(s[i as int].c_type != c_type@);
                lemma_seq_lt_total(s[i as int].c_type, c_type@);
                assert forall|j: int| i <= j < entries.len() implies seq_lt(c_type@, (#[trigger] s[j]).c_type) by {
                    if j > i {
                        lemma_seq_lt_transitive(c_type@, s[i as int].c_type, s[j].c_type);
                    }
                }
            }
            return i;
        }
        i += 1;
    }
    i
}

/// The empty database.
pub open spec fn empty_db() -> TypeDatabaseModel {
    TypeDatabaseModel { types: Map::empty(), c_types: Map::empty() }
}

impl TypeDatabase {
    /// The database is well formed: each direction is in strictly increasing
    /// key order, so neither holds a key twice.
    pub closed spec fn wf(&self) -> bool {
        &&& unique_type_keys(entries_view(self.library_to_type_to_c@))
        &&& unique_c_keys(entries_view(self.c_to_library_and_type@))
        &&& sorted_by_type_key(entries_view(self.library_to_type_to_c@))
        &&& sorted_by_c_type(entries_view(self.c_to_library_and_type@))
    }

    /// An empty database.
    pub fn new() -> (r: Self)
        ensures
            r.wf(),
            r@ == empty_db(),
    {
        let r = Self { library_to_type_to_c: Vec::new(), c_to_library_and_type: Vec::new() };
        assert(r@.types =~= Map::empty());
        assert(r@.c_types =~= Map::empty());
        r
    }

    /// Where the (library, type name) pair stands in the forward list.
    fn find_type(&self, library: &str, typename: &str) -> (r: Option<usize>)
        requires
            self.wf(),
        ensures
            match r {
                Some(i) => i < self.library_to_type_to_c.len() && self.library_to_type_to_c@[i as int]@.library
                    == library@ && self.library_to_type_to_c@[i as int]@.typename == typename@
                    && self@.types.contains_key((library@, typename@)) && self@.types[(library@, typename@)]
                    == self.library_to_type_to_c@[i as int]@.c_type,
                None => !self@.types.contains_key((library@, typename@)),
            },
    {
        let ghost s = entries_view(self.library_to_type_to_c@);
        let mut i: usize = 0;
        while i < self.library_to_type_to_c.len()
            invariant
                self.wf(),
                i <= self.library_to_type_to_c.len(),
                s == entries_view(self.library_to_type_to_c@),
                forall|j: int| 0 <= j < i ==> type_key(#[trigger] s[j]) != (library@, typename@),
            decreases self.library_to_type_to_c.len() - i,
        {
            let e = &self.library_to_type_to_c[i];
            if str_eq(e.library.as_str(), library) && str_eq(e.typename.as_str(), typename) {
                proof {
                    lemma_types_map_at(s, i as int);
                }
                return Some(i);
            }
            i += 1;
        }
        None
    }

    /// Where the C type stands in the backward list.
    fn find_c_type(&self, c_type: &str) -> (r: Option<usize>)
        requires
            self.wf(),
        ensures
            match r {
                Some(i) => i < self.c_to_library_and_type.len()
                    && self.c_to_library_and_type@[i as int]@.c_type == c_type@
                    && self@.c_types.contains_key(c_type@) && self@.c_types[c_type@] == type_key(
                    self.c_to_library_and_type@[i as int]@,
                ),
                None => !self@.c_types.contains_key(c_type@),
            },
    {
        let ghost s = entries_view(self.c_to_library_and_type@);
        let mut i: usize = 0;
        while i < self.c_to_library_and_type.len()
            invariant
                self.wf(),
                i <= self.c_to_library_and_type.len(),
                s == entries_view(self.c_to_library_and_type@),
                forall|j: int| 0 <= j < i ==> (#[trigger] s[j]).c_type != c_type@,
            decreases self.c_to_library_and_type.len() - i,
        {
            let e = &self.c_to_library_and_type[i];
            if str_eq(e.c_type.as_str(), c_type) {
                proof {
                    lemma_c_types_map_at(s, i as int);
                }
                return Some(i);
            }
            i += 1;
        }
        None
    }

    /// Registers that `typename` of `library` maps to the C type `c_type`.
    ///
    /// Fails, leaving the database as it was, if the library already has a
    /// type of that name; fails, with the type recorded in the forward map
    /// only, if another type already maps to that C type.
    pub fn insert(&mut self, library: &str, typename: &str, c_type: &str) -> (r: Result<
        (),
        TypeDatabaseError,
    >)
        requires
            old(self).wf(),
        ensures
            final(self).wf(),
            final(self)@ == db_insert(old(self)@, library@, typename@, c_type@).0,
            match r {
                Ok(()) => db_insert(old(self)@, library@, typename@, c_type@).1 is None,
                Err(e) => db_insert(old(self)@, library@, typename@, c_type@).1 == Some(e@),
            },
    {
        match self.find_type(library, typename) {
            Some(i) => {
                let existing = self.library_to_type_to_c[i].c_type.clone();
                return Err(
                    TypeDatabaseError::DuplicateType {
                        library: library.to_owned(),
                        typename: typename.to_owned(),
                        one_c_type: existing,
                        other_c_type: c_type.to_owned(),
                    },
                );
            },
            None => {},
        }
        let entry = TypeEntry {
            library: library.to_owned(),
            typename: typename.to_owned(),
            c_type: c_type.to_owned(),
        };
        let p = type_position(&self.library_to_type_to_c, library, typename);
        proof {
            let v = entries_view(self.library_to_type_to_c@);
            lemma_types_map_insert(v, p as int, entry@);
            lemma_sorted_type_insert(v, p as int, entry@);
            assert(entries_view(self.library_to_type_to_c@.insert(p as int, entry)) =~= v.insert(
                p as int,
                entry@,
            ));
        }
        self.library_to_type_to_c.insert(p, entry);
        match self.find_c_type(c_type) {
            Some(i) => {
                let one_library = self.c_to_library_and_type[i].library.clone();
                let one_type = self.c_to_library_and_type[i].typename.clone();
                return Err(
                    TypeDatabaseError::DuplicateCType {
                        one_library,
                        one_type,
                        other_library: library.to_owned(),
                        other_type: typename.to_owned(),
                        c_type: c_type.to_owned(),
                    },
                );
            },
            None => {},
        }
        let back = TypeEntry {
            library: library.to_owned(),
            typename: typename.to_owned(),
            c_type: c_type.to_owned(),
        };
        let q = c_type_position(&self.c_to_library_and_type, c_type);
        proof {
            let v = entries_view(self.c_to_library_and_type@);
            lemma_c_types_map_insert(v, q as int, back@);
            lemma_sorted_c_insert(v, q as int, back@);
            assert(entries_view(self.c_to_library_and_type@.insert(q as int, back)) =~= v.insert(
                q as int,
                back@,
            ));
        }
        self.c_to_library_and_type.insert(q, back);
        Ok(())
    }

    /// The C type of `typename` of `library`, if it is registered.
    pub(crate) fn lookup(&self, library: &str, typename: &str) -> (r: Option<String>)
        requires
            self.wf(),
        ensures
            match r {
                Some(c) => self@.types.contains_key((library@, typename@)) && c@ == self@.types[(
                    library@,
                    typename@,
                )],
                None => !self@.types.contains_key((library@, typename@)),
            },
    {
        match self.find_type(library, typename) {
            Some(i) => Some(self.library_to_type_to_c[i].c_type.clone()),
            None => None,
        }
    }

    /// The registered types, keyed by library and type name, in key order.
    pub fn library_to_type_to_c(&self) -> (r: &Vec<TypeEntry>)
        requires
            self.wf(),
        ensures
            sorted_by_type_key(entries_view(r@)),
            unique_type_keys(entries_view(r@)),
            types_map(entries_view(r@)) == self@.types,
    {
        &self.library_to_type_to_c
    }

    /// The registered types, keyed by C type, in C type order.
    pub fn c_to_library_and_type(&self) -> (r: &Vec<TypeEntry>)
        requires
            self.wf(),
        ensures
            sorted_by_c_type(entries_view(r@)),
            unique_c_keys(entries_view(r@)),
            c_types_map(entries_view(r@)) == self@.c_types,
    {
        &self.c_to_library_and_type
    }
}




impl Default for TypeDatabase {
    /// An empty database.
    fn default() -> (r: Self)
        ensures
            r.wf(),
            r@ == empty_db(),
    {
        Self::new()
    }
}

/// A registration that succeeds can be read back both ways, and leaves every
/// other entry as it was.
pub proof fn lemma_insert_then_lookup(
    db: TypeDatabaseModel,
    library: Seq<char>,
    typename: Seq<char>,
    c_type: Seq<char>,
)
    requires
        db_insert(db, library, typename, c_type).1 is None,
    ensures
        ({
            let db2 = db_insert(db, library, typename, c_type).0;
            &&& db2.types.contains_key((library, typename))
            &&& db2.types[(library, typename)] == c_type
            &&& db2.c_types.contains_key(c_type)
            &&& db2.c_types[c_type] == (library, typename)
            &&& forall|k: (Seq<char>, Seq<char>)|
                k != (library, typename) && #[trigger] db.types.contains_key(k) ==> db2.types.contains_key(k)
                    && db2.types[k] == db.types[k]
            &&& forall|c: Seq<char>|
                c != c_type && #[trigger] db.c_types.contains_key(c) ==> db2.c_types.contains_key(c)
                    && db2.c_types[c] == db.c_types[c]
        }),
{
}

/// Registering a (library, type name) pair that is already known changes
/// nothing.
pub proof fn lemma_duplicate_type_unchanged(
    db: TypeDatabaseModel,
    library: Seq<char>,
    typename: Seq<char>,
    c_type: Seq<char>,
)
    requires
        db.types.contains_key((library, typename)),
    ensures
        db_insert(db, library, typename, c_type).0 == db,
        db_insert(db, library, typename, c_type).1 is Some,
{
}

} // verus!
