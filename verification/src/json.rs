//! Reading and writing types and parameters as JSON-like values.
//!
//! A document is read (from YAML) through `serde`; the values that stand for
//! a type or a parameter arrive here as [`JsonValue`]s, and these functions
//! decide what they mean, or which error message they deserve. Writing goes
//! the other way.
use vstd::prelude::*;

use crate::model::{
    lemma_type_infos_view, type_infos_view, Parameter, ParameterModel, TypeInfo, TypeInfoModel,
};
use crate::text::{concat2, concat3, debug_str, spec_debug_str, str_eq};

verus! {

/// A JSON-like value.
#[derive(Debug, PartialEq, Eq, Hash, PartialOrd, Ord)]
pub enum JsonValue {
    Null,
    Bool(bool),
    /// A number, in its written form.
    Number(String),
    String(String),
    Array(Vec<JsonValue>),
    /// An object: its entries, each key at most once.
    Object(Vec<(String, JsonValue)>),
}

pub ghost enum JsonModel {
    Null,
    Bool(bool),
    Number(Seq<char>),
    Str(Seq<char>),
    Array(Seq<JsonModel>),
    Object(Seq<(Seq<char>, JsonModel)>),
}

impl View for JsonValue {
    type V = JsonModel;

    open spec fn view(&self) -> JsonModel {
        json_model(*self)
    }
}

/// The view of a value.
pub open spec fn json_model(v: JsonValue) -> JsonModel
    decreases v,
{
    match v {
        JsonValue::Null => JsonModel::Null,
        JsonValue::Bool(b) => JsonModel::Bool(b),
        JsonValue::Number(n) => JsonModel::Number(n@),
        JsonValue::String(s) => JsonModel::Str(s@),
        JsonValue::Array(items) => {
            proof {
                assert(decreases_to!(items => items@));
            }
            JsonModel::Array(json_models(items@))
        },
        JsonValue::Object(entries) => {
            proof {
                assert(decreases_to!(entries => entries@));
            }
            JsonModel::Object(json_entries_model(entries@))
        },
    }
}

/// The views of a sequence of values.
pub open spec fn json_models(s: Seq<JsonValue>) -> Seq<JsonModel>
    decreases s,
{
    if s.len() == 0 {
        Seq::empty()
    } else {
        seq![json_model(s[0])] + json_models(s.subrange(1, s.len() as int))
    }
}

/// The views of a sequence of entries.
pub open spec fn json_entries_model(s: Seq<(String, JsonValue)>) -> Seq<(Seq<char>, JsonModel)>
    decreases s,
{
    if s.len() == 0 {
        Seq::empty()
    } else {
        proof {
            assert(decreases_to!(s => s[0]));
            assert(decreases_to!(s[0] => s[0].1));
        }
        seq![(s[0].0@, json_model(s[0].1))] + json_entries_model(s.subrange(1, s.len() as int))
    }
}

/// The views of values, one for each, in order.
pub broadcast proof fn lemma_json_models(s: Seq<JsonValue>)
    ensures
        #[trigger] json_models(s).len() == s.len(),
        forall|i: int| 0 <= i < s.len() ==> json_models(s)[i] == s[i]@,
    decreases s.len(),
{
    if s.len() > 0 {
        lemma_json_models(s.subrange(1, s.len() as int));
    }
}

/// The views of entries, one for each, in order.
pub broadcast proof fn lemma_json_entries_model(s: Seq<(String, JsonValue)>)
    ensures
        #[trigger] json_entries_model(s).len() == s.len(),
        forall|i: int| 0 <= i < s.len() ==> json_entries_model(s)[i] == (s[i].0@, s[i].1@),
    decreases s.len(),
{
    if s.len() > 0 {
        lemma_json_entries_model(s.subrange(1, s.len() as int));
    }
}

/// The value of the first entry with the given key.
pub open spec fn json_get(entries: Seq<(Seq<char>, JsonModel)>, key: Seq<char>) -> Option<JsonModel>
    decreases entries.len(),
{
    if entries.len() == 0 {
        None
    } else if entries[0].0 == key {
        Some(entries[0].1)
    } else {
        json_get(entries.drop_first(), key)
    }
}

/// Where the first entry with the given key stands, if one does.
fn find_entry(entries: &Vec<(String, JsonValue)>, key: &str) -> (r: Option<usize>)
    ensures
        match r {
            Some(i) => i < entries.len() && json_get(json_entries_model(entries@), key@) == Some(
                entries@[i as int].1@,
            ),
            None => json_get(json_entries_model(entries@), key@) is None,
        },
{
    let ghost s = json_entries_model(entries@);
    proof {
        lemma_json_entries_model(entries@);
    }
    assert(s.skip(0) =~= s);
    let mut i: usize = 0;
    while i < entries.len()
        invariant
            i <= entries.len(),
            s == json_entries_model(entries@),
            s.len() == entries.len(),
            forall|k: int| 0 <= k < s.len() ==> s[k] == (entries@[k].0@, entries@[k].1@),
            json_get(s, key@) == json_get(s.skip(i as int), key@),
        decreases entries.len() - i,
    {
        assert(s.skip(i as int).drop_first() =~= s.skip(i + 1));
        if str_eq(entries[i].0.as_str(), key) {
            return Some(i);
        }
        i += 1;
    }
    None
}

// ----------------------------------------------------------------------
// Types
// ----------------------------------------------------------------------

/// The flag of a type object under `key`: absent means false; otherwise it
/// must be the string `true` or `false`.
pub open spec fn bool_entry(entries: Seq<(Seq<char>, JsonModel)>, key: Seq<char>) -> Result<bool, Seq<char>> {
    match json_get(entries, key) {
        None => Ok(false),
        Some(JsonModel::Str(s)) => if s == "true"@ {
            Ok(true)
        } else if s == "false"@ {
            Ok(false)
        } else {
            Err("TypeInfo object "@ + spec_debug_str(key) + " entry neither \"true\" nor \"false\""@)
        },
        Some(_) => Err("TypeInfo object "@ + spec_debug_str(key) + " entry not a string"@),
    }
}

/// Reads a type: a string is the name of a type with nothing else known; an
/// object has a `name` string, an optional `c_type` string (or null),
/// optional `const` and `contained` flags, and optional `params`, an array of
/// types.
pub open spec fn type_from_json(v: JsonModel) -> Result<TypeInfoModel, Seq<char>>
    decreases v,
{
    match v {
        JsonModel::Str(name) => Ok(
            TypeInfoModel {
                name,
                c_type: None,
                is_const: false,
                is_contained: false,
                params: Seq::empty(),
            },
        ),
        JsonModel::Object(entries) => {
            match json_get(entries, "name"@) {
                None => Err("TypeInfo object missing \"name\" entry"@),
                Some(JsonModel::Str(name)) => {
                    let c_type: Result<Option<Seq<char>>, Seq<char>> = match json_get(entries, "c_type"@) {
                        None => Ok(None),
                        Some(JsonModel::Null) => Ok(None),
                        Some(JsonModel::Str(c)) => Ok(Some(c)),
                        Some(_) => Err("TypeInfo object \"c_type\" entry not a string"@),
                    };
                    match c_type {
                        Err(e) => Err(e),
                        Ok(c_type) => match bool_entry(entries, "const"@) {
                            Err(e) => Err(e),
                            Ok(is_const) => match bool_entry(entries, "contained"@) {
                                Err(e) => Err(e),
                                Ok(is_contained) => {
                                    let params = match json_get(entries, "params"@) {
                                        None => Some(Seq::empty()),
                                        Some(p) => {
                                            proof {
                                                lemma_json_get_smaller(entries, "params"@);
                                            }
                                            types_from_json_value(p)
                                        },
                                    };
                                    match params {
                                        None => Err(
                                            "TypeInfo object \"params\" entry not an array of strings or type information"@,
                                        ),
                                        Some(params) => Ok(
                                            TypeInfoModel {
                                                name,
                                                c_type,
                                                is_const,
                                                is_contained,
                                                params,
                                            },
                                        ),
                                    }
                                },
                            },
                        },
                    }
                },
                Some(_) => Err("TypeInfo object \"name\" entry not a string"@),
            }
        },
        _ => Err("TypeInfo must be either a string (name) or an object with keys [name, params]"@),
    }
}

/// Reads an array of types; anything else, or an array with an element
/// that is no type, is not.
pub open spec fn types_from_json_value(v: JsonModel) -> Option<Seq<TypeInfoModel>>
    decreases v, 0nat,
{
    match v {
        JsonModel::Array(items) => types_from_json(items),
        _ => None,
    }
}

/// Reads the elements of an array as types, in order.
pub open spec fn types_from_json(items: Seq<JsonModel>) -> Option<Seq<TypeInfoModel>>
    decreases items,
{
    if items.len() == 0 {
        Some(Seq::empty())
    } else {
        match type_from_json(items[0]) {
            Err(_) => None,
            Ok(t) => match types_from_json(items.subrange(1, items.len() as int)) {
                None => None,
                Some(rest) => Some(seq![t] + rest),
            },
        }
    }
}

/// Reading the elements in order: all read, or none.
pub proof fn lemma_types_from_json(items: Seq<JsonModel>, i: int)
    requires
        0 <= i <= items.len(),
        forall|k: int| 0 <= k < i ==> type_from_json(#[trigger] items[k]) is Ok,
    ensures
        types_from_json(items) == match types_from_json(items.skip(i)) {
            None => None,
            Some(rest) => Some(Seq::new(i as nat, |k: int| type_from_json(items[k])->Ok_0) + rest),
        },
    decreases i,
{
    if i == 0 {
        assert(items.skip(0) =~= items);
        match types_from_json(items) {
            None => {},
            Some(rest) => {
                assert(Seq::new(0, |k: int| type_from_json(items[k])->Ok_0) + rest =~= rest);
            },
        }
    } else {
        let t = items.subrange(1, items.len() as int);
        assert forall|k: int| 0 <= k < i - 1 implies type_from_json(#[trigger] t[k]) is Ok by {
            assert(t[k] == items[k + 1]);
        }
        lemma_types_from_json(t, i - 1);
        assert(t.skip(i - 1) =~= items.skip(i));
        match types_from_json(items.skip(i)) {
            None => {},
            Some(rest) => {
                assert(seq![type_from_json(items[0])->Ok_0] + (Seq::new(
                    (i - 1) as nat,
                    |k: int| type_from_json(t[k])->Ok_0,
                ) + rest) =~= Seq::new(i as nat, |k: int| type_from_json(items[k])->Ok_0) + rest);
            },
        }
    }
}

/// An entry's value is smaller than the entries.
pub proof fn lemma_json_get_smaller(entries: Seq<(Seq<char>, JsonModel)>, key: Seq<char>)
    requires
        json_get(entries, key) is Some,
    ensures
        decreases_to!(entries => json_get(entries, key)->Some_0),
    decreases entries.len(),
{
    if entries[0].0 == key {
        assert(decreases_to!(entries => entries[0]));
        assert(decreases_to!(entries[0] => entries[0].1));
    } else {
        lemma_json_get_smaller(entries.drop_first(), key);
        assert(decreases_to!(entries => entries.drop_first()));
    }
}


/// The view of a result carrying a string error.
pub open spec fn str_result<T, V>(r: Result<T, String>, v: spec_fn(T) -> V) -> Result<V, Seq<char>> {
    match r {
        Ok(t) => Ok(v(t)),
        Err(e) => Err(e@),
    }
}

/// Reads the flag under `key` of a type object.
fn bool_from_map_key(entries: &Vec<(String, JsonValue)>, key: &str) -> (r: Result<bool, String>)
    ensures
        str_result(r, |b: bool| b) == bool_entry(json_entries_model(entries@), key@),
{
    match find_entry(entries, key) {
        None => Ok(false),
        Some(i) => match &entries[i].1 {
            JsonValue::String(val_str) => {
                if str_eq(val_str.as_str(), "true") {
                    Ok(true)
                } else if str_eq(val_str.as_str(), "false") {
                    Ok(false)
                } else {
                    Err(
                        concat3(
                            "TypeInfo object ",
                            debug_str(key).as_str(),
                            " entry neither \"true\" nor \"false\"",
                        ),
                    )
                }
            },
            _ => Err(concat3("TypeInfo object ", debug_str(key).as_str(), " entry not a string")),
        },
    }
}

impl TypeInfo {
    /// Reads a type from a JSON-like value: a string is the name of a type
    /// with nothing else known; an object has a `name` string, an optional
    /// `c_type` string (or null), optional `const` and `contained` flags (the
    /// strings `true` or `false`), and optional `params`, an array of types.
    /// Anything else is refused with a message.
    pub fn from_json(v: &JsonValue) -> (r: Result<TypeInfo, String>)
        ensures
            str_result(r, |t: TypeInfo| t@) == type_from_json(v@),
        decreases v,
    {
        match v {
            JsonValue::String(jv) => {
                let t = TypeInfo::named(jv.clone());
                Ok(t)
            },
            JsonValue::Object(jv) => {
                let ghost entries = json_entries_model(jv@);
                let name = match find_entry(jv, "name") {
                    None => {
                        return Err("TypeInfo object missing \"name\" entry".to_owned());
                    },
                    Some(i) => match &jv[i].1 {
                        JsonValue::String(n) => n.clone(),
                        _ => {
                            return Err("TypeInfo object \"name\" entry not a string".to_owned());
                        },
                    },
                };
                let c_type = match find_entry(jv, "c_type") {
                    None => None,
                    Some(i) => match &jv[i].1 {
                        JsonValue::Null => None,
                        JsonValue::String(c) => Some(c.clone()),
                        _ => {
                            return Err("TypeInfo object \"c_type\" entry not a string".to_owned());
                        },
                    },
                };
                let is_const = match bool_from_map_key(jv, "const") {
                    Ok(b) => b,
                    Err(e) => {
                        return Err(e);
                    },
                };
                let is_contained = match bool_from_map_key(jv, "contained") {
                    Ok(b) => b,
                    Err(e) => {
                        return Err(e);
                    },
                };
                let params_error = "TypeInfo object \"params\" entry not an array of strings or type information";
                let params: Vec<TypeInfo> = match find_entry(jv, "params") {
                    None => Vec::with_capacity(0),
                    Some(i) => {
                        proof {
                            lemma_json_entries_model(jv@);
                            lemma_json_get_smaller(entries, "params"@);
                        }
                        assert(decreases_to!(v => jv));
                        assert(decreases_to!(jv => jv@[i as int]));
                        assert(decreases_to!(jv@[i as int] => jv@[i as int].1));
                        match Self::params_from_json(&jv[i].1) {
                            Some(ps) => ps,
                            None => {
                                return Err(params_error.to_owned());
                            },
                        }
                    },
                };
                let t = TypeInfo { name, c_type, is_const, is_contained, params };
                proof {
                    lemma_type_infos_view(t.params@);
                }
                assert(t@.params =~= type_from_json(v@)->Ok_0.params);
                Ok(t)
            },
            _ => Err(
                "TypeInfo must be either a string (name) or an object with keys [name, params]".to_owned(),
            ),
        }
    }

    /// Reads an array of types; `None` for anything else, or for an array
    /// with an element that is no type.
    fn params_from_json(v: &JsonValue) -> (r: Option<Vec<TypeInfo>>)
        ensures
            match r {
                Some(ps) => types_from_json_value(v@) == Some(type_infos_view(ps@)),
                None => types_from_json_value(v@) is None,
            },
        decreases v,
    {
        match v {
            JsonValue::Array(items) => {
                let ghost ms = json_models(items@);
                proof {
                    lemma_json_models(items@);
                }
                let mut out: Vec<TypeInfo> = Vec::new();
                assert(v@ == JsonModel::Array(ms));
                assert(decreases_to!(v => items));
                let mut i: usize = 0;
                while i < items.len()
                    invariant
                        decreases_to!(v => items),
                        v@ == JsonModel::Array(ms),
                        i <= items.len(),
                        ms == json_models(items@),
                        ms.len() == items.len(),
                        forall|k: int| 0 <= k < ms.len() ==> ms[k] == items@[k]@,
                        out.len() == i,
                        forall|k: int| 0 <= k < i ==> type_from_json(#[trigger] ms[k]) is Ok,
                        forall|k: int| 0 <= k < i ==> type_from_json(ms[k]) == Ok::<TypeInfoModel, Seq<char>>(#[trigger] out@[k]@),
                    decreases items.len() - i,
                {
                    assert(decreases_to!(items => items@[i as int]));
                    match Self::from_json(&items[i]) {
                        Ok(t) => {
                            out.push(t);
                        },
                        Err(_) => {
                            proof {
                                lemma_types_from_json(ms, i as int);
                                assert(ms.skip(i as int)[0] == ms[i as int]);
                                assert(type_from_json(ms[i as int]) is Err);
                                assert(types_from_json(ms.skip(i as int)) is None);
                            }
                            return None;
                        },
                    }
                    i += 1;
                }
                proof {
                    lemma_types_from_json(ms, items.len() as int);
                    lemma_type_infos_view(out@);
                    assert(ms.skip(items.len() as int) =~= Seq::<JsonModel>::empty());
                    assert(Seq::new(ms.len(), |k: int| type_from_json(ms[k])->Ok_0) + Seq::<TypeInfoModel>::empty() =~= type_infos_view(out@));
                }
                Some(out)
            },
            _ => None,
        }
    }
}


/// A flag as a JSON string.
pub open spec fn flag_json(b: bool) -> JsonModel {
    JsonModel::Str(
        if b {
            "true"@
        } else {
            "false"@
        },
    )
}

/// Writes a type: a type without parameters or C type that is const is
/// written as its name alone; any other as an object with `name`, `const`,
/// `contained`, `c_type` (null where there is none) and `params`.
pub open spec fn type_to_json(t: TypeInfoModel) -> JsonModel
    decreases t,
{
    if t.params.len() == 0 && t.c_type is None && t.is_const {
        JsonModel::Str(t.name)
    } else {
        JsonModel::Object(
            seq![
                ("name"@, JsonModel::Str(t.name)),
                ("const"@, flag_json(t.is_const)),
                ("contained"@, flag_json(t.is_contained)),
                ("c_type"@, match t.c_type {
                    Some(c) => JsonModel::Str(c),
                    None => JsonModel::Null,
                }),
                ("params"@, JsonModel::Array(types_to_json(t.params))),
            ],
        )
    }
}

/// Writes a sequence of types.
pub open spec fn types_to_json(s: Seq<TypeInfoModel>) -> Seq<JsonModel>
    decreases s,
{
    if s.len() == 0 {
        Seq::empty()
    } else {
        seq![type_to_json(s[0])] + types_to_json(s.subrange(1, s.len() as int))
    }
}

/// The written types, one for each, in order.
pub proof fn lemma_types_to_json(s: Seq<TypeInfoModel>)
    ensures
        types_to_json(s).len() == s.len(),
        forall|i: int| 0 <= i < s.len() ==> types_to_json(s)[i] == type_to_json(s[i]),
    decreases s.len(),
{
    if s.len() > 0 {
        lemma_types_to_json(s.subrange(1, s.len() as int));
    }
}

/// A JSON string.
fn json_string(s: &str) -> (r: JsonValue)
    ensures
        r@ == JsonModel::Str(s@),
{
    JsonValue::String(s.to_owned())
}

/// A flag as a JSON string.
fn json_flag(b: bool) -> (r: JsonValue)
    ensures
        r@ == flag_json(b),
{
    if b {
        json_string("true")
    } else {
        json_string("false")
    }
}

impl TypeInfo {
    /// Writes a type as a JSON-like value: a type without parameters or C
    /// type that is const is written as its name alone; any other as an
    /// object with `name`, `const`, `contained`, `c_type` (null where there is
    /// none) and `params`.
    pub fn to_json(&self) -> (r: JsonValue)
        ensures
            r@ == type_to_json(self@),
        decreases self,
    {
        proof {
            lemma_type_infos_view(self.params@);
        }
        if self.params.len() == 0 && self.c_type.is_none() && self.is_const {
            json_string(self.name.as_str())
        } else {
            let ghost ps = self@.params;
            proof {
                lemma_types_to_json(ps);
            }
            let mut params: Vec<JsonValue> = Vec::new();
            let mut i: usize = 0;
            while i < self.params.len()
                invariant
                    i <= self.params.len(),
                    ps == self@.params,
                    ps.len() == self.params.len(),
                    forall|k: int| 0 <= k < ps.len() ==> ps[k] == self.params@[k]@,
                    types_to_json(ps).len() == ps.len(),
                    forall|k: int| 0 <= k < ps.len() ==> types_to_json(ps)[k] == type_to_json(ps[k]),
                    params.len() == i,
                    forall|k: int| 0 <= k < i ==> (#[trigger] params@[k])@ == type_to_json(ps[k]),
                decreases self.params.len() - i,
            {
                assert(decreases_to!(self => self.params));
                assert(decreases_to!(self.params => self.params[i as int]));
                let p = self.params[i].to_json();
                params.push(p);
                i += 1;
            }
            proof {
                lemma_json_models(params@);
            }
            assert(json_models(params@) =~= types_to_json(ps));
            let c_type = match &self.c_type {
                Some(c) => json_string(c.as_str()),
                None => JsonValue::Null,
            };
            let entries = vec![
                ("name".to_owned(), json_string(self.name.as_str())),
                ("const".to_owned(), json_flag(self.is_const)),
                ("contained".to_owned(), json_flag(self.is_contained)),
                ("c_type".to_owned(), c_type),
                ("params".to_owned(), JsonValue::Array(params)),
            ];
            proof {
                lemma_json_entries_model(entries@);
            }
            let r = JsonValue::Object(entries);
            assert(json_entries_model(entries@) =~= match type_to_json(self@) {
                JsonModel::Object(e) => e,
                _ => Seq::empty(),
            });
            r
        }
    }
}

// ----------------------------------------------------------------------
// Parameters
// ----------------------------------------------------------------------

/// What a parameter object is: the instance parameter, or a regular
/// parameter described by the remaining entries.
#[derive(Debug, PartialEq, Eq, Hash, PartialOrd, Ord)]
pub enum ParameterJson {
    Instance,
    Regular(Vec<(String, JsonValue)>),
}

pub ghost enum ParameterJsonModel {
    Instance,
    Regular(Seq<(Seq<char>, JsonModel)>),
}

impl View for ParameterJson {
    type V = ParameterJsonModel;

    open spec fn view(&self) -> ParameterJsonModel {
        match self {
            ParameterJson::Instance => ParameterJsonModel::Instance,
            ParameterJson::Regular(entries) => ParameterJsonModel::Regular(json_entries_model(entries@)),
        }
    }
}

/// The entries without those under `key`.
pub open spec fn without_key(entries: Seq<(Seq<char>, JsonModel)>, key: Seq<char>) -> Seq<(Seq<char>, JsonModel)>
    decreases entries.len(),
{
    if entries.len() == 0 {
        entries
    } else {
        let pre = without_key(entries.drop_last(), key);
        if entries.last().0 == key {
            pre
        } else {
            pre.push(entries.last())
        }
    }
}

/// What the entries of a parameter object describe: an `instance` entry
/// that is the string `true`, alone, is the instance parameter; one that is
/// `false`, or none, leaves a regular parameter described by the other
/// entries; anything else is refused with a message.
pub open spec fn parameter_from_entries(entries: Seq<(Seq<char>, JsonModel)>) -> Result<ParameterJsonModel, Seq<char>> {
    match json_get(entries, "instance"@) {
        Some(JsonModel::Str(s)) => if s == "true"@ {
            if entries.len() > 1 {
                Err("Parameter object with \"instance\" true has additional parameters"@)
            } else {
                Ok(ParameterJsonModel::Instance)
            }
        } else if s != "false"@ {
            Err("Parameter object has invalid \"instance\" value "@ + spec_debug_str(s))
        } else {
            Ok(ParameterJsonModel::Regular(without_key(entries, "instance"@)))
        },
        Some(_) => Err("Parameter object \"instance\" entry not a string"@),
        None => Ok(ParameterJsonModel::Regular(without_key(entries, "instance"@))),
    }
}

/// Writes a parameter: the instance parameter as an object with `instance`
/// set to `true`; a regular one as an object with `name` and `type`.
pub open spec fn parameter_to_json(p: ParameterModel) -> JsonModel {
    match p {
        ParameterModel::Instance => JsonModel::Object(seq![("instance"@, JsonModel::Str("true"@))]),
        ParameterModel::Regular(r) => JsonModel::Object(
            seq![("name"@, JsonModel::Str(r.name)), ("type"@, type_to_json(r.type_info))],
        ),
    }
}

/// The entries without those under `key`, in order.
fn remove_key(entries: Vec<(String, JsonValue)>, key: &str) -> (r: Vec<(String, JsonValue)>)
    ensures
        json_entries_model(r@) == without_key(json_entries_model(entries@), key@),
{
    let ghost s = json_entries_model(entries@);
    proof {
        lemma_json_entries_model(entries@);
    }
    let mut rest = entries;
    let mut kept_rev: Vec<(String, JsonValue)> = Vec::new();
    let ghost n = rest.len();
    assert(s.take(n as int) =~= s);
    while rest.len() > 0
        invariant
            s.len() == n,
            rest.len() <= n,
            forall|k: int| 0 <= k < rest.len() ==> s[k] == (rest@[k].0@, rest@[k].1@),
            without_key(s, key@) == without_key(s.take(rest.len() as int), key@) + json_entries_model(kept_rev@).reverse(),
        decreases rest.len(),
    {
        let ghost len = rest.len();
        let e = rest.pop().unwrap();
        assert(s.take(len as int).drop_last() =~= s.take(len - 1));
        assert(s.take(len as int).last() == s[len - 1]);
        proof {
            lemma_json_entries_model(kept_rev@);
        }
        let ghost before = json_entries_model(kept_rev@);
        if !str_eq(e.0.as_str(), key) {
            kept_rev.push(e);
            proof {
                lemma_json_entries_model(kept_rev@);
                assert(json_entries_model(kept_rev@) =~= before.push(s[len - 1]));
                assert(before.push(s[len - 1]).reverse() =~= seq![s[len - 1]] + before.reverse());
            }
        }
        assert(without_key(s, key@) == without_key(s.take(rest.len() as int), key@) + json_entries_model(kept_rev@).reverse());
    }
    let mut out: Vec<(String, JsonValue)> = Vec::new();
    let ghost kr = json_entries_model(kept_rev@);
    proof {
        lemma_json_entries_model(kept_rev@);
    }
    while kept_rev.len() > 0
        invariant
            kr.len() >= kept_rev.len(),
            forall|k: int| 0 <= k < kept_rev.len() ==> kr[k] == (kept_rev@[k].0@, kept_rev@[k].1@),
            json_entries_model(out@) == kr.subrange(kept_rev.len() as int, kr.len() as int).reverse(),
        decreases kept_rev.len(),
    {
        let ghost len = kept_rev.len();
        let e = kept_rev.pop().unwrap();
        proof {
            lemma_json_entries_model(out@);
        }
        let ghost before = json_entries_model(out@);
        out.push(e);
        proof {
            lemma_json_entries_model(out@);
            assert(json_entries_model(out@) =~= before.push(kr[len - 1]));
            assert(kr.subrange(len - 1, kr.len() as int).reverse() =~= kr.subrange(len as int, kr.len() as int).reverse().push(kr[len - 1]));
        }
    }
    assert(s.take(0) =~= Seq::<(Seq<char>, JsonModel)>::empty());
    assert(kr.subrange(0, kr.len() as int) =~= kr);
    out
}

impl Parameter {
    /// Reads what the entries of a parameter object describe: an
    /// `instance` entry that is the string `true`, alone, is the instance
    /// parameter; one that is `false`, or none, leaves a regular parameter
    /// described by the other entries; anything else is refused with a
    /// message.
    pub fn classify_json(entries: Vec<(String, JsonValue)>) -> (r: Result<ParameterJson, String>)
        ensures
            str_result(r, |p: ParameterJson| p@) == parameter_from_entries(json_entries_model(entries@)),
    {
        match find_entry(&entries, "instance") {
            Some(i) => {
                let decision: Option<bool> = match &entries[i].1 {
                    JsonValue::String(instance_str) => {
                        if str_eq(instance_str.as_str(), "true") {
                            Some(true)
                        } else if !str_eq(instance_str.as_str(), "false") {
                            return Err(concat2(
                                "Parameter object has invalid \"instance\" value ",
                                debug_str(instance_str.as_str()).as_str(),
                            ));
                        } else {
                            Some(false)
                        }
                    },
                    _ => None,
                };
                match decision {
                    None => {
                        return Err("Parameter object \"instance\" entry not a string".to_owned());
                    },
                    Some(true) => {
                        proof {
                            lemma_json_entries_model(entries@);
                        }
                        return if entries.len() > 1 {
                            Err("Parameter object with \"instance\" true has additional parameters".to_owned())
                        } else {
                            Ok(ParameterJson::Instance)
                        };
                    },
                    Some(false) => {},
                }
            },
            None => {},
        }
        // keep processing as a regular parameter
        Ok(ParameterJson::Regular(remove_key(entries, "instance")))
    }

    /// Writes a parameter as a JSON-like value: the instance parameter as an
    /// object with `instance` set to `true`; a regular one as an object with
    /// `name` and `type`.
    pub fn to_json(&self) -> (r: JsonValue)
        ensures
            r@ == parameter_to_json(self@),
    {
        let entries = match self {
            Parameter::Instance => vec![("instance".to_owned(), json_string("true"))],
            Parameter::Regular(regular_parameter) => vec![
                ("name".to_owned(), json_string(regular_parameter.name.as_str())),
                ("type".to_owned(), regular_parameter.type_info.to_json()),
            ],
        };
        proof {
            lemma_json_entries_model(entries@);
        }
        let r = JsonValue::Object(entries);
        assert(json_entries_model(entries@) =~= match parameter_to_json(self@) {
            JsonModel::Object(e) => e,
            _ => Seq::empty(),
        });
        r
    }
}


// ----------------------------------------------------------------------
// Laws
// ----------------------------------------------------------------------

/// A type that is written as an object, not as its bare name: it has
/// parameters, a C type, or is not const.
pub open spec fn written_as_object(t: TypeInfoModel) -> bool {
    !(t.params.len() == 0 && t.c_type is None && t.is_const)
}

/// The type and all types inside it are written as objects.
pub open spec fn all_written_as_objects(t: TypeInfoModel) -> bool
    decreases t,
{
    written_as_object(t) && all_params_written_as_objects(t.params)
}

/// Every type of the sequence, and every type inside them, is written as an
/// object.
pub open spec fn all_params_written_as_objects(s: Seq<TypeInfoModel>) -> bool
    decreases s,
{
    s.len() == 0 || (all_written_as_objects(s[0]) && all_params_written_as_objects(
        s.subrange(1, s.len() as int),
    ))
}

/// A type written as an object reads back as the same type. (A const type
/// without parameters or C type is written as its bare name, which reads
/// back as a type that is not const.)
pub proof fn lemma_type_json_round_trip(t: TypeInfoModel)
    requires
        all_written_as_objects(t),
    ensures
        type_from_json(type_to_json(t)) == Ok::<TypeInfoModel, Seq<char>>(t),
    decreases t,
{
    reveal_strlit("name");
    reveal_strlit("const");
    reveal_strlit("contained");
    reveal_strlit("c_type");
    reveal_strlit("params");
    reveal_strlit("true");
    reveal_strlit("false");
    reveal_with_fuel(json_get, 6);
    lemma_types_json_round_trip(t.params);
    let entries = match type_to_json(t) {
        JsonModel::Object(e) => e,
        _ => Seq::empty(),
    };
    assert(json_get(entries, "name"@) == Some(JsonModel::Str(t.name)));
    let e1 = entries.drop_first();
    let e2 = e1.drop_first();
    let e3 = e2.drop_first();
    let e4 = e3.drop_first();
    assert(e1[0] == ("const"@, flag_json(t.is_const)));
    assert(e2[0] == ("contained"@, flag_json(t.is_contained)));
    assert(e3[0].0 == "c_type"@);
    assert(e4[0] == ("params"@, JsonModel::Array(types_to_json(t.params))));
    assert("name"@[0] == 'n' && "const"@[0] == 'c' && "contained"@[0] == 'c');
    assert("const"@[2] == 'n' && "contained"@[2] == 'n' && "const"@[3] == 's' && "contained"@[3] == 't');
    assert("params"@[0] == 'p' && "c_type"@[0] == 'c' && "c_type"@[1] == '_');
    assert("const"@[1] == 'o' && "contained"@[1] == 'o');
    assert("true"@[0] == 't' && "false"@[0] == 'f');
    assert("name"@ != "const"@);
    assert("name"@ != "contained"@);
    assert("const"@ != "contained"@);
    assert("params"@ != "name"@ && "params"@ != "const"@ && "params"@ != "contained"@ && "params"@ != "c_type"@);
    assert("true"@ != "false"@);
    assert(json_get(entries, "const"@) == Some(flag_json(t.is_const)));
    assert(json_get(entries, "contained"@) == Some(flag_json(t.is_contained)));
    assert(json_get(entries, "params"@) == Some(JsonModel::Array(types_to_json(t.params))));
    assert(bool_entry(entries, "const"@) == Ok::<bool, Seq<char>>(t.is_const));
    assert(bool_entry(entries, "contained"@) == Ok::<bool, Seq<char>>(t.is_contained));
}

/// Types written as objects read back as the same types.
pub proof fn lemma_types_json_round_trip(s: Seq<TypeInfoModel>)
    requires
        all_params_written_as_objects(s),
    ensures
        types_from_json(types_to_json(s)) == Some(s),
    decreases s,
{
    if s.len() > 0 {
        lemma_type_json_round_trip(s[0]);
        lemma_types_json_round_trip(s.subrange(1, s.len() as int));
        let w = types_to_json(s);
        assert(w.subrange(1, w.len() as int) =~= types_to_json(s.subrange(1, s.len() as int)));
        assert(seq![s[0]] + s.subrange(1, s.len() as int) =~= s);
    }
}

/// The instance parameter, written and read back, is the instance parameter.
pub proof fn lemma_instance_json_round_trip()
    ensures
        parameter_from_entries(
            match parameter_to_json(ParameterModel::Instance) {
                JsonModel::Object(e) => e,
                _ => Seq::empty(),
            },
        ) == Ok::<ParameterJsonModel, Seq<char>>(ParameterJsonModel::Instance),
{
    reveal_strlit("instance");
    reveal_strlit("true");
}


/// A regular parameter, written and read back, is a regular parameter
/// described by the entries written (its name and its type).
pub proof fn lemma_regular_json_round_trip(r: crate::model::RegularParameterModel)
    ensures
        ({
            let entries = match parameter_to_json(ParameterModel::Regular(r)) {
                JsonModel::Object(e) => e,
                _ => Seq::empty(),
            };
            parameter_from_entries(entries) == Ok::<ParameterJsonModel, Seq<char>>(
                ParameterJsonModel::Regular(entries),
            )
        }),
{
    reveal_strlit("instance");
    reveal_strlit("name");
    reveal_strlit("type");
    let entries = match parameter_to_json(ParameterModel::Regular(r)) {
        JsonModel::Object(e) => e,
        _ => Seq::empty(),
    };
    assert("instance"@[0] == 'i' && "name"@[0] == 'n' && "type"@[0] == 't');
    assert(entries.drop_first()[0].0 == "type"@);
    assert("instance"@ != "name"@ && "instance"@ != "type"@);
    assert(entries.drop_first().drop_first().len() == 0);
    assert(json_get(entries.drop_first().drop_first(), "instance"@) is None);
    assert(json_get(entries.drop_first(), "instance"@) is None);
    assert(json_get(entries, "instance"@) is None);
    reveal_with_fuel(without_key, 3);
    assert(entries.drop_last().drop_last() =~= Seq::<(Seq<char>, JsonModel)>::empty());
    assert(entries.drop_last().last().0 == "name"@);
    assert(without_key(entries, "instance"@) =~= entries);
}

} // verus!
