use grr::json::{JsonValue, ParameterJson};
use grr::model::{Parameter, RegularParameter, TypeInfo};

fn s(text: &str) -> JsonValue {
    JsonValue::String(text.to_owned())
}

fn obj(entries: Vec<(&str, JsonValue)>) -> JsonValue {
    JsonValue::Object(entries.into_iter().map(|(k, v)| (k.to_owned(), v)).collect())
}

fn entries(entries: Vec<(&str, JsonValue)>) -> Vec<(String, JsonValue)> {
    entries.into_iter().map(|(k, v)| (k.to_owned(), v)).collect()
}

fn ty(name: &str) -> TypeInfo {
    TypeInfo { name: name.to_owned(), c_type: None, is_const: false, is_contained: false, params: vec![] }
}

// ----------------------------------------------------------------------
// Reading types
// ----------------------------------------------------------------------

#[test]
fn type_from_bare_name() {
    let t = TypeInfo::from_json(&s("gint")).unwrap();
    assert_eq!(t, ty("gint"));
}

#[test]
fn type_from_full_object() {
    let v = obj(vec![
        ("name", s("GLib.List")),
        ("c_type", s("GList*")),
        ("const", s("true")),
        ("contained", s("false")),
        ("params", JsonValue::Array(vec![s("utf8"), obj(vec![("name", s("gint")), ("contained", s("true"))])])),
    ]);
    let t = TypeInfo::from_json(&v).unwrap();
    assert_eq!(t.name, "GLib.List");
    assert_eq!(t.c_type.as_deref(), Some("GList*"));
    assert!(t.is_const);
    assert!(!t.is_contained);
    assert_eq!(t.params.len(), 2);
    assert_eq!(t.params[0], ty("utf8"));
    assert_eq!(t.params[1].name, "gint");
    assert!(t.params[1].is_contained);
}

#[test]
fn type_with_null_c_type_and_no_flags() {
    let v = obj(vec![("name", s("gint")), ("c_type", JsonValue::Null)]);
    assert_eq!(TypeInfo::from_json(&v).unwrap(), ty("gint"));
}

#[test]
fn type_errors() {
    assert_eq!(
        TypeInfo::from_json(&JsonValue::Null).unwrap_err(),
        "TypeInfo must be either a string (name) or an object with keys [name, params]"
    );
    assert_eq!(
        TypeInfo::from_json(&JsonValue::Number("3".to_owned())).unwrap_err(),
        "TypeInfo must be either a string (name) or an object with keys [name, params]"
    );
    assert_eq!(
        TypeInfo::from_json(&obj(vec![("c_type", s("int"))])).unwrap_err(),
        "TypeInfo object missing \"name\" entry"
    );
    assert_eq!(
        TypeInfo::from_json(&obj(vec![("name", JsonValue::Bool(true))])).unwrap_err(),
        "TypeInfo object \"name\" entry not a string"
    );
    assert_eq!(
        TypeInfo::from_json(&obj(vec![("name", s("x")), ("c_type", JsonValue::Bool(false))])).unwrap_err(),
        "TypeInfo object \"c_type\" entry not a string"
    );
    assert_eq!(
        TypeInfo::from_json(&obj(vec![("name", s("x")), ("const", s("yes"))])).unwrap_err(),
        "TypeInfo object \"const\" entry neither \"true\" nor \"false\""
    );
    assert_eq!(
        TypeInfo::from_json(&obj(vec![("name", s("x")), ("contained", JsonValue::Bool(true))])).unwrap_err(),
        "TypeInfo object \"contained\" entry not a string"
    );
    assert_eq!(
        TypeInfo::from_json(&obj(vec![("name", s("x")), ("params", s("y"))])).unwrap_err(),
        "TypeInfo object \"params\" entry not an array of strings or type information"
    );
    assert_eq!(
        TypeInfo::from_json(&obj(vec![("name", s("x")), ("params", JsonValue::Array(vec![JsonValue::Null]))]))
            .unwrap_err(),
        "TypeInfo object \"params\" entry not an array of strings or type information"
    );
}

// ----------------------------------------------------------------------
// Writing types
// ----------------------------------------------------------------------

#[test]
fn const_plain_type_is_written_as_name() {
    let t = TypeInfo { is_const: true, ..ty("gint") };
    assert_eq!(t.to_json(), s("gint"));
}

#[test]
fn other_types_are_written_as_objects() {
    let t = TypeInfo { c_type: Some("GList*".to_owned()), params: vec![TypeInfo { is_const: true, ..ty("utf8") }], ..ty("GLib.List") };
    let expected = obj(vec![
        ("name", s("GLib.List")),
        ("const", s("false")),
        ("contained", s("false")),
        ("c_type", s("GList*")),
        ("params", JsonValue::Array(vec![s("utf8")])),
    ]);
    assert_eq!(t.to_json(), expected);

    let plain = ty("gint");
    let expected = obj(vec![
        ("name", s("gint")),
        ("const", s("false")),
        ("contained", s("false")),
        ("c_type", JsonValue::Null),
        ("params", JsonValue::Array(vec![])),
    ]);
    assert_eq!(plain.to_json(), expected);
}

#[test]
fn type_round_trip() {
    let t = TypeInfo {
        c_type: Some("GHashTable*".to_owned()),
        is_contained: true,
        params: vec![ty("utf8"), TypeInfo { is_const: true, c_type: Some("gint".to_owned()), ..ty("gint") }],
        ..ty("GLib.HashTable")
    };
    let back = TypeInfo::from_json(&t.to_json()).unwrap();
    assert_eq!(back, t);
}

#[test]
fn bare_const_name_reads_back_non_const() {
    let t = TypeInfo { is_const: true, ..ty("x") };
    let back = TypeInfo::from_json(&t.to_json()).unwrap();
    assert_eq!(back, ty("x"));
}

// ----------------------------------------------------------------------
// Parameters
// ----------------------------------------------------------------------

#[test]
fn instance_parameter() {
    let r = Parameter::classify_json(entries(vec![("instance", s("true"))])).unwrap();
    assert_eq!(r, ParameterJson::Instance);
}

#[test]
fn instance_with_more_entries_is_refused() {
    let r = Parameter::classify_json(entries(vec![("instance", s("true")), ("name", s("x"))]));
    assert_eq!(r.unwrap_err(), "Parameter object with \"instance\" true has additional parameters");
}

#[test]
fn instance_false_is_regular() {
    let r = Parameter::classify_json(entries(vec![("name", s("x")), ("instance", s("false")), ("type", s("gint"))]))
        .unwrap();
    assert_eq!(r, ParameterJson::Regular(entries(vec![("name", s("x")), ("type", s("gint"))])));
}

#[test]
fn no_instance_entry_is_regular() {
    let r = Parameter::classify_json(entries(vec![("name", s("x")), ("type", s("gint"))])).unwrap();
    assert_eq!(r, ParameterJson::Regular(entries(vec![("name", s("x")), ("type", s("gint"))])));
}

#[test]
fn invalid_instance_values() {
    let r = Parameter::classify_json(entries(vec![("instance", s("maybe"))]));
    assert_eq!(r.unwrap_err(), "Parameter object has invalid \"instance\" value \"maybe\"");
    let r = Parameter::classify_json(entries(vec![("instance", s("say \"hi\""))]));
    assert_eq!(r.unwrap_err(), "Parameter object has invalid \"instance\" value \"say \\\"hi\\\"\"");
    let r = Parameter::classify_json(entries(vec![("instance", JsonValue::Bool(true))]));
    assert_eq!(r.unwrap_err(), "Parameter object \"instance\" entry not a string");
}

#[test]
fn parameter_writing() {
    assert_eq!(Parameter::Instance.to_json(), obj(vec![("instance", s("true"))]));
    let p = Parameter::Regular(RegularParameter { name: "count".to_owned(), type_info: TypeInfo { is_const: true, ..ty("gint") } });
    assert_eq!(p.to_json(), obj(vec![("name", s("count")), ("type", s("gint"))]));
}

#[test]
fn instance_parameter_round_trip() {
    match Parameter::Instance.to_json() {
        JsonValue::Object(e) => assert_eq!(Parameter::classify_json(e).unwrap(), ParameterJson::Instance),
        other => panic!("not an object: {:?}", other),
    }
}

#[test]
fn regular_parameter_round_trip() {
    let p = Parameter::Regular(RegularParameter { name: "count".to_owned(), type_info: ty("gint") });
    match p.to_json() {
        JsonValue::Object(e) => {
            let written = e.clone_entries();
            assert_eq!(Parameter::classify_json(e).unwrap(), ParameterJson::Regular(written));
        },
        other => panic!("not an object: {:?}", other),
    }
}

trait CloneEntries {
    fn clone_entries(&self) -> Self;
}

impl CloneEntries for Vec<(String, JsonValue)> {
    fn clone_entries(&self) -> Self {
        self.iter().map(|(k, v)| (k.clone(), clone_value(v))).collect()
    }
}

fn clone_value(v: &JsonValue) -> JsonValue {
    match v {
        JsonValue::Null => JsonValue::Null,
        JsonValue::Bool(b) => JsonValue::Bool(*b),
        JsonValue::Number(n) => JsonValue::Number(n.clone()),
        JsonValue::String(t) => JsonValue::String(t.clone()),
        JsonValue::Array(items) => JsonValue::Array(items.iter().map(clone_value).collect()),
        JsonValue::Object(e) => JsonValue::Object(e.clone_entries()),
    }
}
