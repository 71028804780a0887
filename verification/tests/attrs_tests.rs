use nix_hapi_provider_ldap::attrs::{
    diff_attrs, diff_multi_attrs, format_derived_display, resolved_to_attr_map,
    value_to_attr_values, AttrMap, AttrModOp,
};
use nix_hapi_provider_ldap::field_value::ResolvedFieldValue;
use nix_hapi_provider_ldap::json::JsonValue;
use nix_hapi_provider_ldap::strmap::StrMap;

fn s(x: &str) -> JsonValue {
    JsonValue::String(x.to_string())
}

fn strings(xs: &[&str]) -> Vec<String> {
    xs.iter().map(|x| x.to_string()).collect()
}

fn attr_map(entries: &[(&str, &[&str])]) -> AttrMap {
    let mut m: AttrMap = StrMap::new();
    for (k, vs) in entries {
        m.insert(k.to_string(), strings(vs));
    }
    m
}

#[test]
fn value_to_attr_values_strings_become_singleton_vec() {
    assert_eq!(value_to_attr_values("cn", &s("Alice")), vec!["Alice".to_string()],);
}

#[test]
fn value_to_attr_values_arrays_become_multi_value() {
    assert_eq!(
        value_to_attr_values(
            "objectClass",
            &JsonValue::Array(vec![s("top"), s("person"), s("inetOrgPerson")]),
        ),
        vec!["top".to_string(), "person".to_string(), "inetOrgPerson".to_string(),],
    );
}

#[test]
fn value_to_attr_values_arrays_stringify_scalars() {
    assert_eq!(
        value_to_attr_values(
            "uidNumber",
            &JsonValue::Array(vec![JsonValue::Number("1001".to_string()), JsonValue::Bool(true)]),
        ),
        vec!["1001".to_string(), "true".to_string()],
    );
}

#[test]
fn value_to_attr_values_arrays_skip_non_scalar_elements() {
    assert_eq!(
        value_to_attr_values(
            "objectClass",
            &JsonValue::Array(vec![
                s("a"),
                JsonValue::Object(vec![("nested".to_string(), s("object"))]),
                s("b"),
            ]),
        ),
        vec!["a".to_string(), "b".to_string()],
    );
}

#[test]
fn value_to_attr_values_empty_array_yields_empty_vec() {
    assert!(value_to_attr_values("memberOf", &JsonValue::Array(vec![])).is_empty(),);
}

#[test]
fn value_to_attr_values_null_yields_empty_vec() {
    assert!(value_to_attr_values("description", &JsonValue::Null).is_empty(),);
}

#[test]
fn value_to_attr_values_object_skipped_with_warning() {
    assert!(value_to_attr_values(
        "weird",
        &JsonValue::Object(vec![("foo".to_string(), s("bar"))]),
    )
    .is_empty());
}

#[test]
fn scalar_number_and_bool_become_their_text() {
    assert_eq!(value_to_attr_values("uidNumber", &JsonValue::Number("42".to_string())), strings(&["42"]));
    assert_eq!(value_to_attr_values("flag", &JsonValue::Bool(false)), strings(&["false"]));
    assert_eq!(
        value_to_attr_values("x", &JsonValue::Array(vec![JsonValue::Null, JsonValue::Array(vec![])])),
        Vec::<String>::new()
    );
}

#[test]
fn derived_display_sorts_inputs() {
    let mut inputs: StrMap<String> = StrMap::new();
    inputs.insert("z".to_string(), ".b".to_string());
    inputs.insert("a".to_string(), ".a".to_string());
    assert_eq!(format_derived_display(&inputs), "<derived from a=.a, z=.b>");
    let empty: StrMap<String> = StrMap::new();
    assert_eq!(format_derived_display(&empty), "<derived from >");
}

#[test]
fn diff_attrs_covers_each_kind_of_field() {
    let mut derived_inputs: StrMap<String> = StrMap::new();
    derived_inputs.insert("uid".to_string(), ".id".to_string());
    let mut resolved: StrMap<ResolvedFieldValue> = StrMap::new();
    resolved.insert("cn".to_string(), ResolvedFieldValue::Managed(s("New")));
    resolved.insert("mail".to_string(), ResolvedFieldValue::Managed(s("a@x")));
    resolved.insert("sn".to_string(), ResolvedFieldValue::Managed(s("Smith")));
    resolved.insert("userPassword".to_string(), ResolvedFieldValue::Initial(s("pw")));
    resolved.insert("loginShell".to_string(), ResolvedFieldValue::Initial(s("/bin/sh")));
    resolved.insert("description".to_string(), ResolvedFieldValue::Unmanaged);
    resolved.insert("displayName".to_string(), ResolvedFieldValue::DerivedFrom { inputs: derived_inputs });
    let live = attr_map(&[
        ("cn", &["Old"]),
        ("sn", &["Smith"]),
        ("userPassword", &["old"]),
        ("description", &["kept"]),
    ]);
    let mods = diff_attrs(&resolved, &live);
    let got: Vec<(String, AttrModOp, Vec<String>)> =
        mods.into_iter().map(|m| (m.attr, m.op, m.values)).collect();
    assert_eq!(
        got,
        vec![
            ("cn".to_string(), AttrModOp::Replace, strings(&["New"])),
            ("mail".to_string(), AttrModOp::Add, strings(&["a@x"])),
            ("loginShell".to_string(), AttrModOp::Add, strings(&["/bin/sh"])),
            ("displayName".to_string(), AttrModOp::Add, strings(&["<derived from uid=.id>"])),
        ]
    );
}

#[test]
fn managed_values_compare_as_sets() {
    let mut resolved: StrMap<ResolvedFieldValue> = StrMap::new();
    resolved.insert(
        "objectClass".to_string(),
        ResolvedFieldValue::Managed(JsonValue::Array(vec![s("top"), s("person"), s("top")])),
    );
    let live = attr_map(&[("objectClass", &["person", "top"])]);
    assert!(diff_attrs(&resolved, &live).is_empty());
}

#[test]
fn initial_with_no_values_adds_nothing() {
    let mut resolved: StrMap<ResolvedFieldValue> = StrMap::new();
    resolved.insert("description".to_string(), ResolvedFieldValue::Initial(JsonValue::Null));
    let live: AttrMap = StrMap::new();
    assert!(diff_attrs(&resolved, &live).is_empty());
}

#[test]
fn multi_attrs_replace_differing_sets() {
    let desired = attr_map(&[("member", &["a", "b"]), ("cn", &["g"]), ("description", &["d"])]);
    let live = attr_map(&[("member", &["a"]), ("cn", &["g"])]);
    let got: Vec<(String, AttrModOp, Vec<String>)> = diff_multi_attrs(&desired, &live)
        .into_iter()
        .map(|m| (m.attr, m.op, m.values))
        .collect();
    assert_eq!(
        got,
        vec![
            ("member".to_string(), AttrModOp::Replace, strings(&["a", "b"])),
            ("description".to_string(), AttrModOp::Add, strings(&["d"])),
        ]
    );
}

#[test]
fn resolved_to_attr_map_drops_unmanaged_and_empty() {
    let mut inputs: StrMap<String> = StrMap::new();
    inputs.insert("k".to_string(), ".p".to_string());
    let mut resolved: StrMap<ResolvedFieldValue> = StrMap::new();
    resolved.insert("cn".to_string(), ResolvedFieldValue::Managed(s("Alice")));
    resolved.insert("description".to_string(), ResolvedFieldValue::Unmanaged);
    resolved.insert("seeAlso".to_string(), ResolvedFieldValue::Initial(JsonValue::Array(vec![])));
    resolved.insert("displayName".to_string(), ResolvedFieldValue::DerivedFrom { inputs });
    let m = resolved_to_attr_map(&resolved);
    assert_eq!(m.len(), 2);
    assert_eq!(m.get("cn"), Some(&strings(&["Alice"])));
    assert_eq!(m.get("displayName"), Some(&strings(&["<derived from k=.p>"])));
    assert!(!m.contains_key("description"));
    assert!(!m.contains_key("seeAlso"));
}
