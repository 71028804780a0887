use nix_hapi_provider_ldap::field_value::{FieldValue, ResolvedFieldValue};
use nix_hapi_provider_ldap::ignore::{compile_ignore_patterns, is_ignored, IgnorePattern};
use nix_hapi_provider_ldap::json::JsonValue;
use nix_hapi_provider_ldap::operations::{
    add_outcome, bind_error_detail, delete_succeeded, is_no_such_object, replace_all, AddOutcome,
};
use nix_hapi_provider_ldap::runbook::LdapChange;
use nix_hapi_provider_ldap::sort::{sort_entries, sort_keyed, sort_strings};
use nix_hapi_provider_ldap::strmap::StrMap;
use nix_hapi_provider_ldap::text::{
    comma_count, join, same_string_sets, str_eq_ignore_ascii_case, str_le, trim,
};

fn strings(xs: &[&str]) -> Vec<String> {
    xs.iter().map(|x| x.to_string()).collect()
}

#[test]
fn ignore_patterns_match_anywhere_in_the_dn() {
    let ps = compile_ignore_patterns(&strings(&["uid=alice,.*", "^cn=admin"])).ok().unwrap();
    assert!(is_ignored("uid=alice,ou=users,dc=x", &ps));
    assert!(is_ignored("x-uid=alice,y", &ps));
    assert!(is_ignored("cn=admins,ou=groups", &ps));
    assert!(!is_ignored("uid=bob,ou=users,dc=x", &ps));
    assert!(!is_ignored("uid=alice,ou=users", &[]));
}

#[test]
fn ignore_pattern_compile_reports_errors() {
    assert!(IgnorePattern::compile("a+b").is_ok());
    let p = IgnorePattern::compile("a+b").ok().unwrap();
    assert!(is_ignored("xaaab", &[p]));
    let p = IgnorePattern::compile("a+b").ok().unwrap();
    assert!(!is_ignored("b", &[p]));
    let err = match IgnorePattern::compile("[z-a]") {
        Err(m) => m,
        Ok(_) => panic!("expected an error"),
    };
    assert!(!err.is_empty());
    match compile_ignore_patterns(&strings(&["ok", "(", "["])) {
        Err(e) => assert!(e.message().starts_with("Invalid ignore pattern \"(\": ")),
        Ok(_) => panic!("expected an error"),
    }
}

#[test]
fn add_outcomes_follow_result_codes() {
    assert_eq!(add_outcome(0), AddOutcome::Added);
    assert_eq!(add_outcome(68), AddOutcome::ReplaceExisting);
    assert_eq!(add_outcome(32), AddOutcome::Failed);
    assert!(delete_succeeded(0));
    assert!(delete_succeeded(32));
    assert!(!delete_succeeded(50));
    assert!(is_no_such_object(32));
    assert!(!is_no_such_object(0));
}

#[test]
fn bind_error_details() {
    assert_eq!(bind_error_detail(Some(49)), " (invalid credentials)");
    assert_eq!(bind_error_detail(Some(32)), " (bind DN not found)");
    assert_eq!(bind_error_detail(Some(1)), "");
    assert_eq!(bind_error_detail(None), "");
}

#[test]
fn replace_all_replaces_each_attribute() {
    let mut attrs = StrMap::new();
    attrs.insert("cn".to_string(), strings(&["A"]));
    attrs.insert("objectClass".to_string(), strings(&["top", "person"]));
    let changes = replace_all(&attrs);
    assert_eq!(changes.len(), 2);
    match &changes[1] {
        LdapChange::Replace { attr, values } => {
            assert_eq!(attr, "objectClass");
            assert_eq!(values, &strings(&["top", "person"]));
        }
        _ => panic!("expected Replace"),
    }
}

#[test]
fn text_helpers() {
    assert_eq!(comma_count("uid=a,ou=users,dc=x"), 2);
    assert_eq!(comma_count(""), 0);
    assert_eq!(join(&strings(&["a", "b", "c"]), "; "), "a; b; c");
    assert_eq!(join(&strings(&[]), "; "), "");
    assert!(same_string_sets(&strings(&["a", "b", "a"]), &strings(&["b", "a"])));
    assert!(!same_string_sets(&strings(&["a"]), &strings(&["a", "c"])));
    assert_eq!(trim("  x y \t"), "x y");
    assert_eq!(trim("   "), "");
    assert!(str_eq_ignore_ascii_case("ObjectClass", "objectclass"));
    assert!(!str_eq_ignore_ascii_case("cn", "sn"));
    assert!(str_le("ab", "abc"));
    assert!(str_le("a", "b"));
    assert!(!str_le("b", "a"));
}

#[test]
fn sorts_are_stable() {
    let v = sort_keyed(vec![(2, 10u8), (1, 11u8), (2, 12u8), (0, 13u8)], false);
    assert_eq!(v, vec![(0, 13u8), (1, 11u8), (2, 10u8), (2, 12u8)]);
    let v = sort_keyed(vec![(2, 10u8), (1, 11u8), (2, 12u8), (3, 13u8)], true);
    assert_eq!(v, vec![(3, 13u8), (2, 10u8), (2, 12u8), (1, 11u8)]);
    assert_eq!(sort_strings(strings(&["b", "a", "c"])), strings(&["a", "b", "c"]));
    let e = sort_entries(vec![("b".to_string(), 1u8), ("a".to_string(), 2u8), ("b".to_string(), 0u8)]);
    assert_eq!(e, vec![("a".to_string(), 2u8), ("b".to_string(), 1u8), ("b".to_string(), 0u8)]);
}

#[test]
fn field_values_resolve() {
    let m = FieldValue::Managed { value: JsonValue::String("x".to_string()) };
    assert!(matches!(m.resolve(), ResolvedFieldValue::Managed(JsonValue::String(s)) if s == "x"));
    let i = FieldValue::Initial { value: JsonValue::Bool(true) };
    assert!(matches!(i.resolve(), ResolvedFieldValue::Initial(JsonValue::Bool(true))));
    assert!(matches!(FieldValue::Unmanaged.resolve(), ResolvedFieldValue::Unmanaged));
    let r = ResolvedFieldValue::Managed(JsonValue::String("v".to_string()));
    assert_eq!(r.as_str(), Some("v"));
    assert!(!r.is_unmanaged());
    assert!(ResolvedFieldValue::Unmanaged.is_unmanaged());
    assert!(ResolvedFieldValue::Unmanaged.value().is_none());
    assert_eq!(ResolvedFieldValue::Initial(JsonValue::Null).as_str(), None);
}
