use nix_hapi_provider_ldap::attrs::{AttrMap, AttrModOp};
use nix_hapi_provider_ldap::desired_state::{GroupEntry, LdapDesiredState, UserEntry};
use nix_hapi_provider_ldap::field_value::FieldValue;
use nix_hapi_provider_ldap::ignore::compile_ignore_patterns;
use nix_hapi_provider_ldap::json::JsonValue;
use nix_hapi_provider_ldap::live_state::LdapLiveState;
use nix_hapi_provider_ldap::plan::ResourceChange;
use nix_hapi_provider_ldap::provider::live_entry_key;
use nix_hapi_provider_ldap::reconcile::{diff, group_dn, ou_groups_dn, ou_users_dn, user_dn};
use nix_hapi_provider_ldap::strmap::StrMap;

fn managed(s: &str) -> FieldValue {
    FieldValue::Managed { value: JsonValue::String(s.to_string()) }
}

fn initial(s: &str) -> FieldValue {
    FieldValue::Initial { value: JsonValue::String(s.to_string()) }
}

fn empty_live() -> LdapLiveState {
    LdapLiveState::default()
}

fn make_user(cn: FieldValue, mail: FieldValue, pw: FieldValue) -> UserEntry {
    UserEntry {
        cn,
        sn: FieldValue::Managed { value: JsonValue::String("Test".to_string()) },
        mail,
        user_password: pw,
        login_shell: None,
        description: None,
        extra_fields: StrMap::new(),
    }
}

fn derived_cn() -> FieldValue {
    let mut inputs: StrMap<String> = StrMap::new();
    inputs.insert("uid".to_string(), r#".["hr"]["users"]["alice"]["id"]"#.to_string());
    FieldValue::DerivedFrom { inputs, expression: "mkManaged(.uid)".to_string() }
}

fn entry(attrs: &[(&str, &[&str])]) -> AttrMap {
    let mut m: AttrMap = StrMap::new();
    for (k, vs) in attrs {
        m.insert(k.to_string(), vs.iter().map(|v| v.to_string()).collect());
    }
    m
}

#[test]
fn derived_from_field_appears_in_plan_diff_with_input_paths() {
    let user = make_user(derived_cn(), managed("alice@example.com"), managed("secret"));
    let mut desired = LdapDesiredState::default();
    desired.users.insert("alice".to_string(), user);

    let result = diff(&desired, &empty_live(), "dc=example,dc=com", &[]);

    assert_eq!(result.resource_changes.len(), 1);
    let change = &result.resource_changes[0];
    if let ResourceChange::Add { fields, .. } = change {
        let cn_diff = fields.iter().find(|f| f.field == "cn").unwrap();
        assert!(
            cn_diff.to.as_deref().unwrap_or("").contains("<derived from"),
            "expected derived-from display in 'to', got {:?}",
            cn_diff.to
        );
        assert!(
            cn_diff.to.as_deref().unwrap_or("").contains(r#".["hr"]["users"]["alice"]["id"]"#),
            "expected input path in display, got {:?}",
            cn_diff.to
        );
    } else {
        panic!("expected Add change");
    }
}

#[test]
fn derived_from_field_always_shown_as_change_when_live_exists() {
    let user = make_user(derived_cn(), managed("alice@example.com"), managed("secret"));
    let mut desired = LdapDesiredState::default();
    desired.users.insert("alice".to_string(), user);

    let mut live = empty_live();
    live.users.insert(
        "alice".to_string(),
        entry(&[
            ("cn", &["Alice Smith"]),
            ("mail", &["alice@example.com"]),
            ("userPassword", &["secret"]),
        ]),
    );

    let result = diff(&desired, &live, "dc=example,dc=com", &[]);

    assert_eq!(result.resource_changes.len(), 1);
    if let ResourceChange::Modify { field_changes, .. } = &result.resource_changes[0] {
        let cn_change = field_changes.iter().find(|f| f.field == "cn").unwrap();
        assert!(
            cn_change.to.as_deref().unwrap_or("").contains("<derived from"),
            "expected derived-from display, got {:?}",
            cn_change.to
        );
    } else {
        panic!("expected Modify change");
    }
}

#[test]
fn dn_helpers_build_the_expected_names() {
    assert_eq!(user_dn("alice", "dc=example,dc=com"), "uid=alice,ou=users,dc=example,dc=com");
    assert_eq!(group_dn("admins", "dc=example,dc=com"), "cn=admins,ou=groups,dc=example,dc=com");
    assert_eq!(ou_users_dn("dc=example,dc=com"), "ou=users,dc=example,dc=com");
    assert_eq!(ou_groups_dn("dc=example,dc=com"), "ou=groups,dc=example,dc=com");
}

#[test]
fn new_user_is_added_with_object_classes_and_uid() {
    let mut desired = LdapDesiredState::default();
    desired.users.insert(
        "alice".to_string(),
        make_user(managed("Alice Smith"), managed("alice@example.org"), initial("secret")),
    );
    let result = diff(&desired, &empty_live(), "dc=example,dc=org", &[]);
    assert_eq!(result.to_add.len(), 1);
    let (dn, attrs) = &result.to_add[0];
    assert_eq!(dn, "uid=alice,ou=users,dc=example,dc=org");
    let keys: Vec<String> = (0..attrs.len()).map(|i| attrs.key_at(i).clone()).collect();
    assert_eq!(keys, vec!["cn", "sn", "mail", "userPassword", "objectClass", "uid"]);
    assert_eq!(
        attrs.get("objectClass").unwrap(),
        &vec!["inetOrgPerson", "organizationalPerson", "person", "top"]
    );
    assert_eq!(attrs.get("uid").unwrap(), &vec!["alice"]);
    assert!(result.to_modify.is_empty());
    assert!(result.to_delete.is_empty());
    match &result.resource_changes[0] {
        ResourceChange::Add { resource_id, fields } => {
            assert_eq!(resource_id, "uid=alice,ou=users,dc=example,dc=org");
            assert_eq!(fields.len(), 6);
            assert_eq!(fields[0].field, "cn");
            assert_eq!(fields[0].from, None);
            assert_eq!(fields[0].to.as_deref(), Some("Alice Smith"));
            assert_eq!(fields[4].to.as_deref(), Some("inetOrgPerson; organizationalPerson; person; top"));
        }
        _ => panic!("expected Add"),
    }
}

#[test]
fn managed_change_shows_from_and_to() {
    let mut desired = LdapDesiredState::default();
    desired.users.insert(
        "alice".to_string(),
        make_user(managed("Alice Updated"), managed("alice@example.org"), initial("secret")),
    );
    let mut live = empty_live();
    live.users.insert(
        "alice".to_string(),
        entry(&[
            ("cn", &["Alice Smith"]),
            ("sn", &["Test"]),
            ("mail", &["alice@example.org"]),
            ("userPassword", &["{SSHA}hash"]),
        ]),
    );
    let result = diff(&desired, &live, "dc=example,dc=org", &[]);
    assert_eq!(result.resource_changes.len(), 1);
    match &result.resource_changes[0] {
        ResourceChange::Modify { resource_id, field_changes } => {
            assert_eq!(resource_id, "uid=alice,ou=users,dc=example,dc=org");
            assert_eq!(field_changes.len(), 1);
            assert_eq!(field_changes[0].field, "cn");
            assert_eq!(field_changes[0].from.as_deref(), Some("Alice Smith"));
            assert_eq!(field_changes[0].to.as_deref(), Some("Alice Updated"));
        }
        _ => panic!("expected Modify"),
    }
    assert_eq!(result.to_modify.len(), 1);
    assert_eq!(result.to_modify[0].1.len(), 1);
    assert_eq!(result.to_modify[0].1[0].op, AttrModOp::Replace);
    assert!(result.to_add.is_empty());
}

#[test]
fn absent_users_and_groups_are_deleted_deepest_first() {
    let desired = LdapDesiredState::default();
    let mut live = empty_live();
    live.users.insert("bob".to_string(), entry(&[("cn", &["Bob"])]));
    live.groups.insert("staff".to_string(), entry(&[("cn", &["staff"])]));
    let result = diff(&desired, &live, "dc=a,dc=b,dc=c", &[]);
    assert_eq!(
        result.to_delete,
        vec!["uid=bob,ou=users,dc=a,dc=b,dc=c", "cn=staff,ou=groups,dc=a,dc=b,dc=c"]
    );
    assert_eq!(result.resource_changes.len(), 2);
    assert!(matches!(&result.resource_changes[0],
        ResourceChange::Delete { resource_id } if resource_id == "uid=bob,ou=users,dc=a,dc=b,dc=c"));
}

#[test]
fn ignored_dn_is_not_deleted() {
    let desired = LdapDesiredState::default();
    let mut live = empty_live();
    live.users.insert("alice".to_string(), entry(&[("cn", &["Alice"])]));
    live.users.insert("bob".to_string(), entry(&[("cn", &["Bob"])]));
    let patterns = compile_ignore_patterns(&vec!["uid=alice,.*".to_string()]).ok().unwrap();
    let result = diff(&desired, &live, "dc=example,dc=org", &patterns);
    assert_eq!(result.to_delete, vec!["uid=bob,ou=users,dc=example,dc=org"]);
}

#[test]
fn group_members_become_user_dns() {
    let mut desired = LdapDesiredState::default();
    desired.groups.insert(
        "admins".to_string(),
        GroupEntry { description: Some(managed("Admins")), members: vec!["alice".to_string()] },
    );
    desired.groups.insert("empty".to_string(), GroupEntry { description: None, members: vec![] });
    let result = diff(&desired, &empty_live(), "dc=x", &[]);
    assert_eq!(result.to_add.len(), 2);
    let (dn, attrs) = &result.to_add[0];
    assert_eq!(dn, "cn=admins,ou=groups,dc=x");
    assert_eq!(attrs.get("objectClass").unwrap(), &vec!["groupOfNames", "top"]);
    assert_eq!(attrs.get("cn").unwrap(), &vec!["admins"]);
    assert_eq!(attrs.get("description").unwrap(), &vec!["Admins"]);
    assert_eq!(attrs.get("member").unwrap(), &vec!["uid=alice,ou=users,dc=x"]);
    let (_, attrs2) = &result.to_add[1];
    assert_eq!(attrs2.get("member").unwrap(), &vec!["uid=placeholder,ou=users,dc=x"]);
    assert!(!attrs2.contains_key("description"));
}

#[test]
fn group_membership_change_is_a_replace() {
    let mut desired = LdapDesiredState::default();
    desired.groups.insert(
        "admins".to_string(),
        GroupEntry { description: None, members: vec!["alice".to_string(), "bob".to_string()] },
    );
    let mut live = empty_live();
    live.groups.insert(
        "admins".to_string(),
        entry(&[
            ("objectClass", &["top", "groupOfNames"]),
            ("cn", &["admins"]),
            ("member", &["uid=alice,ou=users,dc=x"]),
        ]),
    );
    let result = diff(&desired, &live, "dc=x", &[]);
    assert_eq!(result.to_modify.len(), 1);
    let mods = &result.to_modify[0].1;
    assert_eq!(mods.len(), 1);
    assert_eq!(mods[0].attr, "member");
    assert_eq!(mods[0].op, AttrModOp::Replace);
    assert_eq!(mods[0].values, vec!["uid=alice,ou=users,dc=x", "uid=bob,ou=users,dc=x"]);
}

#[test]
fn extra_fields_override_named_ones() {
    let mut user = make_user(managed("Alice"), managed("a@x"), initial("pw"));
    user.extra_fields.insert("cn".to_string(), managed("Override"));
    user.extra_fields.insert("uidNumber".to_string(), FieldValue::Managed {
        value: JsonValue::Number("1001".to_string()),
    });
    user.login_shell = Some(managed("/bin/bash"));
    user.description = Some(FieldValue::Unmanaged);
    let mut desired = LdapDesiredState::default();
    desired.users.insert("alice".to_string(), user);
    let result = diff(&desired, &empty_live(), "dc=x", &[]);
    let (_, attrs) = &result.to_add[0];
    assert_eq!(attrs.get("cn").unwrap(), &vec!["Override"]);
    assert_eq!(attrs.get("uidNumber").unwrap(), &vec!["1001"]);
    assert_eq!(attrs.get("loginShell").unwrap(), &vec!["/bin/bash"]);
    assert!(!attrs.contains_key("description"));
}

#[test]
fn nested_entries_are_added_parents_first() {
    let mut desired = LdapDesiredState::default();
    desired.users.insert("alice".to_string(), make_user(managed("A"), managed("a@x"), initial("p")));
    desired.groups.insert("g".to_string(), GroupEntry { description: None, members: vec![] });
    let result = diff(&desired, &empty_live(), "dc=x", &[]);
    let dns: Vec<&String> = result.to_add.iter().map(|(dn, _)| dn).collect();
    assert_eq!(dns, vec!["uid=alice,ou=users,dc=x", "cn=g,ou=groups,dc=x"]);
}

#[test]
fn user_and_group_dns_give_back_their_keys() {
    let base = "dc=example,dc=org";
    assert_eq!(
        live_entry_key(&user_dn("alice", base), &ou_users_dn(base), "uid"),
        Some("alice".to_string())
    );
    assert_eq!(
        live_entry_key(&group_dn("admins", base), &ou_groups_dn(base), "cn"),
        Some("admins".to_string())
    );
}
