use nix_hapi_provider_ldap::config::ResolvedConfig;
use nix_hapi_provider_ldap::desired_state::{LdapDesiredState, UserEntry};
use nix_hapi_provider_ldap::field_value::{FieldValue, ResolvedFieldValue};
use nix_hapi_provider_ldap::json::JsonValue;
use nix_hapi_provider_ldap::live_state::LdapLiveState;
use nix_hapi_provider_ldap::plan::ResourceChange;
use nix_hapi_provider_ldap::provider::{
    live_entry_key, rdn_value, ApplyReport, LdapProvider, NixHapiMeta, ProviderPlan,
};
use nix_hapi_provider_ldap::runbook::{LdapChange, LdapOperation};
use nix_hapi_provider_ldap::strmap::StrMap;

const BASE_DN: &str = "dc=example,dc=org";
const BIND_PASSWORD: &str = "s3cr3t-pw";

fn make_config() -> ResolvedConfig {
    let mut cfg: ResolvedConfig = StrMap::new();
    let m = |s: &str| ResolvedFieldValue::Managed(JsonValue::String(s.to_string()));
    cfg.insert("url".to_string(), m("ldap://127.0.0.1:3389"));
    cfg.insert("baseDn".to_string(), m(BASE_DN));
    cfg.insert("bindDn".to_string(), m("cn=admin,dc=example,dc=org"));
    cfg.insert("bindPassword".to_string(), m(BIND_PASSWORD));
    cfg
}

fn managed(value: &str) -> FieldValue {
    FieldValue::Managed { value: JsonValue::String(value.to_string()) }
}

fn initial(value: &str) -> FieldValue {
    FieldValue::Initial { value: JsonValue::String(value.to_string()) }
}

fn alice(cn: &str, password_field: FieldValue) -> UserEntry {
    UserEntry {
        cn: managed(cn),
        sn: managed("Smith"),
        mail: managed("alice@example.org"),
        user_password: password_field,
        login_shell: None,
        description: None,
        extra_fields: StrMap::new(),
    }
}

fn desired_with(users: Vec<(&str, UserEntry)>) -> LdapDesiredState {
    let mut d = LdapDesiredState::default();
    for (k, u) in users {
        d.users.insert(k.to_string(), u);
    }
    d
}

fn no_meta() -> NixHapiMeta {
    NixHapiMeta { ignore: vec![] }
}

fn plan(desired: &LdapDesiredState, live: &LdapLiveState, meta: &NixHapiMeta) -> ProviderPlan {
    match LdapProvider.plan(desired, live, meta, &make_config()) {
        Ok(p) => p,
        Err(e) => panic!("plan: {}", e.message()),
    }
}

/// The live state after the plan's operations have been carried out on
/// `live`: what an LDAP server would hold and list afterwards.
fn applied(plan: &ProviderPlan, live: &LdapLiveState) -> LdapLiveState {
    applied_steps(plan, live, false)
}

/// As `applied`, but with only the additions carried out when `only_adds`.
fn applied_steps(plan: &ProviderPlan, live: &LdapLiveState, only_adds: bool) -> LdapLiveState {
    let mut users = live.users.copy_entries();
    let mut report = ApplyReport::default();
    for step in &plan.runbook {
        if only_adds && !matches!(step.operation, LdapOperation::Add { .. }) {
            continue;
        }
        report.record(&step.operation);
        match &step.operation {
            LdapOperation::Add { dn, attrs } => {
                let key = live_entry_key(dn, &format!("ou=users,{}", BASE_DN), "uid").unwrap();
                users.retain(|(k, _)| k != &key);
                let copied: Vec<(String, Vec<String>)> =
                    (0..attrs.len()).map(|i| (attrs.key_at(i).clone(), attrs.value_at(i).clone())).collect();
                users.push((key, copied));
            }
            LdapOperation::Modify { dn, changes } => {
                let key = rdn_value(dn, "uid").unwrap();
                for (k, entry) in users.iter_mut() {
                    if *k == key {
                        for c in changes {
                            let (attr, values) = match c {
                                LdapChange::Add { attr, values } => (attr, values),
                                LdapChange::Replace { attr, values } => (attr, values),
                            };
                            entry.retain(|(a, _)| a != attr);
                            entry.push((attr.clone(), values.clone()));
                        }
                    }
                }
            }
            LdapOperation::Delete { dn } => {
                let key = rdn_value(dn, "uid").unwrap();
                users.retain(|(k, _)| k != &key);
            }
        }
    }
    let mut out = LdapLiveState::default();
    for (k, attrs) in users {
        let mut m = StrMap::new();
        for (a, vs) in attrs {
            m.insert(a, vs);
        }
        out.users.insert(k, m);
    }
    out
}

trait CopyEntries {
    fn copy_entries(&self) -> Vec<(String, Vec<(String, Vec<String>)>)>;
}

impl CopyEntries for StrMap<StrMap<Vec<String>>> {
    fn copy_entries(&self) -> Vec<(String, Vec<(String, Vec<String>)>)> {
        (0..self.len())
            .map(|i| {
                let e = self.value_at(i);
                let attrs = (0..e.len()).map(|j| (e.key_at(j).clone(), e.value_at(j).clone())).collect();
                (self.key_at(i).clone(), attrs)
            })
            .collect()
    }
}

fn has_change(changes: &[ResourceChange], kind: &str, dn: &str) -> bool {
    changes.iter().any(|c| match c {
        ResourceChange::Add { resource_id, .. } => kind == "add" && resource_id == dn,
        ResourceChange::Modify { resource_id, .. } => kind == "modify" && resource_id == dn,
        ResourceChange::Delete { resource_id } => kind == "delete" && resource_id == dn,
    })
}

fn alice_dn() -> String {
    format!("uid=alice,ou=users,{}", BASE_DN)
}

#[test]
fn plan_produces_add_for_new_user() {
    let live = LdapLiveState::default();
    let desired_state = desired_with(vec![("alice", alice("Alice Smith", initial("secret")))]);
    let plan = plan(&desired_state, &live, &no_meta());
    assert!(has_change(&plan.changes, "add", &alice_dn()), "Expected Add change for alice");
}

#[test]
fn apply_creates_user() {
    let live = LdapLiveState::default();
    let desired_state = desired_with(vec![("alice", alice("Alice Smith", initial("secret")))]);
    let mut plan = plan(&desired_state, &live, &no_meta());
    plan.instance_name = "test".to_string();
    let live_after = applied(&plan, &live);
    let entry = live_after.users.get("alice");
    assert!(entry.is_some(), "Expected alice in live state after apply");
    assert_eq!(
        entry.unwrap().get("cn"),
        Some(&vec!["Alice Smith".to_string()]),
        "cn should match desired value"
    );
}

#[test]
fn apply_is_idempotent() {
    let desired_state = desired_with(vec![("alice", alice("Alice Smith", initial("secret")))]);
    let live1 = LdapLiveState::default();
    let mut plan1 = plan(&desired_state, &live1, &no_meta());
    plan1.instance_name = "test".to_string();
    let live2 = applied(&plan1, &live1);
    let plan2 = plan(&desired_state, &live2, &no_meta());
    assert!(plan2.changes.is_empty(), "Expected no changes on second plan");
    assert!(plan2.runbook.is_empty());
}

#[test]
fn managed_field_is_enforced_on_change() {
    let live1 = LdapLiveState::default();
    let desired1 = desired_with(vec![("alice", alice("Alice Smith", initial("secret")))]);
    let mut plan1 = plan(&desired1, &live1, &no_meta());
    plan1.instance_name = "test".to_string();
    let live2 = applied(&plan1, &live1);
    let desired2 = desired_with(vec![("alice", alice("Alice Updated", initial("secret")))]);
    let plan2 = plan(&desired2, &live2, &no_meta());
    assert!(
        has_change(&plan2.changes, "modify", &alice_dn()),
        "Expected Modify for alice after cn change"
    );
}

#[test]
fn initial_field_not_updated_when_present() {
    let live1 = LdapLiveState::default();
    let desired1 = desired_with(vec![("alice", alice("Alice Smith", initial("first")))]);
    let mut plan1 = plan(&desired1, &live1, &no_meta());
    plan1.instance_name = "test".to_string();
    let live2 = applied(&plan1, &live1);
    let desired2 = desired_with(vec![("alice", alice("Alice Smith", initial("second")))]);
    let plan2 = plan(&desired2, &live2, &no_meta());
    assert!(plan2.changes.is_empty(), "Initial field must not be modified when already present");
}

#[test]
fn user_absent_from_desired_is_deleted() {
    let live1 = LdapLiveState::default();
    let with_alice = desired_with(vec![("alice", alice("Alice Smith", managed("secret")))]);
    let mut plan1 = plan(&with_alice, &live1, &no_meta());
    plan1.instance_name = "test".to_string();
    let live2 = applied(&plan1, &live1);
    let plan2 = plan(&desired_with(vec![]), &live2, &no_meta());
    assert!(has_change(&plan2.changes, "delete", &alice_dn()), "Expected Delete change for alice");
    let live3 = applied(&plan2, &live2);
    assert_eq!(live3.users.len(), 0);
}

#[test]
fn ignore_pattern_prevents_deletion() {
    let live1 = LdapLiveState::default();
    let with_alice = desired_with(vec![("alice", alice("Alice Smith", managed("secret")))]);
    let mut plan1 = plan(&with_alice, &live1, &no_meta());
    plan1.instance_name = "test".to_string();
    let live2 = applied(&plan1, &live1);
    let meta = NixHapiMeta { ignore: vec!["uid=alice,.*".to_string()] };
    let plan2 = plan(&desired_with(vec![]), &live2, &meta);
    assert!(
        plan2.changes.is_empty(),
        "Expected no changes; alice should be protected by ignore pattern"
    );
}

#[test]
fn runbook_scrubs_bind_password() {
    let live = LdapLiveState::default();
    let desired_state = desired_with(vec![("alice", alice("Alice Smith", managed("secret")))]);
    let plan = plan(&desired_state, &live, &no_meta());
    assert!(!plan.runbook.is_empty(), "Expected at least one runbook step");
    for step in &plan.runbook {
        let raw_password_arg = format!("-w {}", BIND_PASSWORD);
        assert!(
            !step.command.contains(&raw_password_arg),
            "Bind password must not appear as -w argument: {}",
            step.command
        );
        assert!(
            step.command.contains("-w ***"),
            "Runbook command must show -w *** in place of password: {}",
            step.command
        );
    }
}

#[test]
fn runbook_steps_have_commands_and_ldif() {
    let mut live = LdapLiveState::default();
    let mut bob = StrMap::new();
    bob.insert("cn".to_string(), vec!["Bob".to_string()]);
    live.users.insert("bob".to_string(), bob);
    let desired_state = desired_with(vec![("alice", alice("Alice Smith", managed("secret")))]);
    let plan = plan(&desired_state, &live, &no_meta());
    assert_eq!(plan.provider_type, "ldap");
    assert_eq!(plan.instance_name, "");
    assert_eq!(plan.runbook.len(), 2);
    let add = &plan.runbook[0];
    assert_eq!(add.description, format!("add {}", alice_dn()));
    assert_eq!(
        add.command,
        "ldapadd -H \"ldap://127.0.0.1:3389\" -D \"cn=admin,dc=example,dc=org\" -w ***"
    );
    assert_eq!(
        add.body.as_deref(),
        Some(
            "dn: uid=alice,ou=users,dc=example,dc=org\nchangetype: add\ncn: Alice Smith\nmail: alice@example.org\nobjectClass: inetOrgPerson\nobjectClass: organizationalPerson\nobjectClass: person\nobjectClass: top\nsn: Smith\nuid: alice\nuserPassword: secret"
        )
    );
    let del = &plan.runbook[1];
    assert_eq!(del.description, "delete uid=bob,ou=users,dc=example,dc=org");
    assert_eq!(
        del.command,
        "ldapdelete -H \"ldap://127.0.0.1:3389\" -D \"cn=admin,dc=example,dc=org\" -w *** \"uid=bob,ou=users,dc=example,dc=org\""
    );
    assert!(del.body.is_none());
}

#[test]
fn modify_step_has_ldif_changes() {
    let mut live = LdapLiveState::default();
    let mut a = StrMap::new();
    a.insert("cn".to_string(), vec!["Old".to_string()]);
    a.insert("sn".to_string(), vec!["Smith".to_string()]);
    a.insert("userPassword".to_string(), vec!["x".to_string()]);
    live.users.insert("alice".to_string(), a);
    let desired_state = desired_with(vec![("alice", alice("New", initial("secret")))]);
    let plan = plan(&desired_state, &live, &no_meta());
    assert_eq!(plan.runbook.len(), 1);
    assert_eq!(plan.runbook[0].description, format!("modify {}", alice_dn()));
    assert_eq!(
        plan.runbook[0].body.as_deref(),
        Some("dn: uid=alice,ou=users,dc=example,dc=org\nchangetype: modify\nreplace: cn\ncn: New\n-\nadd: mail\nmail: alice@example.org")
    );
    assert!(plan.runbook[0].command.starts_with("ldapmodify "));
}

#[test]
fn bad_ignore_pattern_fails_the_plan() {
    let meta = NixHapiMeta { ignore: vec!["(".to_string()] };
    match LdapProvider.plan(&desired_with(vec![]), &LdapLiveState::default(), &meta, &make_config()) {
        Err(e) => assert!(e.message().starts_with("Invalid ignore pattern \"(\": ")),
        Ok(_) => panic!("expected an error"),
    }
}

#[test]
fn bad_config_fails_the_plan() {
    let mut cfg = make_config();
    cfg.insert("url".to_string(), ResolvedFieldValue::Unmanaged);
    match LdapProvider.plan(&desired_with(vec![]), &LdapLiveState::default(), &no_meta(), &cfg) {
        Err(e) => assert_eq!(e.message(), "Config field must not be unmanaged: url"),
        Ok(_) => panic!("expected an error"),
    }
}

#[test]
fn provider_names_and_sensitive_fields() {
    assert_eq!(LdapProvider.provider_type(), "ldap");
    assert_eq!(LdapProvider.sensitive_config_fields(), vec!["bindPassword"]);
}

#[test]
fn rdn_values_are_read_from_the_first_component() {
    assert_eq!(rdn_value("uid=alice,ou=users,dc=x", "uid"), Some("alice".to_string()));
    assert_eq!(rdn_value(" UID = alice ,ou=users", "uid"), Some("alice".to_string()));
    assert_eq!(rdn_value("cn=admins,ou=groups", "uid"), None);
    assert_eq!(rdn_value("noequals,ou=x", "uid"), None);
    assert_eq!(rdn_value("uid=a=b", "uid"), Some("a=b".to_string()));
    assert_eq!(live_entry_key("ou=users,dc=x", "ou=users,dc=x", "uid"), None);
    assert_eq!(live_entry_key("uid=bob,ou=users,dc=x", "ou=users,dc=x", "uid"), Some("bob".to_string()));
}

#[test]
fn apply_report_records_by_kind() {
    let mut r = ApplyReport::new();
    r.record(&LdapOperation::Add { dn: "a".to_string(), attrs: StrMap::new() });
    r.record(&LdapOperation::Modify { dn: "m".to_string(), changes: vec![] });
    r.record(&LdapOperation::Delete { dn: "d".to_string() });
    r.record(&LdapOperation::Delete { dn: "e".to_string() });
    assert_eq!(r.created, vec!["a"]);
    assert_eq!(r.modified, vec!["m"]);
    assert_eq!(r.deleted, vec!["d", "e"]);
}

#[test]
fn replan_after_modify_is_empty() {
    let mut live1 = LdapLiveState::default();
    let mut a = StrMap::new();
    a.insert("cn".to_string(), vec!["Old".to_string()]);
    a.insert("sn".to_string(), vec!["Jones".to_string(), "Smith".to_string()]);
    a.insert("userPassword".to_string(), vec!["hash".to_string()]);
    a.insert("description".to_string(), vec!["kept".to_string()]);
    live1.users.insert("alice".to_string(), a);
    let desired_state = desired_with(vec![("alice", alice("Alice Smith", initial("secret")))]);
    let plan1 = plan(&desired_state, &live1, &no_meta());
    assert_eq!(plan1.changes.len(), 1);
    let live2 = applied(&plan1, &live1);
    let plan2 = plan(&desired_state, &live2, &no_meta());
    assert!(plan2.changes.is_empty());
    assert_eq!(
        live2.users.get("alice").unwrap().get("description"),
        Some(&vec!["kept".to_string()])
    );
}

#[test]
fn replan_after_adds_leaves_only_deletions() {
    let mut live1 = LdapLiveState::default();
    let mut bob = StrMap::new();
    bob.insert("cn".to_string(), vec!["Bob".to_string()]);
    live1.users.insert("bob".to_string(), bob);
    let desired_state = desired_with(vec![("alice", alice("Alice Smith", initial("secret")))]);
    let plan1 = plan(&desired_state, &live1, &no_meta());
    assert_eq!(plan1.changes.len(), 2);
    let live2 = applied_steps(&plan1, &live1, true);
    let plan2 = plan(&desired_state, &live2, &no_meta());
    assert_eq!(plan2.changes.len(), 1);
    assert!(has_change(&plan2.changes, "delete", &format!("uid=bob,ou=users,{}", BASE_DN)));
}
