use nix_hapi_provider_ldap::config::{ResolvedConfig, ResolvedLdapConfig};
use nix_hapi_provider_ldap::error::ProviderError;
use nix_hapi_provider_ldap::field_value::ResolvedFieldValue;
use nix_hapi_provider_ldap::json::JsonValue;
use nix_hapi_provider_ldap::strmap::StrMap;

fn managed(s: &str) -> ResolvedFieldValue {
    ResolvedFieldValue::Managed(JsonValue::String(s.to_string()))
}

fn base_config(url: ResolvedFieldValue) -> ResolvedConfig {
    let mut config: ResolvedConfig = StrMap::new();
    config.insert("url".to_string(), url);
    config.insert("baseDn".to_string(), managed("dc=test,dc=local"));
    config.insert("bindDn".to_string(), managed("cn=admin,dc=test,dc=local"));
    config.insert("bindPassword".to_string(), managed("secret"));
    config
}

#[test]
fn invalid_url_scheme_returns_error() {
    let config = base_config(managed("garbage"));
    let result = ResolvedLdapConfig::from_resolved_config(&config);
    assert!(result.is_err(), "Expected error for invalid URL scheme");
    let msg = match result {
        Err(e) => e.message(),
        Ok(_) => unreachable!(),
    };
    assert!(msg.contains("Invalid LDAP URL"), "Error should mention invalid URL: {}", msg,);
}

#[test]
fn derived_from_config_field_returns_error_not_panic() {
    let mut inputs: StrMap<String> = StrMap::new();
    inputs.insert("x".to_string(), ".some.path".to_string());
    let config = base_config(ResolvedFieldValue::DerivedFrom { inputs });
    let result = ResolvedLdapConfig::from_resolved_config(&config);
    assert!(result.is_err(), "Expected error for DerivedFrom config field");
    let msg = match result {
        Err(e) => e.message(),
        Ok(_) => unreachable!(),
    };
    assert!(msg.contains("DerivedFrom"), "Error should mention DerivedFrom: {}", msg);
}

#[test]
fn valid_config_is_read_field_by_field() {
    let config = base_config(managed("ldap://localhost:389"));
    let c = match ResolvedLdapConfig::from_resolved_config(&config) {
        Ok(c) => c,
        Err(e) => panic!("unexpected error: {}", e.message()),
    };
    assert_eq!(c.url, "ldap://localhost:389");
    assert_eq!(c.base_dn, "dc=test,dc=local");
    assert_eq!(c.bind_dn, "cn=admin,dc=test,dc=local");
    assert_eq!(c.bind_password, "secret");
}

#[test]
fn ldaps_and_ldapi_urls_are_accepted() {
    for url in ["ldaps://example.org", "ldapi:///var/run/slapd.sock"] {
        let config = base_config(managed(url));
        assert!(ResolvedLdapConfig::from_resolved_config(&config).is_ok(), "{}", url);
    }
}

#[test]
fn invalid_url_message_quotes_the_url() {
    let config = base_config(managed("http://x"));
    match ResolvedLdapConfig::from_resolved_config(&config) {
        Err(e) => assert_eq!(
            e.message(),
            "Invalid LDAP URL \"http://x\": must start with ldap://, ldaps://, or ldapi://"
        ),
        Ok(_) => panic!("expected an error"),
    }
}

#[test]
fn missing_field_gives_missing_config() {
    let mut config: ResolvedConfig = StrMap::new();
    config.insert("url".to_string(), managed("ldap://localhost"));
    config.insert("baseDn".to_string(), managed("dc=test,dc=local"));
    config.insert("bindPassword".to_string(), managed("secret"));
    match ResolvedLdapConfig::from_resolved_config(&config) {
        Err(ProviderError::MissingConfig { field }) => assert_eq!(field, "bindDn"),
        _ => panic!("expected MissingConfig"),
    }
}

#[test]
fn unmanaged_field_gives_unmanaged_config() {
    let mut config = base_config(managed("ldap://localhost"));
    config.insert("baseDn".to_string(), ResolvedFieldValue::Unmanaged);
    match ResolvedLdapConfig::from_resolved_config(&config) {
        Err(e) => {
            assert_eq!(e.message(), "Config field must not be unmanaged: baseDn");
            assert!(matches!(e, ProviderError::UnmanagedConfig { .. }));
        }
        Ok(_) => panic!("expected UnmanagedConfig"),
    }
}

#[test]
fn non_string_field_is_refused() {
    let mut config = base_config(managed("ldap://localhost"));
    config.insert(
        "bindPassword".to_string(),
        ResolvedFieldValue::Initial(JsonValue::Number("42".to_string())),
    );
    match ResolvedLdapConfig::from_resolved_config(&config) {
        Err(e) => assert_eq!(
            e.message(),
            "Config field \"bindPassword\" must be a string-valued Managed/Initial; non-string and DerivedFrom values are not supported here"
        ),
        Ok(_) => panic!("expected an error"),
    }
}

#[test]
fn initial_string_fields_are_accepted() {
    let mut config = base_config(managed("ldap://localhost"));
    config.insert(
        "bindPassword".to_string(),
        ResolvedFieldValue::Initial(JsonValue::String("pw".to_string())),
    );
    let c = ResolvedLdapConfig::from_resolved_config(&config).ok().unwrap();
    assert_eq!(c.bind_password, "pw");
}

#[test]
fn error_messages_name_their_kind() {
    assert_eq!(
        ProviderError::MissingConfig { field: "url".to_string() }.message(),
        "Missing required config field: url"
    );
    assert_eq!(ProviderError::OperationFailed("boom".to_string()).message(), "boom");
    assert_eq!(
        ProviderError::ConnectionFailed("refused".to_string()).message(),
        "Connection failed: refused"
    );
    assert_eq!(
        ProviderError::DesiredStateParse("bad".to_string()).message(),
        "Failed to parse desired state: bad"
    );
    assert_eq!(
        ProviderError::LiveStateParse("bad".to_string()).message(),
        "Failed to parse live state: bad"
    );
}
