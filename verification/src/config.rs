//! The connection settings of the provider, read from its resolved
//! configuration.

use vstd::prelude::*;
use crate::error::{ProviderError, ProviderErrorView};
use crate::field_value::{ResolvedFieldValue, ResolvedView, spec_as_str};
use crate::ignore::{debug_str, str_debug};
use crate::strmap::{StrMap, lookup};
use crate::text::{has_prefix, starts_with};

verus! {

/// The resolved configuration of a provider instance: field name to value.
pub type ResolvedConfig = StrMap<ResolvedFieldValue>;

/// The view of a [`ResolvedConfig`].
pub type ConfigView = Seq<(Seq<char>, ResolvedView)>;

/// The LDAP connection settings.
pub struct ResolvedLdapConfig {
    pub url: String,
    pub base_dn: String,
    pub bind_dn: String,
    pub bind_password: String,
}

/// The view of a [`ResolvedLdapConfig`].
pub struct LdapConfigView {
    pub url: Seq<char>,
    pub base_dn: Seq<char>,
    pub bind_dn: Seq<char>,
    pub bind_password: Seq<char>,
}

impl View for ResolvedLdapConfig {
    type V = LdapConfigView;

    open spec fn view(&self) -> LdapConfigView {
        LdapConfigView {
            url: self.url@,
            base_dn: self.base_dn@,
            bind_dn: self.bind_dn@,
            bind_password: self.bind_password@,
        }
    }
}

/// The value of a required string field: missing, unmanaged, and
/// non-string (or derived) values are errors.
pub open spec fn spec_require_string(config: ConfigView, field: Seq<char>) -> Result<Seq<char>, ProviderErrorView> {
    match lookup(config, field) {
        None => Err(ProviderErrorView::MissingConfig(field)),
        Some(r) => if r is Unmanaged {
            Err(ProviderErrorView::UnmanagedConfig(field))
        } else {
            match spec_as_str(r) {
                Some(s) => Ok(s),
                None => Err(
                    ProviderErrorView::OperationFailed(
                        "Config field "@ + str_debug(field)
                            + " must be a string-valued Managed/Initial; non-string and DerivedFrom values are not supported here"@,
                    ),
                ),
            }
        },
    }
}

/// An LDAP URL names one of the schemes `ldap`, `ldaps` or `ldapi`.
pub open spec fn valid_ldap_url(url: Seq<char>) -> bool {
    has_prefix(url, "ldap://"@) || has_prefix(url, "ldaps://"@) || has_prefix(url, "ldapi://"@)
}

/// The settings read from `config`: `url` (which must name an LDAP
/// scheme), `baseDn`, `bindDn` and `bindPassword`, in this order; the
/// first error stops the reading.
pub open spec fn spec_from_resolved_config(config: ConfigView) -> Result<LdapConfigView, ProviderErrorView> {
    match spec_require_string(config, "url"@) {
        Err(e) => Err(e),
        Ok(url) => if !valid_ldap_url(url) {
            Err(
                ProviderErrorView::OperationFailed(
                    "Invalid LDAP URL "@ + str_debug(url)
                        + ": must start with ldap://, ldaps://, or ldapi://"@,
                ),
            )
        } else {
            match spec_require_string(config, "baseDn"@) {
                Err(e) => Err(e),
                Ok(base_dn) => match spec_require_string(config, "bindDn"@) {
                    Err(e) => Err(e),
                    Ok(bind_dn) => match spec_require_string(config, "bindPassword"@) {
                        Err(e) => Err(e),
                        Ok(bind_password) => Ok(
                            LdapConfigView { url, base_dn, bind_dn, bind_password },
                        ),
                    },
                },
            }
        },
    }
}

/// The view of a result of reading the settings.
pub open spec fn config_result_view(r: Result<ResolvedLdapConfig, ProviderError>) -> Result<
    LdapConfigView,
    ProviderErrorView,
> {
    match r {
        Ok(c) => Ok(c@),
        Err(e) => Err(e@),
    }
}

/// The view of a result of reading one string field.
pub open spec fn string_result_view(r: Result<String, ProviderError>) -> Result<Seq<char>, ProviderErrorView> {
    match r {
        Ok(s) => Ok(s@),
        Err(e) => Err(e@),
    }
}

impl ResolvedLdapConfig {
    /// Reads the LDAP settings from a resolved configuration.
    pub fn from_resolved_config(config: &ResolvedConfig) -> (r: Result<Self, ProviderError>)
        ensures
            config_result_view(r) == spec_from_resolved_config(config@),
    {
        let url = match require_string(config, "url") {
            Ok(u) => u,
            Err(e) => return Err(e),
        };
        if !starts_with(url.as_str(), "ldap://") && !starts_with(url.as_str(), "ldaps://")
            && !starts_with(url.as_str(), "ldapi://") {
            let mut msg = String::from_str("Invalid LDAP URL ");
            msg.append(debug_str(url.as_str()).as_str());
            msg.append(": must start with ldap://, ldaps://, or ldapi://");
            return Err(ProviderError::OperationFailed(msg));
        }
        let base_dn = match require_string(config, "baseDn") {
            Ok(s) => s,
            Err(e) => return Err(e),
        };
        let bind_dn = match require_string(config, "bindDn") {
            Ok(s) => s,
            Err(e) => return Err(e),
        };
        let bind_password = match require_string(config, "bindPassword") {
            Ok(s) => s,
            Err(e) => return Err(e),
        };
        Ok(ResolvedLdapConfig { url, base_dn, bind_dn, bind_password })
    }
}

/// Reads a required string field of `config`.
fn require_string(config: &ResolvedConfig, field: &str) -> (r: Result<String, ProviderError>)
    ensures
        string_result_view(r) == spec_require_string(config@, field@),
{
    match config.get(field) {
        None => Err(ProviderError::MissingConfig { field: String::from_str(field) }),
        Some(rfv) => {
            if rfv.is_unmanaged() {
                Err(ProviderError::UnmanagedConfig { field: String::from_str(field) })
            } else {
                match rfv.as_str() {
                    Some(s) => Ok(String::from_str(s)),
                    None => {
                        let mut msg = String::from_str("Config field ");
                        msg.append(debug_str(field).as_str());
                        msg.append(
                            " must be a string-valued Managed/Initial; non-string and DerivedFrom values are not supported here",
                        );
                        Err(ProviderError::OperationFailed(msg))
                    },
                }
            }
        },
    }
}

} // verus!
