//! The LDAP provider: plans the changes that bring the directory to the
//! desired state, and records what was applied.

use vstd::prelude::*;
use crate::config::{ConfigView, ResolvedConfig, ResolvedLdapConfig, spec_from_resolved_config};
use crate::desired_state::{DesiredView, LdapDesiredState};
use crate::error::{ProviderError, ProviderErrorView};
use crate::ignore::{compile_ignore_patterns, first_bad_pattern, regex_compile_error, spec_pattern_error};
use crate::live_state::{LdapLiveState, LiveView};
use crate::plan::ResourceChangeView;
use crate::reconcile::{diff, spec_diff};
use crate::runbook::{LdapOperation, RunbookStep, RunbookStepView, spec_runbook, to_runbook_steps};
use crate::text::{
    char_pos, eq_ignore_ascii_case, find_char, spec_trim, str_eq, str_eq_ignore_ascii_case, trim,
};
use crate::plan::ResourceChange;

verus! {

/// The settings that the engine gives every provider instance: the ignore
/// patterns (regular expressions over resource identifiers).
pub struct NixHapiMeta {
    pub ignore: Vec<String>,
}

/// A plan: the changes it shows and the runbook that makes them.
pub struct ProviderPlan {
    pub instance_name: String,
    pub provider_type: String,
    pub changes: Vec<ResourceChange>,
    pub runbook: Vec<RunbookStep>,
}

/// The view of a [`ProviderPlan`].
pub struct ProviderPlanView {
    pub instance_name: Seq<char>,
    pub provider_type: Seq<char>,
    pub changes: Seq<ResourceChangeView>,
    pub runbook: Seq<RunbookStepView>,
}

impl View for ProviderPlan {
    type V = ProviderPlanView;

    open spec fn view(&self) -> ProviderPlanView {
        ProviderPlanView {
            instance_name: self.instance_name@,
            provider_type: self.provider_type@,
            changes: self.changes.deep_view(),
            runbook: self.runbook.deep_view(),
        }
    }
}

/// What an apply did: the DNs created, modified and deleted, in order.
pub struct ApplyReport {
    pub created: Vec<String>,
    pub modified: Vec<String>,
    pub deleted: Vec<String>,
}

/// The view of an [`ApplyReport`].
pub struct ApplyReportView {
    pub created: Seq<Seq<char>>,
    pub modified: Seq<Seq<char>>,
    pub deleted: Seq<Seq<char>>,
}

impl View for ApplyReport {
    type V = ApplyReportView;

    open spec fn view(&self) -> ApplyReportView {
        ApplyReportView {
            created: self.created.deep_view(),
            modified: self.modified.deep_view(),
            deleted: self.deleted.deep_view(),
        }
    }
}

/// The report after the operation `op` has been applied.
pub open spec fn spec_record(r: ApplyReportView, op: crate::runbook::LdapOperationView) -> ApplyReportView {
    match op {
        crate::runbook::LdapOperationView::Add(dn, _) => ApplyReportView { created: r.created.push(dn), ..r },
        crate::runbook::LdapOperationView::Modify(dn, _) => ApplyReportView {
            modified: r.modified.push(dn),
            ..r
        },
        crate::runbook::LdapOperationView::Delete(dn) => ApplyReportView { deleted: r.deleted.push(dn), ..r },
    }
}

impl ApplyReport {
    /// An empty report.
    pub fn new() -> (r: Self)
        ensures
            r@.created.len() == 0,
            r@.modified.len() == 0,
            r@.deleted.len() == 0,
    {
        ApplyReport { created: Vec::new(), modified: Vec::new(), deleted: Vec::new() }
    }

    /// Records that `op` has been applied.
    pub fn record(&mut self, op: &LdapOperation)
        ensures
            final(self)@ == spec_record(old(self)@, op@),
    {
        let ghost r0 = self@;
        match op {
            LdapOperation::Add { dn, .. } => {
                self.created.push(dn.clone());
                assert(self@.created =~= r0.created.push(dn@));
            },
            LdapOperation::Modify { dn, .. } => {
                self.modified.push(dn.clone());
                assert(self@.modified =~= r0.modified.push(dn@));
            },
            LdapOperation::Delete { dn } => {
                self.deleted.push(dn.clone());
                assert(self@.deleted =~= r0.deleted.push(dn@));
            },
        }
    }
}

impl Default for ApplyReport {
    fn default() -> (r: Self)
        ensures
            r@.created.len() == 0,
            r@.modified.len() == 0,
            r@.deleted.len() == 0,
    {
        ApplyReport::new()
    }
}

/// The plan of `desired` against `live`: the settings are read from the
/// configuration and the ignore patterns compiled (either may fail), then
/// the diff is computed and turned into a runbook.
pub open spec fn spec_plan(
    desired: DesiredView,
    live: LiveView,
    ignore: Seq<Seq<char>>,
    config: ConfigView,
) -> Result<ProviderPlanView, ProviderErrorView> {
    match spec_from_resolved_config(config) {
        Err(e) => Err(e),
        Ok(c) => match first_bad_pattern(ignore) {
            Some(i) => Err(spec_pattern_error(ignore[i], regex_compile_error(ignore[i])->0)),
            None => {
                let d = spec_diff(desired, live, c.base_dn, ignore);
                Ok(
                    ProviderPlanView {
                        instance_name: Seq::empty(),
                        provider_type: "ldap"@,
                        changes: d.resource_changes,
                        runbook: spec_runbook(d, c),
                    },
                )
            },
        },
    }
}

/// The view of the result of planning.
pub open spec fn plan_result_view(r: Result<ProviderPlan, ProviderError>) -> Result<
    ProviderPlanView,
    ProviderErrorView,
> {
    match r {
        Ok(p) => Ok(p@),
        Err(e) => Err(e@),
    }
}

/// The LDAP provider.
pub struct LdapProvider;

impl LdapProvider {
    /// The type name of the provider.
    pub fn provider_type(&self) -> (r: &'static str)
        ensures
            r@ == "ldap"@,
    {
        "ldap"
    }

    /// The configuration fields whose values must not be shown.
    pub fn sensitive_config_fields(&self) -> (r: Vec<&'static str>)
        ensures
            r@.len() == 1,
            r@[0]@ == "bindPassword"@,
    {
        let mut v: Vec<&'static str> = Vec::new();
        v.push("bindPassword");
        v
    }

    /// Plans the changes that bring `live` to `desired`. The instance name
    /// is left empty for the caller to fill in.
    pub fn plan(
        &self,
        desired: &LdapDesiredState,
        live: &LdapLiveState,
        meta: &NixHapiMeta,
        config: &ResolvedConfig,
    ) -> (r: Result<ProviderPlan, ProviderError>)
        ensures
            plan_result_view(r) == spec_plan(desired@, live@, meta.ignore.deep_view(), config@),
    {
        let ldap_config = match ResolvedLdapConfig::from_resolved_config(config) {
            Ok(c) => c,
            Err(e) => return Err(e),
        };
        let ignore = match compile_ignore_patterns(&meta.ignore) {
            Ok(p) => p,
            Err(e) => return Err(e),
        };
        let ldap_diff = diff(desired, live, ldap_config.base_dn.as_str(), ignore.as_slice());
        let runbook = to_runbook_steps(&ldap_diff, &ldap_config);
        Ok(
            ProviderPlan {
                instance_name: String::new(),
                provider_type: String::from_str(self.provider_type()),
                changes: ldap_diff.resource_changes,
                runbook,
            },
        )
    }
}

/// The value of the attribute `attr` in the first component of `dn`, such
/// as `alice` for `uid` in `uid=alice,ou=users,dc=example,dc=org`: the
/// component is split at its first `=`, the name is compared without
/// regard to ASCII case, and both sides are trimmed.
pub open spec fn spec_rdn_value(dn: Seq<char>, attr: Seq<char>) -> Option<Seq<char>> {
    let rdn = dn.take(char_pos(dn, ','));
    let e = char_pos(rdn, '=');
    if e == rdn.len() {
        None
    } else if eq_ignore_ascii_case(spec_trim(rdn.take(e)), attr) {
        Some(spec_trim(rdn.skip(e + 1)))
    } else {
        None
    }
}

/// The view of an optional string.
pub open spec fn opt_string_view(o: Option<String>) -> Option<Seq<char>> {
    match o {
        Some(s) => Some(s@),
        None => None,
    }
}

/// Extracts the value of a named component from the first component of a
/// DN.
pub fn rdn_value(dn: &str, attr: &str) -> (r: Option<String>)
    ensures
        opt_string_view(r) == spec_rdn_value(dn@, attr@),
{
    let c = find_char(dn, ',');
    proof {
        crate::text::lemma_char_pos(dn@, ',');
    }
    let rdn = dn.substring_char(0, c);
    assert(rdn@ == dn@.take(c as int));
    let e = find_char(rdn, '=');
    proof {
        crate::text::lemma_char_pos(rdn@, '=');
    }
    let n = rdn.unicode_len();
    if e == n {
        return None;
    }
    let key = trim(rdn.substring_char(0, e));
    assert(rdn@.subrange(0, e as int) == rdn@.take(e as int));
    if str_eq_ignore_ascii_case(key.as_str(), attr) {
        assert(rdn@.subrange(e + 1, n as int) == rdn@.skip(e + 1));
        Some(trim(rdn.substring_char(e + 1, n)))
    } else {
        None
    }
}

/// The key under which a live entry found below the unit `ou_dn` is kept:
/// none for the unit itself, else the value of `attr` in its first DN
/// component.
pub open spec fn spec_live_entry_key(dn: Seq<char>, ou_dn: Seq<char>, attr: Seq<char>) -> Option<Seq<char>> {
    if dn == ou_dn {
        None
    } else {
        spec_rdn_value(dn, attr)
    }
}

/// The key under which a live entry found below the unit `ou_dn` is kept.
pub fn live_entry_key(dn: &str, ou_dn: &str, attr: &str) -> (r: Option<String>)
    ensures
        opt_string_view(r) == spec_live_entry_key(dn@, ou_dn@, attr@),
{
    if str_eq(dn, ou_dn) {
        None
    } else {
        rdn_value(dn, attr)
    }
}

} // verus!
