//! The desired state of the directory, as declared.

use vstd::prelude::*;
use crate::field_value::{FieldValue, FieldValueView};
use crate::strmap::StrMap;

verus! {

/// A desired user entry. Attributes other than the named ones are given in
/// `extra_fields`.
pub struct UserEntry {
    pub cn: FieldValue,
    pub sn: FieldValue,
    pub mail: FieldValue,
    pub user_password: FieldValue,
    pub login_shell: Option<FieldValue>,
    pub description: Option<FieldValue>,
    pub extra_fields: StrMap<FieldValue>,
}

/// A desired group entry. `members` are user names (uid values); the
/// provider builds the member DNs from them and the base DN.
pub struct GroupEntry {
    pub description: Option<FieldValue>,
    pub members: Vec<String>,
}

/// The desired state: users keyed by uid, groups keyed by cn.
pub struct LdapDesiredState {
    pub users: StrMap<UserEntry>,
    pub groups: StrMap<GroupEntry>,
}

/// The view of an optional field value.
pub open spec fn opt_field_view(o: Option<FieldValue>) -> Option<FieldValueView> {
    match o {
        Some(f) => Some(f@),
        None => None,
    }
}

/// The view of a [`UserEntry`].
pub struct UserView {
    pub cn: FieldValueView,
    pub sn: FieldValueView,
    pub mail: FieldValueView,
    pub user_password: FieldValueView,
    pub login_shell: Option<FieldValueView>,
    pub description: Option<FieldValueView>,
    pub extra_fields: Seq<(Seq<char>, FieldValueView)>,
}

/// The view of a [`GroupEntry`].
pub struct GroupView {
    pub description: Option<FieldValueView>,
    pub members: Seq<Seq<char>>,
}

/// The view of an [`LdapDesiredState`].
pub struct DesiredView {
    pub users: Seq<(Seq<char>, UserView)>,
    pub groups: Seq<(Seq<char>, GroupView)>,
}

impl View for UserEntry {
    type V = UserView;

    open spec fn view(&self) -> UserView {
        UserView {
            cn: self.cn@,
            sn: self.sn@,
            mail: self.mail@,
            user_password: self.user_password@,
            login_shell: opt_field_view(self.login_shell),
            description: opt_field_view(self.description),
            extra_fields: self.extra_fields@,
        }
    }
}

impl DeepView for UserEntry {
    type V = UserView;

    open spec fn deep_view(&self) -> UserView {
        self@
    }
}

impl View for GroupEntry {
    type V = GroupView;

    open spec fn view(&self) -> GroupView {
        GroupView { description: opt_field_view(self.description), members: self.members.deep_view() }
    }
}

impl DeepView for GroupEntry {
    type V = GroupView;

    open spec fn deep_view(&self) -> GroupView {
        self@
    }
}

impl View for LdapDesiredState {
    type V = DesiredView;

    open spec fn view(&self) -> DesiredView {
        DesiredView { users: self.users@, groups: self.groups@ }
    }
}

impl LdapDesiredState {
    /// A desired state with no users and no groups.
    pub fn new() -> (r: Self)
        ensures
            r@.users.len() == 0,
            r@.groups.len() == 0,
    {
        LdapDesiredState { users: StrMap::new(), groups: StrMap::new() }
    }
}

impl Default for LdapDesiredState {
    fn default() -> (r: Self)
        ensures
            r@.users.len() == 0,
            r@.groups.len() == 0,
    {
        LdapDesiredState::new()
    }
}

} // verus!
