//! The live state of the directory, shaped like the desired state so that
//! the two can be compared directly.

use vstd::prelude::*;
use crate::attrs::AttrMapView;
use crate::strmap::StrMap;

verus! {

/// The attributes of one live entry: each name with its values.
pub type LiveEntry = StrMap<Vec<String>>;

/// The live directory: users keyed by uid value, groups keyed by cn value
/// (not by full DN).
pub struct LdapLiveState {
    pub users: StrMap<LiveEntry>,
    pub groups: StrMap<LiveEntry>,
}

/// The view of an [`LdapLiveState`].
pub struct LiveView {
    pub users: Seq<(Seq<char>, AttrMapView)>,
    pub groups: Seq<(Seq<char>, AttrMapView)>,
}

impl View for LdapLiveState {
    type V = LiveView;

    open spec fn view(&self) -> LiveView {
        LiveView { users: self.users@, groups: self.groups@ }
    }
}

impl LdapLiveState {
    /// A live state with no users and no groups.
    pub fn new() -> (r: Self)
        ensures
            r@.users.len() == 0,
            r@.groups.len() == 0,
    {
        LdapLiveState { users: StrMap::new(), groups: StrMap::new() }
    }
}

impl Default for LdapLiveState {
    fn default() -> (r: Self)
        ensures
            r@.users.len() == 0,
            r@.groups.len() == 0,
    {
        LdapLiveState::new()
    }
}

} // verus!
