//! The decisions that the LDAP operations take on the result codes that
//! the server answers with.

use vstd::prelude::*;
use crate::attrs::{AttrMap, AttrMapView};
use crate::runbook::{LdapChange, LdapChangeView};
use crate::text::clone_strings;

verus! {

/// The result code of success.
pub const RC_SUCCESS: u32 = 0;

/// The result code "no such object".
pub const RC_NO_SUCH_OBJECT: u32 = 32;

/// The result code "invalid credentials".
pub const RC_INVALID_CREDENTIALS: u32 = 49;

/// The result code "entry already exists".
pub const RC_ALREADY_EXISTS: u32 = 68;

/// What an add does after the server answered.
#[derive(PartialEq, Eq, Debug, Structural)]
pub enum AddOutcome {
    /// The entry was added.
    Added,
    /// The entry exists already: replace each of its attributes instead, so
    /// that it ends up with the desired values rather than stale ones.
    ReplaceExisting,
    /// The add failed.
    Failed,
}

/// Decides what an add does on the result code `rc`.
pub fn add_outcome(rc: u32) -> (r: AddOutcome)
    ensures
        rc == RC_SUCCESS ==> r == AddOutcome::Added,
        rc == RC_ALREADY_EXISTS ==> r == AddOutcome::ReplaceExisting,
        rc != RC_SUCCESS && rc != RC_ALREADY_EXISTS ==> r == AddOutcome::Failed,
{
    if rc == RC_SUCCESS {
        AddOutcome::Added
    } else if rc == RC_ALREADY_EXISTS {
        AddOutcome::ReplaceExisting
    } else {
        AddOutcome::Failed
    }
}

/// The changes that stand in for an add whose entry exists already: each
/// attribute replaced by its desired values.
pub open spec fn spec_replace_all(attrs: AttrMapView) -> Seq<LdapChangeView> {
    attrs.map_values(|e: (Seq<char>, Seq<Seq<char>>)| LdapChangeView::Replace(e.0, e.1))
}

/// Builds the changes that stand in for an add whose entry exists already.
pub fn replace_all(attrs: &AttrMap) -> (r: Vec<LdapChange>)
    ensures
        r.deep_view() == spec_replace_all(attrs@),
{
    let ghost target = spec_replace_all(attrs@);
    let mut out: Vec<LdapChange> = Vec::new();
    let mut i: usize = 0;
    while i < attrs.len()
        invariant
            i <= attrs@.len(),
            target == spec_replace_all(attrs@),
            out.deep_view() =~= target.take(i as int),
        decreases attrs@.len() - i,
    {
        let c = LdapChange::Replace {
            attr: attrs.key_at(i).clone(),
            values: clone_strings(attrs.value_at(i)),
        };
        let ghost before = out.deep_view();
        out.push(c);
        assert(out.deep_view() =~= before.push(target[i as int]));
        i = i + 1;
    }
    out
}

/// Whether a delete answered with `rc` succeeded: an entry that does not
/// exist counts as deleted.
pub fn delete_succeeded(rc: u32) -> (r: bool)
    ensures
        r == (rc == RC_SUCCESS || rc == RC_NO_SUCH_OBJECT),
{
    rc == RC_SUCCESS || rc == RC_NO_SUCH_OBJECT
}

/// Whether a search answered with `rc` found no base entry: then a read
/// finds no entry and a listing finds no children, rather than failing.
pub fn is_no_such_object(rc: u32) -> (r: bool)
    ensures
        r == (rc == RC_NO_SUCH_OBJECT),
{
    rc == RC_NO_SUCH_OBJECT
}

/// A hint that explains a rejected bind, from its result code if the
/// server answered with one.
pub open spec fn spec_bind_error_detail(rc: Option<u32>) -> Seq<char> {
    match rc {
        Some(c) => if c == RC_INVALID_CREDENTIALS {
            " (invalid credentials)"@
        } else if c == RC_NO_SUCH_OBJECT {
            " (bind DN not found)"@
        } else {
            Seq::empty()
        },
        None => Seq::empty(),
    }
}

/// Extracts a hint from the common result codes of a rejected bind.
pub fn bind_error_detail(rc: Option<u32>) -> (r: String)
    ensures
        r@ == spec_bind_error_detail(rc),
{
    match rc {
        Some(c) => if c == RC_INVALID_CREDENTIALS {
            String::from_str(" (invalid credentials)")
        } else if c == RC_NO_SUCH_OBJECT {
            String::from_str(" (bind DN not found)")
        } else {
            String::new()
        },
        None => String::new(),
    }
}

} // verus!
