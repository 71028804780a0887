//! The properties that the reconciliation keeps, over the specifications
//! of `diff`, the runbook and the DN helpers.

use vstd::prelude::*;
use crate::attrs::{
    AttrMapView, AttrModOp, AttrModView, spec_attr_mod, spec_attr_values, spec_derived_display,
    spec_diff_attrs,
};
use crate::field_value::{ResolvedView, spec_resolve};
use crate::json::JsonView;
use crate::desired_state::{GroupView, UserView};
use crate::attrs::{spec_attr_entry, spec_diff_multi_attrs, spec_multi_mod, spec_resolved_to_attr_map};
use crate::strmap::{
    lemma_lookup_entry, lemma_lookup_insert_other, lemma_lookup_insert_same, lemma_map_insert_unique, key_pos, keys_unique, lemma_key_pos, lemma_key_pos_none, lemma_key_pos_push, lookup, map_insert,
};
use crate::desired_state::DesiredView;
use crate::ignore::spec_is_ignored;
use crate::live_state::LiveView;
use crate::reconcile::{
    add_key, dn_key, group_delete_fn, spec_add_candidates, spec_delete_candidates, spec_diff,
    spec_group_dn, spec_user_dn, user_delete_fn,
};
use crate::sort::{
    by_key, isort, lemma_by_key_preorder, lemma_isort_multiset, lemma_isort_sorted, sorted_by,
};
use crate::strmap::has_key;
use crate::text::{
    eq_ignore_ascii_case, lemma_char_pos_is, lemma_lead_ws_is, lemma_trail_ws_is, spec_dn_depth,
    spec_trim,
};
use crate::provider::{spec_live_entry_key, spec_rdn_value};
use crate::reconcile::{
    EntryPlan, plan_add_fn, spec_group_attrs, spec_group_description, spec_group_plan,
    spec_insert_resolved, spec_resolve_user, spec_user_plan, spec_with_user_object_classes, plan_change_fn, plan_modify_fn, spec_ou_groups_dn, spec_ou_users_dn,
    spec_group_plans, spec_user_plans, LdapDiffView,
};
use crate::runbook::{attr_lines, spec_connect_args, spec_ldif_modify, spec_runbook, LdapChangeView};
use crate::config::LdapConfigView;

verus! {

/// An element is in the output of `filter_map` exactly when some input
/// maps to it.
pub proof fn lemma_filter_map_contains_iff<A, B>(s: Seq<A>, f: spec_fn(A) -> Option<B>, x: B)
    ensures
        s.filter_map(f).contains(x) <==> exists|i: int| 0 <= i < s.len() && #[trigger] f(s[i]) == Some(x),
    decreases s.len(),
{
    if s.len() > 0 {
        let d = s.drop_last();
        lemma_filter_map_contains_iff(d, f, x);
        let tail: Seq<B> = match f(s.last()) {
            Some(y) => seq![y],
            None => Seq::empty(),
        };
        assert(s.filter_map(f) == d.filter_map(f) + tail);
        if s.filter_map(f).contains(x) {
            let k = choose|k: int| 0 <= k < s.filter_map(f).len() && s.filter_map(f)[k] == x;
            if k < d.filter_map(f).len() {
                assert(d.filter_map(f)[k] == x);
                let i = choose|i: int| 0 <= i < d.len() && #[trigger] f(d[i]) == Some(x);
                assert(s[i] == d[i]);
            } else {
                assert(f(s[s.len() - 1]) == Some(x));
            }
        }
        if exists|i: int| 0 <= i < s.len() && #[trigger] f(s[i]) == Some(x) {
            let i = choose|i: int| 0 <= i < s.len() && #[trigger] f(s[i]) == Some(x);
            if i < d.len() {
                assert(f(d[i]) == Some(x));
                let k = choose|k: int| 0 <= k < d.filter_map(f).len() && d.filter_map(f)[k] == x;
                assert(s.filter_map(f)[k] == x);
            } else {
                assert(s.filter_map(f)[d.filter_map(f).len() as int] == x);
            }
        }
    }
}

/// The DNs to delete come deepest first, and they are the candidates for
/// deletion, counted with repetition.
pub proof fn law_delete_order(d: DesiredView, l: LiveView, base_dn: Seq<char>, patterns: Seq<Seq<char>>)
    ensures
        forall|i: int, j: int|
            0 <= i < j < spec_diff(d, l, base_dn, patterns).to_delete.len() ==> spec_dn_depth(
                #[trigger] spec_diff(d, l, base_dn, patterns).to_delete[i],
            ) >= spec_dn_depth(#[trigger] spec_diff(d, l, base_dn, patterns).to_delete[j]),
        spec_diff(d, l, base_dn, patterns).to_delete.to_multiset() == spec_delete_candidates(
            d,
            l,
            base_dn,
            patterns,
        ).to_multiset(),
{
    let cs = spec_delete_candidates(d, l, base_dn, patterns);
    lemma_by_key_preorder(dn_key(), true);
    lemma_isort_sorted(cs, by_key(dn_key(), true));
    lemma_isort_multiset(cs, by_key(dn_key(), true));
    let td = spec_diff(d, l, base_dn, patterns).to_delete;
    assert forall|i: int, j: int| 0 <= i < j < td.len() implies spec_dn_depth(#[trigger] td[i])
        >= spec_dn_depth(#[trigger] td[j]) by {
        assert(by_key(dn_key(), true)(td[i], td[j]));
    }
}

/// The entries to add come parents before children, and they are the
/// candidates for adding, counted with repetition.
pub proof fn law_add_order(d: DesiredView, l: LiveView, base_dn: Seq<char>, patterns: Seq<Seq<char>>)
    ensures
        forall|i: int, j: int|
            0 <= i < j < spec_diff(d, l, base_dn, patterns).to_add.len() ==> spec_dn_depth(
                (#[trigger] spec_diff(d, l, base_dn, patterns).to_add[i]).0,
            ) <= spec_dn_depth((#[trigger] spec_diff(d, l, base_dn, patterns).to_add[j]).0),
        spec_diff(d, l, base_dn, patterns).to_add.to_multiset() == spec_add_candidates(
            d,
            l,
            base_dn,
        ).to_multiset(),
{
    let cs = spec_add_candidates(d, l, base_dn);
    lemma_by_key_preorder(add_key(), false);
    lemma_isort_sorted(cs, by_key(add_key(), false));
    lemma_isort_multiset(cs, by_key(add_key(), false));
    let ta = spec_diff(d, l, base_dn, patterns).to_add;
    assert forall|i: int, j: int| 0 <= i < j < ta.len() implies spec_dn_depth((#[trigger] ta[i]).0)
        <= spec_dn_depth((#[trigger] ta[j]).0) by {
        assert(by_key(add_key(), false)(ta[i], ta[j]));
    }
}

/// A live user whose uid is not desired is deleted.
pub open spec fn deletes_user(d: DesiredView, l: LiveView, base_dn: Seq<char>, patterns: Seq<Seq<char>>, dn: Seq<char>) -> bool {
    exists|i: int|
        0 <= i < l.users.len() && !has_key(d.users, #[trigger] l.users[i].0) && dn == spec_user_dn(
            l.users[i].0,
            base_dn,
        ) && !spec_is_ignored(dn, patterns)
}

/// A live group whose cn is not desired is deleted.
pub open spec fn deletes_group(d: DesiredView, l: LiveView, base_dn: Seq<char>, patterns: Seq<Seq<char>>, dn: Seq<char>) -> bool {
    exists|i: int|
        0 <= i < l.groups.len() && !has_key(d.groups, #[trigger] l.groups[i].0) && dn
            == spec_group_dn(l.groups[i].0, base_dn) && !spec_is_ignored(dn, patterns)
}

/// A DN is deleted exactly when it is the DN of a live user or group that
/// the desired state lacks and that no ignore pattern matches.
pub proof fn law_deleted_exactly(
    d: DesiredView,
    l: LiveView,
    base_dn: Seq<char>,
    patterns: Seq<Seq<char>>,
    dn: Seq<char>,
)
    ensures
        spec_diff(d, l, base_dn, patterns).to_delete.contains(dn) <==> deletes_user(
            d,
            l,
            base_dn,
            patterns,
            dn,
        ) || deletes_group(d, l, base_dn, patterns, dn),
{
    law_delete_order(d, l, base_dn, patterns);
    let td = spec_diff(d, l, base_dn, patterns).to_delete;
    let cs = spec_delete_candidates(d, l, base_dn, patterns);
    td.to_multiset_ensures();
    cs.to_multiset_ensures();
    assert(td.to_multiset().count(dn) == cs.to_multiset().count(dn));
    assert(td.contains(dn) <==> cs.contains(dn));
    let uf = user_delete_fn(d, base_dn, patterns);
    let gf = group_delete_fn(d, base_dn, patterns);
    let us = l.users.filter_map(uf);
    let gs = l.groups.filter_map(gf);
    assert(cs == us + gs);
    assert(cs.contains(dn) <==> us.contains(dn) || gs.contains(dn)) by {
        if cs.contains(dn) {
            let k = choose|k: int| 0 <= k < cs.len() && cs[k] == dn;
            if k < us.len() {
                assert(us[k] == dn);
            } else {
                assert(gs[k - us.len()] == dn);
            }
        }
        if us.contains(dn) {
            let k = choose|k: int| 0 <= k < us.len() && us[k] == dn;
            assert(cs[k] == dn);
        }
        if gs.contains(dn) {
            let k = choose|k: int| 0 <= k < gs.len() && gs[k] == dn;
            assert(cs[k + us.len()] == dn);
        }
    }
    lemma_filter_map_contains_iff(l.users, uf, dn);
    lemma_filter_map_contains_iff(l.groups, gf, dn);
    if us.contains(dn) {
        let i = choose|i: int| 0 <= i < l.users.len() && #[trigger] uf(l.users[i]) == Some(dn);
        assert(!has_key(d.users, l.users[i].0));
    }
    if gs.contains(dn) {
        let i = choose|i: int| 0 <= i < l.groups.len() && #[trigger] gf(l.groups[i]) == Some(dn);
        assert(!has_key(d.groups, l.groups[i].0));
    }
    if deletes_user(d, l, base_dn, patterns, dn) {
        let i = choose|i: int|
            0 <= i < l.users.len() && !has_key(d.users, #[trigger] l.users[i].0) && dn
                == spec_user_dn(l.users[i].0, base_dn) && !spec_is_ignored(dn, patterns);
        assert(uf(l.users[i]) == Some(dn));
    }
    if deletes_group(d, l, base_dn, patterns, dn) {
        let i = choose|i: int|
            0 <= i < l.groups.len() && !has_key(d.groups, #[trigger] l.groups[i].0) && dn
                == spec_group_dn(l.groups[i].0, base_dn) && !spec_is_ignored(dn, patterns);
        assert(gf(l.groups[i]) == Some(dn));
    }
}

/// No DN that an ignore pattern matches is deleted.
pub proof fn law_ignored_never_deleted(
    d: DesiredView,
    l: LiveView,
    base_dn: Seq<char>,
    patterns: Seq<Seq<char>>,
    dn: Seq<char>,
)
    requires
        spec_is_ignored(dn, patterns),
    ensures
        !spec_diff(d, l, base_dn, patterns).to_delete.contains(dn),
{
    law_deleted_exactly(d, l, base_dn, patterns, dn);
}

/// A modification is made exactly when some resolved attribute asks for it.
proof fn lemma_mod_from(resolved: Seq<(Seq<char>, ResolvedView)>, live: AttrMapView, m: AttrModView)
    ensures
        spec_diff_attrs(resolved, live).contains(m) <==> exists|j: int|
            0 <= j < resolved.len() && #[trigger] spec_attr_mod(resolved[j], live) == Some(m),
{
    let f = |e: (Seq<char>, ResolvedView)| spec_attr_mod(e, live);
    assert(spec_diff_attrs(resolved, live) == resolved.filter_map(f));
    lemma_filter_map_contains_iff(resolved, f, m);
    if spec_diff_attrs(resolved, live).contains(m) {
        let j = choose|j: int| 0 <= j < resolved.len() && #[trigger] f(resolved[j]) == Some(m);
        assert(spec_attr_mod(resolved[j], live) == Some(m));
    }
    if exists|j: int| 0 <= j < resolved.len() && #[trigger] spec_attr_mod(resolved[j], live) == Some(m) {
        let j = choose|j: int| 0 <= j < resolved.len() && #[trigger] spec_attr_mod(resolved[j], live) == Some(m);
        assert(f(resolved[j]) == Some(m));
    }
}

/// An initial field whose attribute the live entry already has is never
/// modified, whatever value it declares.
pub proof fn law_initial_field_kept(resolved: Seq<(Seq<char>, ResolvedView)>, live: AttrMapView, i: int)
    requires
        keys_unique(resolved),
        0 <= i < resolved.len(),
        resolved[i].1 is Initial,
        has_key(live, resolved[i].0),
    ensures
        forall|k: int|
            0 <= k < spec_diff_attrs(resolved, live).len() ==> (#[trigger] spec_diff_attrs(
                resolved,
                live,
            )[k]).attr != resolved[i].0,
{
    let mods = spec_diff_attrs(resolved, live);
    assert forall|k: int| 0 <= k < mods.len() implies (#[trigger] mods[k]).attr != resolved[i].0 by {
        lemma_mod_from(resolved, live, mods[k]);
        assert(mods.contains(mods[k]));
        let j = choose|j: int| 0 <= j < resolved.len() && #[trigger] spec_attr_mod(resolved[j], live) == Some(mods[k]);
        if j != i {
            assert(resolved[j].0 != resolved[i].0);
        }
    }
}

/// An unmanaged field is never modified.
pub proof fn law_unmanaged_field_untouched(resolved: Seq<(Seq<char>, ResolvedView)>, live: AttrMapView, i: int)
    requires
        keys_unique(resolved),
        0 <= i < resolved.len(),
        resolved[i].1 is Unmanaged,
    ensures
        forall|k: int|
            0 <= k < spec_diff_attrs(resolved, live).len() ==> (#[trigger] spec_diff_attrs(
                resolved,
                live,
            )[k]).attr != resolved[i].0,
{
    let mods = spec_diff_attrs(resolved, live);
    assert forall|k: int| 0 <= k < mods.len() implies (#[trigger] mods[k]).attr != resolved[i].0 by {
        lemma_mod_from(resolved, live, mods[k]);
        assert(mods.contains(mods[k]));
        let j = choose|j: int| 0 <= j < resolved.len() && #[trigger] spec_attr_mod(resolved[j], live) == Some(mods[k]);
        if j != i {
            assert(resolved[j].0 != resolved[i].0);
        }
    }
}

/// A derived field is always shown as a pending change: replacing the
/// attribute where the live entry has it, adding it otherwise, with the
/// display of its inputs as value.
pub proof fn law_derived_field_always_pending(
    resolved: Seq<(Seq<char>, ResolvedView)>,
    live: AttrMapView,
    i: int,
)
    requires
        0 <= i < resolved.len(),
        resolved[i].1 is DerivedFrom,
    ensures
        spec_diff_attrs(resolved, live).contains(
            AttrModView {
                attr: resolved[i].0,
                op: if has_key(live, resolved[i].0) {
                    AttrModOp::Replace
                } else {
                    AttrModOp::Add
                },
                values: seq![spec_derived_display(resolved[i].1->DerivedFrom_0)],
            },
        ),
{
    let m = AttrModView {
        attr: resolved[i].0,
        op: if has_key(live, resolved[i].0) {
            AttrModOp::Replace
        } else {
            AttrModOp::Add
        },
        values: seq![spec_derived_display(resolved[i].1->DerivedFrom_0)],
    };
    assert(spec_attr_mod(resolved[i], live) == Some(m));
    lemma_mod_from(resolved, live, m);
}

/// A managed field whose values differ, as sets, from the live ones is
/// set to its values: added where the live entry lacks the attribute,
/// replaced otherwise.
pub proof fn law_managed_field_enforced(
    resolved: Seq<(Seq<char>, ResolvedView)>,
    live: AttrMapView,
    i: int,
)
    requires
        0 <= i < resolved.len(),
        resolved[i].1 is Managed,
        spec_attr_values(resolved[i].1->Managed_0).to_set() != match lookup(live, resolved[i].0) {
            Some(l) => l.to_set(),
            None => Set::empty(),
        },
    ensures
        spec_diff_attrs(resolved, live).contains(
            AttrModView {
                attr: resolved[i].0,
                op: if has_key(live, resolved[i].0) {
                    AttrModOp::Replace
                } else {
                    AttrModOp::Add
                },
                values: spec_attr_values(resolved[i].1->Managed_0),
            },
        ),
{
    let m = AttrModView {
        attr: resolved[i].0,
        op: if has_key(live, resolved[i].0) {
            AttrModOp::Replace
        } else {
            AttrModOp::Add
        },
        values: spec_attr_values(resolved[i].1->Managed_0),
    };
    assert(spec_attr_mod(resolved[i], live) == Some(m));
    lemma_mod_from(resolved, live, m);
}

/// The value that a DN built from `prefix` (a name and `=`), a value and a
/// suffix starting with a comma gives back for that name.
proof fn lemma_rdn_round_trip(name: Seq<char>, v: Seq<char>, suffix: Seq<char>)
    requires
        name.len() > 0,
        forall|j: int| 0 <= j < name.len() ==> name[j] != ',' && name[j] != '=' && !crate::text::is_white_space(name[j]),
        !v.contains(','),
        suffix.len() > 0,
        suffix[0] == ',',
    ensures
        spec_rdn_value(name + seq!['='] + v + suffix, name) == Some(spec_trim(v)),
{
    let dn = name + seq!['='] + v + suffix;
    let p: int = (name.len() + 1 + v.len()) as int;
    assert forall|j: int| 0 <= j < p implies dn[j] != ',' by {
        if j < name.len() {
            assert(dn[j] == name[j]);
        } else if j > name.len() {
            assert(dn[j] == v[j - name.len() - 1]);
        }
    }
    lemma_char_pos_is(dn, ',', p);
    let rdn = dn.take(p);
    assert(rdn =~= name + seq!['='] + v);
    assert forall|j: int| 0 <= j < name.len() implies rdn[j] != '=' by {
        assert(rdn[j] == name[j]);
    }
    lemma_char_pos_is(rdn, '=', name.len() as int);
    assert(rdn.take(name.len() as int) =~= name);
    assert(rdn.skip(name.len() as int + 1) =~= v);
    lemma_lead_ws_is(name, 0);
    assert(name.skip(0) =~= name);
    lemma_trail_ws_is(name, 0);
    assert(name.take(name.len() as int) =~= name);
    assert(spec_trim(name) == name);
    assert(eq_ignore_ascii_case(name, name));
}

/// The uid of a user comes back from the user's DN, as the live state
/// keys users: a uid without commas, trimmed.
pub proof fn law_user_dn_round_trip(uid: Seq<char>, base_dn: Seq<char>)
    requires
        !uid.contains(','),
    ensures
        spec_rdn_value(spec_user_dn(uid, base_dn), "uid"@) == Some(spec_trim(uid)),
        spec_live_entry_key(spec_user_dn(uid, base_dn), spec_ou_users_dn(base_dn), "uid"@) == Some(
            spec_trim(uid),
        ),
{
    reveal_strlit("uid=");
    reveal_strlit("uid");
    reveal_strlit(",ou=users,");
    reveal_strlit("ou=users,");
    let name = "uid"@;
    let suffix = ",ou=users,"@ + base_dn;
    assert("uid="@ =~= name + seq!['=']);
    assert(spec_user_dn(uid, base_dn) =~= name + seq!['='] + uid + suffix);
    lemma_rdn_round_trip(name, uid, suffix);
    assert(spec_user_dn(uid, base_dn).len() != spec_ou_users_dn(base_dn).len());
}

/// The cn of a group comes back from the group's DN, as the live state
/// keys groups: a cn without commas, trimmed.
pub proof fn law_group_dn_round_trip(cn: Seq<char>, base_dn: Seq<char>)
    requires
        !cn.contains(','),
    ensures
        spec_rdn_value(spec_group_dn(cn, base_dn), "cn"@) == Some(spec_trim(cn)),
        spec_live_entry_key(spec_group_dn(cn, base_dn), spec_ou_groups_dn(base_dn), "cn"@) == Some(
            spec_trim(cn),
        ),
{
    reveal_strlit("cn=");
    reveal_strlit("cn");
    reveal_strlit(",ou=groups,");
    reveal_strlit("ou=groups,");
    let name = "cn"@;
    let suffix = ",ou=groups,"@ + base_dn;
    assert("cn="@ =~= name + seq!['=']);
    assert(spec_group_dn(cn, base_dn) =~= name + seq!['='] + cn + suffix);
    lemma_rdn_round_trip(name, cn, suffix);
    assert(spec_group_dn(cn, base_dn).len() != spec_ou_groups_dn(base_dn).len());
}

/// `t` occurs in `s`.
pub open spec fn contains_text(s: Seq<char>, t: Seq<char>) -> bool {
    exists|i: int| 0 <= i && i + t.len() <= s.len() && #[trigger] s.subrange(i, i + t.len()) == t
}

proof fn lemma_contains_middle(p: Seq<char>, t: Seq<char>, q: Seq<char>)
    ensures
        contains_text(p + t + q, t),
{
    let s = p + t + q;
    assert(s.subrange(p.len() as int, (p.len() + t.len()) as int) =~= t);
}

/// The connection arguments end with `-w ***`.
proof fn lemma_args_mask(c: LdapConfigView)
    ensures
        exists|a: Seq<char>| spec_connect_args(c) == a + "-w ***"@,
{
    reveal_strlit("\" -w ***");
    reveal_strlit("-w ***");
    let a = "-H \""@ + c.url + "\" -D \""@ + c.bind_dn + seq!['"', ' '];
    assert("\" -w ***"@ =~= seq!['"', ' '] + "-w ***"@);
    assert(spec_connect_args(c) =~= a + "-w ***"@);
}

/// Every command of a runbook shows the bind password as `-w ***`.
pub proof fn law_runbook_masks_password(diff: LdapDiffView, c: LdapConfigView)
    ensures
        forall|k: int|
            0 <= k < spec_runbook(diff, c).len() ==> contains_text(
                (#[trigger] spec_runbook(diff, c)[k]).command,
                "-w ***"@,
            ),
{
    lemma_args_mask(c);
    let a = choose|a: Seq<char>| spec_connect_args(c) == a + "-w ***"@;
    let steps = spec_runbook(diff, c);
    let na = diff.to_add.len();
    let nm = diff.to_modify.len();
    assert forall|k: int| 0 <= k < steps.len() implies contains_text(
        (#[trigger] steps[k]).command,
        "-w ***"@,
    ) by {
        if k < na {
            lemma_contains_middle("ldapadd "@ + a, "-w ***"@, Seq::empty());
            assert(steps[k].command =~= "ldapadd "@ + a + "-w ***"@ + Seq::<char>::empty());
        } else if k < na + nm {
            lemma_contains_middle("ldapmodify "@ + a, "-w ***"@, Seq::empty());
            assert(steps[k].command =~= "ldapmodify "@ + a + "-w ***"@ + Seq::<char>::empty());
        } else {
            let dn = diff.to_delete[k - na - nm];
            let q = " \""@ + dn + "\""@;
            lemma_contains_middle("ldapdelete "@ + a, "-w ***"@, q);
            assert(steps[k].command =~= "ldapdelete "@ + a + "-w ***"@ + q);
        }
    }
}

/// A runbook does not depend on the bind password.
pub proof fn law_runbook_independent_of_password(diff: LdapDiffView, c1: LdapConfigView, c2: LdapConfigView)
    requires
        c1.url == c2.url,
        c1.bind_dn == c2.bind_dn,
    ensures
        spec_runbook(diff, c1) == spec_runbook(diff, c2),
{
    assert(spec_connect_args(c1) == spec_connect_args(c2));
}

proof fn lemma_plan_counts(p: Seq<EntryPlan>)
    ensures
        p.filter_map(plan_change_fn()).len() == p.filter_map(plan_add_fn()).len() + p.filter_map(
            plan_modify_fn(),
        ).len(),
    decreases p.len(),
{
    if p.len() > 0 {
        lemma_plan_counts(p.drop_last());
    }
}

/// A plan has one runbook step for each change it shows.
pub proof fn law_one_step_per_change(
    d: DesiredView,
    l: LiveView,
    base_dn: Seq<char>,
    patterns: Seq<Seq<char>>,
    c: LdapConfigView,
)
    ensures
        spec_runbook(spec_diff(d, l, base_dn, patterns), c).len() == spec_diff(
            d,
            l,
            base_dn,
            patterns,
        ).resource_changes.len(),
{
    let up = spec_user_plans(d, l, base_dn);
    let gp = spec_group_plans(d, l, base_dn);
    lemma_plan_counts(up);
    lemma_plan_counts(gp);
    lemma_by_key_preorder(add_key(), false);
    lemma_isort_sorted(spec_add_candidates(d, l, base_dn), by_key(add_key(), false));
    lemma_by_key_preorder(dn_key(), true);
    lemma_isort_sorted(spec_delete_candidates(d, l, base_dn, patterns), by_key(dn_key(), true));
}

/// `f` keeps the key of each entry it maps.
pub open spec fn keeps_keys<A, B>(f: spec_fn((Seq<char>, A)) -> Option<(Seq<char>, B)>) -> bool {
    forall|e: (Seq<char>, A)| (#[trigger] f(e)) matches Some(p) ==> p.0 == e.0
}

proof fn lemma_filter_map_keys<A, B>(
    s: Seq<(Seq<char>, A)>,
    f: spec_fn((Seq<char>, A)) -> Option<(Seq<char>, B)>,
    k: Seq<char>,
)
    requires
        keeps_keys(f),
        forall|j: int| 0 <= j < s.len() ==> (#[trigger] s[j]).0 != k,
    ensures
        key_pos(s.filter_map(f), k) is None,
{
    let t = s.filter_map(f);
    assert forall|m: int| 0 <= m < t.len() implies t[m].0 != k by {
        lemma_filter_map_contains_iff(s, f, t[m]);
        assert(t.contains(t[m]));
        let j = choose|j: int| 0 <= j < s.len() && #[trigger] f(s[j]) == Some(t[m]);
        assert(f(s[j]) matches Some(p) ==> p.0 == s[j].0);
    }
    lemma_key_pos_none(t, k);
}

/// In the image of a map with unique keys under a key-keeping `f`, a key
/// looks up what `f` made of its entry, and is absent where `f` dropped it.
pub proof fn lemma_lookup_filter_map<A, B>(
    s: Seq<(Seq<char>, A)>,
    f: spec_fn((Seq<char>, A)) -> Option<(Seq<char>, B)>,
    i: int,
)
    requires
        keys_unique(s),
        keeps_keys(f),
        0 <= i < s.len(),
    ensures
        match f(s[i]) {
            Some(p) => lookup(s.filter_map(f), s[i].0) == Some(p.1),
            None => key_pos(s.filter_map(f), s[i].0) is None,
        },
    decreases s.len(),
{
    let d = s.drop_last();
    let k = s[i].0;
    let tail: Seq<(Seq<char>, B)> = match f(s.last()) {
        Some(y) => seq![y],
        None => Seq::empty(),
    };
    assert(s.filter_map(f) == d.filter_map(f) + tail);
    assert(keys_unique(d)) by {
        assert forall|a: int, b: int| 0 <= a < d.len() && 0 <= b < d.len() && a != b implies #[trigger] d[a].0
            != #[trigger] d[b].0 by {
            assert(s[a].0 != s[b].0);
        }
    }
    if i == s.len() - 1 {
        assert forall|j: int| 0 <= j < d.len() implies (#[trigger] d[j]).0 != k by {
            assert(s[j].0 != s[i].0);
        }
        lemma_filter_map_keys(d, f, k);
        match f(s.last()) {
            Some(y) => {
                assert(d.filter_map(f) + tail == d.filter_map(f).push(y));
                lemma_key_pos_push(d.filter_map(f), y, k);
                assert(y.0 == k);
            },
            None => {
                assert(d.filter_map(f) + tail =~= d.filter_map(f));
            },
        }
    } else {
        assert(d[i] == s[i]);
        lemma_lookup_filter_map(d, f, i);
        match f(s.last()) {
            Some(y) => {
                assert(d.filter_map(f) + tail == d.filter_map(f).push(y));
                lemma_key_pos_push(d.filter_map(f), y, k);
                assert(s.last().0 != k);
                lemma_key_pos(d.filter_map(f), k);
                match key_pos(d.filter_map(f), k) {
                    Some(p) => {
                        assert(d.filter_map(f).push(y)[p] == d.filter_map(f)[p]);
                    },
                    None => {},
                }
            },
            None => {
                assert(d.filter_map(f) + tail =~= d.filter_map(f));
            },
        }
    }
}

/// A sequence whose elements `f` all drops has an empty image.
proof fn lemma_filter_map_none<A, B>(s: Seq<A>, f: spec_fn(A) -> Option<B>)
    requires
        forall|i: int| 0 <= i < s.len() ==> #[trigger] f(s[i]) is None,
    ensures
        s.filter_map(f).len() == 0,
{
    if s.filter_map(f).len() > 0 {
        lemma_filter_map_contains_iff(s, f, s.filter_map(f)[0]);
        assert(s.filter_map(f).contains(s.filter_map(f)[0]));
    }
}

proof fn lemma_insert_resolved_unique(s: Seq<(Seq<char>, ResolvedView)>, extras: Seq<(Seq<char>, crate::field_value::FieldValueView)>)
    requires
        keys_unique(s),
    ensures
        keys_unique(spec_insert_resolved(s, extras)),
    decreases extras.len(),
{
    if extras.len() > 0 {
        lemma_insert_resolved_unique(s, extras.drop_last());
        lemma_map_insert_unique(
            spec_insert_resolved(s, extras.drop_last()),
            extras.last().0,
            spec_resolve(extras.last().1),
        );
    }
}

/// The resolved attributes of a user have unique names.
pub proof fn lemma_resolve_user_unique(u: UserView)
    ensures
        keys_unique(spec_resolve_user(u)),
{
    let e = Seq::<(Seq<char>, ResolvedView)>::empty();
    let s1 = map_insert(e, "cn"@, spec_resolve(u.cn));
    lemma_map_insert_unique(e, "cn"@, spec_resolve(u.cn));
    let s2 = map_insert(s1, "sn"@, spec_resolve(u.sn));
    lemma_map_insert_unique(s1, "sn"@, spec_resolve(u.sn));
    let s3 = map_insert(s2, "mail"@, spec_resolve(u.mail));
    lemma_map_insert_unique(s2, "mail"@, spec_resolve(u.mail));
    let s4 = map_insert(s3, "userPassword"@, spec_resolve(u.user_password));
    lemma_map_insert_unique(s3, "userPassword"@, spec_resolve(u.user_password));
    let s5 = match u.login_shell {
        Some(f) => map_insert(s4, "loginShell"@, spec_resolve(f)),
        None => s4,
    };
    if let Some(f) = u.login_shell {
        lemma_map_insert_unique(s4, "loginShell"@, spec_resolve(f));
    }
    let s6 = match u.description {
        Some(f) => map_insert(s5, "description"@, spec_resolve(f)),
        None => s5,
    };
    if let Some(f) = u.description {
        lemma_map_insert_unique(s5, "description"@, spec_resolve(f));
    }
    lemma_insert_resolved_unique(s6, u.extra_fields);
}

/// The attributes that adding the user `uid` writes.
pub open spec fn spec_created_user_attrs(uid: Seq<char>, u: UserView) -> AttrMapView {
    spec_with_user_object_classes(spec_resolved_to_attr_map(spec_resolve_user(u)), uid)
}

/// The attributes that adding the group `cn` writes.
pub open spec fn spec_created_group_attrs(cn: Seq<char>, g: GroupView, base_dn: Seq<char>) -> AttrMapView {
    spec_group_attrs(spec_group_description(g), g.members, cn, base_dn)
}

/// A user whose fields all settle once written: none is derived, and no
/// managed field without values names `objectClass` or `uid` (which the
/// add fills with defaults).
pub open spec fn settles_once_written(u: UserView) -> bool {
    let r = spec_resolve_user(u);
    forall|i: int|
        0 <= i < r.len() ==> !((#[trigger] r[i]).1 is DerivedFrom) && (r[i].1 is Managed
            && spec_attr_values(r[i].1->Managed_0).len() == 0 ==> r[i].0 != "objectClass"@
            && r[i].0 != "uid"@)
}

proof fn lemma_lookup_maybe_insert(a: AttrMapView, k2: Seq<char>, v: Seq<Seq<char>>, k: Seq<char>)
    requires
        has_key(a, k) || k != k2,
    ensures
        lookup(if has_key(a, k2) { a } else { map_insert(a, k2, v) }, k) == lookup(a, k),
{
    if !has_key(a, k2) {
        if k == k2 {
        } else {
            lemma_lookup_insert_other(a, k2, v, k);
        }
    }
}

/// Once a user has been added as planned, planning again shows no change
/// for it.
pub proof fn law_user_unchanged_after_add(
    uid: Seq<char>,
    u: UserView,
    live_users: Seq<(Seq<char>, AttrMapView)>,
    base_dn: Seq<char>,
)
    requires
        settles_once_written(u),
        lookup(live_users, uid) == Some(spec_created_user_attrs(uid, u)),
    ensures
        spec_user_plan((uid, u), live_users, base_dn) == EntryPlan::Unchanged,
{
    let r = spec_resolve_user(u);
    lemma_resolve_user_unique(u);
    let f = |e: (Seq<char>, ResolvedView)| spec_attr_entry(e);
    let fm = spec_resolved_to_attr_map(r);
    assert(fm == r.filter_map(f));
    assert(keeps_keys(f));
    let created = spec_created_user_attrs(uid, u);
    let a1 = if has_key(fm, "objectClass"@) {
        fm
    } else {
        map_insert(fm, "objectClass"@, crate::reconcile::user_object_classes())
    };
    assert(created == if has_key(a1, "uid"@) {
        a1
    } else {
        map_insert(a1, "uid"@, seq![uid])
    });
    let g = |e: (Seq<char>, ResolvedView)| spec_attr_mod(e, created);
    assert forall|i: int| 0 <= i < r.len() implies #[trigger] g(r[i]) is None by {
        let k = r[i].0;
        lemma_lookup_filter_map(r, f, i);
        assert(!(r[i].1 is DerivedFrom));
        match f(r[i]) {
            Some(p) => {
                assert(has_key(fm, k));
                lemma_lookup_maybe_insert(fm, "objectClass"@, crate::reconcile::user_object_classes(), k);
                assert(has_key(a1, k));
                lemma_lookup_maybe_insert(a1, "uid"@, seq![uid], k);
                assert(lookup(created, k) == Some(p.1));
            },
            None => {
                if r[i].1 is Managed {
                    let vals = spec_attr_values(r[i].1->Managed_0);
                    assert(vals.len() == 0);
                    assert(k != "objectClass"@ && k != "uid"@);
                    lemma_lookup_maybe_insert(fm, "objectClass"@, crate::reconcile::user_object_classes(), k);
                    lemma_lookup_maybe_insert(a1, "uid"@, seq![uid], k);
                    assert(lookup(fm, k) is None);
                    assert(lookup(created, k) is None);
                    assert(vals.to_set() =~= Set::<Seq<char>>::empty());
                }
            },
        }
    }
    lemma_filter_map_none(r, g);
    assert(spec_diff_attrs(r, created) == r.filter_map(g));
}

/// The attributes of a group entry have unique names.
pub proof fn lemma_group_attrs_unique(cn: Seq<char>, g: GroupView, base_dn: Seq<char>)
    ensures
        keys_unique(spec_created_group_attrs(cn, g, base_dn)),
{
    let e = Seq::<(Seq<char>, Seq<Seq<char>>)>::empty();
    let s0a = map_insert(e, "objectClass"@, seq!["groupOfNames"@, "top"@]);
    lemma_map_insert_unique(e, "objectClass"@, seq!["groupOfNames"@, "top"@]);
    let s0 = map_insert(s0a, "cn"@, seq![cn]);
    lemma_map_insert_unique(s0a, "cn"@, seq![cn]);
    let s1 = match spec_group_description(g) {
        Some(r) => match crate::field_value::spec_as_str(r) {
            Some(dsc) => map_insert(s0, "description"@, seq![dsc]),
            None => s0,
        },
        None => s0,
    };
    if let Some(r) = spec_group_description(g) {
        if let Some(dsc) = crate::field_value::spec_as_str(r) {
            lemma_map_insert_unique(s0, "description"@, seq![dsc]);
        }
    }
    lemma_map_insert_unique(s1, "member"@, crate::reconcile::spec_member_dns(g.members, base_dn));
}

/// Once a group has been added as planned, planning again shows no change
/// for it.
pub proof fn law_group_unchanged_after_add(
    cn: Seq<char>,
    g: GroupView,
    live_groups: Seq<(Seq<char>, AttrMapView)>,
    base_dn: Seq<char>,
)
    requires
        lookup(live_groups, cn) == Some(spec_created_group_attrs(cn, g, base_dn)),
    ensures
        spec_group_plan((cn, g), live_groups, base_dn) == EntryPlan::Unchanged,
{
    let attrs = spec_created_group_attrs(cn, g, base_dn);
    lemma_group_attrs_unique(cn, g, base_dn);
    let h = |x: (Seq<char>, Seq<Seq<char>>)| spec_multi_mod(x, attrs);
    assert forall|i: int| 0 <= i < attrs.len() implies #[trigger] h(attrs[i]) is None by {
        lemma_lookup_entry(attrs, i);
    }
    lemma_filter_map_none(attrs, h);
    assert(spec_diff_multi_attrs(attrs, attrs) == attrs.filter_map(h));
}

/// The live attributes once the modifications `mods` have been made in
/// order, each setting its attribute to its values.
pub open spec fn spec_apply_mods(live: AttrMapView, mods: Seq<AttrModView>) -> AttrMapView
    decreases mods.len(),
{
    if mods.len() == 0 {
        live
    } else {
        map_insert(spec_apply_mods(live, mods.drop_last()), mods.last().attr, mods.last().values)
    }
}

proof fn lemma_apply_mods_other(live: AttrMapView, mods: Seq<AttrModView>, k: Seq<char>)
    requires
        forall|j: int| 0 <= j < mods.len() ==> (#[trigger] mods[j]).attr != k,
    ensures
        lookup(spec_apply_mods(live, mods), k) == lookup(live, k),
        has_key(spec_apply_mods(live, mods), k) == has_key(live, k),
    decreases mods.len(),
{
    if mods.len() > 0 {
        let p = mods.drop_last();
        assert forall|j: int| 0 <= j < p.len() implies (#[trigger] p[j]).attr != k by {
            assert(p[j] == mods[j]);
        }
        lemma_apply_mods_other(live, p, k);
        assert(mods.last().attr != k);
        lemma_lookup_insert_other(spec_apply_mods(live, p), mods.last().attr, mods.last().values, k);
    }
}

proof fn lemma_apply_mods_set(live: AttrMapView, mods: Seq<AttrModView>, k: Seq<char>, v: Seq<Seq<char>>)
    requires
        exists|j: int| 0 <= j < mods.len() && (#[trigger] mods[j]).attr == k,
        forall|j: int| 0 <= j < mods.len() && (#[trigger] mods[j]).attr == k ==> mods[j].values == v,
    ensures
        lookup(spec_apply_mods(live, mods), k) == Some(v),
    decreases mods.len(),
{
    let p = mods.drop_last();
    let a = spec_apply_mods(live, p);
    if mods.last().attr == k {
        assert(mods[mods.len() - 1].attr == k);
        lemma_lookup_insert_same(a, k, mods.last().values);
    } else {
        let j = choose|j: int| 0 <= j < mods.len() && (#[trigger] mods[j]).attr == k;
        assert(j < mods.len() - 1);
        assert(p[j] == mods[j]);
        assert forall|j2: int| 0 <= j2 < p.len() && (#[trigger] p[j2]).attr == k implies p[j2].values == v by {
            assert(p[j2] == mods[j2]);
        }
        lemma_apply_mods_set(live, p, k, v);
        lemma_lookup_insert_other(a, mods.last().attr, mods.last().values, k);
    }
}

/// Once the modifications that the comparison of resolved attributes with
/// a live entry asks for have been made, comparing them again asks for
/// none, unless a field is derived (a derived field is always pending).
pub proof fn law_modify_settles(resolved: Seq<(Seq<char>, ResolvedView)>, live: AttrMapView)
    requires
        keys_unique(resolved),
        forall|i: int| 0 <= i < resolved.len() ==> !((#[trigger] resolved[i]).1 is DerivedFrom),
    ensures
        spec_diff_attrs(resolved, spec_apply_mods(live, spec_diff_attrs(resolved, live))).len() == 0,
{
    let mods = spec_diff_attrs(resolved, live);
    let live2 = spec_apply_mods(live, mods);
    let g = |e: (Seq<char>, ResolvedView)| spec_attr_mod(e, live2);
    assert forall|i: int| 0 <= i < resolved.len() implies #[trigger] g(resolved[i]) is None by {
        let k = resolved[i].0;
        assert forall|j: int| 0 <= j < mods.len() && (#[trigger] mods[j]).attr == k implies spec_attr_mod(
            resolved[i],
            live,
        ) == Some(mods[j]) by {
            lemma_mod_from(resolved, live, mods[j]);
            assert(mods.contains(mods[j]));
            let j2 = choose|j2: int| 0 <= j2 < resolved.len() && #[trigger] spec_attr_mod(resolved[j2], live) == Some(mods[j]);
            if j2 != i {
                assert(resolved[j2].0 != resolved[i].0);
            }
        }
        match spec_attr_mod(resolved[i], live) {
            Some(m) => {
                lemma_mod_from(resolved, live, m);
                let j = choose|j: int| 0 <= j < mods.len() && mods[j] == m;
                assert(mods[j].attr == k);
                lemma_apply_mods_set(live, mods, k, m.values);
                if resolved[i].1 is Managed {
                    assert(spec_attr_values(resolved[i].1->Managed_0) == m.values);
                }
            },
            None => {
                lemma_apply_mods_other(live, mods, k);
            },
        }
    }
    lemma_filter_map_none(resolved, g);
    assert(spec_diff_attrs(resolved, live2) == resolved.filter_map(g));
}

/// Once the modifications that the comparison of desired multi-valued
/// attributes with a live entry asks for have been made, comparing them
/// again asks for none.
pub proof fn law_multi_modify_settles(desired: AttrMapView, live: AttrMapView)
    requires
        keys_unique(desired),
    ensures
        spec_diff_multi_attrs(desired, spec_apply_mods(live, spec_diff_multi_attrs(desired, live))).len()
            == 0,
{
    let f = |e: (Seq<char>, Seq<Seq<char>>)| spec_multi_mod(e, live);
    let mods = spec_diff_multi_attrs(desired, live);
    assert(mods == desired.filter_map(f));
    let live2 = spec_apply_mods(live, mods);
    let g = |e: (Seq<char>, Seq<Seq<char>>)| spec_multi_mod(e, live2);
    assert forall|i: int| 0 <= i < desired.len() implies #[trigger] g(desired[i]) is None by {
        let k = desired[i].0;
        assert forall|j: int| 0 <= j < mods.len() && (#[trigger] mods[j]).attr == k implies f(desired[i])
            == Some(mods[j]) by {
            lemma_filter_map_contains_iff(desired, f, mods[j]);
            assert(mods.contains(mods[j]));
            let j2 = choose|j2: int| 0 <= j2 < desired.len() && #[trigger] f(desired[j2]) == Some(mods[j]);
            if j2 != i {
                assert(desired[j2].0 != desired[i].0);
            }
        }
        match f(desired[i]) {
            Some(m) => {
                lemma_filter_map_contains_iff(desired, f, m);
                let j = choose|j: int| 0 <= j < mods.len() && mods[j] == m;
                assert(mods[j].attr == k);
                lemma_apply_mods_set(live, mods, k, m.values);
            },
            None => {
                lemma_apply_mods_other(live, mods, k);
            },
        }
    }
    lemma_filter_map_none(desired, g);
}

/// The live entry of the user `uid` once the plan has been applied: the
/// attributes its add wrote, or its live attributes with the planned
/// modifications made.
pub open spec fn spec_user_after(uid: Seq<char>, u: UserView, live_users: Seq<(Seq<char>, AttrMapView)>) -> AttrMapView {
    match lookup(live_users, uid) {
        None => spec_created_user_attrs(uid, u),
        Some(live) => spec_apply_mods(live, spec_diff_attrs(spec_resolve_user(u), live)),
    }
}

/// The live entry of the group `cn` once the plan has been applied.
pub open spec fn spec_group_after(
    cn: Seq<char>,
    g: GroupView,
    live_groups: Seq<(Seq<char>, AttrMapView)>,
    base_dn: Seq<char>,
) -> AttrMapView {
    match lookup(live_groups, cn) {
        None => spec_created_group_attrs(cn, g, base_dn),
        Some(live) => spec_apply_mods(live, spec_diff_multi_attrs(spec_created_group_attrs(cn, g, base_dn), live)),
    }
}

/// Once the modifications planned for a user have been made, planning
/// again shows no change for it, unless one of its fields is derived.
pub proof fn law_user_unchanged_after_modify(
    uid: Seq<char>,
    u: UserView,
    live: AttrMapView,
    live_users: Seq<(Seq<char>, AttrMapView)>,
    base_dn: Seq<char>,
)
    requires
        forall|i: int|
            0 <= i < spec_resolve_user(u).len() ==> !((#[trigger] spec_resolve_user(u)[i]).1 is DerivedFrom),
        lookup(live_users, uid) == Some(spec_apply_mods(live, spec_diff_attrs(spec_resolve_user(u), live))),
    ensures
        spec_user_plan((uid, u), live_users, base_dn) == EntryPlan::Unchanged,
{
    lemma_resolve_user_unique(u);
    law_modify_settles(spec_resolve_user(u), live);
}

/// Once the modifications planned for a group have been made, planning
/// again shows no change for it.
pub proof fn law_group_unchanged_after_modify(
    cn: Seq<char>,
    g: GroupView,
    live: AttrMapView,
    live_groups: Seq<(Seq<char>, AttrMapView)>,
    base_dn: Seq<char>,
)
    requires
        lookup(live_groups, cn) == Some(
            spec_apply_mods(live, spec_diff_multi_attrs(spec_created_group_attrs(cn, g, base_dn), live)),
        ),
    ensures
        spec_group_plan((cn, g), live_groups, base_dn) == EntryPlan::Unchanged,
{
    lemma_group_attrs_unique(cn, g, base_dn);
    law_multi_modify_settles(spec_created_group_attrs(cn, g, base_dn), live);
}

/// Adding the desired entries that the live state `l0` lacks writes, for
/// each of them, its DN with the attributes of its add; and once only
/// those adds have been carried out (the live state `l1` holds each desired
/// entry as its add wrote it, whatever else it still holds), planning again
/// asks for no add and no modification: the only changes left are the
/// pending deletions.
pub proof fn law_replan_after_adds(
    d: DesiredView,
    l0: LiveView,
    l1: LiveView,
    base_dn: Seq<char>,
    patterns: Seq<Seq<char>>,
)
    requires
        forall|i: int|
            0 <= i < d.users.len() ==> settles_once_written((#[trigger] d.users[i]).1) && !has_key(
                l0.users,
                d.users[i].0,
            ) && lookup(l1.users, d.users[i].0) == Some(spec_created_user_attrs(d.users[i].0, d.users[i].1)),
        forall|i: int|
            0 <= i < d.groups.len() ==> !has_key(l0.groups, (#[trigger] d.groups[i]).0) && lookup(
                l1.groups,
                d.groups[i].0,
            ) == Some(spec_created_group_attrs(d.groups[i].0, d.groups[i].1, base_dn)),
    ensures
        forall|i: int|
            0 <= i < d.users.len() ==> spec_diff(d, l0, base_dn, patterns).to_add.contains(
                (spec_user_dn((#[trigger] d.users[i]).0, base_dn), spec_created_user_attrs(d.users[i].0, d.users[i].1)),
            ),
        forall|i: int|
            0 <= i < d.groups.len() ==> spec_diff(d, l0, base_dn, patterns).to_add.contains(
                (
                    spec_group_dn((#[trigger] d.groups[i]).0, base_dn),
                    spec_created_group_attrs(d.groups[i].0, d.groups[i].1, base_dn),
                ),
            ),
        spec_diff(d, l1, base_dn, patterns).to_add.len() == 0,
        spec_diff(d, l1, base_dn, patterns).to_modify.len() == 0,
        forall|k: int|
            0 <= k < spec_diff(d, l1, base_dn, patterns).resource_changes.len() ==> (#[trigger] spec_diff(
                d,
                l1,
                base_dn,
                patterns,
            ).resource_changes[k]) is Delete,
{
    // What the plan against `l0` adds.
    let up0 = spec_user_plans(d, l0, base_dn);
    let gp0 = spec_group_plans(d, l0, base_dn);
    let ua = up0.filter_map(plan_add_fn());
    let ga = gp0.filter_map(plan_add_fn());
    let cands = spec_add_candidates(d, l0, base_dn);
    let ta = spec_diff(d, l0, base_dn, patterns).to_add;
    law_add_order(d, l0, base_dn, patterns);
    ta.to_multiset_ensures();
    cands.to_multiset_ensures();
    assert forall|i: int| 0 <= i < d.users.len() implies ta.contains(
        (spec_user_dn((#[trigger] d.users[i]).0, base_dn), spec_created_user_attrs(d.users[i].0, d.users[i].1)),
    ) by {
        let x = (spec_user_dn(d.users[i].0, base_dn), spec_created_user_attrs(d.users[i].0, d.users[i].1));
        assert(plan_add_fn()(up0[i]) == Some(x));
        lemma_filter_map_contains_iff(up0, plan_add_fn(), x);
        let k = choose|k: int| 0 <= k < ua.len() && ua[k] == x;
        assert(cands[k] == x);
        assert(cands.contains(x));
        assert(cands.to_multiset().count(x) > 0);
        assert(ta.to_multiset().count(x) > 0);
    }
    assert forall|i: int| 0 <= i < d.groups.len() implies ta.contains(
        (
            spec_group_dn((#[trigger] d.groups[i]).0, base_dn),
            spec_created_group_attrs(d.groups[i].0, d.groups[i].1, base_dn),
        ),
    ) by {
        let x = (
            spec_group_dn(d.groups[i].0, base_dn),
            spec_created_group_attrs(d.groups[i].0, d.groups[i].1, base_dn),
        );
        assert(plan_add_fn()(gp0[i]) == Some(x));
        lemma_filter_map_contains_iff(gp0, plan_add_fn(), x);
        let k = choose|k: int| 0 <= k < ga.len() && ga[k] == x;
        assert(cands[ua.len() + k] == x);
        assert(cands.contains(x));
        assert(cands.to_multiset().count(x) > 0);
        assert(ta.to_multiset().count(x) > 0);
    }
    // Planning again against `l1`.
    let up = spec_user_plans(d, l1, base_dn);
    let gp = spec_group_plans(d, l1, base_dn);
    assert forall|i: int| 0 <= i < up.len() implies #[trigger] up[i] == EntryPlan::Unchanged by {
        law_user_unchanged_after_add(d.users[i].0, d.users[i].1, l1.users, base_dn);
    }
    assert forall|i: int| 0 <= i < gp.len() implies #[trigger] gp[i] == EntryPlan::Unchanged by {
        law_group_unchanged_after_add(d.groups[i].0, d.groups[i].1, l1.groups, base_dn);
    }
    assert forall|i: int| 0 <= i < up.len() implies #[trigger] plan_change_fn()(up[i]) is None by {
        assert(up[i] == EntryPlan::Unchanged);
    }
    assert forall|i: int| 0 <= i < up.len() implies #[trigger] plan_add_fn()(up[i]) is None by {
        assert(up[i] == EntryPlan::Unchanged);
    }
    assert forall|i: int| 0 <= i < up.len() implies #[trigger] plan_modify_fn()(up[i]) is None by {
        assert(up[i] == EntryPlan::Unchanged);
    }
    assert forall|i: int| 0 <= i < gp.len() implies #[trigger] plan_change_fn()(gp[i]) is None by {
        assert(gp[i] == EntryPlan::Unchanged);
    }
    assert forall|i: int| 0 <= i < gp.len() implies #[trigger] plan_add_fn()(gp[i]) is None by {
        assert(gp[i] == EntryPlan::Unchanged);
    }
    assert forall|i: int| 0 <= i < gp.len() implies #[trigger] plan_modify_fn()(gp[i]) is None by {
        assert(gp[i] == EntryPlan::Unchanged);
    }
    lemma_filter_map_none(up, plan_change_fn());
    lemma_filter_map_none(up, plan_add_fn());
    lemma_filter_map_none(up, plan_modify_fn());
    lemma_filter_map_none(gp, plan_change_fn());
    lemma_filter_map_none(gp, plan_add_fn());
    lemma_filter_map_none(gp, plan_modify_fn());
    lemma_by_key_preorder(add_key(), false);
    lemma_isort_sorted(spec_add_candidates(d, l1, base_dn), by_key(add_key(), false));
    let deletes = crate::reconcile::spec_deletes(d, l1, base_dn, patterns);
    let rc = spec_diff(d, l1, base_dn, patterns).resource_changes;
    assert(rc =~= deletes.map_values(crate::reconcile::delete_change_fn()));
}

/// Once a plan made against the live state `l` has been applied, and the
/// live state `l2` holds what it wrote (every desired entry as its add or
/// its modifications left it, and no other entry but those an ignore
/// pattern protects), planning again shows no change at all.
pub proof fn law_plan_empty_after_apply(
    d: DesiredView,
    l: LiveView,
    l2: LiveView,
    base_dn: Seq<char>,
    patterns: Seq<Seq<char>>,
)
    requires
        forall|i: int|
            0 <= i < d.users.len() ==> settles_once_written((#[trigger] d.users[i]).1) && lookup(
                l2.users,
                d.users[i].0,
            ) == Some(spec_user_after(d.users[i].0, d.users[i].1, l.users)),
        forall|i: int|
            0 <= i < d.groups.len() ==> lookup(l2.groups, (#[trigger] d.groups[i]).0) == Some(
                spec_group_after(d.groups[i].0, d.groups[i].1, l.groups, base_dn),
            ),
        forall|j: int|
            0 <= j < l2.users.len() ==> has_key(d.users, (#[trigger] l2.users[j]).0) || spec_is_ignored(
                spec_user_dn(l2.users[j].0, base_dn),
                patterns,
            ),
        forall|j: int|
            0 <= j < l2.groups.len() ==> has_key(d.groups, (#[trigger] l2.groups[j]).0) || spec_is_ignored(
                spec_group_dn(l2.groups[j].0, base_dn),
                patterns,
            ),
    ensures
        spec_diff(d, l2, base_dn, patterns).resource_changes.len() == 0,
        spec_diff(d, l2, base_dn, patterns).to_add.len() == 0,
        spec_diff(d, l2, base_dn, patterns).to_modify.len() == 0,
        spec_diff(d, l2, base_dn, patterns).to_delete.len() == 0,
{
    let up = spec_user_plans(d, l2, base_dn);
    let gp = spec_group_plans(d, l2, base_dn);
    assert forall|i: int| 0 <= i < up.len() implies #[trigger] up[i] == EntryPlan::Unchanged by {
        let (uid, u) = d.users[i];
        match lookup(l.users, uid) {
            None => law_user_unchanged_after_add(uid, u, l2.users, base_dn),
            Some(live) => {
                let r = spec_resolve_user(u);
                assert forall|k: int| 0 <= k < r.len() implies !((#[trigger] r[k]).1 is DerivedFrom) by {
                    assert(settles_once_written(u));
                }
                law_user_unchanged_after_modify(uid, u, live, l2.users, base_dn);
            },
        }
    }
    assert forall|i: int| 0 <= i < gp.len() implies #[trigger] gp[i] == EntryPlan::Unchanged by {
        let (cn, g) = d.groups[i];
        match lookup(l.groups, cn) {
            None => law_group_unchanged_after_add(cn, g, l2.groups, base_dn),
            Some(live) => law_group_unchanged_after_modify(cn, g, live, l2.groups, base_dn),
        }
    }
    assert forall|i: int| 0 <= i < up.len() implies #[trigger] plan_change_fn()(up[i]) is None by {
        assert(up[i] == EntryPlan::Unchanged);
    }
    assert forall|i: int| 0 <= i < up.len() implies #[trigger] plan_add_fn()(up[i]) is None by {
        assert(up[i] == EntryPlan::Unchanged);
    }
    assert forall|i: int| 0 <= i < up.len() implies #[trigger] plan_modify_fn()(up[i]) is None by {
        assert(up[i] == EntryPlan::Unchanged);
    }
    assert forall|i: int| 0 <= i < gp.len() implies #[trigger] plan_change_fn()(gp[i]) is None by {
        assert(gp[i] == EntryPlan::Unchanged);
    }
    assert forall|i: int| 0 <= i < gp.len() implies #[trigger] plan_add_fn()(gp[i]) is None by {
        assert(gp[i] == EntryPlan::Unchanged);
    }
    assert forall|i: int| 0 <= i < gp.len() implies #[trigger] plan_modify_fn()(gp[i]) is None by {
        assert(gp[i] == EntryPlan::Unchanged);
    }
    lemma_filter_map_none(up, plan_change_fn());
    lemma_filter_map_none(up, plan_add_fn());
    lemma_filter_map_none(up, plan_modify_fn());
    lemma_filter_map_none(gp, plan_change_fn());
    lemma_filter_map_none(gp, plan_add_fn());
    lemma_filter_map_none(gp, plan_modify_fn());
    let uf = user_delete_fn(d, base_dn, patterns);
    let gf = group_delete_fn(d, base_dn, patterns);
    assert forall|j: int| 0 <= j < l2.users.len() implies #[trigger] uf(l2.users[j]) is None by {}
    assert forall|j: int| 0 <= j < l2.groups.len() implies #[trigger] gf(l2.groups[j]) is None by {}
    lemma_filter_map_none(l2.users, uf);
    lemma_filter_map_none(l2.groups, gf);
    lemma_by_key_preorder(add_key(), false);
    lemma_isort_sorted(spec_add_candidates(d, l2, base_dn), by_key(add_key(), false));
    lemma_by_key_preorder(dn_key(), true);
    lemma_isort_sorted(spec_delete_candidates(d, l2, base_dn, patterns), by_key(dn_key(), true));
}


/// A desired multi-valued attribute is set to exactly its desired values
/// when its value set differs from the live one in either direction (an
/// attribute the live entry lacks counts as having no values), and is left
/// alone when the two sets are equal; every modification sets some desired
/// attribute to its desired values.
pub proof fn law_multi_attrs_compare_as_sets(desired: AttrMapView, live: AttrMapView)
    requires
        keys_unique(desired),
    ensures
        forall|i: int|
            0 <= i < desired.len() && (#[trigger] desired[i]).1.to_set() != match lookup(live, desired[i].0) {
                Some(l) => l.to_set(),
                None => Set::empty(),
            } ==> spec_diff_multi_attrs(desired, live).contains(
                AttrModView {
                    attr: desired[i].0,
                    op: if has_key(live, desired[i].0) {
                        AttrModOp::Replace
                    } else {
                        AttrModOp::Add
                    },
                    values: desired[i].1,
                },
            ),
        forall|i: int, j: int|
            0 <= i < desired.len() && 0 <= j < spec_diff_multi_attrs(desired, live).len() && (#[trigger] desired[i]).1.to_set()
                == match lookup(live, desired[i].0) {
                Some(l) => l.to_set(),
                None => Set::empty(),
            } ==> (#[trigger] spec_diff_multi_attrs(desired, live)[j]).attr != desired[i].0,
        forall|j: int|
            0 <= j < spec_diff_multi_attrs(desired, live).len() ==> exists|i: int|
                0 <= i < desired.len() && (#[trigger] desired[i]).0 == (#[trigger] spec_diff_multi_attrs(
                    desired,
                    live,
                )[j]).attr && desired[i].1 == spec_diff_multi_attrs(desired, live)[j].values,
{
    let f = |e: (Seq<char>, Seq<Seq<char>>)| spec_multi_mod(e, live);
    let mods = spec_diff_multi_attrs(desired, live);
    assert(mods == desired.filter_map(f));
    assert forall|i: int|
        0 <= i < desired.len() && (#[trigger] desired[i]).1.to_set() != match lookup(live, desired[i].0) {
            Some(l) => l.to_set(),
            None => Set::empty(),
        } implies mods.contains(
        AttrModView {
            attr: desired[i].0,
            op: if has_key(live, desired[i].0) {
                AttrModOp::Replace
            } else {
                AttrModOp::Add
            },
            values: desired[i].1,
        },
    ) by {
        let m = AttrModView {
            attr: desired[i].0,
            op: if has_key(live, desired[i].0) {
                AttrModOp::Replace
            } else {
                AttrModOp::Add
            },
            values: desired[i].1,
        };
        assert(f(desired[i]) == Some(m));
        lemma_filter_map_contains_iff(desired, f, m);
    }
    assert forall|j: int| 0 <= j < mods.len() implies exists|i: int|
        0 <= i < desired.len() && (#[trigger] desired[i]).0 == (#[trigger] mods[j]).attr && desired[i].1
            == mods[j].values by {
        lemma_filter_map_contains_iff(desired, f, mods[j]);
        assert(mods.contains(mods[j]));
        let i = choose|i: int| 0 <= i < desired.len() && #[trigger] f(desired[i]) == Some(mods[j]);
        assert(desired[i].0 == mods[j].attr);
    }
    assert forall|i: int, j: int|
        0 <= i < desired.len() && 0 <= j < mods.len() && (#[trigger] desired[i]).1.to_set()
            == match lookup(live, desired[i].0) {
            Some(l) => l.to_set(),
            None => Set::empty(),
        } implies (#[trigger] mods[j]).attr != desired[i].0 by {
        lemma_filter_map_contains_iff(desired, f, mods[j]);
        assert(mods.contains(mods[j]));
        let i2 = choose|i2: int| 0 <= i2 < desired.len() && #[trigger] f(desired[i2]) == Some(mods[j]);
        if i2 != i {
            assert(desired[i2].0 != desired[i].0);
        }
    }
}


/// The live values of an attribute as a plan shows them: joined with
/// `; `, or nothing where the live entry lacks the attribute.
pub open spec fn shown_live_values(live: AttrMapView, attr: Seq<char>) -> Option<Seq<char>> {
    match lookup(live, attr) {
        Some(v) => Some(crate::text::seq_join(v, "; "@)),
        None => None,
    }
}

/// The change that the plan of a modified user shows: its DN, and for each
/// attribute modification, in order, the attribute with all its live
/// values (joined with `; `, none where absent) and all its new ones.
/// A user that needs no modification shows no change.
pub proof fn law_user_modify_shows_live_values(
    uid: Seq<char>,
    u: UserView,
    live: AttrMapView,
    live_users: Seq<(Seq<char>, AttrMapView)>,
    base_dn: Seq<char>,
)
    requires
        lookup(live_users, uid) == Some(live),
    ensures
        ({
            let mods = spec_diff_attrs(spec_resolve_user(u), live);
            let c = crate::reconcile::spec_plan_change(spec_user_plan((uid, u), live_users, base_dn));
            &&& mods.len() == 0 ==> c is None
            &&& mods.len() > 0 ==> (c matches Some(crate::plan::ResourceChangeView::Modify { resource_id, field_changes })
                && resource_id == spec_user_dn(uid, base_dn) && field_changes.len() == mods.len() && forall|k: int|
                0 <= k < mods.len() ==> (#[trigger] field_changes[k]).field == mods[k].attr
                    && field_changes[k].from == shown_live_values(live, mods[k].attr)
                    && field_changes[k].to == Some(crate::text::seq_join(mods[k].values, "; "@)))
        }),
{
}

/// The change that the plan of a modified group shows: its DN, and for
/// each attribute modification, in order, the attribute with all its live
/// values and all its new ones.
pub proof fn law_group_modify_shows_live_values(
    cn: Seq<char>,
    g: GroupView,
    live: AttrMapView,
    live_groups: Seq<(Seq<char>, AttrMapView)>,
    base_dn: Seq<char>,
)
    requires
        lookup(live_groups, cn) == Some(live),
    ensures
        ({
            let mods = spec_diff_multi_attrs(spec_created_group_attrs(cn, g, base_dn), live);
            let c = crate::reconcile::spec_plan_change(spec_group_plan((cn, g), live_groups, base_dn));
            &&& mods.len() == 0 ==> c is None
            &&& mods.len() > 0 ==> (c matches Some(crate::plan::ResourceChangeView::Modify { resource_id, field_changes })
                && resource_id == spec_group_dn(cn, base_dn) && field_changes.len() == mods.len() && forall|k: int|
                0 <= k < mods.len() ==> (#[trigger] field_changes[k]).field == mods[k].attr
                    && field_changes[k].from == shown_live_values(live, mods[k].attr)
                    && field_changes[k].to == Some(crate::text::seq_join(mods[k].values, "; "@)))
        }),
{
}

/// Every change that the plan of a desired user or group shows is among
/// the changes of the diff.
pub proof fn law_entry_changes_in_diff(d: DesiredView, l: LiveView, base_dn: Seq<char>, patterns: Seq<Seq<char>>)
    ensures
        forall|i: int|
            0 <= i < d.users.len() ==> (crate::reconcile::spec_plan_change(
                spec_user_plan(#[trigger] d.users[i], l.users, base_dn),
            ) matches Some(c) ==> spec_diff(d, l, base_dn, patterns).resource_changes.contains(c)),
        forall|i: int|
            0 <= i < d.groups.len() ==> (crate::reconcile::spec_plan_change(
                spec_group_plan(#[trigger] d.groups[i], l.groups, base_dn),
            ) matches Some(c) ==> spec_diff(d, l, base_dn, patterns).resource_changes.contains(c)),
{
    let up = spec_user_plans(d, l, base_dn);
    let gp = spec_group_plans(d, l, base_dn);
    let uc = up.filter_map(plan_change_fn());
    let gc = gp.filter_map(plan_change_fn());
    let rc = spec_diff(d, l, base_dn, patterns).resource_changes;
    let dl = crate::reconcile::spec_deletes(d, l, base_dn, patterns).map_values(crate::reconcile::delete_change_fn());
    assert(rc == uc + gc + dl);
    assert forall|i: int| 0 <= i < d.users.len() implies (crate::reconcile::spec_plan_change(
        spec_user_plan(#[trigger] d.users[i], l.users, base_dn),
    ) matches Some(c) ==> rc.contains(c)) by {
        if let Some(c) = crate::reconcile::spec_plan_change(spec_user_plan(d.users[i], l.users, base_dn)) {
            assert(plan_change_fn()(up[i]) == Some(c));
            lemma_filter_map_contains_iff(up, plan_change_fn(), c);
            let k = choose|k: int| 0 <= k < uc.len() && uc[k] == c;
            assert(rc[k] == c);
        }
    }
    assert forall|i: int| 0 <= i < d.groups.len() implies (crate::reconcile::spec_plan_change(
        spec_group_plan(#[trigger] d.groups[i], l.groups, base_dn),
    ) matches Some(c) ==> rc.contains(c)) by {
        if let Some(c) = crate::reconcile::spec_plan_change(spec_group_plan(d.groups[i], l.groups, base_dn)) {
            assert(plan_change_fn()(gp[i]) == Some(c));
            lemma_filter_map_contains_iff(gp, plan_change_fn(), c);
            let k = choose|k: int| 0 <= k < gc.len() && gc[k] == c;
            assert(rc[uc.len() + k] == c);
        }
    }
}


proof fn lemma_insert_resolved_other(
    s: Seq<(Seq<char>, ResolvedView)>,
    extras: Seq<(Seq<char>, crate::field_value::FieldValueView)>,
    k: Seq<char>,
)
    requires
        !has_key(extras, k),
    ensures
        lookup(spec_insert_resolved(s, extras), k) == lookup(s, k),
    decreases extras.len(),
{
    if extras.len() > 0 {
        let p = extras.drop_last();
        lemma_key_pos(extras, k);
        assert forall|j: int| 0 <= j < p.len() implies p[j].0 != k by {
            assert(p[j] == extras[j]);
        }
        lemma_key_pos_none(p, k);
        assert(extras[extras.len() - 1].0 != k);
        lemma_insert_resolved_other(s, p, k);
        lemma_lookup_insert_other(spec_insert_resolved(s, p), extras.last().0, spec_resolve(extras.last().1), k);
    }
}

proof fn lemma_insert_resolved_extra(
    s: Seq<(Seq<char>, ResolvedView)>,
    extras: Seq<(Seq<char>, crate::field_value::FieldValueView)>,
    i: int,
)
    requires
        keys_unique(extras),
        0 <= i < extras.len(),
    ensures
        lookup(spec_insert_resolved(s, extras), extras[i].0) == Some(spec_resolve(extras[i].1)),
    decreases extras.len(),
{
    let p = extras.drop_last();
    let n = extras.len() - 1;
    if i == n {
        lemma_lookup_insert_same(spec_insert_resolved(s, p), extras.last().0, spec_resolve(extras.last().1));
    } else {
        assert(extras[n].0 != extras[i].0);
        assert(p[i] == extras[i]);
        assert(keys_unique(p)) by {
            assert forall|a: int, b: int| 0 <= a < p.len() && 0 <= b < p.len() && a != b implies #[trigger] p[a].0
                != #[trigger] p[b].0 by {
                assert(p[a] == extras[a] && p[b] == extras[b]);
            }
        }
        lemma_insert_resolved_extra(s, p, i);
        lemma_lookup_insert_other(spec_insert_resolved(s, p), extras.last().0, spec_resolve(extras.last().1), extras[i].0);
    }
}

/// Each field that a user declares is resolved under its attribute name
/// (`cn`, `sn`, `mail`, `userPassword`, `loginShell`, `description`, or
/// the name of an extra field), unless an extra field of the same name
/// replaces a named one.
pub proof fn law_user_fields_resolved(u: UserView)
    ensures
        !has_key(u.extra_fields, "cn"@) ==> lookup(spec_resolve_user(u), "cn"@) == Some(spec_resolve(u.cn)),
        !has_key(u.extra_fields, "sn"@) ==> lookup(spec_resolve_user(u), "sn"@) == Some(spec_resolve(u.sn)),
        !has_key(u.extra_fields, "mail"@) ==> lookup(spec_resolve_user(u), "mail"@) == Some(spec_resolve(u.mail)),
        !has_key(u.extra_fields, "userPassword"@) ==> lookup(spec_resolve_user(u), "userPassword"@) == Some(
            spec_resolve(u.user_password),
        ),
        !has_key(u.extra_fields, "loginShell"@) ==> lookup(spec_resolve_user(u), "loginShell"@) == match u.login_shell {
            Some(f) => Some(spec_resolve(f)),
            None => None,
        },
        !has_key(u.extra_fields, "description"@) ==> lookup(spec_resolve_user(u), "description"@) == match u.description {
            Some(f) => Some(spec_resolve(f)),
            None => None,
        },
        keys_unique(u.extra_fields) ==> forall|i: int|
            0 <= i < u.extra_fields.len() ==> lookup(spec_resolve_user(u), (#[trigger] u.extra_fields[i]).0) == Some(
                spec_resolve(u.extra_fields[i].1),
            ),
{
    reveal_strlit("cn");
    reveal_strlit("sn");
    reveal_strlit("mail");
    reveal_strlit("userPassword");
    reveal_strlit("loginShell");
    reveal_strlit("description");
    let e = Seq::<(Seq<char>, ResolvedView)>::empty();
    let s1 = map_insert(e, "cn"@, spec_resolve(u.cn));
    let s2 = map_insert(s1, "sn"@, spec_resolve(u.sn));
    let s3 = map_insert(s2, "mail"@, spec_resolve(u.mail));
    let s4 = map_insert(s3, "userPassword"@, spec_resolve(u.user_password));
    let s5 = match u.login_shell {
        Some(f) => map_insert(s4, "loginShell"@, spec_resolve(f)),
        None => s4,
    };
    let s6 = match u.description {
        Some(f) => map_insert(s5, "description"@, spec_resolve(f)),
        None => s5,
    };
    assert(spec_resolve_user(u) == spec_insert_resolved(s6, u.extra_fields));
    let names = seq!["cn"@, "sn"@, "mail"@, "userPassword"@, "loginShell"@, "description"@];
    assert forall|a: int, b: int| 0 <= a < 6 && 0 <= b < 6 && a != b implies names[a] != names[b] by {
        if names[a].len() == names[b].len() {
            assert(names[a][0] != names[b][0]);
        }
    }
    // Named fields: each inserted once, the later inserts of other names
    // leave it as it is.
    lemma_key_pos_none(e, "cn"@);
    lemma_lookup_insert_same(e, "cn"@, spec_resolve(u.cn));
    lemma_lookup_insert_same(s1, "sn"@, spec_resolve(u.sn));
    lemma_lookup_insert_same(s2, "mail"@, spec_resolve(u.mail));
    lemma_lookup_insert_same(s3, "userPassword"@, spec_resolve(u.user_password));
    lemma_lookup_insert_other(s1, "sn"@, spec_resolve(u.sn), "cn"@);
    lemma_lookup_insert_other(s2, "mail"@, spec_resolve(u.mail), "cn"@);
    lemma_lookup_insert_other(s2, "mail"@, spec_resolve(u.mail), "sn"@);
    lemma_lookup_insert_other(s3, "userPassword"@, spec_resolve(u.user_password), "cn"@);
    lemma_lookup_insert_other(s3, "userPassword"@, spec_resolve(u.user_password), "sn"@);
    lemma_lookup_insert_other(s3, "userPassword"@, spec_resolve(u.user_password), "mail"@);
    // `loginShell` and `description` are absent until inserted.
    assert forall|j: int| 0 <= j < s4.len() implies s4[j].0 != "loginShell"@ && s4[j].0 != "description"@ by {
        lemma_key_pos(s4, s4[j].0);
        assert(has_key(s4, s4[j].0));
        if s4[j].0 == "loginShell"@ {
            lemma_lookup_insert_other(e, "cn"@, spec_resolve(u.cn), "loginShell"@);
            lemma_lookup_insert_other(s1, "sn"@, spec_resolve(u.sn), "loginShell"@);
            lemma_lookup_insert_other(s2, "mail"@, spec_resolve(u.mail), "loginShell"@);
            lemma_lookup_insert_other(s3, "userPassword"@, spec_resolve(u.user_password), "loginShell"@);
            lemma_key_pos_none(e, "loginShell"@);
        }
        if s4[j].0 == "description"@ {
            lemma_lookup_insert_other(e, "cn"@, spec_resolve(u.cn), "description"@);
            lemma_lookup_insert_other(s1, "sn"@, spec_resolve(u.sn), "description"@);
            lemma_lookup_insert_other(s2, "mail"@, spec_resolve(u.mail), "description"@);
            lemma_lookup_insert_other(s3, "userPassword"@, spec_resolve(u.user_password), "description"@);
            lemma_key_pos_none(e, "description"@);
        }
    }
    lemma_key_pos_none(s4, "loginShell"@);
    lemma_key_pos_none(s4, "description"@);
    match u.login_shell {
        Some(f) => {
            lemma_lookup_insert_same(s4, "loginShell"@, spec_resolve(f));
            lemma_lookup_insert_other(s4, "loginShell"@, spec_resolve(f), "cn"@);
            lemma_lookup_insert_other(s4, "loginShell"@, spec_resolve(f), "sn"@);
            lemma_lookup_insert_other(s4, "loginShell"@, spec_resolve(f), "mail"@);
            lemma_lookup_insert_other(s4, "loginShell"@, spec_resolve(f), "userPassword"@);
            lemma_lookup_insert_other(s4, "loginShell"@, spec_resolve(f), "description"@);
        },
        None => {},
    }
    match u.description {
        Some(f) => {
            lemma_lookup_insert_same(s5, "description"@, spec_resolve(f));
            lemma_lookup_insert_other(s5, "description"@, spec_resolve(f), "cn"@);
            lemma_lookup_insert_other(s5, "description"@, spec_resolve(f), "sn"@);
            lemma_lookup_insert_other(s5, "description"@, spec_resolve(f), "mail"@);
            lemma_lookup_insert_other(s5, "description"@, spec_resolve(f), "userPassword"@);
            lemma_lookup_insert_other(s5, "description"@, spec_resolve(f), "loginShell"@);
        },
        None => {},
    }
    if !has_key(u.extra_fields, "cn"@) {
        lemma_insert_resolved_other(s6, u.extra_fields, "cn"@);
    }
    if !has_key(u.extra_fields, "sn"@) {
        lemma_insert_resolved_other(s6, u.extra_fields, "sn"@);
    }
    if !has_key(u.extra_fields, "mail"@) {
        lemma_insert_resolved_other(s6, u.extra_fields, "mail"@);
    }
    if !has_key(u.extra_fields, "userPassword"@) {
        lemma_insert_resolved_other(s6, u.extra_fields, "userPassword"@);
    }
    if !has_key(u.extra_fields, "loginShell"@) {
        lemma_insert_resolved_other(s6, u.extra_fields, "loginShell"@);
    }
    if !has_key(u.extra_fields, "description"@) {
        lemma_insert_resolved_other(s6, u.extra_fields, "description"@);
    }
    if keys_unique(u.extra_fields) {
        assert forall|i: int| 0 <= i < u.extra_fields.len() implies lookup(
            spec_resolve_user(u),
            (#[trigger] u.extra_fields[i]).0,
        ) == Some(spec_resolve(u.extra_fields[i].1)) by {
            lemma_insert_resolved_extra(s6, u.extra_fields, i);
        }
    }
}


/// The add of a new user writes each resolved attribute that has values:
/// a managed or initial one with the LDAP values of its JSON value (an
/// `objectClass` or `uid` given this way is kept, not replaced by the
/// defaults); an unmanaged attribute, other than `objectClass` and `uid`,
/// is not written.
pub proof fn law_user_add_writes_fields(uid: Seq<char>, u: UserView, k: Seq<char>)
    ensures
        forall|v: JsonView|
            (lookup(spec_resolve_user(u), k) == Some(ResolvedView::Managed(v)) || lookup(spec_resolve_user(u), k)
                == Some(ResolvedView::Initial(v))) && (#[trigger] spec_attr_values(v)).len() > 0 ==> lookup(
                spec_created_user_attrs(uid, u),
                k,
            ) == Some(spec_attr_values(v)),
        lookup(spec_resolve_user(u), k) == Some(ResolvedView::Unmanaged) && k != "objectClass"@ && k != "uid"@
            ==> lookup(spec_created_user_attrs(uid, u), k) is None,
{
    let r = spec_resolve_user(u);
    lemma_resolve_user_unique(u);
    let f = |e: (Seq<char>, ResolvedView)| spec_attr_entry(e);
    let fm = spec_resolved_to_attr_map(r);
    assert(fm == r.filter_map(f));
    assert(keeps_keys(f));
    lemma_key_pos(r, k);
    if let Some(p) = key_pos(r, k) {
        lemma_lookup_filter_map(r, f, p);
        let a1 = if has_key(fm, "objectClass"@) {
            fm
        } else {
            map_insert(fm, "objectClass"@, crate::reconcile::user_object_classes())
        };
        match f(r[p]) {
            Some(q) => {
                assert(has_key(fm, k));
                lemma_lookup_maybe_insert(fm, "objectClass"@, crate::reconcile::user_object_classes(), k);
                assert(has_key(a1, k));
                lemma_lookup_maybe_insert(a1, "uid"@, seq![uid], k);
            },
            None => {
                if r[p].1 == ResolvedView::Unmanaged && k != "objectClass"@ && k != "uid"@ {
                    lemma_lookup_maybe_insert(fm, "objectClass"@, crate::reconcile::user_object_classes(), k);
                    lemma_lookup_maybe_insert(a1, "uid"@, seq![uid], k);
                }
            },
        }
    }
}

/// The description of a group is written where it resolves to a JSON
/// string, managed or initial alike, as exactly that one string; otherwise
/// the group has no description attribute.
pub proof fn law_group_description_written(cn: Seq<char>, g: GroupView, base_dn: Seq<char>)
    ensures
        lookup(spec_created_group_attrs(cn, g, base_dn), "description"@) == match g.description {
            Some(f) => match spec_resolve(f) {
                ResolvedView::Managed(JsonView::String(t)) => Some(seq![t]),
                ResolvedView::Initial(JsonView::String(t)) => Some(seq![t]),
                _ => None,
            },
            None => None,
        },
{
    reveal_strlit("objectClass");
    reveal_strlit("cn");
    reveal_strlit("description");
    reveal_strlit("member");
    assert("description"@[0] != "objectClass"@[0]);
    assert("description"@ != "member"@);
    assert("description"@ != "cn"@);
    let e = Seq::<(Seq<char>, Seq<Seq<char>>)>::empty();
    let s0a = map_insert(e, "objectClass"@, seq!["groupOfNames"@, "top"@]);
    let s0 = map_insert(s0a, "cn"@, seq![cn]);
    lemma_key_pos_none(e, "description"@);
    lemma_lookup_insert_other(e, "objectClass"@, seq!["groupOfNames"@, "top"@], "description"@);
    lemma_lookup_insert_other(s0a, "cn"@, seq![cn], "description"@);
    let s1 = match spec_group_description(g) {
        Some(r) => match crate::field_value::spec_as_str(r) {
            Some(dsc) => map_insert(s0, "description"@, seq![dsc]),
            None => s0,
        },
        None => s0,
    };
    if let Some(r) = spec_group_description(g) {
        if let Some(dsc) = crate::field_value::spec_as_str(r) {
            lemma_lookup_insert_same(s0, "description"@, seq![dsc]);
        }
    }
    lemma_lookup_insert_other(s1, "member"@, crate::reconcile::spec_member_dns(g.members, base_dn), "description"@);
}


/// Joining two non-empty runs of parts is joining each and putting the
/// separator between them.
pub proof fn lemma_join_append(a: Seq<Seq<char>>, b: Seq<Seq<char>>, sep: Seq<char>)
    requires
        a.len() > 0,
        b.len() > 0,
    ensures
        crate::text::seq_join(a + b, sep) == crate::text::seq_join(a, sep) + sep + crate::text::seq_join(b, sep),
    decreases b.len(),
{
    if b.len() == 1 {
        assert((a + b).drop_last() =~= a);
        assert((a + b).last() == b[0]);
    } else {
        assert((a + b).drop_last() =~= a + b.drop_last());
        assert((a + b).last() == b.last());
        lemma_join_append(a, b.drop_last(), sep);
        assert(crate::text::seq_join(a + b, sep) =~= crate::text::seq_join(a, sep) + sep + crate::text::seq_join(b, sep));
    }
}

/// The LDIF text of one change of a modify body: the line naming the
/// operation and the attribute, then a line `attr: value` for each value.
pub open spec fn ldif_change_text(c: LdapChangeView) -> Seq<char> {
    match c {
        LdapChangeView::Add(a, vs) => crate::text::seq_join(seq!["add: "@ + a] + attr_lines((a, vs)), "\n"@),
        LdapChangeView::Replace(a, vs) => crate::text::seq_join(
            seq!["replace: "@ + a] + attr_lines((a, vs)),
            "\n"@,
        ),
    }
}

/// A modify body starts with the `dn:` and `changetype: modify` lines;
/// appending a change appends its text on a new line, after a `-` line
/// of its own when a change comes before it. So every change after the
/// first is preceded by exactly one `-` line.
pub proof fn law_ldif_modify_separates_changes(dn: Seq<char>, cs: Seq<LdapChangeView>, c: LdapChangeView)
    ensures
        spec_ldif_modify(dn, Seq::empty()) == "dn: "@ + dn + "\nchangetype: modify"@,
        spec_ldif_modify(dn, cs.push(c)) == spec_ldif_modify(dn, cs) + (if cs.len() == 0 {
            "\n"@
        } else {
            "\n-\n"@
        }) + ldif_change_text(c),
{
    reveal_strlit("\nchangetype: modify");
    reveal_strlit("changetype: modify");
    reveal_strlit("\n");
    reveal_strlit("\n-\n");
    reveal_strlit("-");
    let header = seq!["dn: "@ + dn, "changetype: modify"@];
    let f = |i: int, x: LdapChangeView| crate::runbook::change_lines(i, x);
    let e = Seq::<LdapChangeView>::empty();
    assert(e.map(f).flatten() =~= Seq::<Seq<char>>::empty());
    assert(header + e.map(f).flatten() =~= header);
    assert(header.drop_last() =~= seq!["dn: "@ + dn]);
    assert(crate::text::seq_join(seq!["dn: "@ + dn], "\n"@) == "dn: "@ + dn);
    assert(header.last() == "changetype: modify"@);
    assert(crate::text::seq_join(header, "\n"@) == crate::text::seq_join(seq!["dn: "@ + dn], "\n"@) + "\n"@
        + "changetype: modify"@);
    assert("\nchangetype: modify"@ =~= "\n"@ + "changetype: modify"@);
    assert(crate::text::seq_join(header, "\n"@) =~= "dn: "@ + dn + "\nchangetype: modify"@);
    let n = cs.len();
    let body = match c {
        LdapChangeView::Add(a, vs) => seq!["add: "@ + a] + attr_lines((a, vs)),
        LdapChangeView::Replace(a, vs) => seq!["replace: "@ + a] + attr_lines((a, vs)),
    };
    assert(cs.push(c).map(f) =~= cs.map(f).push(f(n as int, c)));
    cs.map(f).lemma_flatten_push(f(n as int, c));
    let prefix = header + cs.map(f).flatten();
    let sep: Seq<Seq<char>> = if n > 0 {
        seq!["-"@]
    } else {
        Seq::empty()
    };
    assert(f(n as int, c) =~= sep + body);
    assert(header + cs.push(c).map(f).flatten() =~= prefix + (sep + body));
    if n == 0 {
        assert(prefix + (sep + body) =~= prefix + body);
        lemma_join_append(prefix, body, "\n"@);
    } else {
        assert(prefix + (sep + body) =~= prefix + (seq!["-"@] + body));
        lemma_join_append(prefix, seq!["-"@] + body, "\n"@);
        lemma_join_append(seq!["-"@], body, "\n"@);
        assert(crate::text::seq_join(seq!["-"@], "\n"@) == "-"@);
        assert(spec_ldif_modify(dn, cs.push(c)) =~= spec_ldif_modify(dn, cs) + "\n-\n"@ + ldif_change_text(c));
    }
}


/// The change that the plan of a new user shows: its DN, and for each
/// attribute its add writes, in order, the attribute from nothing to all
/// its values joined with `; `.
pub proof fn law_user_add_shows_written_values(
    uid: Seq<char>,
    u: UserView,
    live_users: Seq<(Seq<char>, AttrMapView)>,
    base_dn: Seq<char>,
)
    requires
        !has_key(live_users, uid),
    ensures
        ({
            let attrs = spec_created_user_attrs(uid, u);
            crate::reconcile::spec_plan_change(spec_user_plan((uid, u), live_users, base_dn)) matches Some(
                crate::plan::ResourceChangeView::Add { resource_id, fields },
            ) && resource_id == spec_user_dn(uid, base_dn) && fields.len() == attrs.len() && forall|k: int|
                0 <= k < attrs.len() ==> (#[trigger] fields[k]).field == attrs[k].0 && fields[k].from is None
                    && fields[k].to == Some(crate::text::seq_join(attrs[k].1, "; "@))
        }),
{
}

/// The change that the plan of a new group shows: its DN, and for each
/// attribute its add writes, in order, the attribute from nothing to all
/// its values joined with `; `.
pub proof fn law_group_add_shows_written_values(
    cn: Seq<char>,
    g: GroupView,
    live_groups: Seq<(Seq<char>, AttrMapView)>,
    base_dn: Seq<char>,
)
    requires
        !has_key(live_groups, cn),
    ensures
        ({
            let attrs = spec_created_group_attrs(cn, g, base_dn);
            crate::reconcile::spec_plan_change(spec_group_plan((cn, g), live_groups, base_dn)) matches Some(
                crate::plan::ResourceChangeView::Add { resource_id, fields },
            ) && resource_id == spec_group_dn(cn, base_dn) && fields.len() == attrs.len() && forall|k: int|
                0 <= k < attrs.len() ==> (#[trigger] fields[k]).field == attrs[k].0 && fields[k].from is None
                    && fields[k].to == Some(crate::text::seq_join(attrs[k].1, "; "@))
        }),
{
}

/// A group entry has the object classes `groupOfNames` and `top`, its own
/// cn, and as members the DNs of its member users (a placeholder user
/// where it has none, since `groupOfNames` asks for at least one).
pub proof fn law_group_core_attrs(cn: Seq<char>, g: GroupView, base_dn: Seq<char>)
    ensures
        lookup(spec_created_group_attrs(cn, g, base_dn), "objectClass"@) == Some(seq!["groupOfNames"@, "top"@]),
        lookup(spec_created_group_attrs(cn, g, base_dn), "cn"@) == Some(seq![cn]),
        lookup(spec_created_group_attrs(cn, g, base_dn), "member"@) == Some(
            if g.members.len() == 0 {
                seq![spec_user_dn("placeholder"@, base_dn)]
            } else {
                Seq::new(g.members.len(), |i: int| spec_user_dn(g.members[i], base_dn))
            },
        ),
{
    reveal_strlit("objectClass");
    reveal_strlit("cn");
    reveal_strlit("description");
    reveal_strlit("member");
    assert("description"@[0] != "objectClass"@[0]);
    assert("member"@.len() == 6 && "cn"@.len() == 2 && "objectClass"@.len() == 11);
    assert("member"@ != "objectClass"@);
    assert("member"@ != "cn"@);
    assert("cn"@ != "objectClass"@);
    assert("description"@ != "cn"@);
    let e = Seq::<(Seq<char>, Seq<Seq<char>>)>::empty();
    let oc = seq!["groupOfNames"@, "top"@];
    let s0a = map_insert(e, "objectClass"@, oc);
    let s0 = map_insert(s0a, "cn"@, seq![cn]);
    lemma_lookup_insert_same(e, "objectClass"@, oc);
    lemma_lookup_insert_other(s0a, "cn"@, seq![cn], "objectClass"@);
    lemma_lookup_insert_same(s0a, "cn"@, seq![cn]);
    let s1 = match spec_group_description(g) {
        Some(r) => match crate::field_value::spec_as_str(r) {
            Some(dsc) => map_insert(s0, "description"@, seq![dsc]),
            None => s0,
        },
        None => s0,
    };
    if let Some(r) = spec_group_description(g) {
        if let Some(dsc) = crate::field_value::spec_as_str(r) {
            lemma_lookup_insert_other(s0, "description"@, seq![dsc], "objectClass"@);
            lemma_lookup_insert_other(s0, "description"@, seq![dsc], "cn"@);
        }
    }
    let md = crate::reconcile::spec_member_dns(g.members, base_dn);
    lemma_lookup_insert_other(s1, "member"@, md, "objectClass"@);
    lemma_lookup_insert_other(s1, "member"@, md, "cn"@);
    lemma_lookup_insert_same(s1, "member"@, md);
    if g.members.len() > 0 {
        assert(md =~= Seq::new(g.members.len(), |i: int| spec_user_dn(g.members[i], base_dn)));
    }
}


/// A new user entry gets the object classes `inetOrgPerson`,
/// `organizationalPerson`, `person` and `top`, and its own uid as `uid`,
/// where the user declares no such attribute.
pub proof fn law_user_add_defaults(uid: Seq<char>, u: UserView)
    ensures
        lookup(spec_resolve_user(u), "objectClass"@) is None ==> lookup(spec_created_user_attrs(uid, u), "objectClass"@)
            == Some(seq!["inetOrgPerson"@, "organizationalPerson"@, "person"@, "top"@]),
        lookup(spec_resolve_user(u), "uid"@) is None ==> lookup(spec_created_user_attrs(uid, u), "uid"@) == Some(
            seq![uid],
        ),
{
    reveal_strlit("objectClass");
    reveal_strlit("uid");
    assert("uid"@.len() == 3 && "objectClass"@.len() == 11);
    assert("uid"@ != "objectClass"@);
    let r = spec_resolve_user(u);
    let f = |e: (Seq<char>, ResolvedView)| spec_attr_entry(e);
    let fm = spec_resolved_to_attr_map(r);
    assert(fm == r.filter_map(f));
    assert(keeps_keys(f));
    let oc = crate::reconcile::user_object_classes();
    let a1 = if has_key(fm, "objectClass"@) {
        fm
    } else {
        map_insert(fm, "objectClass"@, oc)
    };
    lemma_key_pos(r, "objectClass"@);
    lemma_key_pos(r, "uid"@);
    if lookup(r, "objectClass"@) is None {
        lemma_filter_map_keys(r, f, "objectClass"@);
        lemma_lookup_insert_same(fm, "objectClass"@, oc);
        lemma_lookup_maybe_insert(a1, "uid"@, seq![uid], "objectClass"@);
    }
    if lookup(r, "uid"@) is None {
        lemma_filter_map_keys(r, f, "uid"@);
        if !has_key(fm, "objectClass"@) {
            lemma_lookup_insert_other(fm, "objectClass"@, oc, "uid"@);
        }
        lemma_key_pos(a1, "uid"@);
        lemma_lookup_insert_same(a1, "uid"@, seq![uid]);
    }
}

} // verus!
