//! Resolves the desired state and compares it with the live state: what to
//! add, what to modify, what to delete, and in which order.

use vstd::prelude::*;
use crate::attrs::{
    AttrMap, AttrMapView, AttrMod, AttrModView, diff_attrs, diff_multi_attrs, resolved_to_attr_map,
    spec_diff_attrs, spec_diff_multi_attrs, spec_resolved_to_attr_map,
};
use crate::desired_state::{DesiredView, GroupEntry, GroupView, LdapDesiredState, UserEntry, UserView};
use crate::field_value::{
    FieldValueView, ResolvedFieldValue, ResolvedView, spec_as_str, spec_resolve,
};
use crate::live_state::{LdapLiveState, LiveEntry, LiveView};
use crate::strmap::{StrMap, has_key, lookup, map_insert, lemma_key_pos};
use crate::plan::{FieldDiff, FieldDiffView, ResourceChange, ResourceChangeView};
use crate::ignore::{IgnorePattern, is_ignored, spec_is_ignored};
use crate::text::{comma_count, count_char, join, seq_join};
use crate::sort::{
    by_key, isort, key_pairs, keys_fit, lemma_isort_keyed, lemma_key_pairs_extend, opt_seq,
    sort_keyed,
};

verus! {

/// The DN of the user `uid` under `base_dn`.
pub open spec fn spec_user_dn(uid: Seq<char>, base_dn: Seq<char>) -> Seq<char> {
    "uid="@ + uid + ",ou=users,"@ + base_dn
}

/// The DN of the group `cn` under `base_dn`.
pub open spec fn spec_group_dn(cn: Seq<char>, base_dn: Seq<char>) -> Seq<char> {
    "cn="@ + cn + ",ou=groups,"@ + base_dn
}

/// The DN of the unit that holds the users.
pub open spec fn spec_ou_users_dn(base_dn: Seq<char>) -> Seq<char> {
    "ou=users,"@ + base_dn
}

/// The DN of the unit that holds the groups.
pub open spec fn spec_ou_groups_dn(base_dn: Seq<char>) -> Seq<char> {
    "ou=groups,"@ + base_dn
}

/// Builds the DN of a user.
pub fn user_dn(uid: &str, base_dn: &str) -> (r: String)
    ensures
        r@ == spec_user_dn(uid@, base_dn@),
{
    let mut s = String::from_str("uid=");
    s.append(uid);
    s.append(",ou=users,");
    s.append(base_dn);
    s
}

/// Builds the DN of a group.
pub fn group_dn(cn: &str, base_dn: &str) -> (r: String)
    ensures
        r@ == spec_group_dn(cn@, base_dn@),
{
    let mut s = String::from_str("cn=");
    s.append(cn);
    s.append(",ou=groups,");
    s.append(base_dn);
    s
}

/// Builds the DN of the unit that holds the users.
pub fn ou_users_dn(base_dn: &str) -> (r: String)
    ensures
        r@ == spec_ou_users_dn(base_dn@),
{
    let mut s = String::from_str("ou=users,");
    s.append(base_dn);
    s
}

/// Builds the DN of the unit that holds the groups.
pub fn ou_groups_dn(base_dn: &str) -> (r: String)
    ensures
        r@ == spec_ou_groups_dn(base_dn@),
{
    let mut s = String::from_str("ou=groups,");
    s.append(base_dn);
    s
}

/// A user entry with its fields resolved, ready to compare with the live
/// entry.
pub struct ResolvedUser {
    pub attrs: StrMap<ResolvedFieldValue>,
}

/// A group entry with its description resolved.
pub struct ResolvedGroup {
    pub description: Option<ResolvedFieldValue>,
    pub members: Vec<String>,
}

/// The fields of `extras`, resolved, set one after the other into `s`.
pub open spec fn spec_insert_resolved(
    s: Seq<(Seq<char>, ResolvedView)>,
    extras: Seq<(Seq<char>, FieldValueView)>,
) -> Seq<(Seq<char>, ResolvedView)>
    decreases extras.len(),
{
    if extras.len() == 0 {
        s
    } else {
        map_insert(
            spec_insert_resolved(s, extras.drop_last()),
            extras.last().0,
            spec_resolve(extras.last().1),
        )
    }
}

/// The resolved attributes of a user: `cn`, `sn`, `mail`, `userPassword`,
/// then `loginShell` and `description` where given, then the extra fields,
/// each of which replaces a named one of the same name.
pub open spec fn spec_resolve_user(u: UserView) -> Seq<(Seq<char>, ResolvedView)> {
    let s0 = map_insert(
        map_insert(
            map_insert(
                map_insert(Seq::empty(), "cn"@, spec_resolve(u.cn)),
                "sn"@,
                spec_resolve(u.sn),
            ),
            "mail"@,
            spec_resolve(u.mail),
        ),
        "userPassword"@,
        spec_resolve(u.user_password),
    );
    let s1 = match u.login_shell {
        Some(f) => map_insert(s0, "loginShell"@, spec_resolve(f)),
        None => s0,
    };
    let s2 = match u.description {
        Some(f) => map_insert(s1, "description"@, spec_resolve(f)),
        None => s1,
    };
    spec_insert_resolved(s2, u.extra_fields)
}

/// Resolves the fields of the user `uid`.
pub fn resolve_user(uid: &str, user: &UserEntry) -> (r: ResolvedUser)
    ensures
        r.attrs@ == spec_resolve_user(user@),
{
    let mut attrs: StrMap<ResolvedFieldValue> = StrMap::new();
    attrs.insert(String::from_str("cn"), user.cn.resolve());
    attrs.insert(String::from_str("sn"), user.sn.resolve());
    attrs.insert(String::from_str("mail"), user.mail.resolve());
    attrs.insert(String::from_str("userPassword"), user.user_password.resolve());
    match &user.login_shell {
        Some(fv) => attrs.insert(String::from_str("loginShell"), fv.resolve()),
        None => {},
    }
    match &user.description {
        Some(fv) => attrs.insert(String::from_str("description"), fv.resolve()),
        None => {},
    }
    let ghost s2 = attrs@;
    let ghost extras = user.extra_fields@;
    let mut i: usize = 0;
    while i < user.extra_fields.len()
        invariant
            i <= extras.len(),
            extras == user.extra_fields@,
            attrs@ == spec_insert_resolved(s2, extras.take(i as int)),
        decreases extras.len() - i,
    {
        assert(extras.take(i + 1).drop_last() =~= extras.take(i as int));
        attrs.insert(user.extra_fields.key_at(i).clone(), user.extra_fields.value_at(i).resolve());
        i = i + 1;
    }
    assert(extras.take(extras.len() as int) =~= extras);
    ResolvedUser { attrs }
}

/// The view of an optional resolved field value.
pub open spec fn opt_resolved_view(o: Option<ResolvedFieldValue>) -> Option<ResolvedView> {
    match o {
        Some(r) => Some(r@),
        None => None,
    }
}

/// Resolves the fields of the group `cn`.
pub fn resolve_group(cn: &str, group: &GroupEntry) -> (r: ResolvedGroup)
    ensures
        opt_resolved_view(r.description) == match group@.description {
            Some(f) => Some(spec_resolve(f)),
            None => None::<ResolvedView>,
        },
        r.members.deep_view() == group@.members,
{
    let description = match &group.description {
        Some(fv) => Some(fv.resolve()),
        None => None,
    };
    ResolvedGroup { description, members: crate::text::clone_strings(&group.members) }
}

/// The object classes of a user entry.
pub open spec fn user_object_classes() -> Seq<Seq<char>> {
    seq!["inetOrgPerson"@, "organizationalPerson"@, "person"@, "top"@]
}

/// The attributes of a new user entry: `attrs` with the user object
/// classes and the `uid` added where absent.
pub open spec fn spec_with_user_object_classes(attrs: AttrMapView, uid: Seq<char>) -> AttrMapView {
    let a1 = if has_key(attrs, "objectClass"@) {
        attrs
    } else {
        map_insert(attrs, "objectClass"@, user_object_classes())
    };
    if has_key(a1, "uid"@) {
        a1
    } else {
        map_insert(a1, "uid"@, seq![uid])
    }
}

/// Adds the user object classes and the `uid` to the attributes of a new
/// user entry, where they are absent.
pub fn with_user_object_classes(attrs: AttrMap, uid: &str) -> (r: AttrMap)
    ensures
        r@ == spec_with_user_object_classes(attrs@, uid@),
{
    let mut attrs = attrs;
    if !attrs.contains_key("objectClass") {
        let mut classes: Vec<String> = Vec::new();
        classes.push(String::from_str("inetOrgPerson"));
        classes.push(String::from_str("organizationalPerson"));
        classes.push(String::from_str("person"));
        classes.push(String::from_str("top"));
        assert(classes.deep_view() =~= user_object_classes());
        attrs.insert(String::from_str("objectClass"), classes);
    }
    if !attrs.contains_key("uid") {
        let mut v: Vec<String> = Vec::new();
        v.push(String::from_str(uid));
        assert(v.deep_view() =~= seq![uid@]);
        attrs.insert(String::from_str("uid"), v);
    }
    attrs
}

/// The member DNs of a group: a placeholder member where it has none,
/// since `groupOfNames` asks for at least one.
pub open spec fn spec_member_dns(members: Seq<Seq<char>>, base_dn: Seq<char>) -> Seq<Seq<char>> {
    if members.len() == 0 {
        seq![spec_user_dn("placeholder"@, base_dn)]
    } else {
        members.map_values(|m: Seq<char>| spec_user_dn(m, base_dn))
    }
}

/// The attributes of a group entry: its object classes, `cn`, the
/// description where it is a string, and the members.
pub open spec fn spec_group_attrs(
    description: Option<ResolvedView>,
    members: Seq<Seq<char>>,
    cn: Seq<char>,
    base_dn: Seq<char>,
) -> AttrMapView {
    let s0 = map_insert(
        map_insert(Seq::empty(), "objectClass"@, seq!["groupOfNames"@, "top"@]),
        "cn"@,
        seq![cn],
    );
    let s1 = match description {
        Some(r) => match spec_as_str(r) {
            Some(d) => map_insert(s0, "description"@, seq![d]),
            None => s0,
        },
        None => s0,
    };
    map_insert(s1, "member"@, spec_member_dns(members, base_dn))
}

/// Builds the attributes of a group entry.
pub fn group_to_attr_map(group: &ResolvedGroup, cn: &str, base_dn: &str) -> (r: AttrMap)
    ensures
        r@ == spec_group_attrs(
            opt_resolved_view(group.description),
            group.members.deep_view(),
            cn@,
            base_dn@,
        ),
{
    let mut attrs: AttrMap = StrMap::new();
    let mut classes: Vec<String> = Vec::new();
    classes.push(String::from_str("groupOfNames"));
    classes.push(String::from_str("top"));
    assert(classes.deep_view() =~= seq!["groupOfNames"@, "top"@]);
    attrs.insert(String::from_str("objectClass"), classes);
    let mut cns: Vec<String> = Vec::new();
    cns.push(String::from_str(cn));
    assert(cns.deep_view() =~= seq![cn@]);
    attrs.insert(String::from_str("cn"), cns);
    match &group.description {
        Some(rfv) => match rfv.as_str() {
            Some(desc) => {
                let mut d: Vec<String> = Vec::new();
                d.push(String::from_str(desc));
                assert(d.deep_view() =~= seq![desc@]);
                attrs.insert(String::from_str("description"), d);
            },
            None => {},
        },
        None => {},
    }
    let ghost members = group.members.deep_view();
    let mut member_dns: Vec<String> = Vec::new();
    if group.members.len() == 0 {
        member_dns.push(user_dn("placeholder", base_dn));
        assert(member_dns.deep_view() =~= spec_member_dns(members, base_dn@));
    } else {
        let mut i: usize = 0;
        while i < group.members.len()
            invariant
                i <= group.members@.len(),
                members == group.members.deep_view(),
                member_dns.deep_view() =~= members.take(i as int).map_values(
                    |m: Seq<char>| spec_user_dn(m, base_dn@),
                ),
            decreases group.members@.len() - i,
        {
            let ghost before = member_dns.deep_view();
            let dn = user_dn(group.members[i].as_str(), base_dn);
            member_dns.push(dn);
            assert(member_dns.deep_view() =~= before.push(dn@));
            assert(members.take(i + 1) =~= members.take(i as int).push(members[i as int]));
            i = i + 1;
        }
        assert(members.take(members.len() as int) =~= members);
    }
    attrs.insert(String::from_str("member"), member_dns);
    attrs
}

/// The changes the provider makes, by kind, so that the runbook can order
/// them: entries to add (DN and attributes), entries to modify (DN and
/// attribute changes), DNs to delete (deepest first).
pub struct LdapDiff {
    pub resource_changes: Vec<ResourceChange>,
    pub to_add: Vec<(String, AttrMap)>,
    pub to_modify: Vec<(String, Vec<AttrMod>)>,
    pub to_delete: Vec<String>,
}

/// The view of an [`LdapDiff`].
pub struct LdapDiffView {
    pub resource_changes: Seq<ResourceChangeView>,
    pub to_add: Seq<(Seq<char>, AttrMapView)>,
    pub to_modify: Seq<(Seq<char>, Seq<AttrModView>)>,
    pub to_delete: Seq<Seq<char>>,
}

impl View for LdapDiff {
    type V = LdapDiffView;

    open spec fn view(&self) -> LdapDiffView {
        LdapDiffView {
            resource_changes: self.resource_changes.deep_view(),
            to_add: self.to_add.deep_view(),
            to_modify: self.to_modify.deep_view(),
            to_delete: self.to_delete.deep_view(),
        }
    }
}

/// What one desired entry needs: to be added with these attributes, to be
/// modified by these changes (with the live attributes it has), or nothing.
pub enum EntryPlan {
    Add(Seq<char>, AttrMapView),
    Modify(Seq<char>, Seq<AttrModView>, AttrMapView),
    Unchanged,
}

/// The plan of the desired user `e` against the live users.
pub open spec fn spec_user_plan(
    e: (Seq<char>, UserView),
    live_users: Seq<(Seq<char>, AttrMapView)>,
    base_dn: Seq<char>,
) -> EntryPlan {
    let dn = spec_user_dn(e.0, base_dn);
    let resolved = spec_resolve_user(e.1);
    match lookup(live_users, e.0) {
        None => EntryPlan::Add(
            dn,
            spec_with_user_object_classes(spec_resolved_to_attr_map(resolved), e.0),
        ),
        Some(live) => {
            let mods = spec_diff_attrs(resolved, live);
            if mods.len() == 0 {
                EntryPlan::Unchanged
            } else {
                EntryPlan::Modify(dn, mods, live)
            }
        },
    }
}

/// The resolved description of a group.
pub open spec fn spec_group_description(g: GroupView) -> Option<ResolvedView> {
    match g.description {
        Some(f) => Some(spec_resolve(f)),
        None => None,
    }
}

/// The plan of the desired group `e` against the live groups.
pub open spec fn spec_group_plan(
    e: (Seq<char>, GroupView),
    live_groups: Seq<(Seq<char>, AttrMapView)>,
    base_dn: Seq<char>,
) -> EntryPlan {
    let dn = spec_group_dn(e.0, base_dn);
    let attrs = spec_group_attrs(spec_group_description(e.1), e.1.members, e.0, base_dn);
    match lookup(live_groups, e.0) {
        None => EntryPlan::Add(dn, attrs),
        Some(live) => {
            let mods = spec_diff_multi_attrs(attrs, live);
            if mods.len() == 0 {
                EntryPlan::Unchanged
            } else {
                EntryPlan::Modify(dn, mods, live)
            }
        },
    }
}

/// The field changes that a new entry shows: each attribute from nothing
/// to its values joined with `; `.
pub open spec fn spec_add_fields(attrs: AttrMapView) -> Seq<FieldDiffView> {
    attrs.map_values(
        |e: (Seq<char>, Seq<Seq<char>>)|
            FieldDiffView { field: e.0, from: None, to: Some(seq_join(e.1, "; "@)) },
    )
}

/// The field changes that a modified entry shows: each changed attribute
/// from its live values to its new ones, joined with `; `.
pub open spec fn spec_modify_fields(mods: Seq<AttrModView>, live: AttrMapView) -> Seq<FieldDiffView> {
    mods.map_values(
        |m: AttrModView|
            FieldDiffView {
                field: m.attr,
                from: match lookup(live, m.attr) {
                    Some(v) => Some(seq_join(v, "; "@)),
                    None => None,
                },
                to: Some(seq_join(m.values, "; "@)),
            },
    )
}

/// The change that a plan shows, if any.
pub open spec fn spec_plan_change(p: EntryPlan) -> Option<ResourceChangeView> {
    match p {
        EntryPlan::Add(dn, attrs) => Some(
            ResourceChangeView::Add { resource_id: dn, fields: spec_add_fields(attrs) },
        ),
        EntryPlan::Modify(dn, mods, live) => Some(
            ResourceChangeView::Modify { resource_id: dn, field_changes: spec_modify_fields(mods, live) },
        ),
        EntryPlan::Unchanged => None,
    }
}

/// The entry that a plan adds, if any.
pub open spec fn spec_plan_add(p: EntryPlan) -> Option<(Seq<char>, AttrMapView)> {
    match p {
        EntryPlan::Add(dn, attrs) => Some((dn, attrs)),
        _ => None,
    }
}

/// The modification that a plan makes, if any.
pub open spec fn spec_plan_modify(p: EntryPlan) -> Option<(Seq<char>, Seq<AttrModView>)> {
    match p {
        EntryPlan::Modify(dn, mods, _) => Some((dn, mods)),
        _ => None,
    }
}

/// The plans of the desired users, in order.
pub open spec fn spec_user_plans(d: DesiredView, l: LiveView, base_dn: Seq<char>) -> Seq<EntryPlan> {
    d.users.map_values(|e: (Seq<char>, UserView)| spec_user_plan(e, l.users, base_dn))
}

/// The plans of the desired groups, in order.
pub open spec fn spec_group_plans(d: DesiredView, l: LiveView, base_dn: Seq<char>) -> Seq<EntryPlan> {
    d.groups.map_values(|e: (Seq<char>, GroupView)| spec_group_plan(e, l.groups, base_dn))
}

/// The DN of a live entry that the desired state lacks, unless an ignore
/// pattern matches it.
pub open spec fn spec_delete_candidate<W, X>(
    e: (Seq<char>, W),
    desired: Seq<(Seq<char>, X)>,
    dn: Seq<char>,
    patterns: Seq<Seq<char>>,
) -> Option<Seq<char>> {
    if has_key(desired, e.0) || spec_is_ignored(dn, patterns) {
        None
    } else {
        Some(dn)
    }
}

/// The DN to delete for a live user, if any.
pub open spec fn user_delete_fn(d: DesiredView, base_dn: Seq<char>, patterns: Seq<Seq<char>>) -> spec_fn(
    (Seq<char>, AttrMapView),
) -> Option<Seq<char>> {
    |e: (Seq<char>, AttrMapView)| spec_delete_candidate(e, d.users, spec_user_dn(e.0, base_dn), patterns)
}

/// The DN to delete for a live group, if any.
pub open spec fn group_delete_fn(d: DesiredView, base_dn: Seq<char>, patterns: Seq<Seq<char>>) -> spec_fn(
    (Seq<char>, AttrMapView),
) -> Option<Seq<char>> {
    |e: (Seq<char>, AttrMapView)| spec_delete_candidate(e, d.groups, spec_group_dn(e.0, base_dn), patterns)
}

/// The DNs to delete, before ordering: live users, then live groups, that
/// the desired state lacks and that no ignore pattern matches.
pub open spec fn spec_delete_candidates(
    d: DesiredView,
    l: LiveView,
    base_dn: Seq<char>,
    patterns: Seq<Seq<char>>,
) -> Seq<Seq<char>> {
    l.users.filter_map(user_delete_fn(d, base_dn, patterns)) + l.groups.filter_map(
        group_delete_fn(d, base_dn, patterns),
    )
}

/// The number of commas of a DN, one less than its number of components.
pub open spec fn dn_commas(dn: Seq<char>) -> int {
    count_char(dn, ',') as int
}

/// The key by which DNs to delete are ordered.
pub open spec fn dn_key() -> spec_fn(Seq<char>) -> int {
    |dn: Seq<char>| dn_commas(dn)
}

/// The key by which entries to add are ordered.
pub open spec fn add_key() -> spec_fn((Seq<char>, AttrMapView)) -> int {
    |e: (Seq<char>, AttrMapView)| dn_commas(e.0)
}

/// The change of a plan, as a function.
pub open spec fn plan_change_fn() -> spec_fn(EntryPlan) -> Option<ResourceChangeView> {
    |p: EntryPlan| spec_plan_change(p)
}

/// The entry that a plan adds, as a function.
pub open spec fn plan_add_fn() -> spec_fn(EntryPlan) -> Option<(Seq<char>, AttrMapView)> {
    |p: EntryPlan| spec_plan_add(p)
}

/// The modification of a plan, as a function.
pub open spec fn plan_modify_fn() -> spec_fn(EntryPlan) -> Option<(Seq<char>, Seq<AttrModView>)> {
    |p: EntryPlan| spec_plan_modify(p)
}

/// The change that deletes a DN.
pub open spec fn delete_change_fn() -> spec_fn(Seq<char>) -> ResourceChangeView {
    |dn: Seq<char>| ResourceChangeView::Delete { resource_id: dn }
}

/// The DNs to delete, deepest first (stably).
pub open spec fn spec_deletes(d: DesiredView, l: LiveView, base_dn: Seq<char>, patterns: Seq<Seq<char>>) -> Seq<Seq<char>> {
    isort(spec_delete_candidates(d, l, base_dn, patterns), by_key(dn_key(), true))
}

/// The entries to add, before ordering: users, then groups.
pub open spec fn spec_add_candidates(d: DesiredView, l: LiveView, base_dn: Seq<char>) -> Seq<(Seq<char>, AttrMapView)> {
    spec_user_plans(d, l, base_dn).filter_map(plan_add_fn()) + spec_group_plans(d, l, base_dn).filter_map(
        plan_add_fn(),
    )
}

/// The whole comparison of the desired with the live state: the changes
/// of users, then of groups, then the deletions; the entries to add,
/// parents before children (stably); the entries to modify; the DNs to
/// delete, deepest first.
pub open spec fn spec_diff(d: DesiredView, l: LiveView, base_dn: Seq<char>, patterns: Seq<Seq<char>>) -> LdapDiffView {
    let up = spec_user_plans(d, l, base_dn);
    let gp = spec_group_plans(d, l, base_dn);
    let deletes = spec_deletes(d, l, base_dn, patterns);
    LdapDiffView {
        resource_changes: up.filter_map(plan_change_fn()) + gp.filter_map(plan_change_fn())
            + deletes.map_values(delete_change_fn()),
        to_add: isort(spec_add_candidates(d, l, base_dn), by_key(add_key(), false)),
        to_modify: up.filter_map(plan_modify_fn()) + gp.filter_map(plan_modify_fn()),
        to_delete: deletes,
    }
}

/// What one entry plan gives to each part of the diff.
struct PlanParts {
    change: Option<ResourceChange>,
    add: Option<(String, AttrMap)>,
    modify: Option<(String, Vec<AttrMod>)>,
}

/// The view of an optional change.
spec fn opt_change_view(o: Option<ResourceChange>) -> Option<ResourceChangeView> {
    match o {
        Some(c) => Some(c@),
        None => None,
    }
}

spec fn opt_add_view(o: Option<(String, AttrMap)>) -> Option<(Seq<char>, AttrMapView)> {
    match o {
        Some(a) => Some((a.0@, a.1@)),
        None => None,
    }
}

spec fn opt_modify_view(o: Option<(String, Vec<AttrMod>)>) -> Option<(Seq<char>, Seq<AttrModView>)> {
    match o {
        Some(m) => Some((m.0@, m.1.deep_view())),
        None => None,
    }
}

spec fn parts_match(r: PlanParts, p: EntryPlan) -> bool {
    &&& opt_change_view(r.change) == spec_plan_change(p)
    &&& opt_add_view(r.add) == spec_plan_add(p)
    &&& opt_modify_view(r.modify) == spec_plan_modify(p)
}

fn add_fields(attrs: &AttrMap) -> (r: Vec<FieldDiff>)
    ensures
        r.deep_view() == spec_add_fields(attrs@),
{
    let mut out: Vec<FieldDiff> = Vec::new();
    let mut i: usize = 0;
    while i < attrs.len()
        invariant
            i <= attrs@.len(),
            out.deep_view() =~= spec_add_fields(attrs@).take(i as int),
        decreases attrs@.len() - i,
    {
        let ghost before = out.deep_view();
        let f = FieldDiff {
            field: attrs.key_at(i).clone(),
            from: None,
            to: Some(join(attrs.value_at(i), "; ")),
        };
        out.push(f);
        assert(out.deep_view() =~= before.push(f@));
        assert(spec_add_fields(attrs@).take(i + 1) =~= spec_add_fields(attrs@).take(i as int).push(
            spec_add_fields(attrs@)[i as int],
        ));
        i = i + 1;
    }
    assert(spec_add_fields(attrs@).take(attrs@.len() as int) =~= spec_add_fields(attrs@));
    out
}

fn modify_fields(mods: &Vec<AttrMod>, live: &LiveEntry) -> (r: Vec<FieldDiff>)
    ensures
        r.deep_view() == spec_modify_fields(mods.deep_view(), live@),
{
    let ghost target = spec_modify_fields(mods.deep_view(), live@);
    let mut out: Vec<FieldDiff> = Vec::new();
    let mut i: usize = 0;
    while i < mods.len()
        invariant
            i <= mods@.len(),
            target == spec_modify_fields(mods.deep_view(), live@),
            out.deep_view() =~= target.take(i as int),
        decreases mods@.len() - i,
    {
        let ghost before = out.deep_view();
        let m = &mods[i];
        let from = match live.get(m.attr.as_str()) {
            Some(v) => Some(join(v, "; ")),
            None => None,
        };
        let f = FieldDiff { field: m.attr.clone(), from, to: Some(join(&m.values, "; ")) };
        assert(mods.deep_view()[i as int] == m@);
        out.push(f);
        assert(out.deep_view() =~= before.push(f@));
        assert(target.take(i + 1) =~= target.take(i as int).push(target[i as int]));
        i = i + 1;
    }
    assert(target.take(mods@.len() as int) =~= target);
    out
}

fn plan_parts(dn: String, attrs_if_new: Option<AttrMap>, mods: Vec<AttrMod>, live: Option<&LiveEntry>) -> (r: PlanParts)
    requires
        attrs_if_new is Some <==> live is None,
    ensures
        live is None ==> parts_match(r, EntryPlan::Add(dn@, attrs_if_new->0@)),
        live is Some && mods@.len() == 0 ==> parts_match(r, EntryPlan::Unchanged),
        live is Some && mods@.len() > 0 ==> parts_match(
            r,
            EntryPlan::Modify(dn@, mods.deep_view(), live->0@),
        ),
{
    match live {
        None => {
            let attrs = attrs_if_new.unwrap();
            let fields = add_fields(&attrs);
            let change = ResourceChange::Add { resource_id: dn.clone(), fields };
            PlanParts { change: Some(change), add: Some((dn, attrs)), modify: None }
        },
        Some(le) => {
            if mods.len() == 0 {
                PlanParts { change: None, add: None, modify: None }
            } else {
                let field_changes = modify_fields(&mods, le);
                let change = ResourceChange::Modify { resource_id: dn.clone(), field_changes };
                PlanParts { change: Some(change), add: None, modify: Some((dn, mods)) }
            }
        },
    }
}

fn plan_user(uid: &String, user: &UserEntry, live: &LdapLiveState, base_dn: &str) -> (r: PlanParts)
    ensures
        parts_match(r, spec_user_plan((uid@, user@), live@.users, base_dn@)),
{
    let dn = user_dn(uid.as_str(), base_dn);
    let resolved = resolve_user(uid.as_str(), user);
    let live_entry = live.users.get(uid.as_str());
    match live_entry {
        None => {
            let attrs = with_user_object_classes(resolved_to_attr_map(&resolved.attrs), uid.as_str());
            plan_parts(dn, Some(attrs), Vec::new(), None)
        },
        Some(le) => {
            let mods = diff_attrs(&resolved.attrs, le);
            plan_parts(dn, None, mods, Some(le))
        },
    }
}

fn plan_group(cn: &String, group: &GroupEntry, live: &LdapLiveState, base_dn: &str) -> (r: PlanParts)
    ensures
        parts_match(r, spec_group_plan((cn@, group@), live@.groups, base_dn@)),
{
    let dn = group_dn(cn.as_str(), base_dn);
    let resolved = resolve_group(cn.as_str(), group);
    let desired_attrs = group_to_attr_map(&resolved, cn.as_str(), base_dn);
    assert(opt_resolved_view(resolved.description) == spec_group_description(group@));
    let live_entry = live.groups.get(cn.as_str());
    match live_entry {
        None => plan_parts(dn, Some(desired_attrs), Vec::new(), None),
        Some(le) => {
            let mods = diff_multi_attrs(&desired_attrs, le);
            plan_parts(dn, None, mods, Some(le))
        },
    }
}

/// Resolves `desired` and compares it with `live`. Live entries that the
/// desired state lacks are deleted unless their DN matches an ignore
/// pattern.
pub fn diff(
    desired: &LdapDesiredState,
    live: &LdapLiveState,
    base_dn: &str,
    ignore: &[IgnorePattern],
) -> (r: LdapDiff)
    ensures
        r@ == spec_diff(desired@, live@, base_dn@, ignore.deep_view()),
{
    let ghost d = desired@;
    let ghost l = live@;
    let ghost pats = ignore.deep_view();
    let ghost up = spec_user_plans(d, l, base_dn@);
    let ghost gp = spec_group_plans(d, l, base_dn@);
    let mut changes: Vec<ResourceChange> = Vec::new();
    let mut adds: Vec<(usize, (String, AttrMap))> = Vec::new();
    let mut modifies: Vec<(String, Vec<AttrMod>)> = Vec::new();

    // Desired users.
    let mut i: usize = 0;
    while i < desired.users.len()
        invariant
            d == desired@,
            l == live@,
            up == spec_user_plans(d, l, base_dn@),
            i <= d.users.len(),
            changes.deep_view() == up.take(i as int).filter_map(plan_change_fn()),
            adds.deep_view() == key_pairs(up.take(i as int).filter_map(plan_add_fn()), add_key()),
            keys_fit(up.take(i as int).filter_map(plan_add_fn()), add_key()),
            modifies.deep_view() == up.take(i as int).filter_map(plan_modify_fn()),
        decreases d.users.len() - i,
    {
        let parts = plan_user(desired.users.key_at(i), desired.users.value_at(i), live, base_dn);
        proof {
            assert(up[i as int] == spec_user_plan(d.users[i as int], l.users, base_dn@));
            up.lemma_filter_map_take_succ(plan_change_fn(), i as int);
            up.lemma_filter_map_take_succ(plan_add_fn(), i as int);
            up.lemma_filter_map_take_succ(plan_modify_fn(), i as int);
        }
        let ghost pa = opt_add_view(parts.add);
        push_parts(&mut changes, &mut adds, &mut modifies, parts);
        proof {
            lemma_key_pairs_extend(up.take(i as int).filter_map(plan_add_fn()), pa, add_key());
            assert(up.take(i + 1).filter_map(plan_add_fn()) =~= up.take(i as int).filter_map(plan_add_fn()) + opt_seq(pa));
        }
        i = i + 1;
    }
    proof {
        assert(up.take(d.users.len() as int) =~= up);
    }

    // Desired groups.
    let ghost uc = up.filter_map(plan_change_fn());
    let ghost ua = up.filter_map(plan_add_fn());
    let ghost um = up.filter_map(plan_modify_fn());
    let mut j: usize = 0;
    while j < desired.groups.len()
        invariant
            d == desired@,
            l == live@,
            gp == spec_group_plans(d, l, base_dn@),
            uc == up.filter_map(plan_change_fn()),
            ua == up.filter_map(plan_add_fn()),
            um == up.filter_map(plan_modify_fn()),
            j <= d.groups.len(),
            changes.deep_view() == uc + gp.take(j as int).filter_map(plan_change_fn()),
            adds.deep_view() == key_pairs(ua + gp.take(j as int).filter_map(plan_add_fn()), add_key()),
            keys_fit(ua + gp.take(j as int).filter_map(plan_add_fn()), add_key()),
            modifies.deep_view() == um + gp.take(j as int).filter_map(plan_modify_fn()),
        decreases d.groups.len() - j,
    {
        let parts = plan_group(desired.groups.key_at(j), desired.groups.value_at(j), live, base_dn);
        proof {
            assert(gp[j as int] == spec_group_plan(d.groups[j as int], l.groups, base_dn@));
            gp.lemma_filter_map_take_succ(plan_change_fn(), j as int);
            gp.lemma_filter_map_take_succ(plan_add_fn(), j as int);
            gp.lemma_filter_map_take_succ(plan_modify_fn(), j as int);
            assert(uc + gp.take(j + 1).filter_map(plan_change_fn()) =~= (uc + gp.take(j as int).filter_map(plan_change_fn())) + match spec_plan_change(gp[j as int]) {
                Some(c) => seq![c],
                None => Seq::empty(),
            });
            assert(ua + gp.take(j + 1).filter_map(plan_add_fn()) =~= (ua + gp.take(j as int).filter_map(plan_add_fn())) + match spec_plan_add(gp[j as int]) {
                Some(c) => seq![c],
                None => Seq::empty(),
            });
            assert(um + gp.take(j + 1).filter_map(plan_modify_fn()) =~= (um + gp.take(j as int).filter_map(plan_modify_fn())) + match spec_plan_modify(gp[j as int]) {
                Some(c) => seq![c],
                None => Seq::empty(),
            });
        }
        let ghost pa = opt_add_view(parts.add);
        push_parts(&mut changes, &mut adds, &mut modifies, parts);
        proof {
            lemma_key_pairs_extend(ua + gp.take(j as int).filter_map(plan_add_fn()), pa, add_key());
            assert(ua + gp.take(j + 1).filter_map(plan_add_fn()) =~= (ua + gp.take(j as int).filter_map(plan_add_fn())) + opt_seq(pa));
        }
        j = j + 1;
    }
    proof {
        assert(gp.take(d.groups.len() as int) =~= gp);
    }

    // Live entries that the desired state lacks.
    let cands = delete_candidates(desired, live, base_dn, ignore);
    let ghost cs = spec_delete_candidates(d, l, base_dn@, pats);
    proof {
        lemma_isort_keyed(cs, dn_key(), true);
    }
    let sorted_deletes = sort_keyed(cands, true);
    let ghost deletes = spec_deletes(d, l, base_dn@, pats);
    assert(sorted_deletes.deep_view().len() == deletes.len());
    let mut to_delete: Vec<String> = Vec::new();
    let ghost cbefore = changes.deep_view();
    let mut k: usize = 0;
    while k < sorted_deletes.len()
        invariant
            k <= sorted_deletes@.len(),
            sorted_deletes.deep_view() == key_pairs(deletes, dn_key()),
            sorted_deletes@.len() == deletes.len(),
            to_delete.deep_view() =~= deletes.take(k as int),
            changes.deep_view() =~= cbefore + deletes.take(k as int).map_values(delete_change_fn()),
        decreases sorted_deletes@.len() - k,
    {
        let dn = sorted_deletes[k].1.clone();
        assert(sorted_deletes.deep_view().len() == deletes.len());
        assert(dn@ == deletes[k as int]) by {
            assert(sorted_deletes.deep_view()[k as int] == key_pairs(deletes, dn_key())[k as int]);
            assert(sorted_deletes.deep_view()[k as int].1 == sorted_deletes@[k as int].1@);
        }
        let ghost tb = to_delete.deep_view();
        let ghost chb = changes.deep_view();
        let c = ResourceChange::Delete { resource_id: dn.clone() };
        changes.push(c);
        to_delete.push(dn);
        assert(to_delete.deep_view() =~= tb.push(deletes[k as int]));
        assert(changes.deep_view() =~= chb.push(c@));
        assert(deletes.take(k + 1) =~= deletes.take(k as int).push(deletes[k as int]));
        k = k + 1;
    }
    proof {
        assert(deletes.take(deletes.len() as int) =~= deletes);
    }

    // Entries to add, parents before children.
    let ghost acs = spec_add_candidates(d, l, base_dn@);
    proof {
        lemma_isort_keyed(acs, add_key(), false);
    }
    let sorted_adds = sort_keyed(adds, false);
    let ghost add_order = isort(acs, by_key(add_key(), false));
    let mut rest = sorted_adds;
    let mut to_add: Vec<(String, AttrMap)> = Vec::new();
    let ghost n = add_order.len();
    assert(rest.deep_view().len() == n);
    assert(key_pairs(add_order, add_key()).skip(0) =~= key_pairs(add_order, add_key()));
    assert(add_order.take(0) =~= Seq::<(Seq<char>, AttrMapView)>::empty());
    while rest.len() > 0
        invariant
            rest.deep_view() =~= key_pairs(add_order, add_key()).skip(n - rest@.len()),
            to_add.deep_view() =~= add_order.take(n - rest@.len()),
            rest@.len() <= n,
            n == add_order.len(),
        decreases rest@.len(),
    {
        let ghost rb = rest.deep_view();
        let ghost rv = rest@;
        let ghost done = n - rest@.len();
        let (_, item) = rest.remove(0);
        assert(rb[0] == rv[0].deep_view());
        let ghost tb = to_add.deep_view();
        to_add.push(item);
        assert(to_add.deep_view() =~= tb.push(add_order[done]));
        assert(add_order.take(done + 1) =~= add_order.take(done).push(add_order[done]));
        assert(rest.deep_view() =~= rb.drop_first());
    }
    proof {
        assert(add_order.take(n as int) =~= add_order);
    }
    LdapDiff { resource_changes: changes, to_add, to_modify: modifies, to_delete }
}

fn push_parts(
    changes: &mut Vec<ResourceChange>,
    adds: &mut Vec<(usize, (String, AttrMap))>,
    modifies: &mut Vec<(String, Vec<AttrMod>)>,
    parts: PlanParts,
)
    ensures
        final(changes).deep_view() == old(changes).deep_view() + match opt_change_view(parts.change) {
            Some(c) => seq![c],
            None => Seq::empty(),
        },
        final(adds).deep_view() == old(adds).deep_view() + opt_seq(
            match opt_add_view(parts.add) {
                Some(a) => Some((dn_commas(a.0) as usize, a)),
                None => None,
            },
        ),
        opt_add_view(parts.add) matches Some(a) ==> 0 <= dn_commas(a.0) <= usize::MAX,
        final(modifies).deep_view() == old(modifies).deep_view() + match opt_modify_view(parts.modify) {
            Some(m) => seq![m],
            None => Seq::empty(),
        },
{
    let PlanParts { change, add, modify } = parts;
    let ghost c0 = changes.deep_view();
    let ghost a0 = adds.deep_view();
    let ghost m0 = modifies.deep_view();
    match change {
        Some(c) => {
            changes.push(c);
            assert(changes.deep_view() =~= c0.push(c@));
        },
        None => {
            assert(changes.deep_view() =~= c0 + Seq::<ResourceChangeView>::empty());
        },
    }
    match add {
        Some(a) => {
            let key = comma_count(a.0.as_str());
            let ghost av = (a.0@, a.1@);
            adds.push((key, a));
            assert(adds.deep_view() =~= a0 + seq![(key, av)]);
        },
        None => {
            assert(adds.deep_view() =~= a0 + opt_seq(None::<(usize, (Seq<char>, AttrMapView))>));
        },
    }
    match modify {
        Some(m) => {
            let ghost mv = (m.0@, m.1.deep_view());
            modifies.push(m);
            assert(modifies.deep_view() =~= m0.push(mv));
        },
        None => {
            assert(modifies.deep_view() =~= m0 + Seq::<(Seq<char>, Seq<AttrModView>)>::empty());
        },
    }
}

/// The DNs of live entries that the desired state lacks and that no
/// ignore pattern matches, each with its number of commas.
fn delete_candidates(
    desired: &LdapDesiredState,
    live: &LdapLiveState,
    base_dn: &str,
    ignore: &[IgnorePattern],
) -> (r: Vec<(usize, String)>)
    ensures
        r.deep_view() == key_pairs(
            spec_delete_candidates(desired@, live@, base_dn@, ignore.deep_view()),
            dn_key(),
        ),
        keys_fit(spec_delete_candidates(desired@, live@, base_dn@, ignore.deep_view()), dn_key()),
{
    let ghost d = desired@;
    let ghost l = live@;
    let ghost pats = ignore.deep_view();
    let ghost uf = user_delete_fn(d, base_dn@, pats);
    let ghost gf = group_delete_fn(d, base_dn@, pats);
    let mut out: Vec<(usize, String)> = Vec::new();
    let mut i: usize = 0;
    while i < live.users.len()
        invariant
            d == desired@,
            l == live@,
            pats == ignore.deep_view(),
            uf == user_delete_fn(d, base_dn@, pats),
            i <= l.users.len(),
            out.deep_view() == key_pairs(l.users.take(i as int).filter_map(uf), dn_key()),
            keys_fit(l.users.take(i as int).filter_map(uf), dn_key()),
        decreases l.users.len() - i,
    {
        let uid = live.users.key_at(i);
        let ghost o = uf(l.users[i as int]);
        let mut pushed: Option<String> = None;
        if !desired.users.contains_key(uid.as_str()) {
            let dn = user_dn(uid.as_str(), base_dn);
            if !is_ignored(dn.as_str(), ignore) {
                pushed = Some(dn);
            }
        }
        assert(opt_str(pushed) == o);
        push_keyed(&mut out, pushed);
        proof {
            l.users.lemma_filter_map_take_succ(uf, i as int);
            assert(l.users.take(i + 1).filter_map(uf) =~= l.users.take(i as int).filter_map(uf) + opt_seq(o));
            lemma_key_pairs_extend(l.users.take(i as int).filter_map(uf), o, dn_key());
        }
        i = i + 1;
    }
    proof {
        assert(l.users.take(l.users.len() as int) =~= l.users);
    }
    let ghost us = l.users.filter_map(uf);
    let mut j: usize = 0;
    while j < live.groups.len()
        invariant
            d == desired@,
            l == live@,
            pats == ignore.deep_view(),
            gf == group_delete_fn(d, base_dn@, pats),
            us == l.users.filter_map(user_delete_fn(d, base_dn@, pats)),
            j <= l.groups.len(),
            out.deep_view() == key_pairs(us + l.groups.take(j as int).filter_map(gf), dn_key()),
            keys_fit(us + l.groups.take(j as int).filter_map(gf), dn_key()),
        decreases l.groups.len() - j,
    {
        let cn = live.groups.key_at(j);
        let ghost o = gf(l.groups[j as int]);
        let mut pushed: Option<String> = None;
        if !desired.groups.contains_key(cn.as_str()) {
            let dn = group_dn(cn.as_str(), base_dn);
            if !is_ignored(dn.as_str(), ignore) {
                pushed = Some(dn);
            }
        }
        assert(opt_str(pushed) == o);
        push_keyed(&mut out, pushed);
        proof {
            l.groups.lemma_filter_map_take_succ(gf, j as int);
            assert(us + l.groups.take(j + 1).filter_map(gf) =~= (us + l.groups.take(j as int).filter_map(gf)) + opt_seq(o));
            lemma_key_pairs_extend(us + l.groups.take(j as int).filter_map(gf), o, dn_key());
        }
        j = j + 1;
    }
    proof {
        assert(l.groups.take(l.groups.len() as int) =~= l.groups);
    }
    out
}

spec fn opt_str(o: Option<String>) -> Option<Seq<char>> {
    match o {
        Some(s) => Some(s@),
        None => None,
    }
}

/// Appends `dn`, if any, with its number of commas.
fn push_keyed(out: &mut Vec<(usize, String)>, dn: Option<String>)
    ensures
        final(out).deep_view() == old(out).deep_view() + opt_seq(
            match opt_str(dn) {
                Some(s) => Some((dn_commas(s) as usize, s)),
                None => None,
            },
        ),
        opt_str(dn) matches Some(s) ==> 0 <= dn_commas(s) <= usize::MAX,
{
    let ghost o0 = out.deep_view();
    match dn {
        Some(s) => {
            let key = comma_count(s.as_str());
            let ghost sv = s@;
            out.push((key, s));
            assert(out.deep_view() =~= o0 + seq![(key, sv)]);
        },
        None => {
            assert(out.deep_view() =~= o0 + opt_seq(None::<(usize, Seq<char>)>));
        },
    }
}

} // verus!
