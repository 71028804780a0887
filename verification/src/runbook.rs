//! The runbook: the plan as steps that a person or the provider can run,
//! each with an LDIF body and the operation it stands for.

use vstd::prelude::*;
use crate::attrs::{AttrMap, AttrMapView, AttrMod, AttrModOp, AttrModView};
use crate::config::{LdapConfigView, ResolvedLdapConfig};
use crate::reconcile::{LdapDiff, LdapDiffView};
use crate::sort::{entry_le, isort, sort_entries};
use crate::text::{clone_strings, concat2, join, seq_join};

verus! {

/// A change of one attribute in a modify operation.
pub enum LdapChange {
    Add { attr: String, values: Vec<String> },
    Replace { attr: String, values: Vec<String> },
}

/// The view of an [`LdapChange`].
pub enum LdapChangeView {
    Add(Seq<char>, Seq<Seq<char>>),
    Replace(Seq<char>, Seq<Seq<char>>),
}

impl View for LdapChange {
    type V = LdapChangeView;

    open spec fn view(&self) -> LdapChangeView {
        match self {
            LdapChange::Add { attr, values } => LdapChangeView::Add(attr@, values.deep_view()),
            LdapChange::Replace { attr, values } => LdapChangeView::Replace(
                attr@,
                values.deep_view(),
            ),
        }
    }
}

impl DeepView for LdapChange {
    type V = LdapChangeView;

    open spec fn deep_view(&self) -> LdapChangeView {
        self@
    }
}

/// An LDAP operation that a runbook step stands for.
pub enum LdapOperation {
    Add { dn: String, attrs: AttrMap },
    Modify { dn: String, changes: Vec<LdapChange> },
    Delete { dn: String },
}

/// The view of an [`LdapOperation`].
pub enum LdapOperationView {
    Add(Seq<char>, AttrMapView),
    Modify(Seq<char>, Seq<LdapChangeView>),
    Delete(Seq<char>),
}

impl View for LdapOperation {
    type V = LdapOperationView;

    open spec fn view(&self) -> LdapOperationView {
        match self {
            LdapOperation::Add { dn, attrs } => LdapOperationView::Add(dn@, attrs@),
            LdapOperation::Modify { dn, changes } => LdapOperationView::Modify(
                dn@,
                changes.deep_view(),
            ),
            LdapOperation::Delete { dn } => LdapOperationView::Delete(dn@),
        }
    }
}

/// One step of a runbook.
pub struct RunbookStep {
    pub description: String,
    pub command: String,
    pub body: Option<String>,
    pub operation: LdapOperation,
}

/// The view of a [`RunbookStep`].
pub struct RunbookStepView {
    pub description: Seq<char>,
    pub command: Seq<char>,
    pub body: Option<Seq<char>>,
    pub operation: LdapOperationView,
}

impl View for RunbookStep {
    type V = RunbookStepView;

    open spec fn view(&self) -> RunbookStepView {
        RunbookStepView {
            description: self.description@,
            command: self.command@,
            body: crate::plan::opt_str_view(self.body),
            operation: self.operation@,
        }
    }
}

impl DeepView for RunbookStep {
    type V = RunbookStepView;

    open spec fn deep_view(&self) -> RunbookStepView {
        self@
    }
}

/// The connection arguments of the LDAP command-line tools, with the bind
/// password replaced by `***`.
pub open spec fn spec_connect_args(c: LdapConfigView) -> Seq<char> {
    "-H \""@ + c.url + "\" -D \""@ + c.bind_dn + "\" -w ***"@
}

fn scrubbed_connect_args(config: &ResolvedLdapConfig) -> (r: String)
    ensures
        r@ == spec_connect_args(config@),
{
    let mut s = String::from_str("-H \"");
    s.append(config.url.as_str());
    s.append("\" -D \"");
    s.append(config.bind_dn.as_str());
    s.append("\" -w ***");
    s
}

/// The LDIF lines of one attribute: `name: value` for each value.
pub open spec fn attr_lines(e: (Seq<char>, Seq<Seq<char>>)) -> Seq<Seq<char>> {
    e.1.map_values(|v: Seq<char>| e.0 + ": "@ + v)
}

/// The LDIF body that adds the entry `dn`: its attributes sorted by name.
pub open spec fn spec_ldif_add(dn: Seq<char>, attrs: AttrMapView) -> Seq<char> {
    seq_join(
        seq!["dn: "@ + dn, "changetype: add"@] + isort(attrs, entry_le()).map_values(
            |e: (Seq<char>, Seq<Seq<char>>)| attr_lines(e),
        ).flatten(),
        "\n"@,
    )
}

/// The LDIF lines of one change of a modify body, after a `-` line from
/// the second on.
pub open spec fn change_lines(i: int, c: LdapChangeView) -> Seq<Seq<char>> {
    let sep = if i > 0 {
        seq!["-"@]
    } else {
        Seq::empty()
    };
    match c {
        LdapChangeView::Add(a, vs) => sep + seq!["add: "@ + a] + attr_lines((a, vs)),
        LdapChangeView::Replace(a, vs) => sep + seq!["replace: "@ + a] + attr_lines((a, vs)),
    }
}

/// The LDIF body that modifies the entry `dn`.
pub open spec fn spec_ldif_modify(dn: Seq<char>, changes: Seq<LdapChangeView>) -> Seq<char> {
    seq_join(
        seq!["dn: "@ + dn, "changetype: modify"@] + changes.map(
            |i: int, c: LdapChangeView| change_lines(i, c),
        ).flatten(),
        "\n"@,
    )
}

/// Appends the lines `name: value` of one attribute.
fn push_attr_lines(lines: &mut Vec<String>, attr: &String, values: &Vec<String>)
    ensures
        final(lines).deep_view() == old(lines).deep_view() + attr_lines((attr@, values.deep_view())),
{
    let ghost start = lines.deep_view();
    let ghost target = attr_lines((attr@, values.deep_view()));
    let mut k: usize = 0;
    while k < values.len()
        invariant
            k <= values@.len(),
            target == attr_lines((attr@, values.deep_view())),
            lines.deep_view() =~= start + target.take(k as int),
        decreases values@.len() - k,
    {
        let ghost before = lines.deep_view();
        let mut line = concat2(attr.as_str(), ": ");
        line.append(values[k].as_str());
        assert(line@ == target[k as int]);
        lines.push(line);
        assert(lines.deep_view() =~= before.push(target[k as int]));
        assert(target.take(k + 1) =~= target.take(k as int).push(target[k as int]));
        k = k + 1;
    }
    assert(target.take(values@.len() as int) =~= target);
}

fn ldif_add(dn: &str, attrs: &AttrMap) -> (r: String)
    ensures
        r@ == spec_ldif_add(dn@, attrs@),
{
    let mut entries: Vec<(String, Vec<String>)> = Vec::new();
    let mut i: usize = 0;
    while i < attrs.len()
        invariant
            i <= attrs@.len(),
            entries.deep_view() =~= attrs@.take(i as int),
        decreases attrs@.len() - i,
    {
        let ghost before = entries.deep_view();
        let e = (attrs.key_at(i).clone(), clone_strings(attrs.value_at(i)));
        entries.push(e);
        assert(entries.deep_view() =~= before.push(attrs@[i as int]));
        i = i + 1;
    }
    assert(attrs@.take(attrs@.len() as int) =~= attrs@);
    let sorted = sort_entries(entries);
    let ghost ss = sorted.deep_view();
    let ghost per = ss.map_values(|e: (Seq<char>, Seq<Seq<char>>)| attr_lines(e));
    let ghost header = seq!["dn: "@ + dn@, "changetype: add"@];
    let mut lines: Vec<String> = Vec::new();
    lines.push(concat2("dn: ", dn));
    lines.push(String::from_str("changetype: add"));
    assert(lines.deep_view() =~= header + per.take(0).flatten());
    let mut j: usize = 0;
    while j < sorted.len()
        invariant
            j <= sorted@.len(),
            ss == sorted.deep_view(),
            per == ss.map_values(|e: (Seq<char>, Seq<Seq<char>>)| attr_lines(e)),
            lines.deep_view() =~= header + per.take(j as int).flatten(),
        decreases sorted@.len() - j,
    {
        push_attr_lines(&mut lines, &sorted[j].0, &sorted[j].1);
        proof {
            assert(per.take(j + 1) =~= per.take(j as int).push(per[j as int]));
            per.take(j as int).lemma_flatten_push(per[j as int]);
        }
        j = j + 1;
    }
    assert(per.take(sorted@.len() as int) =~= per);
    join(&lines, "\n")
}

fn ldif_modify(dn: &str, changes: &[LdapChange]) -> (r: String)
    ensures
        r@ == spec_ldif_modify(dn@, changes.deep_view()),
{
    let ghost cs = changes.deep_view();
    let ghost per = cs.map(|i: int, c: LdapChangeView| change_lines(i, c));
    let ghost header = seq!["dn: "@ + dn@, "changetype: modify"@];
    let mut lines: Vec<String> = Vec::new();
    lines.push(concat2("dn: ", dn));
    lines.push(String::from_str("changetype: modify"));
    assert(lines.deep_view() =~= header + per.take(0).flatten());
    let mut i: usize = 0;
    while i < changes.len()
        invariant
            i <= changes@.len(),
            cs == changes.deep_view(),
            per == cs.map(|i: int, c: LdapChangeView| change_lines(i, c)),
            lines.deep_view() =~= header + per.take(i as int).flatten(),
        decreases changes@.len() - i,
    {
        let ghost start = lines.deep_view();
        if i > 0 {
            lines.push(String::from_str("-"));
        }
        let ghost after_sep = lines.deep_view();
        assert(cs[i as int] == changes@[i as int]@);
        match &changes[i] {
            LdapChange::Add { attr, values } => {
                lines.push(concat2("add: ", attr.as_str()));
                let ghost mid = lines.deep_view();
                push_attr_lines(&mut lines, attr, values);
                assert(mid =~= after_sep.push("add: "@ + attr@));
            },
            LdapChange::Replace { attr, values } => {
                lines.push(concat2("replace: ", attr.as_str()));
                let ghost mid = lines.deep_view();
                push_attr_lines(&mut lines, attr, values);
                assert(mid =~= after_sep.push("replace: "@ + attr@));
            },
        }
        proof {
            assert(lines.deep_view() =~= start + per[i as int]);
            assert(per.take(i + 1) =~= per.take(i as int).push(per[i as int]));
            per.take(i as int).lemma_flatten_push(per[i as int]);
        }
        i = i + 1;
    }
    assert(per.take(changes@.len() as int) =~= per);
    join(&lines, "\n")
}

/// The change of a modify operation that an attribute modification stands
/// for.
pub open spec fn spec_change_of(m: AttrModView) -> LdapChangeView {
    match m.op {
        AttrModOp::Add => LdapChangeView::Add(m.attr, m.values),
        AttrModOp::Replace => LdapChangeView::Replace(m.attr, m.values),
    }
}

/// The step that adds an entry.
pub open spec fn spec_add_step(e: (Seq<char>, AttrMapView), args: Seq<char>) -> RunbookStepView {
    RunbookStepView {
        description: "add "@ + e.0,
        command: "ldapadd "@ + args,
        body: Some(spec_ldif_add(e.0, e.1)),
        operation: LdapOperationView::Add(e.0, e.1),
    }
}

/// The step that modifies an entry.
pub open spec fn spec_modify_step(e: (Seq<char>, Seq<AttrModView>), args: Seq<char>) -> RunbookStepView {
    let changes = e.1.map_values(|m: AttrModView| spec_change_of(m));
    RunbookStepView {
        description: "modify "@ + e.0,
        command: "ldapmodify "@ + args,
        body: Some(spec_ldif_modify(e.0, changes)),
        operation: LdapOperationView::Modify(e.0, changes),
    }
}

/// The step that deletes an entry.
pub open spec fn spec_delete_step(dn: Seq<char>, args: Seq<char>) -> RunbookStepView {
    RunbookStepView {
        description: "delete "@ + dn,
        command: "ldapdelete "@ + args + " \""@ + dn + "\""@,
        body: None,
        operation: LdapOperationView::Delete(dn),
    }
}

/// The runbook of a diff: the additions, then the modifications, then the
/// deletions, each in the order of the diff.
pub open spec fn spec_runbook(diff: LdapDiffView, config: LdapConfigView) -> Seq<RunbookStepView> {
    let args = spec_connect_args(config);
    diff.to_add.map_values(|e: (Seq<char>, AttrMapView)| spec_add_step(e, args))
        + diff.to_modify.map_values(|e: (Seq<char>, Seq<AttrModView>)| spec_modify_step(e, args))
        + diff.to_delete.map_values(|dn: Seq<char>| spec_delete_step(dn, args))
}

fn change_of(m: &AttrMod) -> (r: LdapChange)
    ensures
        r@ == spec_change_of(m@),
{
    match m.op {
        AttrModOp::Add => LdapChange::Add { attr: m.attr.clone(), values: clone_strings(&m.values) },
        AttrModOp::Replace => LdapChange::Replace {
            attr: m.attr.clone(),
            values: clone_strings(&m.values),
        },
    }
}

/// Turns a diff into runbook steps, in the order of the diff: additions,
/// then modifications, then deletions.
pub fn to_runbook_steps(diff: &LdapDiff, config: &ResolvedLdapConfig) -> (r: Vec<RunbookStep>)
    ensures
        r.deep_view() == spec_runbook(diff@, config@),
{
    let ghost args_v = spec_connect_args(config@);
    let ghost adds = diff@.to_add.map_values(|e: (Seq<char>, AttrMapView)| spec_add_step(e, args_v));
    let ghost mods = diff@.to_modify.map_values(
        |e: (Seq<char>, Seq<AttrModView>)| spec_modify_step(e, args_v),
    );
    let ghost dels = diff@.to_delete.map_values(|dn: Seq<char>| spec_delete_step(dn, args_v));
    let connect_args = scrubbed_connect_args(config);
    let mut steps: Vec<RunbookStep> = Vec::new();

    let mut i: usize = 0;
    while i < diff.to_add.len()
        invariant
            i <= diff@.to_add.len(),
            connect_args@ == args_v,
            adds == diff@.to_add.map_values(|e: (Seq<char>, AttrMapView)| spec_add_step(e, args_v)),
            steps.deep_view() =~= adds.take(i as int),
        decreases diff@.to_add.len() - i,
    {
        let dn = &diff.to_add[i].0;
        let attrs = &diff.to_add[i].1;
        assert(diff@.to_add[i as int] == (dn@, attrs@));
        let body = ldif_add(dn.as_str(), attrs);
        let step = RunbookStep {
            description: concat2("add ", dn.as_str()),
            command: concat2("ldapadd ", connect_args.as_str()),
            body: Some(body),
            operation: LdapOperation::Add { dn: dn.clone(), attrs: attrs.copy() },
        };
        let ghost before = steps.deep_view();
        steps.push(step);
        assert(steps.deep_view() =~= before.push(adds[i as int]));
        i = i + 1;
    }

    let mut j: usize = 0;
    while j < diff.to_modify.len()
        invariant
            j <= diff@.to_modify.len(),
            connect_args@ == args_v,
            adds.len() == diff@.to_add.len(),
            mods == diff@.to_modify.map_values(
                |e: (Seq<char>, Seq<AttrModView>)| spec_modify_step(e, args_v),
            ),
            steps.deep_view() =~= adds + mods.take(j as int),
        decreases diff@.to_modify.len() - j,
    {
        let dn = &diff.to_modify[j].0;
        let ms = &diff.to_modify[j].1;
        assert(diff@.to_modify[j as int] == (dn@, ms.deep_view()));
        let ghost cs = ms.deep_view().map_values(|m: AttrModView| spec_change_of(m));
        let mut changes: Vec<LdapChange> = Vec::new();
        let mut k: usize = 0;
        while k < ms.len()
            invariant
                k <= ms@.len(),
                cs == ms.deep_view().map_values(|m: AttrModView| spec_change_of(m)),
                changes.deep_view() =~= cs.take(k as int),
            decreases ms@.len() - k,
        {
            let c = change_of(&ms[k]);
            let ghost before = changes.deep_view();
            changes.push(c);
            assert(changes.deep_view() =~= before.push(cs[k as int]));
            k = k + 1;
        }
        assert(cs.take(ms@.len() as int) =~= cs);
        let body = ldif_modify(dn.as_str(), changes.as_slice());
        let step = RunbookStep {
            description: concat2("modify ", dn.as_str()),
            command: concat2("ldapmodify ", connect_args.as_str()),
            body: Some(body),
            operation: LdapOperation::Modify { dn: dn.clone(), changes },
        };
        let ghost before = steps.deep_view();
        steps.push(step);
        assert(steps.deep_view() =~= before.push(mods[j as int]));
        j = j + 1;
    }

    let mut k: usize = 0;
    while k < diff.to_delete.len()
        invariant
            k <= diff@.to_delete.len(),
            connect_args@ == args_v,
            adds.len() == diff@.to_add.len(),
            mods.len() == diff@.to_modify.len(),
            dels == diff@.to_delete.map_values(|dn: Seq<char>| spec_delete_step(dn, args_v)),
            steps.deep_view() =~= adds + mods + dels.take(k as int),
        decreases diff@.to_delete.len() - k,
    {
        let dn = &diff.to_delete[k];
        let mut command = concat2("ldapdelete ", connect_args.as_str());
        command.append(" \"");
        command.append(dn.as_str());
        command.append("\"");
        let step = RunbookStep {
            description: concat2("delete ", dn.as_str()),
            command,
            body: None,
            operation: LdapOperation::Delete { dn: dn.clone() },
        };
        let ghost before = steps.deep_view();
        steps.push(step);
        assert(steps.deep_view() =~= before.push(dels[k as int]));
        k = k + 1;
    }
    steps
}

} // verus!
