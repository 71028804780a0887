//! Lowering of field values to LDAP attribute values, and the attribute
//! modifications that bring a live entry in line with a desired one.

use vstd::prelude::*;
use crate::json::{JsonValue, JsonView};
use crate::field_value::{ResolvedFieldValue, ResolvedView, spec_value};
use crate::strmap::{StrMap, has_key, lookup, map_insert, keys_unique, lemma_key_pos};
use crate::text::{
    bool_text, clone_strings, concat2, join, same_string_sets, seq_join, spec_bool_text, vec_contains_str,
};
use crate::sort::{isort, sort_strings, string_le};

verus! {

/// How an attribute is changed.
#[derive(Clone, Copy, PartialEq, Eq, Debug, Structural)]
pub enum AttrModOp {
    Add,
    Replace,
}

/// A change of one attribute of an entry.
pub struct AttrMod {
    pub attr: String,
    pub op: AttrModOp,
    pub values: Vec<String>,
}

/// The view of an [`AttrMod`].
pub struct AttrModView {
    pub attr: Seq<char>,
    pub op: AttrModOp,
    pub values: Seq<Seq<char>>,
}

impl View for AttrMod {
    type V = AttrModView;

    open spec fn view(&self) -> AttrModView {
        AttrModView { attr: self.attr@, op: self.op, values: self.values.deep_view() }
    }
}

impl DeepView for AttrMod {
    type V = AttrModView;

    open spec fn deep_view(&self) -> AttrModView {
        self@
    }
}

/// The attributes of an entry: each name with its values.
pub type AttrMap = StrMap<Vec<String>>;

/// The view of an [`AttrMap`].
pub type AttrMapView = Seq<(Seq<char>, Seq<Seq<char>>)>;

/// The text of a scalar JSON value; `None` for null, arrays and objects.
pub open spec fn scalar_text(v: JsonView) -> Option<Seq<char>> {
    match v {
        JsonView::String(s) => Some(s),
        JsonView::Number(n) => Some(n),
        JsonView::Bool(b) => Some(spec_bool_text(b)),
        _ => None,
    }
}

/// The LDAP values of a JSON value: a scalar gives its text, an array the
/// texts of its scalar elements in order (the others are skipped), null
/// and an object give none.
pub open spec fn spec_attr_values(v: JsonView) -> Seq<Seq<char>> {
    match v {
        JsonView::Array(a) => a.filter_map(|x: JsonView| scalar_text(x)),
        JsonView::Null => Seq::empty(),
        JsonView::Object(_) => Seq::empty(),
        _ => seq![scalar_text(v)->0],
    }
}

fn scalar_to_string(v: &JsonValue) -> (r: Option<String>)
    ensures
        match scalar_text(v@) {
            Some(t) => r is Some && r->0@ == t,
            None => r is None,
        },
{
    match v {
        JsonValue::String(s) => Some(s.clone()),
        JsonValue::Number(n) => Some(n.clone()),
        JsonValue::Bool(b) => Some(bool_text(*b)),
        _ => None,
    }
}

/// Lowers a JSON value to the values of the LDAP attribute `attr`.
pub fn value_to_attr_values(attr: &str, value: &JsonValue) -> (r: Vec<String>)
    ensures
        r.deep_view() == spec_attr_values(value@),
{
    match value {
        JsonValue::Array(arr) => {
            let ghost s = value@->Array_0;
            let ghost f = |x: JsonView| scalar_text(x);
            assert(s.len() == arr@.len());
            let mut out: Vec<String> = Vec::new();
            let mut i: usize = 0;
            while i < arr.len()
                invariant
                    value@ == JsonView::Array(s),
                    f == |x: JsonView| scalar_text(x),
                    s.len() == arr@.len(),
                    forall|j: int| 0 <= j < s.len() ==> s[j] == (#[trigger] arr@[j])@,
                    i <= arr@.len(),
                    out.deep_view() == s.take(i as int).filter_map(f),
                decreases arr@.len() - i,
            {
                proof {
                    s.lemma_filter_map_take_succ(f, i as int);
                }
                let ghost before = out.deep_view();
                match scalar_to_string(&arr[i]) {
                    Some(t) => {
                        out.push(t);
                        assert(out.deep_view() =~= before.push(t@));
                    },
                    None => {},
                }
                i = i + 1;
            }
            assert(s.take(arr@.len() as int) =~= s);
            out
        },
        JsonValue::Null => Vec::new(),
        JsonValue::Object(_) => Vec::new(),
        _ => {
            let mut out: Vec<String> = Vec::new();
            match scalar_to_string(value) {
                Some(t) => out.push(t),
                None => {},
            }
            assert(out.deep_view() =~= spec_attr_values(value@));
            out
        },
    }
}

/// The text that shows a derived field: its inputs as `alias=path`,
/// sorted, inside `<derived from ...>`.
pub open spec fn spec_derived_display(inputs: Seq<(Seq<char>, Seq<char>)>) -> Seq<char> {
    let parts = inputs.map_values(|e: (Seq<char>, Seq<char>)| e.0 + "="@ + e.1);
    "<derived from "@ + seq_join(isort(parts, string_le()), ", "@) + ">"@
}

/// Formats the inputs of a derived field for plans and LDIF bodies.
pub fn format_derived_display(inputs: &StrMap<String>) -> (r: String)
    ensures
        r@ == spec_derived_display(inputs@),
{
    let ghost parts_spec = inputs@.map_values(|e: (Seq<char>, Seq<char>)| e.0 + "="@ + e.1);
    let mut parts: Vec<String> = Vec::new();
    let mut i: usize = 0;
    while i < inputs.len()
        invariant
            i <= inputs@.len(),
            parts_spec == inputs@.map_values(|e: (Seq<char>, Seq<char>)| e.0 + "="@ + e.1),
            parts.deep_view() =~= parts_spec.take(i as int),
        decreases inputs@.len() - i,
    {
        let mut p = concat2(inputs.key_at(i).as_str(), "=");
        p.append(inputs.value_at(i).as_str());
        assert(p@ == parts_spec[i as int]);
        let ghost before = parts.deep_view();
        parts.push(p);
        assert(parts.deep_view() =~= before.push(p@));
        assert(parts_spec.take(i + 1) =~= parts_spec.take(i as int).push(parts_spec[i as int]));
        i = i + 1;
    }
    assert(parts_spec.take(inputs@.len() as int) =~= parts_spec);
    let sorted = sort_strings(parts);
    let mut out = String::from_str("<derived from ");
    let joined = join(&sorted, ", ");
    out.append(joined.as_str());
    out.append(">");
    out
}

/// The modification, if any, that one resolved attribute asks of the live
/// entry `live`: an unmanaged one asks none; an initial one adds its
/// values where the attribute is absent (and it has values); a managed one
/// sets its values where they differ, as sets, from the live ones; a
/// derived one is always shown as pending.
pub open spec fn spec_attr_mod(e: (Seq<char>, ResolvedView), live: AttrMapView) -> Option<
    AttrModView,
> {
    let attr = e.0;
    match e.1 {
        ResolvedView::Unmanaged => None,
        ResolvedView::Initial(v) => {
            let vals = spec_attr_values(v);
            if has_key(live, attr) || vals.len() == 0 {
                None
            } else {
                Some(AttrModView { attr, op: AttrModOp::Add, values: vals })
            }
        },
        ResolvedView::Managed(v) => {
            let vals = spec_attr_values(v);
            let live_vals = lookup(live, attr);
            let live_set = match live_vals {
                Some(l) => l.to_set(),
                None => Set::empty(),
            };
            if vals.to_set() == live_set {
                None
            } else {
                Some(
                    AttrModView {
                        attr,
                        op: if live_vals is None {
                            AttrModOp::Add
                        } else {
                            AttrModOp::Replace
                        },
                        values: vals,
                    },
                )
            }
        },
        ResolvedView::DerivedFrom(inputs) => Some(
            AttrModView {
                attr,
                op: if has_key(live, attr) {
                    AttrModOp::Replace
                } else {
                    AttrModOp::Add
                },
                values: seq![spec_derived_display(inputs)],
            },
        ),
    }
}

/// The modifications that bring `live` in line with `resolved`, in the
/// order of `resolved`.
pub open spec fn spec_diff_attrs(resolved: Seq<(Seq<char>, ResolvedView)>, live: AttrMapView) -> Seq<
    AttrModView,
> {
    resolved.filter_map(|e: (Seq<char>, ResolvedView)| spec_attr_mod(e, live))
}

fn attr_mod_for(attr: &String, rfv: &ResolvedFieldValue, live_entry: &AttrMap) -> (r: Option<
    AttrMod,
>)
    ensures
        match spec_attr_mod((attr@, rfv@), live_entry@) {
            Some(m) => r is Some && r->0@ == m,
            None => r is None,
        },
{
    match rfv {
        ResolvedFieldValue::Unmanaged => None,
        ResolvedFieldValue::Initial(value) => {
            if live_entry.contains_key(attr.as_str()) {
                return None;
            }
            let values = value_to_attr_values(attr.as_str(), value);
            if values.len() == 0 {
                return None;
            }
            Some(AttrMod { attr: attr.clone(), op: AttrModOp::Add, values })
        },
        ResolvedFieldValue::Managed(value) => {
            let values = value_to_attr_values(attr.as_str(), value);
            let live_vals = live_entry.get(attr.as_str());
            let same = match live_vals {
                Some(l) => same_string_sets(&values, l),
                None => {
                    let empty: Vec<String> = Vec::new();
                    assert(empty.deep_view().to_set() =~= Set::<Seq<char>>::empty());
                    same_string_sets(&values, &empty)
                },
            };
            if same {
                None
            } else {
                let op = if live_vals.is_none() {
                    AttrModOp::Add
                } else {
                    AttrModOp::Replace
                };
                Some(AttrMod { attr: attr.clone(), op, values })
            }
        },
        ResolvedFieldValue::DerivedFrom { inputs } => {
            let op = if live_entry.contains_key(attr.as_str()) {
                AttrModOp::Replace
            } else {
                AttrModOp::Add
            };
            let mut values: Vec<String> = Vec::new();
            values.push(format_derived_display(inputs));
            let r = AttrMod { attr: attr.clone(), op, values };
            assert(r@.values =~= seq![spec_derived_display(inputs@)]);
            Some(r)
        },
    }
}

/// Computes the attribute modifications needed to bring `live_entry` in
/// line with `resolved`.
pub fn diff_attrs(resolved: &StrMap<ResolvedFieldValue>, live_entry: &AttrMap) -> (r: Vec<AttrMod>)
    ensures
        r.deep_view() == spec_diff_attrs(resolved@, live_entry@),
{
    let ghost f = |e: (Seq<char>, ResolvedView)| spec_attr_mod(e, live_entry@);
    let mut mods: Vec<AttrMod> = Vec::new();
    let mut i: usize = 0;
    while i < resolved.len()
        invariant
            i <= resolved@.len(),
            f == |e: (Seq<char>, ResolvedView)| spec_attr_mod(e, live_entry@),
            mods.deep_view() == resolved@.take(i as int).filter_map(f),
        decreases resolved@.len() - i,
    {
        proof {
            resolved@.lemma_filter_map_take_succ(f, i as int);
        }
        let ghost before = mods.deep_view();
        match attr_mod_for(resolved.key_at(i), resolved.value_at(i), live_entry) {
            Some(m) => {
                mods.push(m);
                assert(mods.deep_view() =~= before.push(m@));
            },
            None => {},
        }
        i = i + 1;
    }
    assert(resolved@.take(resolved@.len() as int) =~= resolved@);
    mods
}

/// The modification, if any, that sets the desired values of one
/// multi-valued attribute where they differ, as sets, from the live ones.
pub open spec fn spec_multi_mod(e: (Seq<char>, Seq<Seq<char>>), live: AttrMapView) -> Option<
    AttrModView,
> {
    let live_vals = lookup(live, e.0);
    let live_set = match live_vals {
        Some(l) => l.to_set(),
        None => Set::empty(),
    };
    if e.1.to_set() == live_set {
        None
    } else {
        Some(
            AttrModView {
                attr: e.0,
                op: if live_vals is None {
                    AttrModOp::Add
                } else {
                    AttrModOp::Replace
                },
                values: e.1,
            },
        )
    }
}

/// The modifications of multi-valued attributes, in the order of `desired`.
pub open spec fn spec_diff_multi_attrs(desired: AttrMapView, live: AttrMapView) -> Seq<AttrModView> {
    desired.filter_map(|e: (Seq<char>, Seq<Seq<char>>)| spec_multi_mod(e, live))
}

/// Compares desired multi-valued attributes with the live ones, as sets.
pub fn diff_multi_attrs(desired: &AttrMap, live_entry: &AttrMap) -> (r: Vec<AttrMod>)
    ensures
        r.deep_view() == spec_diff_multi_attrs(desired@, live_entry@),
{
    let ghost f = |e: (Seq<char>, Seq<Seq<char>>)| spec_multi_mod(e, live_entry@);
    let mut mods: Vec<AttrMod> = Vec::new();
    let mut i: usize = 0;
    while i < desired.len()
        invariant
            i <= desired@.len(),
            f == |e: (Seq<char>, Seq<Seq<char>>)| spec_multi_mod(e, live_entry@),
            mods.deep_view() == desired@.take(i as int).filter_map(f),
        decreases desired@.len() - i,
    {
        proof {
            desired@.lemma_filter_map_take_succ(f, i as int);
        }
        let ghost before = mods.deep_view();
        let attr = desired.key_at(i);
        let desired_vals = desired.value_at(i);
        let live_vals = live_entry.get(attr.as_str());
        let same = match live_vals {
            Some(l) => same_string_sets(desired_vals, l),
            None => {
                let empty: Vec<String> = Vec::new();
                assert(empty.deep_view().to_set() =~= Set::<Seq<char>>::empty());
                same_string_sets(desired_vals, &empty)
            },
        };
        if !same {
            let op = if live_vals.is_none() {
                AttrModOp::Add
            } else {
                AttrModOp::Replace
            };
            let m = AttrMod { attr: attr.clone(), op, values: clone_strings(desired_vals) };
            mods.push(m);
            assert(mods.deep_view() =~= before.push(m@));
        }
        i = i + 1;
    }
    assert(desired@.take(desired@.len() as int) =~= desired@);
    mods
}

/// The attribute that one resolved field gives to a new entry, if any: a
/// derived field gives its display text, a managed or initial one its
/// values where it has any, an unmanaged one nothing.
pub open spec fn spec_attr_entry(e: (Seq<char>, ResolvedView)) -> Option<(Seq<char>, Seq<Seq<char>>)> {
    match e.1 {
        ResolvedView::Unmanaged => None,
        ResolvedView::DerivedFrom(inputs) => Some((e.0, seq![spec_derived_display(inputs)])),
        _ => match spec_value(e.1) {
            Some(v) => {
                let vals = spec_attr_values(v);
                if vals.len() == 0 {
                    None
                } else {
                    Some((e.0, vals))
                }
            },
            None => None,
        },
    }
}

/// The attributes of a new entry built from resolved fields.
pub open spec fn spec_resolved_to_attr_map(resolved: Seq<(Seq<char>, ResolvedView)>) -> AttrMapView {
    resolved.filter_map(|e: (Seq<char>, ResolvedView)| spec_attr_entry(e))
}

/// Builds the attributes of a new entry from resolved fields.
pub fn resolved_to_attr_map(resolved: &StrMap<ResolvedFieldValue>) -> (r: AttrMap)
    ensures
        r@ == spec_resolved_to_attr_map(resolved@),
{
    resolved.keys_are_unique();
    let ghost f = |e: (Seq<char>, ResolvedView)| spec_attr_entry(e);
    let mut out: AttrMap = StrMap::new();
    let mut i: usize = 0;
    while i < resolved.len()
        invariant
            i <= resolved@.len(),
            keys_unique(resolved@),
            f == |e: (Seq<char>, ResolvedView)| spec_attr_entry(e),
            out@ == resolved@.take(i as int).filter_map(f),
            forall|j: int|
                0 <= j < out@.len() ==> exists|m: int|
                    0 <= m < i && #[trigger] out@[j].0 == resolved@[m].0,
        decreases resolved@.len() - i,
    {
        proof {
            resolved@.lemma_filter_map_take_succ(f, i as int);
        }
        let k = resolved.key_at(i);
        let rfv = resolved.value_at(i);
        let entry: Option<Vec<String>> = match rfv {
            ResolvedFieldValue::Unmanaged => None,
            ResolvedFieldValue::DerivedFrom { inputs } => {
                let mut v: Vec<String> = Vec::new();
                v.push(format_derived_display(inputs));
                assert(v.deep_view() =~= seq![spec_derived_display(inputs@)]);
                Some(v)
            },
            _ => match rfv.value() {
                Some(value) => {
                    let values = value_to_attr_values(k.as_str(), value);
                    if values.len() == 0 {
                        None
                    } else {
                        Some(values)
                    }
                },
                None => None,
            },
        };
        match entry {
            Some(values) => {
                proof {
                    assert forall|j: int| 0 <= j < out@.len() implies out@[j].0 != k@ by {
                        let m = choose|m: int| 0 <= m < i && #[trigger] out@[j].0 == resolved@[m].0;
                        assert(resolved@[m].0 != resolved@[i as int].0);
                    }
                    lemma_key_pos(out@, k@);
                }
                let ghost before = out@;
                let ghost vv = values.deep_view();
                out.insert(k.clone(), values);
                assert(out@ == before.push((k@, vv)));
                assert forall|j: int| 0 <= j < out@.len() implies exists|m: int|
                    0 <= m < i + 1 && #[trigger] out@[j].0 == resolved@[m].0 by {
                    if j < before.len() {
                        let m = choose|m: int| 0 <= m < i && #[trigger] before[j].0 == resolved@[m].0;
                        assert(out@[j].0 == resolved@[m].0);
                    } else {
                        assert(out@[j].0 == resolved@[i as int].0);
                    }
                }
            },
            None => {},
        }
        i = i + 1;
    }
    assert(resolved@.take(resolved@.len() as int) =~= resolved@);
    out
}

} // verus!
