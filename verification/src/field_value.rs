//! Field values of the desired state: each says how the provider owns an
//! attribute (managed, written once, not at all, or derived from inputs).

use vstd::prelude::*;
use crate::json::{JsonValue, JsonView};
use crate::strmap::StrMap;

verus! {

/// A field of the desired state, as declared.
pub enum FieldValue {
    /// The provider keeps the attribute at this value.
    Managed { value: JsonValue },
    /// The provider writes this value only where the attribute is absent.
    Initial { value: JsonValue },
    /// The provider leaves the attribute alone.
    Unmanaged,
    /// The value is computed later from the named inputs (alias to path).
    DerivedFrom { inputs: StrMap<String>, expression: String },
}

/// A field value once resolved for planning.
pub enum ResolvedFieldValue {
    Managed(JsonValue),
    Initial(JsonValue),
    Unmanaged,
    DerivedFrom { inputs: StrMap<String> },
}

/// The view of a [`FieldValue`].
pub enum FieldValueView {
    Managed(JsonView),
    Initial(JsonView),
    Unmanaged,
    DerivedFrom(Seq<(Seq<char>, Seq<char>)>, Seq<char>),
}

/// The view of a [`ResolvedFieldValue`].
pub enum ResolvedView {
    Managed(JsonView),
    Initial(JsonView),
    Unmanaged,
    DerivedFrom(Seq<(Seq<char>, Seq<char>)>),
}

impl View for FieldValue {
    type V = FieldValueView;

    open spec fn view(&self) -> FieldValueView {
        match self {
            FieldValue::Managed { value } => FieldValueView::Managed(value@),
            FieldValue::Initial { value } => FieldValueView::Initial(value@),
            FieldValue::Unmanaged => FieldValueView::Unmanaged,
            FieldValue::DerivedFrom { inputs, expression } => FieldValueView::DerivedFrom(
                inputs@,
                expression@,
            ),
        }
    }
}

impl DeepView for FieldValue {
    type V = FieldValueView;

    open spec fn deep_view(&self) -> FieldValueView {
        self@
    }
}

impl View for ResolvedFieldValue {
    type V = ResolvedView;

    open spec fn view(&self) -> ResolvedView {
        match self {
            ResolvedFieldValue::Managed(v) => ResolvedView::Managed(v@),
            ResolvedFieldValue::Initial(v) => ResolvedView::Initial(v@),
            ResolvedFieldValue::Unmanaged => ResolvedView::Unmanaged,
            ResolvedFieldValue::DerivedFrom { inputs } => ResolvedView::DerivedFrom(inputs@),
        }
    }
}

impl DeepView for ResolvedFieldValue {
    type V = ResolvedView;

    open spec fn deep_view(&self) -> ResolvedView {
        self@
    }
}

/// What a declared field resolves to: its kind and value, without the
/// expression of a derived field.
pub open spec fn spec_resolve(f: FieldValueView) -> ResolvedView {
    match f {
        FieldValueView::Managed(v) => ResolvedView::Managed(v),
        FieldValueView::Initial(v) => ResolvedView::Initial(v),
        FieldValueView::Unmanaged => ResolvedView::Unmanaged,
        FieldValueView::DerivedFrom(inputs, _) => ResolvedView::DerivedFrom(inputs),
    }
}

/// The value of a managed or initial field.
pub open spec fn spec_value(r: ResolvedView) -> Option<JsonView> {
    match r {
        ResolvedView::Managed(v) => Some(v),
        ResolvedView::Initial(v) => Some(v),
        _ => None,
    }
}

/// The text of a managed or initial field whose value is a JSON string.
pub open spec fn spec_as_str(r: ResolvedView) -> Option<Seq<char>> {
    match spec_value(r) {
        Some(JsonView::String(s)) => Some(s),
        _ => None,
    }
}

impl FieldValue {
    /// Resolves the field for planning.
    pub fn resolve(&self) -> (r: ResolvedFieldValue)
        ensures
            r@ == spec_resolve(self@),
    {
        match self {
            FieldValue::Managed { value } => ResolvedFieldValue::Managed(value.copy()),
            FieldValue::Initial { value } => ResolvedFieldValue::Initial(value.copy()),
            FieldValue::Unmanaged => ResolvedFieldValue::Unmanaged,
            FieldValue::DerivedFrom { inputs, expression: _ } => ResolvedFieldValue::DerivedFrom {
                inputs: inputs.copy(),
            },
        }
    }
}

impl ResolvedFieldValue {
    /// Whether the field is unmanaged.
    pub fn is_unmanaged(&self) -> (r: bool)
        ensures
            r == (self@ is Unmanaged),
    {
        match self {
            ResolvedFieldValue::Unmanaged => true,
            _ => false,
        }
    }

    /// The value of a managed or initial field.
    pub fn value(&self) -> (r: Option<&JsonValue>)
        ensures
            match spec_value(self@) {
                Some(v) => r is Some && r->0@ == v,
                None => r is None,
            },
    {
        match self {
            ResolvedFieldValue::Managed(v) => Some(v),
            ResolvedFieldValue::Initial(v) => Some(v),
            _ => None,
        }
    }

    /// The text of a managed or initial field whose value is a JSON string.
    pub fn as_str(&self) -> (r: Option<&str>)
        ensures
            match spec_as_str(self@) {
                Some(s) => r is Some && r->0@ == s,
                None => r is None,
            },
    {
        match self.value() {
            Some(JsonValue::String(s)) => Some(s.as_str()),
            _ => None,
        }
    }
}

} // verus!
