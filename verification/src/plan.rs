//! The changes that a plan shows, one per entry.

use vstd::prelude::*;

verus! {

/// A change of one field: its value before and after.
pub struct FieldDiff {
    pub field: String,
    pub from: Option<String>,
    pub to: Option<String>,
}

/// The view of a [`FieldDiff`].
pub struct FieldDiffView {
    pub field: Seq<char>,
    pub from: Option<Seq<char>>,
    pub to: Option<Seq<char>>,
}

/// The view of an optional string.
pub open spec fn opt_str_view(o: Option<String>) -> Option<Seq<char>> {
    match o {
        Some(s) => Some(s@),
        None => None,
    }
}

impl View for FieldDiff {
    type V = FieldDiffView;

    open spec fn view(&self) -> FieldDiffView {
        FieldDiffView { field: self.field@, from: opt_str_view(self.from), to: opt_str_view(self.to) }
    }
}

impl DeepView for FieldDiff {
    type V = FieldDiffView;

    open spec fn deep_view(&self) -> FieldDiffView {
        self@
    }
}

/// A change of one resource, named by its identifier.
pub enum ResourceChange {
    Add { resource_id: String, fields: Vec<FieldDiff> },
    Modify { resource_id: String, field_changes: Vec<FieldDiff> },
    Delete { resource_id: String },
}

/// The view of a [`ResourceChange`].
pub enum ResourceChangeView {
    Add { resource_id: Seq<char>, fields: Seq<FieldDiffView> },
    Modify { resource_id: Seq<char>, field_changes: Seq<FieldDiffView> },
    Delete { resource_id: Seq<char> },
}

impl View for ResourceChange {
    type V = ResourceChangeView;

    open spec fn view(&self) -> ResourceChangeView {
        match self {
            ResourceChange::Add { resource_id, fields } => ResourceChangeView::Add {
                resource_id: resource_id@,
                fields: fields.deep_view(),
            },
            ResourceChange::Modify { resource_id, field_changes } => ResourceChangeView::Modify {
                resource_id: resource_id@,
                field_changes: field_changes.deep_view(),
            },
            ResourceChange::Delete { resource_id } => ResourceChangeView::Delete {
                resource_id: resource_id@,
            },
        }
    }
}

impl DeepView for ResourceChange {
    type V = ResourceChangeView;

    open spec fn deep_view(&self) -> ResourceChangeView {
        self@
    }
}

} // verus!
