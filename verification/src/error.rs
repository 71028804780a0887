//! The errors that the provider reports.

use vstd::prelude::*;

verus! {

/// An error of the provider, with the text that explains it.
pub enum ProviderError {
    OperationFailed(String),
    MissingConfig { field: String },
    UnmanagedConfig { field: String },
    ConnectionFailed(String),
    DesiredStateParse(String),
    LiveStateParse(String),
}

/// The view of a [`ProviderError`].
pub enum ProviderErrorView {
    OperationFailed(Seq<char>),
    MissingConfig(Seq<char>),
    UnmanagedConfig(Seq<char>),
    ConnectionFailed(Seq<char>),
    DesiredStateParse(Seq<char>),
    LiveStateParse(Seq<char>),
}

impl View for ProviderError {
    type V = ProviderErrorView;

    open spec fn view(&self) -> ProviderErrorView {
        match self {
            ProviderError::OperationFailed(m) => ProviderErrorView::OperationFailed(m@),
            ProviderError::MissingConfig { field } => ProviderErrorView::MissingConfig(field@),
            ProviderError::UnmanagedConfig { field } => ProviderErrorView::UnmanagedConfig(field@),
            ProviderError::ConnectionFailed(m) => ProviderErrorView::ConnectionFailed(m@),
            ProviderError::DesiredStateParse(m) => ProviderErrorView::DesiredStateParse(m@),
            ProviderError::LiveStateParse(m) => ProviderErrorView::LiveStateParse(m@),
        }
    }
}

/// The text of an error.
pub open spec fn spec_error_message(e: ProviderErrorView) -> Seq<char> {
    match e {
        ProviderErrorView::OperationFailed(m) => m,
        ProviderErrorView::MissingConfig(f) => "Missing required config field: "@ + f,
        ProviderErrorView::UnmanagedConfig(f) => "Config field must not be unmanaged: "@ + f,
        ProviderErrorView::ConnectionFailed(m) => "Connection failed: "@ + m,
        ProviderErrorView::DesiredStateParse(m) => "Failed to parse desired state: "@ + m,
        ProviderErrorView::LiveStateParse(m) => "Failed to parse live state: "@ + m,
    }
}

impl ProviderError {
    /// The text that explains the error.
    pub fn message(&self) -> (r: String)
        ensures
            r@ == spec_error_message(self@),
    {
        match self {
            ProviderError::OperationFailed(m) => m.clone(),
            ProviderError::MissingConfig { field } => crate::text::concat2(
                "Missing required config field: ",
                field.as_str(),
            ),
            ProviderError::UnmanagedConfig { field } => crate::text::concat2(
                "Config field must not be unmanaged: ",
                field.as_str(),
            ),
            ProviderError::ConnectionFailed(m) => crate::text::concat2(
                "Connection failed: ",
                m.as_str(),
            ),
            ProviderError::DesiredStateParse(m) => crate::text::concat2(
                "Failed to parse desired state: ",
                m.as_str(),
            ),
            ProviderError::LiveStateParse(m) => crate::text::concat2(
                "Failed to parse live state: ",
                m.as_str(),
            ),
        }
    }
}

} // verus!
