//! The error the library's operations end in.

use vstd::prelude::*;

verus! {

/// What went wrong, by kind, with its message.
#[derive(Debug, Clone, PartialEq, Eq)]
pub enum PcsError {
    /// Any failure without a kind of its own.
    Generic(String),
    /// The store failed or refused.
    Store(String),
    /// The caller asked for something that is not allowed.
    Configuration(String),
}

/// The contents of a [`PcsError`].
pub ghost enum ErrorView {
    Generic(Seq<char>),
    Store(Seq<char>),
    Configuration(Seq<char>),
}

impl View for PcsError {
    type V = ErrorView;

    open spec fn view(&self) -> ErrorView {
        match *self {
            PcsError::Generic(m) => ErrorView::Generic(m@),
            PcsError::Store(m) => ErrorView::Store(m@),
            PcsError::Configuration(m) => ErrorView::Configuration(m@),
        }
    }
}

impl PcsError {
    /// The name of the error's kind.
    pub fn category(&self) -> (r: &'static str)
        ensures
            r@ == match self@ {
                ErrorView::Generic(_) => "generic"@,
                ErrorView::Store(_) => "store"@,
                ErrorView::Configuration(_) => "configuration"@,
            },
    {
        match self {
            PcsError::Generic(_) => "generic",
            PcsError::Store(_) => "store",
            PcsError::Configuration(_) => "configuration",
        }
    }

    /// The error's message.
    pub fn message(&self) -> (r: String)
        ensures
            r@ == match self@ {
                ErrorView::Generic(m) => m,
                ErrorView::Store(m) => m,
                ErrorView::Configuration(m) => m,
            },
    {
        match self {
            PcsError::Generic(m) => m.clone(),
            PcsError::Store(m) => m.clone(),
            PcsError::Configuration(m) => m.clone(),
        }
    }
}

} // verus!
