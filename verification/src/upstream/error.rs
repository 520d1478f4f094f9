//! Errors of the upstream.

use vstd::prelude::*;
use vstd::string::*;

verus! {

/// What went wrong with the upstream.
pub enum AppError {
    /// The account was turned away.
    Unauthorized(String),
    /// Anything else.
    Upstream(String),
}

/// What went wrong, as a mathematical value.
pub enum ErrorView {
    Unauthorized(Seq<char>),
    Upstream(Seq<char>),
}

impl View for AppError {
    type V = ErrorView;

    open spec fn view(&self) -> ErrorView {
        match *self {
            AppError::Unauthorized(m) => ErrorView::Unauthorized(m@),
            AppError::Upstream(m) => ErrorView::Upstream(m@),
        }
    }
}

/// The view of a text or an error.
pub open spec fn reply_view(r: Result<String, AppError>) -> Result<Seq<char>, ErrorView> {
    match r {
        Ok(s) => Ok(s@),
        Err(e) => Err(e@),
    }
}

impl AppError {
    /// What the error says.
    pub fn message(&self) -> (r: &str)
        ensures
            r@ == match self@ {
                ErrorView::Unauthorized(m) => m,
                ErrorView::Upstream(m) => m,
            },
    {
        match self {
            AppError::Unauthorized(m) => m.as_str(),
            AppError::Upstream(m) => m.as_str(),
        }
    }
}

} // verus!
