//! The error that every command reports.

use vstd::prelude::*;

verus! {

/// What went wrong: a code that the frontend translates, or a message of its own.
#[derive(Debug)]
pub enum AppError {
    Code(&'static str),
    Other(String),
}

/// The model of an [`AppError`].
pub enum AppErrorView {
    Code(Seq<char>),
    Other(Seq<char>),
}

pub type AppResult<T> = Result<T, AppError>;

impl View for AppError {
    type V = AppErrorView;

    open spec fn view(&self) -> AppErrorView {
        match self {
            AppError::Code(c) => AppErrorView::Code(c@),
            AppError::Other(m) => AppErrorView::Other(m@),
        }
    }
}

/// The text that an error shows.
pub open spec fn error_text(e: AppErrorView) -> Seq<char> {
    match e {
        AppErrorView::Code(c) => c,
        AppErrorView::Other(m) => m,
    }
}

impl AppError {
    /// A localisable error.
    pub fn code(code: &'static str) -> (e: AppError)
        ensures
            e@ == AppErrorView::Code(code@),
    {
        AppError::Code(code)
    }

    /// An error with a message of its own.
    pub fn other(message: String) -> (e: AppError)
        ensures
            e@ == AppErrorView::Other(message@),
    {
        AppError::Other(message)
    }

    /// The code of a localisable error, or the message of any other.
    pub fn message(&self) -> (s: String)
        ensures
            s@ == error_text(self@),
    {
        match self {
            AppError::Code(c) => (*c).to_string(),
            AppError::Other(m) => m.clone(),
        }
    }
}

} // verus!
