//! The closed set of error kinds the record store surfaces. Each variant
//! carries only what is needed to render its message.

use vstd::prelude::*;

verus! {

/// An error of the record store.
#[derive(Debug)]
pub enum HabitError {
    /// No record matched the given identifier.
    NotFound(String),
    /// A name was empty after trimming, or a frequency was not a number.
    InvalidName(String),
    /// A completion of the named habit was already recorded for the date.
    AlreadyCompleted(String),
    /// Reading or writing the backing file failed.
    Io(String),
    /// The backing file exists but does not hold the expected format.
    Corrupt(String),
}

/// The mathematical model of an error.
pub enum ErrorView {
    NotFound(Seq<char>),
    InvalidName(Seq<char>),
    AlreadyCompleted(Seq<char>),
    Io(Seq<char>),
    Corrupt(Seq<char>),
}

impl View for HabitError {
    type V = ErrorView;

    open spec fn view(&self) -> ErrorView {
        match self {
            HabitError::NotFound(s) => ErrorView::NotFound(s@),
            HabitError::InvalidName(s) => ErrorView::InvalidName(s@),
            HabitError::AlreadyCompleted(s) => ErrorView::AlreadyCompleted(s@),
            HabitError::Io(s) => ErrorView::Io(s@),
            HabitError::Corrupt(s) => ErrorView::Corrupt(s@),
        }
    }
}

} // verus!
