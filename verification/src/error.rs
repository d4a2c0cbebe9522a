use vstd::prelude::*;
use anyhow::Error as AnyhowError;

verus! {

/// `anyhow::Error`, the error that user components return; the library only
/// carries it, and nothing is assumed of what it holds.
#[verifier::external_type_specification]
#[verifier::external_body]
pub struct ExAnyhowError(AnyhowError);

/// What can go wrong while building or rendering components.
#[derive(Debug)]
pub enum Error {
    /// A text could not be built.
    TextBuilder(String),
    /// A column could not be built.
    FlexColumnBuilder(String),
    /// The terminal failed.
    Crossterm(String),
    /// The cursor was placed more than once in a frame.
    RenderedCursorMoreThanOnce,
    /// A user component failed to render.
    Anyhow(AnyhowError),
    /// A user component inside a text rendered to something else than text.
    RenderedNonTextChildInText,
}

impl From<AnyhowError> for Error {
    fn from(value: AnyhowError) -> (e: Error)
        ensures
            e == Error::Anyhow(value),
    {
        Error::Anyhow(value)
    }
}

impl vstd::std_specs::convert::FromSpecImpl<AnyhowError> for Error {
    open spec fn obeys_from_spec() -> bool {
        true
    }

    open spec fn from_spec(v: AnyhowError) -> Error {
        Error::Anyhow(v)
    }
}

} // verus!
