//! The failures that running a statement can end in.

use std::fmt::Write;
use vstd::prelude::*;

verus! {

/// `rusqlite::Error`, the driver's error, carried as it is: nothing is known
/// of what it holds.
#[verifier::external_type_specification]
#[verifier::external_body]
pub struct ExDriverError(rusqlite::Error);

/// Why a statement gave no result.
#[derive(Debug)]
pub enum BuildliteError {
    /// A single row was asked for and the statement matched none.
    NoRowsError,
    /// The driver failed while preparing, binding or running the statement,
    /// or a row could not be mapped.
    SQLError(rusqlite::Error),
}

/// The text that the driver gives for its error, by the `Display` of
/// `rusqlite::Error`. Nothing is claimed of the text.
#[verifier::external_body]
fn driver_message(e: &rusqlite::Error) -> (text: String) {
    let mut text = String::new();
    let _ = write!(text, "{}", e);
    text
}

impl BuildliteError {
    /// The error as text for a reader: `No rows found!` for
    /// [`BuildliteError::NoRowsError`], and for a driver error the driver's
    /// own text.
    pub fn message(&self) -> (text: String)
        ensures
            self is NoRowsError ==> text@ == "No rows found!"@,
    {
        match self {
            BuildliteError::NoRowsError => String::from_str("No rows found!"),
            BuildliteError::SQLError(e) => driver_message(e),
        }
    }
}

/// Turns a driver result into one that carries a [`BuildliteError`].
pub trait BuildliteErrorMatch<T, U>: Sized {
    fn quick_match(self) -> Result<T, BuildliteError>;
}

impl<T> BuildliteErrorMatch<T, rusqlite::Error> for Result<T, rusqlite::Error> {
    /// A success is handed on unchanged; a driver error is wrapped, unchanged,
    /// in [`BuildliteError::SQLError`].
    fn quick_match(self) -> (res: Result<T, BuildliteError>)
        ensures
            res == wrap_driver_result(self),
    {
        match self {
            Ok(s) => Ok(s),
            Err(e) => Err(BuildliteError::SQLError(e)),
        }
    }
}

/// What [`BuildliteErrorMatch::quick_match`] makes of a driver result.
pub open spec fn wrap_driver_result<T>(res: Result<T, rusqlite::Error>) -> Result<
    T,
    BuildliteError,
> {
    match res {
        Ok(s) => Ok(s),
        Err(e) => Err(BuildliteError::SQLError(e)),
    }
}

} // verus!
