//! Errors arising while driving a core library, and the translations the
//! backend applies to results from the loader and from string conversion.
//!
//! The process-side glue that actually loads the shared library and calls
//! its exported symbols reports its failures as plain strings; here they are
//! folded into the one error type callers match on.

use vstd::prelude::*;

verus! {

/// Why a core could not be driven.
#[derive(Debug, Clone, PartialEq)]
pub enum CoreError {
    /// The shared library could not be loaded, or a symbol was missing.
    BadLibrary(String),
    /// A string the core handed over was not valid text.
    BadEncoding(String),
    /// The content file could not be read.
    FileLoadError(String),
}

/// Folds a loader result into a [`CoreError`].
pub fn translate_lib_result<T>(result: Result<T, String>) -> (r: Result<T, CoreError>)
    ensures
        match result {
            Ok(v) => r == Ok::<T, CoreError>(v),
            Err(e) => r matches Err(err) && err == CoreError::BadLibrary(e),
        },
{
    match result {
        Ok(v) => Ok(v),
        Err(v) => Err(CoreError::BadLibrary(v)),
    }
}

/// Folds a text-conversion result into a [`CoreError`].
pub fn translate_encoding_result<T>(result: Result<T, String>) -> (r: Result<T, CoreError>)
    ensures
        match result {
            Ok(v) => r == Ok::<T, CoreError>(v),
            Err(e) => r matches Err(err) && err == CoreError::BadEncoding(e),
        },
{
    match result {
        Ok(v) => Ok(v),
        Err(v) => Err(CoreError::BadEncoding(v)),
    }
}

} // verus!
