//! Errors of configuration and of serving a request.

use vstd::prelude::*;

verus! {

/// Why a request could not be served.
#[derive(Debug, Clone, Copy, PartialEq, Eq, Structural)]
pub enum ServeError {
    /// The routed path does not exist or could not be canonicalized.
    NotFound,
    /// The canonical path lies outside the directory it was routed to.
    Forbidden,
    /// The file's extension has no content type.
    UnknownExtension,
}

/// Why a configuration could not be used.
#[derive(Debug)]
pub enum ConfigError {
    /// The base directory could not be canonicalized.
    BaseDirectory,
    /// The directory mapped under this prefix could not be canonicalized.
    MappedDirectory(String),
}

/// A string result as a character-sequence result.
pub open spec fn result_view(r: Result<String, ServeError>) -> Result<Seq<char>, ServeError> {
    match r {
        Ok(s) => Ok(s@),
        Err(e) => Err(e),
    }
}

impl ServeError {
    /// A short description for diagnostics.
    pub fn describe(&self) -> (r: &'static str)
        ensures
            *self == ServeError::NotFound ==> r@ == "not found"@,
            *self == ServeError::Forbidden ==> r@ == "outside of its directory"@,
            *self == ServeError::UnknownExtension ==> r@ == "unknown extension"@,
    {
        match self {
            ServeError::NotFound => "not found",
            ServeError::Forbidden => "outside of its directory",
            ServeError::UnknownExtension => "unknown extension",
        }
    }
}

} // verus!
