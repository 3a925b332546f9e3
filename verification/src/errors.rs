//! Error types.
use vstd::prelude::*;

verus! {

/// The standard I/O error, carried through unchanged.
#[verifier::external_type_specification]
#[verifier::external_body]
pub struct ExIoError(std::io::Error);

/// Main error type of the library: configuration, initialization and
/// runtime failures.
#[derive(Debug)]
pub enum RefractiumError {
    /// The server failed to bind to the requested address.
    BindError(String, std::io::Error),
    /// The configuration data is invalid (e.g. an unknown protocol name).
    ConfigError(String),
    /// A standard I/O error encountered at runtime.
    Io(std::io::Error),
    /// A backend hostname or address could not be resolved.
    AddrResolution(String),
    /// A custom error message.
    Generic(String),
    /// An unexpected internal error.
    Unknown,
}

/// Convenience alias for `Result<T, RefractiumError>`.
pub type Result<T> = std::result::Result<T, RefractiumError>;

} // verus!
