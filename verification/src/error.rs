use vstd::prelude::*;

verus! {

/// Errors reported by the filter objects.
#[derive(Debug, Clone)]
pub enum Error {
    /// An argument or configuration is not valid for the object.
    Config(String),
    /// A length or index computation falls outside the representable range.
    Range(String),
    /// An internal consistency check failed.
    Internal(String),
}

/// Result type used throughout the library.
pub type Result<T> = core::result::Result<T, Error>;

/// A configuration error that carries `msg` as its message.
pub fn config_error(msg: &str) -> (e: Error)
    ensures
        e matches Error::Config(m) && m@ == msg@,
{
    Error::Config(msg.to_owned())
}

/// A range error that carries `msg` as its message.
pub fn range_error(msg: &str) -> (e: Error)
    ensures
        e matches Error::Range(m) && m@ == msg@,
{
    Error::Range(msg.to_owned())
}

} // verus!
