//! Errors of the library.
use vstd::prelude::*;

verus! {

/// The result of an operation that may fail with a [`RealIpError`].
pub type Result<T> = core::result::Result<T, RealIpError>;

/// Errors that can occur while reading an address.
#[derive(Clone, Debug, PartialEq, Eq)]
pub enum RealIpError {
    /// The text is not an IPv4 or IPv6 address literal; it carries the text.
    InvalidIpFormat(String),
    /// No valid IP address was found in headers or fallback.
    NoValidIp,
    /// A header value was not valid UTF-8; it carries the header's name.
    InvalidUtf8(String),
}

} // verus!
