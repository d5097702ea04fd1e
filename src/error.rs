use vstd::prelude::*;

verus! {

/// Why an exchange did not produce a response.
#[derive(Debug, Clone, PartialEq, Eq)]
pub enum FetchError {
    /// The target address is empty or cannot be split into host, port and path.
    InvalidAddress,
    /// A header name or value (or the user agent) cannot be written on one line.
    InvalidHeader,
    /// The selected protocol version cannot be written by a text serializer.
    UnsupportedVersion,
    /// Name resolution or connecting failed, including a connect timeout.
    ConnectionFailed(String),
    /// Writing the request failed.
    SendFailed(String),
    /// Reading the response failed.
    ReceiveFailed(String),
    /// The response grew past the configured size bound.
    ResponseTooLarge,
    /// No response bytes arrived within the configured read bound.
    ReadTimeout,
}

} // verus!
