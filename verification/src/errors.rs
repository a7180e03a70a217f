use vstd::prelude::*;

verus! {

/// The error taxonomy of the order lifecycle. Every fallible operation of the
/// library and of the surrounding program reports one of these; none is
/// recovered from, each aborts the operation that raised it.
#[derive(Clone, Copy, Debug, PartialEq, Eq, Structural)]
pub enum OrderError {
    /// The gateway configuration file is missing or cannot be opened.
    ConfigUnreadable,
    /// The gateway configuration file is not structurally valid.
    ConfigMalformed,
    /// A configuration field interpolated by the requested operation is empty.
    MissingConfigField,
    /// An amount string of the pending order does not parse as a
    /// non-negative decimal number (or does not fit the representable range).
    InvalidAmount,
    /// The HTTP exchange failed at the transport level.
    TransportError,
    /// The gateway returned a non-success status.
    GatewayError,
    /// A result artifact could not be written.
    WriteError,
    /// Unrecognized command keyword or wrong positional-argument count.
    UsageError,
}

impl OrderError {
    /// A short human-readable name for the error, for reporting at the edge.
    pub fn message(&self) -> (r: &'static str)
        ensures
            self is ConfigUnreadable ==> r@ == "configuration file unreadable"@,
            self is ConfigMalformed ==> r@ == "configuration file malformed"@,
            self is MissingConfigField ==> r@ == "required configuration field is empty"@,
            self is InvalidAmount ==> r@ == "amount is not a non-negative decimal"@,
            self is TransportError ==> r@ == "transport failure"@,
            self is GatewayError ==> r@ == "gateway returned an error status"@,
            self is WriteError ==> r@ == "could not write result artifact"@,
            self is UsageError ==> r@ == "usage error"@,
    {
        match self {
            OrderError::ConfigUnreadable => "configuration file unreadable",
            OrderError::ConfigMalformed => "configuration file malformed",
            OrderError::MissingConfigField => "required configuration field is empty",
            OrderError::InvalidAmount => "amount is not a non-negative decimal",
            OrderError::TransportError => "transport failure",
            OrderError::GatewayError => "gateway returned an error status",
            OrderError::WriteError => "could not write result artifact",
            OrderError::UsageError => "usage error",
        }
    }
}

} // verus!
