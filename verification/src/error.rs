use vstd::prelude::*;

verus! {

/// The error taxonomy of the bridge.
///
/// Every operation of the boundary returns one of these as a typed,
/// recoverable result; none is logged, retried, or suppressed inside
/// the bridge, and a driver-reported cause is carried verbatim as text.
#[derive(Debug, Clone, PartialEq, Eq)]
pub enum Error {
    /// Opening or initialising the radio driver failed.
    DriverInit(String),
    /// The text handed to an RPC call is not a well-formed encoding.
    ParamsDecode(String),
    /// Re-encoding an RPC result to text failed.
    ResultEncode(String),
    /// A host value has no structured-value representation; carries the
    /// host-runtime name of the offending value's type.
    UnsupportedType(String),
    /// The radio driver rejected or failed the call; the cause is
    /// forwarded verbatim.
    Rpc(String),
    /// The requested radio mode is not in the supported set.
    UnknownMode,
    /// A link-layer address does not have exactly five bytes.
    InvalidAddressLength,
}

} // verus!
