//! Dynamic value marshalling and RPC dispatch bridge for a packet
//! radio.
//!
//! The crate models the canonical structured value (null, boolean,
//! number, string, array, object), converts it to and from a
//! dynamically typed host value with exact contracts, validates the
//! radio-control inputs (link-layer address length, radio mode), and
//! decodes and encodes the text form of RPC parameters and results.
//! The physical radio driver and the host interpreter glue live
//! outside the crate and hand plain values across.

pub mod bridge;
pub mod convert;
pub mod error;
pub mod float_bits;
pub mod host;
pub mod json;
pub mod value;
