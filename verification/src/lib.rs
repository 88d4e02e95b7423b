//! A copy-on-write adapter for a bit-precise binary decode/encode protocol.
//!
//! The adapter ([`cow::CopyOnWrite`]) holds either an owned value or a
//! non-owning reference to a value of the same logical type. Decoding from a
//! bit cursor always produces an independently owned value; encoding
//! dispatches on the variant it holds, and both variants write the identical
//! bit pattern for equal payloads.

pub mod bits;
pub mod bounded;
pub mod codec;
pub mod cow;
pub mod error;
pub mod word;
