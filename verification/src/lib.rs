//! A typed, self-describing value container that round-trips through the
//! generic JSON wire format while preserving richer semantic types:
//! booleans, arbitrary-precision decimals, dates, times, UTC timestamps,
//! strings, binary blobs, and nested objects.
//!
//! Deserialization classifies every untyped wire leaf into one typed variant
//! by a fixed priority order; serialization emits each variant in a canonical
//! textual encoding chosen so that classification is stable under round-trip.

pub mod types;

pub use types::Types;
pub use entry::{Entry, Error};
pub use json::JSON;

pub mod dec;
pub mod b64;
pub mod dt;
pub mod entry;
pub mod codec;
pub mod json;
