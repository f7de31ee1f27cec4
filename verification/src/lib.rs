//! Admission control for an HTTP API: a token bucket per `(route, credential)`
//! pair, the extraction of that pair from a request, the limits of each route,
//! and the bodies of the responses that turn a request away.
//!
//! Time is a count of ticks that the caller hands in; nothing here reads a clock.

pub mod text;
pub mod json;
pub mod key_extractor;
pub mod tier;
pub mod token_bucket;
pub mod registry;
pub mod admission;
