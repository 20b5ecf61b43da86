//! Verified core of a release sanity checker: a structural diff engine for
//! HTTP response snapshots, together with the pure decision logic of the
//! concurrent check pipeline (admission control, retry flow, result
//! reporting).

pub mod admission;
pub mod diff;
pub mod flow;
pub mod json;
pub mod laws;
pub mod printer;
pub mod render;
pub mod response;
pub mod strutil;

pub use json::JsonValue;
