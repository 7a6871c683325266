//! Wire-schema layer: tagged request envelopes, empty payload markers and a
//! generic wrapper that attaches one metadata field to an inner payload.

pub mod wire;
pub mod codec;
pub mod envelope;
pub mod payloads;
pub mod valid;
pub mod auth;
pub mod ip;
pub mod ipv6;
pub mod admin;
pub mod laws;
