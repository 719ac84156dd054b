//! Client side of a binary database wire protocol.
//!
//! The crate has two parts, used in dependency order: a message codec
//! (`codec`) that encodes frontend messages and decodes backend messages
//! byte-exactly, and a connection driver (`driver`) that decides, from the
//! current login/query state and one decoded backend message, what the
//! client does next.  All protocol logic is verified; the caller supplies
//! the transport (a TCP stream, upgraded to TLS after the negotiation ack)
//! and feeds raw frames to the codec.

pub mod codec;
pub mod driver;
pub mod laws;
pub mod messages;
