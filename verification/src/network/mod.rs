//! The session with the exchange: splitting its byte stream into messages, and
//! reacting to them.
pub mod framing;
pub mod session;
