//! FIX messages: their fields, their wire format and the messages that a
//! session sends.
pub mod codec;
pub mod messages;
pub mod parser;
pub mod raw_msg;
pub mod roundtrip;
pub mod tag;
