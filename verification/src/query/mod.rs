//! Queries: their wire format, what they read, and how clients send them.
pub mod query;
pub mod session;
pub mod syntax;
