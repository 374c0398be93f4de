//! What the operations of the library are for, as laws over all inputs.
pub mod messages;
pub mod models;
pub mod numbers;
pub mod query;
pub mod session;
pub mod store;
pub mod ticks;
pub mod times;
pub mod wire;
