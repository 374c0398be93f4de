//! A store of market ticks.
//!
//! Messages of the FIX protocol are framed, decoded and answered, their ticks are
//! held in column buffers, written out to one partition per symbol, kind and day,
//! and read again, from memory and from files, by queries.
//!
//! The library decides; it does no I/O. Sockets, files, timers and the query
//! engine are driven by the program around it, which hands in what arrived and
//! carries out what comes back.
//!
//! - [`text`], [`std_text`], [`buffer`]: characters, numbers and byte buffers.
//! - [`fix`]: fields, raw messages and the codec between them and bytes.
//! - [`network`]: where a message ends in a stream, and what a session answers.
//! - [`types`]: the ticks that messages carry.
//! - [`store`]: column buffers, the catalog of files, flushing and compaction.
//! - [`query`]: what a query asks for and what it reads.
//! - [`laws`]: what all of these are for, as statements over all inputs.
pub mod buffer;
pub mod config;
pub mod errors;
pub mod fix;
pub mod laws;
pub mod network;
pub mod query;
pub mod std_text;
pub mod store;
pub mod text;
pub mod types;
pub mod utils;
