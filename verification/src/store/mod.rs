//! Ticks from memory to disk: the columns and the buffers that hold recent
//! rows, the catalog of the files on disk, and when rows are flushed.
pub mod column;
pub mod hot_buf;
pub mod hot_buffers;
pub mod catalog;
pub mod paths;
pub mod batcher;
pub mod compactor;
