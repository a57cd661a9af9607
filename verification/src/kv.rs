//! The key-value server's wire protocol: frames on a byte stream, the
//! buffers that a stream keeps, and the abstraction of command handling.

pub mod buffer;
pub mod error;
pub mod frame;
pub mod gzip;
pub mod service;
pub mod stream;
