//! A minimal HTTP/1.1 "Hello, World!" connection handler.
//!
//! The library holds the per-connection state machine: the read buffer that
//! the decoder consumes, the write buffer that responses are appended to, and
//! the decisions taken after each read, decode and write. The caller performs
//! the socket I/O and reports what happened.
pub mod buffer;
pub mod codec;
pub mod conn;
pub mod wire;
