//! A client transport that forwards log lines and file contents over one
//! stream connection, as self-delimiting frames.
pub mod protocol;
pub mod client;
