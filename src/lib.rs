//! A network log sink: each inbound connection's bytes are stored in a file
//! named after the UTC instant at which the connection was accepted.
//!
//! The library holds everything that is computed: the receipt timestamp and
//! its RFC 3339 text, the header line, the output file's name and its exact
//! contents, and the service's fixed settings. Sockets, files and the
//! console belong to the program that drives it.

pub mod config;
pub mod timestamp;
pub mod record;
