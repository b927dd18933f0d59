//! An HTTP echo server's logic: resolving the start-up configuration from
//! `--name=value` flags, and turning each inbound request into a response.
//! The transport (sockets, framing, streaming bodies) lives outside this crate.
pub mod config;
pub mod handler;
pub mod headers;
pub mod laws;
