//! Client-side protocol stack for a browser-automation daemon: command
//! parsing, session path resolution, daemon supervision decisions, the
//! newline-delimited JSON wire protocol, and response rendering.
//!
//! Everything here is pure computation over plain values; the surrounding
//! binary performs the actual process, filesystem and socket work and feeds
//! the observed facts into these functions.

pub mod command;
pub mod render;
pub mod session;
pub mod strutil;
pub mod supervisor;
pub mod wire;
