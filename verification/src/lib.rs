//! Remote cargo builds over one TCP connection: the server builds, this machine runs what it built.
//!
//! Framing: `u32` little-endian length, then an encoded message.
//! Bulk file bodies are NOT framed: after a `Push`, the client writes each
//! file's bytes back to back, and the server reads exactly `size` bytes per
//! header. Framing every 4 KB source file individually would be pure overhead.
#![allow(unused_imports)]

pub mod bodies;
pub mod command;
pub mod files;
pub mod flags;
pub mod globs;
pub mod json;
pub mod keys;
pub mod meta;
pub mod number;
pub mod order;
pub mod pack;
pub mod paths;
pub mod plain;
pub mod plan;
pub mod report;
pub mod scan;
pub mod server;
pub mod session;
pub mod text;
pub mod wire;

pub use crate::paths::{valid_project, valid_rel};
pub use crate::wire::{recv, send, ClientMsg, FileHeader, ServerMsg, CHUNK, NAMESPACE, PORT};
