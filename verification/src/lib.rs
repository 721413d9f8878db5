//! A byte-bounded least-recently-used cache and the framing of the wire
//! protocol that a server and its clients speak.

pub mod cache;
pub mod client;
pub mod client_codec;
pub mod frame;
pub mod helpers;
pub mod list;
pub mod server_codec;
pub mod service;
pub mod trace;
pub mod types;
