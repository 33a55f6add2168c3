//! Lifecycle management for external language-analysis server processes.
//!
//! The crate models the state that an editor keeps about running language
//! servers: a registry of server descriptors, a table of live instances with
//! reference counts and attached files, the request/response correlation
//! table of one protocol client, the initialization handshake, and the
//! byte-level framing of protocol messages. Process spawning, pipes and the
//! user interface live outside; they drive these data structures and carry
//! out the actions they return.

pub mod correlate;
pub mod errors;
pub mod extensions;
pub mod framing;
pub mod handshake;
pub mod lang;
pub mod manager;
pub mod messages;
pub mod registry;
pub mod seqs;
pub mod text;
pub mod theme;
