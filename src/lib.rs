//! A small language-server core: an in-memory store of open documents and
//! the queries (diagnostics, hover, definition, code actions, completion)
//! answered from each document's last synchronised text.
pub mod engine;
pub mod laws;
pub mod scan;
pub mod state;
pub mod types;
