//! Room directory, name registry and per-connection session logic of a
//! line-based chat server.
//!
//! The registry (`names::Names`) and the directory (`rooms::Rooms`) are plain
//! values changed through `&mut`; a server shares one of each between its
//! connections behind a lock. `session::Session` turns each line a client
//! sends into changes of both and a list of actions for the connection.
pub mod text;
pub mod message;
pub mod names;
pub mod table;
pub mod rooms;
pub mod membership;
pub mod command;
pub mod session;
