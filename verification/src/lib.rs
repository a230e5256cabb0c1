//! A chat backend's delivery core: events are fanned out to every live
//! connection of each recipient, wait in a queue for users who are not
//! connected, and chat messages are kept per user and chat in a mailbox
//! that is read newest first.

pub mod actions;
pub mod channel;
pub mod cors;
pub mod directory;
pub mod message;
pub mod ordering;
pub mod pending;
pub mod random;
pub mod registry;
pub mod sendables;
pub mod server;
pub mod state;
pub mod stream;
pub mod text;
pub mod user;
pub mod user_db;
