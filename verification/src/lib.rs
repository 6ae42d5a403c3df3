//! Core of a peer-to-peer overlay network.
//!
//! A node is known by an id derived from its key, not by its address. It
//! keeps a registry of the peers it is connected to, as routing hints or
//! as stable peers, and a buffer for what waits for a connection. This
//! crate holds the node's state and its decisions: what the dispatcher
//! does with a request of the application, what the inbound router does
//! with a new connection, what happens when a session ends. Every
//! decision takes the state and an event and gives back the actions to
//! carry out; keys, transports and sessions themselves are run by whoever
//! uses the crate.
//!
//! `global` has the node's state and `laws` what holds of it.

pub mod actions;
pub mod buffer;
pub mod config;
pub mod dispatcher;
pub mod distance;
pub mod global;
pub mod hex;
pub mod kad;
pub mod keys;
pub mod laws;
pub mod message;
pub mod peer;
pub mod peer_list;
pub mod pending;
pub mod router;
pub mod server;
pub mod session;
pub mod types;
