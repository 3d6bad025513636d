//! Session and client lifecycle management for a multi-account messaging client.
//!
//! The library keeps the registry of protocol clients, drives each of them through the
//! authorization state machine, keeps the order of recently used sessions and classifies
//! the persistent data directory at startup. Every decision is a verified function from the
//! current state and an event to the next state and a list of actions; running those actions
//! (protocol calls, file system work, user interface) is left to the caller.
pub mod database;
pub mod recently_used;
pub mod session_manager;
pub mod utils;
