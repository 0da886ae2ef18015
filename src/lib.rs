//! Cluster-aware routing for a key-value store that speaks a pipelined
//! request/response protocol with server-driven redirection.

pub mod keyslot;
pub mod resp;
pub mod command;
pub mod redirect;
pub mod slot_map;
pub mod router;
