//! An in-memory coordination broker: a registry of worker nodes with their
//! socket addresses and heartbeats, and a registry of typed publish/subscribe
//! topics whose publisher/subscriber pairs are matched into channels.
//!
//! Every operation is stated over a mathematical view of the state (maps of
//! names to nodes and to topics) and proved to keep the broker's invariants.

pub mod error;
pub mod names;
pub mod channels;
pub mod topic;
pub mod topics;
pub mod topic_manager;
pub mod uds;
pub mod nodes;
pub mod broker;
pub mod laws;
