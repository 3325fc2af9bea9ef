//! Replication between nodes: discovery of peers and the pull protocol.

pub mod discovery;
pub mod peer;
