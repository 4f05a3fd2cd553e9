//! Cooperating nodes of a simulated distributed cluster.
//!
//! A node bootstraps into the cluster through an initialization handshake,
//! then answers protocol messages: gossip-style broadcast of integer values
//! across an unreliable topology, and a per-key append-only commit log with
//! independently tracked commit bookmarks.  A standalone storage backend
//! offers the same append/read primitives behind a small binary protocol.
//!
//! The crate holds the protocol data model, the node state machine, the
//! gossip engine, the commit-log engine, and the storage backend's core.
//! Transport and serialization (line-delimited JSON on stdio, framed
//! packets on stream sockets) are left to the embedding program, which
//! hands the library plain values and sends what it gets back.

pub mod protocol;
pub mod store;
pub mod gossip;
pub mod node;
pub mod storage;
