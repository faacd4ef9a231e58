//! Durable, quorum-replicated write-ahead-log acceptor ("safekeeper").
//!
//! The library covers the proposer--acceptor message protocol with its
//! term/LSN bookkeeping, the partial-segment remote-backup state
//! machine that piggybacks on the same persisted control state, and
//! the connection/timeline registry that routes messages to acceptors.
//! Beside the core stand the page-version index of the read-serving
//! tier and the cluster-node administration states.

pub mod acceptor;
pub mod backup;
pub mod compute;
pub mod conn;
pub mod lsn;
pub mod messages;
pub mod node_policy;
pub mod numfmt;
pub mod page_versions;
pub mod parsenum;
pub mod registry;
