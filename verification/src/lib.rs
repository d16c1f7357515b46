//! Synchronous bridge around an asynchronous virtual-filesystem capability.
//!
//! The capability itself (path resolution, content storage, overlay merge) is
//! an external collaborator; this crate holds the logic that surrounds it:
//! the errno-shaped result envelopes and transferable allocations that cross
//! the foreign-function boundary, the per-operation marshalling rules, the
//! directory-listing wire encoding, the fail-fast mount state machine, and
//! the session-registry reconciliation.

pub mod abi;
pub mod adapter;
pub mod handle;
pub mod listing;
pub mod mount;
pub mod registry;
pub mod text;
