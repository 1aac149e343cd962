//! A stateful coordination layer for coding agents: an append-only event log
//! of objectives, observations, claims, evidence, findings and change
//! transactions, replayed into a projection whose freshness verdicts say what
//! an agent may still trust.

pub mod attention;
pub mod belief;
pub mod delta;
pub mod digest;
pub mod drift;
pub mod error;
pub mod explain;
pub mod event;
pub mod laws;
pub mod locate;
pub mod model;
pub mod mutation;
pub mod normalizers;
pub mod params;
pub mod paths;
pub mod projection;
pub mod payloads;
pub mod reads;
pub mod reconcile;
pub mod siblings;
pub mod sort;
pub mod state;
pub mod status;
pub mod store;
pub mod text;
pub mod views;
pub mod workspace;
pub mod summary;
pub mod worktree;
