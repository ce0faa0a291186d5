//! Keeps a central authority's view of per-node DHCP state in sync with a
//! fleet of agents, and turns that aggregated state into a rendered, diffed,
//! ownership-safe set of managed cluster objects with idempotent status
//! reporting.
//!
//! The crate holds the protocol and reconciliation logic: freshness tokens,
//! adaptive backoff, full/shallow scope negotiation, manifest rendering and
//! diffing, the ownership guard, and status-condition merging.  Transport,
//! file watching and cluster I/O live outside; they hand plain values in and
//! take plain values back.

pub mod agent;
pub mod api;
pub mod crd;
pub mod dhcpcd;
pub mod discovery;
pub mod guard;
pub mod plan;
pub mod provider;
pub mod reconcile;
pub mod render;
pub mod service;
pub mod state;
pub mod status;
pub mod text;
