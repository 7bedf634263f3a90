//! Queries independent IP-intelligence services and normalizes their
//! divergent answers into one canonical record per provider probe.
//!
//! The crate holds the verified core: the canonical result model and its
//! invariant, the provider adapters' decision logic, the orchestrator's
//! fan-in (crash substitution, flattening, the deterministic sort), and a
//! self-inverse record codec. Network transport is left to the caller, who
//! feeds each probe's outcome back into the adapter.

pub mod codec;
pub mod ip_addr;
pub mod ip_result;
pub mod ipip_net;
pub mod json;
pub mod orchestrator;
