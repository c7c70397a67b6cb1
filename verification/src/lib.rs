//! What a mesh proxy knows about the workloads around it, and how it finds the
//! upstream for an address.
//!
//! The discovery service sends updates ([`xds`]); they are turned into workloads
//! ([`workload`]) and kept in [`information::WorkloadInformation`], which answers
//! lookups by address. [`laws`] states what holds across these operations.

pub mod bytes_spec;
pub mod data_laws;
pub mod digits;
pub mod identity;
pub mod information;
pub mod ip_grammar;
pub mod ip_laws;
pub mod ip_map;
pub mod ip_parse;
pub mod ip_text;
pub mod laws;
pub mod name_index;
pub mod net;
pub mod state_laws;
pub mod upstreams;
pub mod workload;
pub mod xds;
