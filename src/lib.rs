//! Typed dependency-graph engine for fan control: node catalog, hardware
//! reconciliation, input sanitization, graph construction and evaluation.

pub mod catalog;
pub mod config;
pub mod curve;
pub mod edit;
pub mod eval;
pub mod graph;
pub mod hardware;
pub mod id;
pub mod into_node;
pub mod messages;
pub mod node;
