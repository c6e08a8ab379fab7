//! A configurable multi-protocol network proxy engine.
//!
//! The engine composes a directed graph of nets (outbound connection
//! providers) and servers (inbound listeners). The graph is described by a
//! declarative configuration; the engine instantiates it, accepts live
//! reconfiguration, accounts every in-flight connection, and exposes a
//! control surface for inspection and control.

use vstd::prelude::*;

pub mod address;
pub mod clash;
pub mod config;
pub mod dns;
pub mod connection;
pub mod http;
pub mod hysteria2;
pub mod json;
pub mod manager;
pub mod registry;
pub mod rule;
pub mod sources;
pub mod storage;
pub mod select;
pub mod select_map;
pub mod running;
pub mod strmap;
pub mod tracing_helper;
pub mod strutil;
pub mod visitor;

verus! {

/// Error kinds shared across the engine.
#[derive(Debug, Clone, PartialEq, Eq)]
pub enum Error {
    /// Capability disabled in the configuration.
    NotEnabled,
    /// A capability the net does not support was called.
    NotImplemented,
    /// Missing storage key, unknown net id, unknown endpoint.
    NotFound,
    /// Control-plane token mismatch.
    Unauthorized,
    /// Malformed input: bad JSON, bad URI, bad CIDR, bad rule syntax.
    BadRequest,
    /// The configuration graph contains a reference cycle.
    CycleDetected,
    /// A net reference could not be resolved.
    UnresolvedNet(String),
    /// The connection's kill-signal fired.
    ConnectionAborted,
    /// No rule of a rule net matched the connection.
    NoRuleMatched,
    /// A probe exceeded its budget.
    Timeout,
    /// Failure from a wrapped net or OS call; carries the underlying message.
    Upstream(String),
}

} // verus!
