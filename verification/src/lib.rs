//! A client-side load-balanced channel core: a periodic service probe that
//! resolves a hostname to a set of backend endpoints and emits minimal
//! change-sets, and a balanced registry of per-endpoint sub-channels that
//! dispatches requests by the power-of-two-choices rule.

pub mod builder;
pub mod change;
pub mod channel;
pub mod endpoint;
pub mod endpoint_set;
pub mod probe;
pub mod registry;
pub mod select;
