//! Error values shared by configuration parsing and rule building.

use vstd::prelude::*;

verus! {

/// A configuration that cannot be used: an unknown balancer strategy,
/// a malformed address, or an endpoint that enables nothing.
#[derive(Debug, Clone, Copy, PartialEq, Eq, Structural)]
pub enum ConfigError {
    InvalidConfig,
}

} // verus!
