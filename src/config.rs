//! Values that configure a run.
use vstd::prelude::*;

pub use crate::plan::Policy;

verus! {

/// Where the IPv4 address to publish comes from.
#[derive(Clone, Copy, Debug, PartialEq, Eq, Structural, Hash)]
pub enum Ipv4AddressSource {
    /// Resolve a hostname and take its first address.
    Hostname,
    /// Use one fixed address.
    Fixed,
}

/// How much the application logs.
#[derive(Clone, Copy, Debug, PartialEq, Eq, Structural, Hash)]
pub enum Loglevel {
    Error,
    Warn,
    Info,
    Debug,
    Trace,
}

/// Which DNS service to use.
#[derive(Clone, Copy, Debug, PartialEq, Eq, Structural, Hash)]
pub enum Provider {
    Cloudflare,
}

} // verus!
