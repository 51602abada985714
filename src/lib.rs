//! Keeps IPv4 (A) records in step with the IPv6 (AAAA) records of a DNS zone.
//!
//! Wherever a domain has an AAAA record, an A record pointing at one chosen IPv4 address is
//! created, but only on domains this instance owns. Ownership is recorded in the zone itself,
//! as TXT marker records.
//!
//! - [`registry`] derives and changes ownership from TXT markers
//! - [`plan`] decides which domains need an A record created, replaced or removed
//! - [`executor`] applies a plan through a provider and the registry
//! - [`provider`] is the interface to a DNS service, [`ipv4source`] to the address to publish

pub mod config;
pub mod executor;
pub mod ipv4source;
pub mod net;
pub mod plan;
pub mod provider;
pub mod registry;
pub mod cloudflare_dns;
