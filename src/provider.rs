//! The interface to a DNS service: reading records, applying actions and keeping TXT markers.
use vstd::prelude::*;
use vstd::string::StringExecFns;

use crate::net::{Ipv4, Ipv6};
use crate::plan::Action;

verus! {

/// Time to live, in seconds, given to newly created records.
pub type TTL = u32;

/// What a record holds. Only the three kinds this library manages are represented.
#[derive(Clone, Debug, PartialEq, Eq, Hash)]
pub enum RecordContent {
    A(Ipv4),
    Aaaa(Ipv6),
    Txt(String),
}

/// A single DNS record: a fully qualified domain name and its content.
#[derive(Clone, Debug, PartialEq, Eq, Hash)]
pub struct DnsRecord {
    /// The fully qualified domain name of the record (e.g. `my.example.com`).
    pub domain_name: String,
    /// The data stored in the record.
    pub content: RecordContent,
}

/// Error returned by a provider.
#[derive(Clone, Debug, PartialEq, Eq, Hash)]
pub enum ProviderError {
    /// The provider cannot pretend to apply changes.
    DryRunNotSupported,
    /// Any failure of the DNS service or of talking to it.
    Internal(String),
}

pub open spec fn provider_error_text(e: ProviderError) -> Seq<char> {
    match e {
        ProviderError::DryRunNotSupported => "The selected provider does not support dry-run mode"@,
        ProviderError::Internal(msg) => "Internal provider Error: `"@ + msg@ + "`"@,
    }
}

impl ProviderError {
    /// A human readable description of the error.
    pub fn message(&self) -> (r: String)
        ensures
            r@ == provider_error_text(*self),
    {
        match self {
            ProviderError::DryRunNotSupported => String::from_str(
                "The selected provider does not support dry-run mode",
            ),
            ProviderError::Internal(msg) => {
                let mut s = String::from_str("Internal provider Error: `");
                s.append(msg.as_str());
                s.append("`");
                s
            },
        }
    }
}

impl From<String> for ProviderError {
    fn from(s: String) -> (r: ProviderError) {
        ProviderError::Internal(s)
    }
}

impl vstd::std_specs::convert::FromSpecImpl<String> for ProviderError {
    open spec fn obeys_from_spec() -> bool {
        true
    }

    open spec fn from_spec(v: String) -> ProviderError {
        ProviderError::Internal(v)
    }
}

/// Reads and writes the records of a DNS service. Implemented once per DNS backend.
pub trait DnsProvider {
    /// Pretend to apply changes from now on; fails with [`ProviderError::DryRunNotSupported`]
    /// where the backend cannot do so.
    fn enable_dry_run(&mut self) -> Result<(), ProviderError>;

    /// Whether the provider only pretends to apply changes.
    fn dry_run(&self) -> bool;

    /// The TTL given to new records, if one was set.
    fn ttl(&self) -> Option<TTL>;

    /// Give all records created from now on this TTL.
    fn set_ttl(&mut self, ttl: TTL);

    /// All A, AAAA and TXT records the provider serves; other kinds are left out.
    fn records(&self) -> Result<Vec<DnsRecord>, ProviderError>;

    /// Perform the record changes of one action: create an A record, replace all A records of
    /// a domain by one, or delete all of them.
    fn apply(&self, action: &Action) -> Result<(), ProviderError>;
}

/// Creates and deletes the TXT records that hold ownership markers.
pub trait TxTRegistryProvider {
    /// Create one TXT record.
    fn create_txt_record(&self, domain: String, content: String) -> Result<(), ProviderError>;

    /// Delete one TXT record.
    fn delete_txt_record(&self, domain: String, content: String) -> Result<(), ProviderError>;
}

/// A DNS service that serves both A records and the TXT records used for ownership.
pub trait Provider: DnsProvider + TxTRegistryProvider {

}

} // verus!
