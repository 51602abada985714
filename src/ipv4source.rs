//! Where the IPv4 address to publish comes from.
use vstd::prelude::*;
use vstd::string::StringExecFns;

use crate::net::Ipv4;

verus! {

/// Why no address could be had.
#[derive(Clone, Debug, PartialEq, Eq, Hash)]
pub struct SourceError {
    msg: String,
}

impl SourceError {
    /// The description, in specifications.
    pub closed spec fn message_view(&self) -> Seq<char> {
        self.msg@
    }

    /// An error with the given description.
    pub fn new(msg: String) -> (r: SourceError)
        ensures
            r.message_view() == msg@,
    {
        SourceError { msg }
    }

    /// The description of the error.
    pub fn message(&self) -> (r: String)
        ensures
            r@ == self.message_view(),
    {
        self.msg.clone()
    }
}

impl From<String> for SourceError {
    fn from(s: String) -> (r: SourceError) {
        SourceError { msg: s }
    }
}

impl vstd::std_specs::convert::FromSpecImpl<String> for SourceError {
    closed spec fn obeys_from_spec() -> bool {
        true
    }

    closed spec fn from_spec(v: String) -> SourceError {
        SourceError { msg: v }
    }
}

/// Supplies the one IPv4 address that A records should point at.
pub trait Ipv4Source {
    /// The current address, or why there is none.
    fn addr(&self) -> Result<Ipv4, SourceError>;
}

/// A source that always gives the same address.
#[derive(Clone, Copy, Debug, PartialEq, Eq, Structural, Hash)]
pub struct FixedSource {
    addr: Ipv4,
}

impl FixedSource {
    /// The address, in specifications.
    pub closed spec fn fixed(&self) -> Ipv4 {
        self.addr
    }

    /// A source that always gives `address`.
    pub fn from_addr(address: Ipv4) -> (r: FixedSource)
        ensures
            r.fixed() == address,
    {
        FixedSource { addr: address }
    }

    /// The address this source gives.
    pub fn fixed_addr(&self) -> (r: Ipv4)
        ensures
            r == self.fixed(),
    {
        self.addr
    }
}

impl Ipv4Source for FixedSource {
    fn addr(&self) -> Result<Ipv4, SourceError> {
        Ok(self.fixed_addr())
    }
}

/// The message given when a hostname resolves to no IPv4 address.
pub open spec fn no_address_text(hostname: Seq<char>) -> Seq<char> {
    "query for host "@ + hostname + " did not return an IPv4 address"@
}

/// The address a hostname source gives from the addresses a lookup of `hostname` returned:
/// the first one. Round-robin setups are not taken into account.
pub fn first_resolved(hostname: &str, addrs: &Vec<Ipv4>) -> (r: Result<Ipv4, SourceError>)
    ensures
        addrs@.len() > 0 ==> r == Ok::<Ipv4, SourceError>(addrs@[0]),
        addrs@.len() == 0 ==> r is Err && r->Err_0.message_view() == no_address_text(hostname@),
{
    if addrs.len() > 0 {
        Ok(addrs[0])
    } else {
        let mut msg = String::from_str("query for host ");
        msg.append(hostname);
        msg.append(" did not return an IPv4 address");
        Err(SourceError::new(msg))
    }
}

} // verus!
