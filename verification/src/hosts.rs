//! The built-in network hosts and first-match classification of an address
//! against their owned networks.

use vstd::prelude::*;

verus! {

use crate::net::{addr_in_networks, spec_addr_in_networks, Ipv4Cidr};

/// A network host an address can belong to.
#[derive(Debug, Clone, Copy, PartialEq, Eq, Structural)]
pub enum Host {
    GoogleCloud,
    AmazonWebServices,
    Unknown,
}

impl Host {
    /// The display name of the host.
    pub fn name(&self) -> (r: &'static str)
        ensures
            *self is GoogleCloud ==> r@ == "Google Cloud"@,
            *self is AmazonWebServices ==> r@ == "Amazon Web Services"@,
            *self is Unknown ==> r@ == "unknown"@,
    {
        match self {
            Host::GoogleCloud => "Google Cloud",
            Host::AmazonWebServices => "Amazon Web Services",
            Host::Unknown => "unknown",
        }
    }
}

/// The networks owned by a given host.
#[derive(Debug)]
pub struct OwnedNetwork {
    pub host: Host,
    pub subnets: Vec<Ipv4Cidr>,
}

/// First-match classification: the first host in `nets` owning a subnet
/// that contains `addr`, if any.
pub open spec fn spec_address_host(addr: u32, nets: Seq<OwnedNetwork>) -> Option<Host>
    decreases nets.len(),
{
    if nets.len() == 0 {
        None
    } else if spec_addr_in_networks(addr, nets[0].subnets@) {
        Some(nets[0].host)
    } else {
        spec_address_host(addr, nets.drop_first())
    }
}

/// Search `nets` for an IPv4 subnet that contains `addr` and return the
/// owning host, if any; an earlier entry wins over a later one.
pub fn get_address_host(addr: u32, nets: &[OwnedNetwork]) -> (r: Option<Host>)
    ensures
        r == spec_address_host(addr, nets@),
{
    let mut i: usize = 0;
    proof {
        assert(nets@.skip(0) =~= nets@);
    }
    while i < nets.len()
        invariant
            i <= nets@.len(),
            spec_address_host(addr, nets@) == spec_address_host(addr, nets@.skip(i as int)),
        decreases nets@.len() - i,
    {
        proof {
            assert(nets@.skip(i as int)[0] == nets@[i as int]);
            assert(nets@.skip(i as int).drop_first() =~= nets@.skip(i as int + 1));
        }
        if addr_in_networks(addr, nets[i].subnets.as_slice()) {
            return Some(nets[i].host);
        }
        i = i + 1;
    }
    proof {
        assert(nets@.skip(nets@.len() as int) =~= Seq::<OwnedNetwork>::empty());
    }
    None
}

} // verus!
