//! Choosing the address this node announces: the first interface address
//! that is IPv4, not loopback and not link-local. The interface list is
//! queried outside the library and handed in as plain values.

use vstd::prelude::*;

use crate::peers::IpAddress;
use crate::peers::Ipv4Octets;

verus! {

/// One interface address as the host reports it.
#[derive(Clone, Copy, Debug)]
pub struct IfaceAddr {
    pub is_loopback: bool,
    pub ip: IpAddress,
}

/// Whether an interface address can serve as this node's primary IPv4
/// address: IPv4, not loopback, and not in the link-local `169.254.0.0/16`
/// range.
pub open spec fn usable_ipv4(addr: IfaceAddr) -> bool {
    !addr.is_loopback && (addr.ip matches IpAddress::V4(o) && !(o.a == 169 && o.b == 254))
}

/// The primary IPv4 address: the first usable interface address, or
/// nothing when no interface offers one.
pub fn select_primary_ipv4(ifaces: &Vec<IfaceAddr>) -> (r: Option<Ipv4Octets>)
    ensures
        match r {
            Some(o) => exists|i: int|
                0 <= i < ifaces@.len() && usable_ipv4(#[trigger] ifaces@[i]) && ifaces@[i].ip
                    == IpAddress::V4(o) && (forall|j: int|
                    0 <= j < i ==> !usable_ipv4(#[trigger] ifaces@[j])),
            None => forall|j: int| 0 <= j < ifaces@.len() ==> !usable_ipv4(#[trigger] ifaces@[j]),
        },
{
    let n = ifaces.len();
    let mut k: usize = 0;
    while k < n
        invariant
            0 <= k <= n,
            n == ifaces@.len(),
            forall|j: int| 0 <= j < k ==> !usable_ipv4(#[trigger] ifaces@[j]),
        decreases n - k,
    {
        let candidate = ifaces[k];
        if !candidate.is_loopback {
            match candidate.ip {
                IpAddress::V4(o) => {
                    if !(o.a == 169 && o.b == 254) {
                        return Some(o);
                    }
                },
                IpAddress::V6(_) => {},
            }
        }
        k = k + 1;
    }
    None
}

} // verus!
