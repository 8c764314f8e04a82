use vstd::prelude::*;

verus! {

/// An IP address, as plain integers.
#[derive(Debug, Clone, Copy, PartialEq, Eq, Structural)]
pub enum IpAddress {
    V4(u32),
    V6(u128),
}

/// A datagram endpoint: an IP address and a port.
#[derive(Debug, Clone, Copy, PartialEq, Eq, Structural)]
pub struct Address {
    pub ip: IpAddress,
    pub port: u16,
}

/// A host listed in a connect token admits the bound address when it is that
/// address, or when the bound port is 0 and the IPs agree.
pub open spec fn host_matches(listed: Address, bound: Address) -> bool {
    listed == bound || (bound.port == 0 && listed.ip == bound.ip)
}

/// Some host of the list admits the bound address.
pub open spec fn hosts_admit(hosts: Seq<Address>, bound: Address) -> bool {
    exists|i: int| 0 <= i < hosts.len() && #[trigger] host_matches(hosts[i], bound)
}

/// Tells whether one listed host admits `bound`.
pub fn host_admits(listed: &Address, bound: &Address) -> (r: bool)
    ensures
        r == host_matches(*listed, *bound),
{
    *listed == *bound || (bound.port == 0 && listed.ip == bound.ip)
}

/// Tells whether the token's host list admits the bound address.
pub fn token_lists_host(hosts: &Vec<Address>, bound: &Address) -> (r: bool)
    ensures
        r == hosts_admit(hosts@, *bound),
{
    let mut i: usize = 0;
    while i < hosts.len()
        invariant
            i <= hosts@.len(),
            forall|j: int| 0 <= j < i ==> !#[trigger] host_matches(hosts@[j], *bound),
        decreases hosts@.len() - i,
    {
        if host_admits(&hosts[i], bound) {
            return true;
        }
        i = i + 1;
    }
    false
}

} // verus!
