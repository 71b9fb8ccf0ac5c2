//! The local network interfaces and the broadcast targets they give.

use vstd::prelude::*;
use crate::address::{IfAddr, Ifv4Addr, Ifv6Addr, IpAddress, SocketAddress};

verus! {

/// Lists the addresses of the local network interfaces.
///
/// Calls `get_if_addrs::get_if_addrs` and copies each interface's address
/// and broadcast address into plain values. What the system reports
/// differs from machine to machine and from call to call, so nothing is
/// claimed of the result.
#[verifier::external_body]
fn local_interfaces() -> (r: Result<Vec<IfAddr>, std::io::Error>) {
    let found = get_if_addrs::get_if_addrs()?;
    let plain = |iface: get_if_addrs::Interface| match iface.addr {
        get_if_addrs::IfAddr::V4(a) => IfAddr::V4(
            Ifv4Addr { ip: a.ip.octets(), broadcast: a.broadcast.map(|b| b.octets()) },
        ),
        get_if_addrs::IfAddr::V6(a) => IfAddr::V6(
            Ifv6Addr { ip: a.ip.octets(), broadcast: a.broadcast.map(|b| b.octets()) },
        ),
    };
    Ok(found.into_iter().map(plain).collect())
}

/// The broadcast targets that `interfaces` give for `port`: one for each IPv4
/// interface that has a broadcast address, in the order of the interfaces.
pub open spec fn broadcast_targets_of(port: u16, interfaces: Seq<IfAddr>) -> Seq<SocketAddress>
    decreases interfaces.len(),
{
    if interfaces.len() == 0 {
        Seq::empty()
    } else {
        let before = broadcast_targets_of(port, interfaces.drop_last());
        match interfaces.last() {
            IfAddr::V4(Ifv4Addr { broadcast: Some(ip), .. }) => before.push(
                SocketAddress { ip: IpAddress::V4(ip), port },
            ),
            _ => before,
        }
    }
}

/// Every broadcast target is an IPv4 address with the port asked for.
pub open spec fn all_broadcast_on(targets: Seq<SocketAddress>, port: u16) -> bool {
    forall|i: int| 0 <= i < targets.len() ==> (#[trigger] targets[i]).port == port && targets[i].ip is V4
}

/// What `broadcast_targets_of` yields are IPv4 addresses with the given port,
/// no more of them than there are interfaces.
pub proof fn lemma_broadcast_targets_shape(port: u16, interfaces: Seq<IfAddr>)
    ensures
        all_broadcast_on(broadcast_targets_of(port, interfaces), port),
        broadcast_targets_of(port, interfaces).len() <= interfaces.len(),
    decreases interfaces.len(),
{
    if interfaces.len() > 0 {
        lemma_broadcast_targets_shape(port, interfaces.drop_last());
    }
}

/// Computes the broadcast targets that `interfaces` give for `port`.
pub fn broadcast_targets(port: u16, interfaces: &Vec<IfAddr>) -> (targets: Vec<SocketAddress>)
    ensures
        targets@ == broadcast_targets_of(port, interfaces@),
{
    let mut targets: Vec<SocketAddress> = Vec::new();
    let n = interfaces.len();
    let mut i: usize = 0;
    while i < n
        invariant
            i <= n,
            n == interfaces@.len(),
            targets@ == broadcast_targets_of(port, interfaces@.take(i as int)),
        decreases n - i,
    {
        proof {
            let upto = interfaces@.take(i + 1);
            assert(upto.drop_last() =~= interfaces@.take(i as int));
            assert(upto.last() == interfaces@[i as int]);
        }
        match interfaces[i] {
            IfAddr::V4(v4) => {
                match v4.broadcast {
                    Some(ip) => {
                        targets.push(SocketAddress { ip: IpAddress::V4(ip), port });
                    },
                    None => {},
                }
            },
            IfAddr::V6(_) => {},
        }
        i += 1;
    }
    assert(interfaces@.take(n as int) =~= interfaces@);
    targets
}

/// Returns the broadcast addresses of all the network interfaces of this
/// machine, each with `port`. Fails where the interfaces cannot be listed.
pub fn broadcast_addrs(port: u16) -> (r: Result<Vec<SocketAddress>, std::io::Error>)
    ensures
        r matches Ok(targets) ==> {
            &&& all_broadcast_on(targets@, port)
            &&& exists|interfaces: Seq<IfAddr>|
                targets@ == #[trigger] broadcast_targets_of(port, interfaces)
        },
{
    let listing = local_interfaces();
    let ghost seen = listing;
    let r = targets_of_listing(port, listing);
    proof {
        if let Ok(interfaces) = seen {
            lemma_broadcast_targets_shape(port, interfaces@);
            assert(r->Ok_0@ == broadcast_targets_of(port, interfaces@));
        }
    }
    r
}

/// The broadcast targets for `port` that follow from an attempt to list the
/// interfaces: those that the interfaces give where the listing succeeded,
/// the listing's own error where it failed.
pub fn targets_of_listing(port: u16, listing: Result<Vec<IfAddr>, std::io::Error>) -> (r: Result<
    Vec<SocketAddress>,
    std::io::Error,
>)
    ensures
        match listing {
            Ok(interfaces) => r matches Ok(targets) && targets@ == broadcast_targets_of(
                port,
                interfaces@,
            ),
            Err(e) => r matches Err(cause) && cause == e,
        },
{
    match listing {
        Ok(interfaces) => Ok(broadcast_targets(port, &interfaces)),
        Err(e) => Err(e),
    }
}

} // verus!
