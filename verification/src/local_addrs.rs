//! Addresses of this machine, and the host by which a peer is known.

use vstd::prelude::*;

verus! {

/// An address.
#[derive(Debug, Clone, Copy, PartialEq, Eq, Structural)]
pub enum Ip {
    /// Version 4, the first of its four bytes the highest.
    V4(u32),
    /// Version 6, the first of its sixteen bytes the highest.
    V6(u128),
}

/// The loopback address of version 4.
pub const LOCALHOST_V4: u32 = 0x7f00_0001;

/// The loopback address of version 6.
pub const LOCALHOST_V6: u128 = 1;

/// The address is the loopback address of its version.
pub open spec fn is_localhost(ip: Ip) -> bool {
    ip == Ip::V4(LOCALHOST_V4) || ip == Ip::V6(LOCALHOST_V6)
}

fn has_ip(ips: &[Ip], ip: Ip) -> (r: bool)
    ensures
        r == ips@.contains(ip),
{
    for i in 0..ips.len()
        invariant
            forall|j: int| 0 <= j < i ==> ips@[j] != ip,
    {
        if ips[i] == ip {
            return true;
        }
    }
    false
}

/// The addresses of this machine: both loopback addresses, and those of its interfaces
/// where they could be found out; each once.
pub fn enumerate_local_ips(interfaces: Option<&[Ip]>) -> (r: Vec<Ip>)
    ensures
        r@.no_duplicates(),
        forall|ip: Ip| #[trigger]
            r@.contains(ip) <==> is_localhost(ip) || (interfaces is Some && interfaces->0@.contains(ip)),
{
    let mut r: Vec<Ip> = Vec::new();
    r.push(Ip::V4(LOCALHOST_V4));
    r.push(Ip::V6(LOCALHOST_V6));
    assert(r@[0] == Ip::V4(LOCALHOST_V4) && r@[1] == Ip::V6(LOCALHOST_V6));
    match interfaces {
        None => {},
        Some(found) => {
            for i in 0..found.len()
                invariant
                    r@.no_duplicates(),
                    forall|ip: Ip| #[trigger]
                        r@.contains(ip) <==> is_localhost(ip) || found@.take(i as int).contains(ip),
            {
                let ip: Ip = found[i];
                let ghost before = r@;
                if !has_ip(r.as_slice(), ip) {
                    r.push(ip);
                }
                proof {
                    let seen = found@.take(i as int);
                    let next = found@.take(i + 1);
                    assert(next =~= seen.push(ip));
                    assert forall|x: Ip| #[trigger] r@.contains(x) <==> is_localhost(x) || next.contains(x) by {
                        if before.contains(x) {
                            let p = choose|p: int| 0 <= p < before.len() && before[p] == x;
                            assert(r@[p] == x);
                        }
                        if seen.contains(x) {
                            let p = choose|p: int| 0 <= p < seen.len() && seen[p] == x;
                            assert(next[p] == x);
                        }
                        if x == ip {
                            assert(next[i as int] == x);
                            if !before.contains(x) {
                                assert(r@[before.len() as int] == x);
                            }
                        }
                        if next.contains(x) && x != ip {
                            let p = choose|p: int| 0 <= p < next.len() && next[p] == x;
                            assert(seen[p] == x);
                        }
                        if r@.contains(x) && x != ip {
                            let p = choose|p: int| 0 <= p < r@.len() && r@[p] == x;
                            assert(before[p] == x);
                        }
                    }
                }
            }
            assert(found@.take(found@.len() as int) =~= found@);
        },
    }
    r
}

/// The host by which a peer is known that was heard from at `peer_ip`, which is shown as
/// `shown`: a peer on this machine is always `127.0.0.1`.
pub fn canonical_peer_host(peer_ip: Ip, shown: &str, local_ips: &[Ip]) -> (r: String)
    ensures
        r@ == (if is_localhost(peer_ip) || local_ips@.contains(peer_ip) {
            "127.0.0.1"@
        } else {
            shown@
        }),
{
    if peer_ip == Ip::V4(LOCALHOST_V4) || peer_ip == Ip::V6(LOCALHOST_V6) {
        return "127.0.0.1".to_owned();
    }
    if has_ip(local_ips, peer_ip) {
        return "127.0.0.1".to_owned();
    }
    shown.to_owned()
}

/// A peer that is heard from at a loopback address or at an address of this machine is known
/// as `127.0.0.1`, and any other by its own address.
pub proof fn peers_here_go_by_the_loopback_address(
    interfaces: Option<&[Ip]>,
    local: Vec<Ip>,
    local_ips: &[Ip],
    peer_ip: Ip,
    shown: &str,
    r: String,
)
    requires
        call_ensures(enumerate_local_ips, (interfaces,), local),
        local_ips@ == local@,
        call_ensures(canonical_peer_host, (peer_ip, shown, local_ips), r),
    ensures
        local@.contains(Ip::V4(0x7f00_0001)),
        local@.contains(Ip::V6(1)),
        peer_ip == Ip::V4(0x7f00_0001) || peer_ip == Ip::V6(1) || (interfaces is Some
            && interfaces->0@.contains(peer_ip)) ==> r@ == "127.0.0.1"@,
        !(peer_ip == Ip::V4(0x7f00_0001) || peer_ip == Ip::V6(1) || (interfaces is Some
            && interfaces->0@.contains(peer_ip))) ==> r@ == shown@,
{
    assert(is_localhost(Ip::V4(0x7f00_0001)) && is_localhost(Ip::V6(1)));
}

/// The host of a peer, given the addresses of this machine.
pub proof fn host_of_a_peer(peer_ip: Ip, shown: &str, local_ips: &[Ip], r: String)
    requires
        call_ensures(canonical_peer_host, (peer_ip, shown, local_ips), r),
    ensures
        peer_ip == Ip::V4(0x7f00_0001) || peer_ip == Ip::V6(1) || local_ips@.contains(peer_ip) ==> r@
            == "127.0.0.1"@,
        !(peer_ip == Ip::V4(0x7f00_0001) || peer_ip == Ip::V6(1) || local_ips@.contains(peer_ip)) ==> r@
            == shown@,
{
}

} // verus!
