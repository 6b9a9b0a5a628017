//! Which peers may use the HTTP API.
//!
//! The settings list the allowed interfaces: the keyword `loopback`, the
//! keyword `tailscale`, or a literal IP address. A request is admitted when
//! its peer address matches one of them.
use vstd::prelude::*;
use crate::text::str_eq;

verus! {

/// An IP address, as its octets (version 4) or 16-bit segments (version 6).
#[derive(Debug, Clone, Copy, PartialEq, Eq, Structural)]
pub enum IpAddress {
    V4(u8, u8, u8, u8),
    V6(u16, u16, u16, u16, u16, u16, u16, u16),
}

/// Whether `ip` is a loopback address: `127.0.0.0/8`, or `::1`.
pub open spec fn loopback(ip: IpAddress) -> bool {
    match ip {
        IpAddress::V4(a, _, _, _) => a == 127,
        IpAddress::V6(s0, s1, s2, s3, s4, s5, s6, s7) => s0 == 0 && s1 == 0 && s2 == 0 && s3 == 0
            && s4 == 0 && s5 == 0 && s6 == 0 && s7 == 1,
    }
}

/// Whether `ip` belongs to a Tailscale network: `100.64.0.0/10`, or
/// `fd7a:115c:a1e0::/48`.
pub open spec fn tailscale(ip: IpAddress) -> bool {
    match ip {
        IpAddress::V4(a, b, _, _) => a == 100 && 64 <= b <= 127,
        IpAddress::V6(s0, s1, s2, _, _, _, _, _) => s0 == 0xfd7a && s1 == 0x115c && s2 == 0xa1e0,
    }
}

/// Whether `ip` is a loopback address, as `IpAddr::is_loopback` decides.
pub fn is_loopback(ip: IpAddress) -> (r: bool)
    ensures
        r == loopback(ip),
{
    match ip {
        IpAddress::V4(a, _, _, _) => a == 127,
        IpAddress::V6(s0, s1, s2, s3, s4, s5, s6, s7) => s0 == 0 && s1 == 0 && s2 == 0 && s3 == 0
            && s4 == 0 && s5 == 0 && s6 == 0 && s7 == 1,
    }
}

/// Whether `ip` belongs to a Tailscale network.
pub fn is_tailscale(ip: IpAddress) -> (r: bool)
    ensures
        r == tailscale(ip),
{
    match ip {
        IpAddress::V4(a, b, _, _) => a == 100 && 64 <= b && b <= 127,
        IpAddress::V6(s0, s1, s2, _, _, _, _, _) => s0 == 0xfd7a && s1 == 0x115c && s2 == 0xa1e0,
    }
}

/// The address that allowed-interface entry `i` reads as, if it reads as one.
pub open spec fn address_at(addresses: Seq<Option<IpAddress>>, i: int) -> Option<IpAddress> {
    if 0 <= i < addresses.len() {
        addresses[i]
    } else {
        None
    }
}

/// Whether the allowed-interface entry `name`, which reads as the address
/// `address` if any, admits the peer `ip`.
pub open spec fn entry_admits(name: Seq<char>, address: Option<IpAddress>, ip: IpAddress) -> bool {
    if name == "loopback"@ {
        loopback(ip)
    } else if name == "tailscale"@ {
        tailscale(ip)
    } else {
        address == Some(ip)
    }
}

/// Whether some entry of `allowed` admits `ip`; `addresses[i]` is what
/// entry `i` reads as when parsed as an IP address.
pub open spec fn admitted(allowed: Seq<String>, addresses: Seq<Option<IpAddress>>, ip: IpAddress) -> bool {
    exists|i: int| 0 <= i < allowed.len() && entry_admits(#[trigger] allowed[i]@, address_at(addresses, i), ip)
}

/// Whether the allowed interfaces admit the peer `ip`. `addresses[i]` is
/// the IP address that `allowed[i]` parses as, if it parses as one.
pub fn peer_allowed(ip: IpAddress, allowed: &Vec<String>, addresses: &Vec<Option<IpAddress>>) -> (r: bool)
    ensures
        r == admitted(allowed@, addresses@, ip),
{
    let n = allowed.len();
    let mut i: usize = 0;
    while i < n
        invariant
            n == allowed@.len(),
            i <= n,
            forall|j: int| 0 <= j < i ==> !entry_admits(#[trigger] allowed@[j]@, address_at(addresses@, j), ip),
        decreases n - i,
    {
        let entry = allowed[i].as_str();
        let admits = if str_eq(entry, "loopback") {
            is_loopback(ip)
        } else if str_eq(entry, "tailscale") {
            is_tailscale(ip)
        } else if i < addresses.len() {
            match addresses[i] {
                Some(address) => address == ip,
                None => false,
            }
        } else {
            false
        };
        if admits {
            assert(entry_admits(allowed@[i as int]@, address_at(addresses@, i as int), ip));
            return true;
        }
        i = i + 1;
    }
    false
}

/// Proof that a request's peer passed the network policy.
pub struct AllowedPeer;

impl AllowedPeer {
    /// Admits the request from `peer` when its address is known and the
    /// allowed interfaces admit it.
    pub fn check(peer: Option<IpAddress>, allowed: &Vec<String>, addresses: &Vec<Option<IpAddress>>) -> (r: Option<AllowedPeer>)
        ensures
            r is Some <==> (peer matches Some(ip) && admitted(allowed@, addresses@, ip)),
    {
        match peer {
            Some(ip) => if peer_allowed(ip, allowed, addresses) {
                Some(AllowedPeer)
            } else {
                None
            },
            None => None,
        }
    }
}


/// The keyword ranges as network prefixes: an IPv4 peer is a loopback peer
/// when its first 8 bits are those of `127.0.0.0/8`, and a Tailscale peer
/// when its first 10 bits are those of `100.64.0.0/10`; an IPv6 peer is a
/// Tailscale peer when its first 48 bits are those of `fd7a:115c:a1e0::/48`.
pub proof fn law_keyword_prefixes(a: u8, b: u8, c: u8, d: u8, v6: [u16; 8])
    ensures
        loopback(IpAddress::V4(a, b, c, d)) <==> (a as int * 16_777_216 + b as int * 65_536 + c as int * 256 + d as int) / 16_777_216 == 127,
        tailscale(IpAddress::V4(a, b, c, d)) <==> (a as int * 16_777_216 + b as int * 65_536 + c as int * 256 + d as int) / 4_194_304 == 401,
        tailscale(IpAddress::V6(v6[0], v6[1], v6[2], v6[3], v6[4], v6[5], v6[6], v6[7]))
            <==> (v6[0] as int * 4_294_967_296 + v6[1] as int * 65_536 + v6[2] as int) == 0xfd7a_115c_a1e0,
{
    let low = b as int * 65_536 + c as int * 256 + d as int;
    assert(0 <= low < 16_777_216);
    assert((a as int * 16_777_216 + low) / 16_777_216 == a as int);
    let low2 = c as int * 256 + d as int;
    assert(0 <= low2 < 65_536);
    assert((a as int * 16_777_216 + b as int * 65_536 + low2) / 4_194_304 == a as int * 4 + b as int / 64);
}

/// A peer is admitted exactly when one entry admits it; an entry that is
/// neither keyword admits only the address it reads as.
pub proof fn law_entries_admit(allowed: Seq<String>, addresses: Seq<Option<IpAddress>>, ip: IpAddress, i: int)
    requires
        0 <= i < allowed.len(),
        allowed[i]@ != "loopback"@,
        allowed[i]@ != "tailscale"@,
    ensures
        address_at(addresses, i) == Some(ip) ==> admitted(allowed, addresses, ip),
        entry_admits(allowed[i]@, address_at(addresses, i), ip) ==> address_at(addresses, i) == Some(ip),
        !admitted(allowed, addresses, ip) ==> forall|j: int| 0 <= j < allowed.len()
            ==> !entry_admits(#[trigger] allowed[j]@, address_at(addresses, j), ip),
{
    if address_at(addresses, i) == Some(ip) {
        assert(entry_admits(allowed[i]@, address_at(addresses, i), ip));
    }
}

/// With the default allowed interfaces (`loopback`, `tailscale`) exactly the
/// loopback and Tailscale peers are admitted.
pub proof fn law_default_policy(allowed: Seq<String>, addresses: Seq<Option<IpAddress>>, ip: IpAddress)
    requires
        allowed.len() == 2,
        allowed[0]@ == "loopback"@,
        allowed[1]@ == "tailscale"@,
    ensures
        admitted(allowed, addresses, ip) <==> (loopback(ip) || tailscale(ip)),
{
    reveal_strlit("loopback");
    reveal_strlit("tailscale");
    assert("tailscale"@ != "loopback"@) by {
        assert("tailscale"@[0] != "loopback"@[0]);
    }
    if loopback(ip) {
        assert(entry_admits(allowed[0]@, address_at(addresses, 0), ip));
    }
    if tailscale(ip) {
        assert(entry_admits(allowed[1]@, address_at(addresses, 1), ip));
    }
}

} // verus!
