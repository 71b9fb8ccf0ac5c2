//! Addresses as plain values: what the protocol carries and what the
//! responder keeps of a sender.

use vstd::prelude::*;

verus! {

/// An IP address, held as its octets in network order.
#[derive(Clone, Copy, Debug, PartialEq, Eq, Hash)]
pub enum IpAddress {
    V4([u8; 4]),
    V6([u8; 16]),
}

/// An IP address and a port.
#[derive(Clone, Copy, Debug, PartialEq, Eq, Hash)]
pub struct SocketAddress {
    pub ip: IpAddress,
    pub port: u16,
}

/// The address of an IPv4 interface.
#[derive(Clone, Copy, Debug, PartialEq, Eq)]
pub struct Ifv4Addr {
    pub ip: [u8; 4],
    /// The subnet's broadcast address, where the interface has one.
    pub broadcast: Option<[u8; 4]>,
}

/// The address of an IPv6 interface.
#[derive(Clone, Copy, Debug, PartialEq, Eq)]
pub struct Ifv6Addr {
    pub ip: [u8; 16],
    /// The broadcast address that the system reports, if any.
    pub broadcast: Option<[u8; 16]>,
}

/// The address of one local network interface.
#[derive(Clone, Copy, Debug, PartialEq, Eq)]
pub enum IfAddr {
    V4(Ifv4Addr),
    V6(Ifv6Addr),
}

impl SocketAddress {
    /// The IPv4 address `a.b.c.d` with `port`.
    pub fn v4(a: u8, b: u8, c: u8, d: u8, port: u16) -> (addr: SocketAddress)
        ensures
            addr.port == port,
            addr.ip matches IpAddress::V4(octets) && octets@ == seq![a, b, c, d],
    {
        let octets = [a, b, c, d];
        assert(octets@ =~= seq![a, b, c, d]);
        SocketAddress { ip: IpAddress::V4(octets), port }
    }

    /// True for an IPv4 address.
    pub fn is_ipv4(&self) -> (b: bool)
        ensures
            b == (self.ip is V4),
    {
        match self.ip {
            IpAddress::V4(_) => true,
            IpAddress::V6(_) => false,
        }
    }
}

/// The four bytes of `s` as an array.
pub open spec fn octets4(s: Seq<u8>) -> [u8; 4] {
    [s[0], s[1], s[2], s[3]]
}

/// The sixteen bytes of `s` as an array.
pub open spec fn octets16(s: Seq<u8>) -> [u8; 16] {
    [
        s[0],
        s[1],
        s[2],
        s[3],
        s[4],
        s[5],
        s[6],
        s[7],
        s[8],
        s[9],
        s[10],
        s[11],
        s[12],
        s[13],
        s[14],
        s[15],
    ]
}

/// `octets4` and the view of an array undo each other.
pub proof fn lemma_octets4(s: Seq<u8>, a: [u8; 4])
    ensures
        s.len() == 4 ==> octets4(s)@ == s,
        octets4(a@) == a,
{
    if s.len() == 4 {
        assert(octets4(s)@ =~= s);
    }
    assert(octets4(a@) =~= a);
}

/// `octets16` and the view of an array undo each other.
pub proof fn lemma_octets16(s: Seq<u8>, a: [u8; 16])
    ensures
        s.len() == 16 ==> octets16(s)@ == s,
        octets16(a@) == a,
{
    if s.len() == 16 {
        assert(octets16(s)@ =~= s);
    }
    assert(octets16(a@) =~= a);
}

/// Copies the four bytes of `buf` that start at `off`.
pub fn read_octets4(buf: &[u8], off: usize) -> (out: [u8; 4])
    requires
        off + 4 <= buf@.len(),
    ensures
        out == octets4(buf@.subrange(off as int, off + 4)),
{
    let len = buf.len();
    let out = [buf[off], buf[off + 1], buf[off + 2], buf[off + 3]];
    assert(out =~= octets4(buf@.subrange(off as int, off + 4)));
    out
}

/// Copies the sixteen bytes of `buf` that start at `off`.
pub fn read_octets16(buf: &[u8], off: usize) -> (out: [u8; 16])
    requires
        off + 16 <= buf@.len(),
    ensures
        out == octets16(buf@.subrange(off as int, off + 16)),
{
    let len = buf.len();
    let mut out = [0u8; 16];
    let mut i: usize = 0;
    while i < 16
        invariant
            i <= 16,
            off + 16 <= len,
            len == buf@.len(),
            forall|j: int| 0 <= j < i ==> out@[j] == buf@[off + j],
        decreases 16 - i,
    {
        out[i] = buf[off + i];
        i += 1;
    }
    assert(out =~= octets16(buf@.subrange(off as int, off + 16)));
    out
}

/// Appends the bytes of `octets` to `out`.
pub fn push_octets(out: &mut Vec<u8>, octets: &[u8])
    ensures
        final(out)@ == old(out)@ + octets@,
{
    let n = octets.len();
    let mut i: usize = 0;
    while i < n
        invariant
            i <= n,
            n == octets@.len(),
            out@ == old(out)@ + octets@.take(i as int),
        decreases n - i,
    {
        assert(octets@.take(i + 1) =~= octets@.take(i as int).push(octets@[i as int]));
        out.push(octets[i]);
        i += 1;
    }
    assert(octets@.take(n as int) =~= octets@);
}

} // verus!
