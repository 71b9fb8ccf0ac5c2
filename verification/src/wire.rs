//! The two discovery messages and their form on the wire.
//!
//! A message starts with a four-byte tag, least significant byte first. A
//! request (tag 0) goes on with the thirty-two bytes of the requester's public
//! key. A response (tag 1) goes on with the number of addresses in eight bytes
//! and then the addresses. An address is a four-byte tag (0 for IPv4, 1 for
//! IPv6), the octets of the IP address in network order, and the port in two
//! bytes. Every number is little-endian.

use vstd::prelude::*;
use crate::address::{
    lemma_octets16, lemma_octets4, octets16, octets4, push_octets, read_octets16, read_octets4,
    IpAddress, SocketAddress,
};
use crate::endian::{
    le_bytes, le_value, lemma_le_bytes_len, lemma_le_bytes_of_le_value, lemma_le_value_bound,
    lemma_le_value_of_le_bytes, lemma_pow256_values, push_le, read_le,
};

verus! {

/// Width of a variant tag on the wire.
pub const TAG_LEN: usize = 4;

/// Width of a public encryption key.
pub const KEY_LEN: usize = 32;

/// Width of the number of addresses in a response.
pub const COUNT_LEN: usize = 8;

/// Width of a port.
pub const PORT_LEN: usize = 2;

/// Length of an encoded request.
pub const REQUEST_LEN: usize = 36;

/// Length of an encoded IPv4 socket address.
pub const V4_ADDR_LEN: usize = 10;

/// Length of an encoded IPv6 socket address.
pub const V6_ADDR_LEN: usize = 22;

/// Size of the buffer that a datagram is read into.
pub const MAX_DATAGRAM_SIZE: usize = 65000;

/// A public encryption key, as its raw bytes.
#[derive(Clone, Copy, Debug, PartialEq, Eq, Hash)]
pub struct PublicEncryptKey(pub [u8; 32]);

impl PublicEncryptKey {
    /// The key that `bytes` are.
    pub fn from_bytes(bytes: [u8; 32]) -> (key: Self)
        ensures
            key.0 == bytes,
    {
        PublicEncryptKey(bytes)
    }

    /// The raw bytes of the key.
    pub fn into_bytes(self) -> (bytes: [u8; 32])
        ensures
            bytes == self.0,
    {
        self.0
    }
}

/// A discovery message.
#[derive(Debug, PartialEq, Eq)]
pub enum DiscoveryMsg {
    /// Carries the key that the answer is to be sealed with.
    Request(PublicEncryptKey),
    /// The addresses that the responder can be reached at.
    Response(Vec<SocketAddress>),
}

/// A discovery message as a mathematical value.
pub enum Message {
    Request(PublicEncryptKey),
    Response(Seq<SocketAddress>),
}

impl Clone for DiscoveryMsg {
    fn clone(&self) -> (copy: Self)
        ensures
            copy@ == self@,
    {
        match self {
            DiscoveryMsg::Request(key) => DiscoveryMsg::Request(*key),
            DiscoveryMsg::Response(addrs) => {
                let mut copy: Vec<SocketAddress> = Vec::new();
                let mut i: usize = 0;
                while i < addrs.len()
                    invariant
                        i <= addrs@.len(),
                        copy@ == addrs@.take(i as int),
                    decreases addrs@.len() - i,
                {
                    copy.push(addrs[i]);
                    assert(addrs@.take(i + 1) =~= addrs@.take(i as int).push(addrs@[i as int]));
                    i += 1;
                }
                assert(addrs@.take(addrs@.len() as int) =~= addrs@);
                DiscoveryMsg::Response(copy)
            },
        }
    }
}

impl View for DiscoveryMsg {
    type V = Message;

    open spec fn view(&self) -> Message {
        match self {
            DiscoveryMsg::Request(key) => Message::Request(*key),
            DiscoveryMsg::Response(addrs) => Message::Response(addrs@),
        }
    }
}

/// The thirty-two bytes of `s` as a key.
pub open spec fn key_of(s: Seq<u8>) -> PublicEncryptKey {
    PublicEncryptKey(
        [
            s[0],
            s[1],
            s[2],
            s[3],
            s[4],
            s[5],
            s[6],
            s[7],
            s[8],
            s[9],
            s[10],
            s[11],
            s[12],
            s[13],
            s[14],
            s[15],
            s[16],
            s[17],
            s[18],
            s[19],
            s[20],
            s[21],
            s[22],
            s[23],
            s[24],
            s[25],
            s[26],
            s[27],
            s[28],
            s[29],
            s[30],
            s[31],
        ],
    )
}

/// The wire form of an IP address: its tag, then its octets.
pub open spec fn encode_ip(ip: IpAddress) -> Seq<u8> {
    match ip {
        IpAddress::V4(octets) => le_bytes(0, 4) + octets@,
        IpAddress::V6(octets) => le_bytes(1, 4) + octets@,
    }
}

/// The wire form of a socket address: the IP address, then the port.
pub open spec fn encode_addr(addr: SocketAddress) -> Seq<u8> {
    encode_ip(addr.ip) + le_bytes(addr.port as nat, 2)
}

/// The wire forms of `addrs`, one after the other.
pub open spec fn encode_addrs(addrs: Seq<SocketAddress>) -> Seq<u8>
    decreases addrs.len(),
{
    if addrs.len() == 0 {
        Seq::empty()
    } else {
        encode_addr(addrs[0]) + encode_addrs(addrs.drop_first())
    }
}

/// The wire form of a message.
pub open spec fn encode_msg(msg: Message) -> Seq<u8> {
    match msg {
        Message::Request(key) => le_bytes(0, 4) + key.0@,
        Message::Response(addrs) => le_bytes(1, 4) + le_bytes(addrs.len(), 8) + encode_addrs(
            addrs,
        ),
    }
}

/// A message whose number of addresses fits the eight bytes that carry it.
pub open spec fn encodable(msg: Message) -> bool {
    match msg {
        Message::Request(_) => true,
        Message::Response(addrs) => addrs.len() <= u64::MAX,
    }
}

/// Reads one socket address from the front of `buf`: the address and the
/// number of bytes it took, or `None` where `buf` does not start with one.
pub open spec fn parse_addr(buf: Seq<u8>) -> Option<(SocketAddress, nat)> {
    if buf.len() < 4 {
        None
    } else if le_value(buf.subrange(0, 4)) == 0 {
        if buf.len() < 10 {
            None
        } else {
            Some(
                (
                    SocketAddress {
                        ip: IpAddress::V4(octets4(buf.subrange(4, 8))),
                        port: le_value(buf.subrange(8, 10)) as u16,
                    },
                    10,
                ),
            )
        }
    } else if le_value(buf.subrange(0, 4)) == 1 {
        if buf.len() < 22 {
            None
        } else {
            Some(
                (
                    SocketAddress {
                        ip: IpAddress::V6(octets16(buf.subrange(4, 20))),
                        port: le_value(buf.subrange(20, 22)) as u16,
                    },
                    22,
                ),
            )
        }
    } else {
        None
    }
}

/// Reads `count` socket addresses from the front of `buf`.
pub open spec fn parse_addrs(buf: Seq<u8>, count: nat) -> Option<(Seq<SocketAddress>, nat)>
    decreases count,
{
    if count == 0 {
        Some((Seq::empty(), 0))
    } else {
        match parse_addr(buf) {
            None => None,
            Some((addr, used)) => match parse_addrs(buf.skip(used as int), (count - 1) as nat) {
                None => None,
                Some((rest, more)) => Some((seq![addr] + rest, used + more)),
            },
        }
    }
}

/// Reads one message from the front of `buf`: the message and the number of
/// bytes it took. Bytes that follow the message are not looked at.
pub open spec fn parse_msg(buf: Seq<u8>) -> Option<(Message, nat)> {
    if buf.len() < 4 {
        None
    } else if le_value(buf.subrange(0, 4)) == 0 {
        if buf.len() < 36 {
            None
        } else {
            Some((Message::Request(key_of(buf.subrange(4, 36))), 36))
        }
    } else if le_value(buf.subrange(0, 4)) == 1 {
        if buf.len() < 12 {
            None
        } else {
            match parse_addrs(buf.skip(12), le_value(buf.subrange(4, 12))) {
                None => None,
                Some((addrs, used)) => Some((Message::Response(addrs), 12 + used)),
            }
        }
    } else {
        None
    }
}

/// `key_of` and the bytes of a key undo each other.
pub proof fn lemma_key_of(s: Seq<u8>, key: PublicEncryptKey)
    ensures
        s.len() == 32 ==> key_of(s).0@ == s,
        key_of(key.0@) == key,
{
    if s.len() == 32 {
        assert(key_of(s).0@ =~= s);
    }
    assert(key_of(key.0@).0 =~= key.0);
}

/// Encoding a list with one more address appends that address's wire form.
pub proof fn lemma_encode_addrs_push(addrs: Seq<SocketAddress>, addr: SocketAddress)
    ensures
        encode_addrs(addrs.push(addr)) == encode_addrs(addrs) + encode_addr(addr),
    decreases addrs.len(),
{
    if addrs.len() == 0 {
        assert(addrs.push(addr).drop_first() =~= Seq::<SocketAddress>::empty());
        assert(encode_addrs(addrs.push(addr).drop_first()) =~= Seq::<u8>::empty());
        assert(encode_addrs(addrs.push(addr)) =~= encode_addr(addr));
        assert(encode_addrs(addrs) + encode_addr(addr) =~= encode_addr(addr));
    } else {
        lemma_encode_addrs_push(addrs.drop_first(), addr);
        assert(addrs.push(addr).drop_first() =~= addrs.drop_first().push(addr));
        assert(encode_addrs(addrs.push(addr)) =~= encode_addrs(addrs) + encode_addr(addr));
    }
}

/// Appends the wire form of `addr` to `out`.
pub fn push_addr(out: &mut Vec<u8>, addr: &SocketAddress)
    ensures
        final(out)@ == old(out)@ + encode_addr(*addr),
{
    match &addr.ip {
        IpAddress::V4(octets) => {
            push_le(out, 0, TAG_LEN);
            push_octets(out, octets.as_slice());
        },
        IpAddress::V6(octets) => {
            push_le(out, 1, TAG_LEN);
            push_octets(out, octets.as_slice());
        },
    }
    push_le(out, addr.port as u64, PORT_LEN);
    assert(out@ =~= old(out)@ + encode_addr(*addr));
}

/// The wire form of a request that carries `key`.
pub fn encode_request(key: &PublicEncryptKey) -> (out: Vec<u8>)
    ensures
        out@ == encode_msg(Message::Request(*key)),
{
    let mut out: Vec<u8> = Vec::new();
    push_le(&mut out, 0, TAG_LEN);
    push_octets(&mut out, key.0.as_slice());
    assert(out@ =~= encode_msg(Message::Request(*key)));
    out
}

/// The wire form of a response that carries `addrs`.
pub fn encode_response(addrs: &Vec<SocketAddress>) -> (out: Vec<u8>)
    ensures
        out@ == encode_msg(Message::Response(addrs@)),
{
    let mut out: Vec<u8> = Vec::new();
    let n = addrs.len();
    push_le(&mut out, 1, TAG_LEN);
    push_le(&mut out, n as u64, COUNT_LEN);
    let ghost header = out@;
    assert(header =~= le_bytes(1, 4) + le_bytes(addrs@.len(), 8));
    let mut i: usize = 0;
    while i < n
        invariant
            i <= n,
            n == addrs@.len(),
            out@ == header + encode_addrs(addrs@.take(i as int)),
        decreases n - i,
    {
        proof {
            lemma_encode_addrs_push(addrs@.take(i as int), addrs@[i as int]);
            assert(addrs@.take(i + 1) =~= addrs@.take(i as int).push(addrs@[i as int]));
        }
        push_addr(&mut out, &addrs[i]);
        i += 1;
    }
    assert(addrs@.take(n as int) =~= addrs@);
    out
}

/// What `count` more addresses read at `rest` make of a list that already
/// holds `done` and took `used` bytes.
pub open spec fn and_then_addrs(
    done: Seq<SocketAddress>,
    used: nat,
    rest: Option<(Seq<SocketAddress>, nat)>,
) -> Option<(Seq<SocketAddress>, nat)> {
    match rest {
        None => None,
        Some((more, taken)) => Some((done + more, used + taken)),
    }
}

/// Reads one socket address at `off`.
pub fn decode_addr(buf: &[u8], off: usize) -> (r: Option<(SocketAddress, usize)>)
    requires
        off <= buf@.len(),
    ensures
        match r {
            Some((addr, used)) => parse_addr(buf@.skip(off as int)) == Some((addr, used as nat))
                && off + used <= buf@.len(),
            None => parse_addr(buf@.skip(off as int)) is None,
        },
{
    let len = buf.len();
    let ghost tail = buf@.skip(off as int);
    if len - off < TAG_LEN {
        return None;
    }
    let tag = read_le(buf, off, TAG_LEN);
    assert(tail.subrange(0, 4) =~= buf@.subrange(off as int, off + 4));
    if tag == 0 {
        if len - off < V4_ADDR_LEN {
            return None;
        }
        let octets = read_octets4(buf, off + 4);
        let port = read_le(buf, off + 8, PORT_LEN);
        proof {
            assert(tail.subrange(4, 8) =~= buf@.subrange(off + 4, off + 8));
            assert(tail.subrange(8, 10) =~= buf@.subrange(off + 8, off + 10));
            lemma_le_value_bound(tail.subrange(8, 10));
            lemma_pow256_values();
        }
        Some((SocketAddress { ip: IpAddress::V4(octets), port: port as u16 }, V4_ADDR_LEN))
    } else if tag == 1 {
        if len - off < V6_ADDR_LEN {
            return None;
        }
        let octets = read_octets16(buf, off + 4);
        let port = read_le(buf, off + 20, PORT_LEN);
        proof {
            assert(tail.subrange(4, 20) =~= buf@.subrange(off + 4, off + 20));
            assert(tail.subrange(20, 22) =~= buf@.subrange(off + 20, off + 22));
            lemma_le_value_bound(tail.subrange(20, 22));
            lemma_pow256_values();
        }
        Some((SocketAddress { ip: IpAddress::V6(octets), port: port as u16 }, V6_ADDR_LEN))
    } else {
        None
    }
}

/// Reads the key of a request whose tag has been seen.
fn decode_key(buf: &[u8]) -> (key: PublicEncryptKey)
    requires
        buf@.len() >= 36,
    ensures
        key == key_of(buf@.subrange(4, 36)),
{
    let mut bytes = [0u8; 32];
    let mut i: usize = 0;
    while i < 32
        invariant
            i <= 32,
            buf@.len() >= 36,
            forall|j: int| 0 <= j < i ==> bytes@[j] == buf@[4 + j],
        decreases 32 - i,
    {
        bytes[i] = buf[4 + i];
        i += 1;
    }
    let key = PublicEncryptKey(bytes);
    assert(key.0 =~= key_of(buf@.subrange(4, 36)).0);
    key
}

impl DiscoveryMsg {
    /// The wire form of this message.
    pub fn encode(&self) -> (out: Vec<u8>)
        ensures
            out@ == encode_msg(self@),
    {
        match self {
            DiscoveryMsg::Request(key) => encode_request(key),
            DiscoveryMsg::Response(addrs) => encode_response(addrs),
        }
    }

    /// Reads one message from the front of `buf`. Returns the message and the
    /// number of bytes it took, or `None` where `buf` does not start with a
    /// message. Bytes after the message are left alone.
    pub fn decode(buf: &[u8]) -> (r: Option<(DiscoveryMsg, usize)>)
        ensures
            match r {
                Some((msg, used)) => parse_msg(buf@) == Some((msg@, used as nat)) && used
                    <= buf@.len(),
                None => parse_msg(buf@) is None,
            },
    {
        let len = buf.len();
        if len < TAG_LEN {
            return None;
        }
        let tag = read_le(buf, 0, TAG_LEN);
        if tag == 0 {
            if len < REQUEST_LEN {
                return None;
            }
            let key = decode_key(buf);
            Some((DiscoveryMsg::Request(key), REQUEST_LEN))
        } else if tag == 1 {
            if len < TAG_LEN + COUNT_LEN {
                return None;
            }
            let count = read_le(buf, TAG_LEN, COUNT_LEN);
            let mut addrs: Vec<SocketAddress> = Vec::new();
            let mut off: usize = TAG_LEN + COUNT_LEN;
            let mut i: u64 = 0;
            assert(addrs@ + Seq::<SocketAddress>::empty() =~= Seq::<SocketAddress>::empty());
            while i < count
                invariant
                    i <= count,
                    12 <= off <= len,
                    len == buf@.len(),
                    le_value(buf@.subrange(0, 4)) == 1,
                    count as nat == le_value(buf@.subrange(4, 12)),
                    parse_addrs(buf@.skip(12), count as nat) == and_then_addrs(
                        addrs@,
                        (off - 12) as nat,
                        parse_addrs(buf@.skip(off as int), (count - i) as nat),
                    ),
                decreases count - i,
            {
                let ghost tail = buf@.skip(off as int);
                match decode_addr(buf, off) {
                    None => {
                        return None;
                    },
                    Some((addr, used)) => {
                        proof {
                            assert(tail.skip(used as int) =~= buf@.skip(off + used));
                            let rest = parse_addrs(
                                buf@.skip(off + used),
                                (count - i - 1) as nat,
                            );
                            if let Some((more, taken)) = rest {
                                assert(addrs@ + (seq![addr] + more) =~= addrs@.push(addr) + more);
                            }
                        }
                        addrs.push(addr);
                        off += used;
                        i += 1;
                    },
                }
            }
            assert(addrs@ + Seq::<SocketAddress>::empty() =~= addrs@);
            Some((DiscoveryMsg::Response(addrs), off))
        } else {
            None
        }
    }
}

/// What `parse_addr` reads is an address whose wire form is the bytes it took.
pub proof fn lemma_parse_addr_sound(buf: Seq<u8>)
    ensures
        parse_addr(buf) matches Some((addr, used)) ==> {
            &&& used == encode_addr(addr).len()
            &&& used <= buf.len()
            &&& buf.subrange(0, used as int) == encode_addr(addr)
        },
{
    if let Some((addr, used)) = parse_addr(buf) {
        let tag = buf.subrange(0, 4);
        lemma_le_bytes_of_le_value(tag);
        lemma_pow256_values();
        if le_value(tag) == 0 {
            let ip = buf.subrange(4, 8);
            let port = buf.subrange(8, 10);
            lemma_octets4(ip, octets4(ip));
            lemma_le_value_bound(port);
            lemma_le_bytes_of_le_value(port);
            assert(encode_addr(addr) =~= tag + ip + port);
            assert(buf.subrange(0, 10) =~= tag + ip + port);
        } else {
            let ip = buf.subrange(4, 20);
            let port = buf.subrange(20, 22);
            lemma_octets16(ip, octets16(ip));
            lemma_le_value_bound(port);
            lemma_le_bytes_of_le_value(port);
            assert(encode_addr(addr) =~= tag + ip + port);
            assert(buf.subrange(0, 22) =~= tag + ip + port);
        }
    }
}

/// `parse_addr` reads an address back from its wire form, whatever follows.
pub proof fn lemma_parse_addr_complete(addr: SocketAddress, rest: Seq<u8>)
    ensures
        parse_addr(encode_addr(addr) + rest) == Some((addr, encode_addr(addr).len())),
{
    let buf = encode_addr(addr) + rest;
    let port = le_bytes(addr.port as nat, 2);
    lemma_pow256_values();
    lemma_le_bytes_len(0, 4);
    lemma_le_bytes_len(1, 4);
    lemma_le_bytes_len(addr.port as nat, 2);
    lemma_le_value_of_le_bytes(0, 4);
    lemma_le_value_of_le_bytes(1, 4);
    lemma_le_value_of_le_bytes(addr.port as nat, 2);
    match addr.ip {
        IpAddress::V4(octets) => {
            lemma_octets4(octets@, octets);
            assert(buf.subrange(0, 4) =~= le_bytes(0, 4));
            assert(buf.subrange(4, 8) =~= octets@);
            assert(buf.subrange(8, 10) =~= port);
        },
        IpAddress::V6(octets) => {
            lemma_octets16(octets@, octets);
            assert(buf.subrange(0, 4) =~= le_bytes(1, 4));
            assert(buf.subrange(4, 20) =~= octets@);
            assert(buf.subrange(20, 22) =~= port);
        },
    }
}

/// What `parse_addrs` reads is `count` addresses whose wire forms, one after
/// the other, are the bytes it took.
pub proof fn lemma_parse_addrs_sound(buf: Seq<u8>, count: nat)
    ensures
        parse_addrs(buf, count) matches Some((addrs, used)) ==> {
            &&& addrs.len() == count
            &&& used == encode_addrs(addrs).len()
            &&& used <= buf.len()
            &&& buf.subrange(0, used as int) == encode_addrs(addrs)
        },
    decreases count,
{
    if let Some((addrs, used)) = parse_addrs(buf, count) {
        if count == 0 {
            assert(buf.subrange(0, 0) =~= encode_addrs(addrs));
        } else {
            let (first, taken) = parse_addr(buf).unwrap();
            let tail = buf.skip(taken as int);
            let (rest, more) = parse_addrs(tail, (count - 1) as nat).unwrap();
            lemma_parse_addr_sound(buf);
            lemma_parse_addrs_sound(tail, (count - 1) as nat);
            assert(addrs.drop_first() =~= rest);
            assert(tail.subrange(0, more as int) =~= buf.subrange(taken as int, (taken + more) as int));
            assert(buf.subrange(0, used as int) =~= buf.subrange(0, taken as int) + buf.subrange(
                taken as int,
                (taken + more) as int,
            ));
        }
    }
}

/// `parse_addrs` reads a list back from its wire form, whatever follows.
pub proof fn lemma_parse_addrs_complete(addrs: Seq<SocketAddress>, rest: Seq<u8>)
    ensures
        parse_addrs(encode_addrs(addrs) + rest, addrs.len()) == Some(
            (addrs, encode_addrs(addrs).len()),
        ),
    decreases addrs.len(),
{
    let buf = encode_addrs(addrs) + rest;
    if addrs.len() == 0 {
    } else {
        let first = encode_addr(addrs[0]);
        let others = encode_addrs(addrs.drop_first());
        assert(buf =~= first + (others + rest));
        lemma_parse_addr_complete(addrs[0], others + rest);
        assert(buf.skip(first.len() as int) =~= others + rest);
        lemma_parse_addrs_complete(addrs.drop_first(), rest);
        assert(seq![addrs[0]] + addrs.drop_first() =~= addrs);
    }
}

/// What `parse_msg` reads is a message whose wire form is the bytes it took.
pub proof fn lemma_parse_msg_sound(buf: Seq<u8>)
    ensures
        parse_msg(buf) matches Some((msg, used)) ==> {
            &&& encodable(msg)
            &&& used == encode_msg(msg).len()
            &&& used <= buf.len()
            &&& buf.subrange(0, used as int) == encode_msg(msg)
        },
{
    if let Some((msg, used)) = parse_msg(buf) {
        let tag = buf.subrange(0, 4);
        lemma_le_bytes_of_le_value(tag);
        lemma_pow256_values();
        if le_value(tag) == 0 {
            let key = buf.subrange(4, 36);
            lemma_key_of(key, key_of(key));
            assert(buf.subrange(0, 36) =~= tag + key);
        } else {
            let count = buf.subrange(4, 12);
            let body = buf.skip(12);
            let (addrs, taken) = parse_addrs(body, le_value(count)).unwrap();
            lemma_le_bytes_of_le_value(count);
            lemma_le_value_bound(count);
            lemma_parse_addrs_sound(body, le_value(count));
            assert(body.subrange(0, taken as int) =~= buf.subrange(12, (12 + taken) as int));
            assert(buf.subrange(0, used as int) =~= tag + count + buf.subrange(12, (12 + taken) as int));
        }
    }
}

/// `parse_msg` reads a message back from its wire form, whatever follows.
pub proof fn lemma_parse_msg_complete(msg: Message, rest: Seq<u8>)
    requires
        encodable(msg),
    ensures
        parse_msg(encode_msg(msg) + rest) == Some((msg, encode_msg(msg).len())),
{
    let buf = encode_msg(msg) + rest;
    lemma_pow256_values();
    lemma_le_bytes_len(0, 4);
    lemma_le_bytes_len(1, 4);
    lemma_le_value_of_le_bytes(0, 4);
    lemma_le_value_of_le_bytes(1, 4);
    match msg {
        Message::Request(key) => {
            lemma_key_of(key.0@, key);
            assert(buf.subrange(0, 4) =~= le_bytes(0, 4));
            assert(buf.subrange(4, 36) =~= key.0@);
        },
        Message::Response(addrs) => {
            let count = le_bytes(addrs.len(), 8);
            lemma_le_bytes_len(addrs.len(), 8);
            lemma_le_value_of_le_bytes(addrs.len(), 8);
            assert(buf.subrange(0, 4) =~= le_bytes(1, 4));
            assert(buf.subrange(4, 12) =~= count);
            assert(buf.skip(12) =~= encode_addrs(addrs) + rest);
            lemma_parse_addrs_complete(addrs, rest);
        },
    }
}

/// No two messages share a wire form, and none is the beginning of
/// another's: bytes that start with a message start with that message only.
pub proof fn lemma_wire_form_unique(a: Message, after_a: Seq<u8>, b: Message, after_b: Seq<u8>)
    requires
        encodable(a),
        encodable(b),
        encode_msg(a) + after_a == encode_msg(b) + after_b,
    ensures
        a == b,
        after_a == after_b,
{
    lemma_parse_msg_complete(a, after_a);
    lemma_parse_msg_complete(b, after_b);
    let whole = encode_msg(a) + after_a;
    assert(after_a =~= whole.skip(encode_msg(a).len() as int));
    assert(after_b =~= whole.skip(encode_msg(b).len() as int));
}

} // verus!
