//! Unconnected (offline) control packets of the transport handshake and
//! the server list ping.

use vstd::prelude::*;
use vstd::string::StringSliceAdditionalSpecFns;
use vstd::utf8::encode_utf8;

use crate::wire::{
    put_bytes, put_u16_be, put_u16_le, put_u24_le, put_u64_be, put_u8, read_u64_be_at, read_u8,
    spec_read_u8, u16_be_bytes, u16_le_bytes, u64_be_bytes,
};

verus! {

/// The fixed magic bytes every offline control packet carries.
pub open spec fn spec_offline_message_data() -> Seq<u8> {
    seq![
        0x00u8, 0xffu8, 0xffu8, 0x00u8, 0xfeu8, 0xfeu8, 0xfeu8, 0xfeu8, 0xfdu8, 0xfdu8, 0xfdu8,
        0xfdu8, 0x12u8, 0x34u8, 0x56u8, 0x78u8,
    ]
}

/// Appends the offline-message magic bytes.
pub fn put_offline_message_data(buf: &mut Vec<u8>)
    ensures
        final(buf)@ == old(buf)@ + spec_offline_message_data(),
{
    let data: [u8; 16] = [
        0x00, 0xff, 0xff, 0x00, 0xfe, 0xfe, 0xfe, 0xfe, 0xfd, 0xfd, 0xfd, 0xfd, 0x12, 0x34, 0x56,
        0x78,
    ];
    put_bytes(buf, data.as_slice());
    proof {
        assert(data@ =~= spec_offline_message_data());
    }
}

/// A transport address the codecs can hold: either kind of internet
/// address as plain numbers, in place of the platform socket type.
#[derive(Debug, Copy, Clone, PartialEq, Eq)]
pub enum Addr {
    /// A version-four address and port.
    V4 { a: u8, b: u8, c: u8, d: u8, port: u16 },
    /// A version-six address as eight groups, and port.
    V6 { groups: [u16; 8], port: u16 },
}

/// The wire form of an address: a version byte, then the address body.
pub open spec fn spec_addr_bytes(addr: Addr) -> Seq<u8> {
    match addr {
        Addr::V4 { a, b, c, d, port } => seq![4u8, (a ^ 0xff) as u8, (b ^ 0xff) as u8, (c
            ^ 0xff) as u8, (d ^ 0xff) as u8] + u16_be_bytes(port),
        Addr::V6 { groups, port } => seq![6u8] + u16_le_bytes(23) + u16_be_bytes(port) + seq![
            0u8,
            0u8,
            0u8,
            0u8,
        ] + spec_groups_bytes(groups@) + seq![0u8, 0u8, 0u8, 0u8],
    }
}

/// The big-endian bytes of the eight groups of a version-six address.
pub open spec fn spec_groups_bytes(gs: Seq<u16>) -> Seq<u8>
    decreases gs.len(),
{
    if gs.len() == 0 {
        Seq::<u8>::empty()
    } else {
        u16_be_bytes(gs[0]) + spec_groups_bytes(gs.drop_first())
    }
}

/// Appends an address: the version-four bytes ones-complemented as the
/// protocol asks, or the version-six header, groups and scope.
pub fn put_addr(buf: &mut Vec<u8>, addr: &Addr)
    ensures
        final(buf)@ == old(buf)@ + spec_addr_bytes(*addr),
{
    match addr {
        Addr::V4 { a, b, c, d, port } => {
            put_u8(buf, 4);
            put_u8(buf, *a ^ 0xff);
            put_u8(buf, *b ^ 0xff);
            put_u8(buf, *c ^ 0xff);
            put_u8(buf, *d ^ 0xff);
            put_u16_be(buf, *port);
            assert(buf@ =~= old(buf)@ + spec_addr_bytes(*addr));
        },
        Addr::V6 { groups, port } => {
            put_u8(buf, 6);
            put_u16_le(buf, 23);
            put_u16_be(buf, *port);
            put_u8(buf, 0);
            put_u8(buf, 0);
            put_u8(buf, 0);
            put_u8(buf, 0);
            let ghost before_groups = buf@;
            let mut i: usize = 0;
            while i < 8
                invariant
                    i <= 8,
                    buf@ == before_groups + spec_groups_bytes(groups@.subrange(0, i as int)),
                decreases 8 - i,
            {
                put_u16_be(buf, groups[i]);
                proof {
                    lemma_groups_snoc(groups@.subrange(0, i as int), groups@[i as int]);
                    assert(groups@.subrange(0, i + 1) =~= groups@.subrange(0, i as int).push(
                        groups@[i as int],
                    ));
                }
                i = i + 1;
            }
            put_u8(buf, 0);
            put_u8(buf, 0);
            put_u8(buf, 0);
            put_u8(buf, 0);
            proof {
                assert(groups@.subrange(0, 8) =~= groups@);
                assert(buf@ =~= old(buf)@ + spec_addr_bytes(*addr));
            }
        },
    }
}

/// Appending one group appends its bytes.
proof fn lemma_groups_snoc(gs: Seq<u16>, g: u16)
    ensures
        spec_groups_bytes(gs.push(g)) == spec_groups_bytes(gs) + u16_be_bytes(g),
    decreases gs.len(),
{
    if gs.len() == 0 {
        assert(gs.push(g)[0] == g);
        assert(gs.push(g).drop_first() =~= Seq::<u16>::empty());
        assert(spec_groups_bytes(Seq::<u16>::empty()) == Seq::<u8>::empty());
        assert(spec_groups_bytes(gs.push(g)) =~= spec_groups_bytes(gs) + u16_be_bytes(g));
    } else {
        assert(gs.push(g).drop_first() =~= gs.drop_first().push(g));
        lemma_groups_snoc(gs.drop_first(), g);
        assert(spec_groups_bytes(gs.push(g)) =~= spec_groups_bytes(gs) + u16_be_bytes(g));
    }
}

/// Sent by a client browsing the server list; answered with a pong
/// carrying the server metadata.
#[derive(Debug, Copy, Clone, PartialEq, Eq, Structural)]
pub struct OfflinePing {
    /// Time the ping left the client, for latency display.
    pub time: i64,
    /// Identifier the client rolled for this run.
    pub client_guid: i64,
}

impl OfflinePing {
    /// Wire id of this packet.
    pub const ID: u8 = 0x01;

    /// Reads a ping: the id byte, the timestamp, the magic, the client
    /// identifier.
    pub fn decode(data: &[u8]) -> (r: Option<OfflinePing>)
        ensures
            r is Some ==> data@.len() >= 33 && data@[0] == OfflinePing::ID,
            data@.len() >= 33 && data@[0] == OfflinePing::ID ==> r == Some(
                OfflinePing {
                    time: spec_i64_be_at(data@, 1),
                    client_guid: spec_i64_be_at(data@, 25),
                },
            ),
    {
        if data.len() < 33 {
            return None;
        }
        let id = data[0];
        if id != OfflinePing::ID {
            return None;
        }
        let time = read_u64_be_at(data, 1) as i64;
        let client_guid = read_u64_be_at(data, 25) as i64;
        Some(OfflinePing { time, client_guid })
    }
}

/// The signed big-endian value at a position.
pub open spec fn spec_i64_be_at(d: Seq<u8>, i: int) -> i64 {
    crate::wire::spec_u64_be_at(d, i) as i64
}

/// Answer to an [`OfflinePing`]: the server identity and the banner
/// metadata shown in the server list.
#[derive(Debug, Clone, PartialEq, Eq)]
pub struct OfflinePong {
    /// The ping's own timestamp, echoed.
    pub time: i64,
    /// Randomised identifier of the server.
    pub server_guid: i64,
    /// Banner text shown in the server list.
    pub metadata: String,
}

impl OfflinePong {
    /// Wire id of this packet.
    pub const ID: u8 = 0x1c;

    /// The encoded pong: id, timestamp, server identity, magic, then
    /// the length-prefixed metadata.
    pub open spec fn spec_encoded(self) -> Seq<u8> {
        seq![OfflinePong::ID] + u64_be_bytes(self.time as u64) + u64_be_bytes(
            self.server_guid as u64,
        ) + spec_offline_message_data() + u16_be_bytes(encode_utf8(self.metadata@).len() as u16)
            + encode_utf8(self.metadata@)
    }

    /// Encodes the pong.
    pub fn encode(&self) -> (r: Vec<u8>)
        requires
            encode_utf8(self.metadata@).len() <= 0xffff,
        ensures
            r@ == self.spec_encoded(),
    {
        let mut buf: Vec<u8> = Vec::new();
        put_u8(&mut buf, OfflinePong::ID);
        put_u64_be(&mut buf, self.time as u64);
        put_u64_be(&mut buf, self.server_guid as u64);
        put_offline_message_data(&mut buf);
        let bytes = self.metadata.as_str().as_bytes();
        put_u16_be(&mut buf, bytes.len() as u16);
        put_bytes(&mut buf, bytes);
        proof {
            assert(buf@ =~= self.spec_encoded());
        }
        buf
    }
}

/// Answer to a connected ping, echoing its timestamp.
#[derive(Debug, Copy, Clone, PartialEq, Eq, Structural)]
pub struct OnlinePong {
    /// Timestamp of the ping being answered.
    pub ping_time: i64,
    /// Time the pong left the server.
    pub pong_time: i64,
}

impl OnlinePong {
    /// Wire id of this packet.
    pub const ID: u8 = 0x03;

    /// The encoded pong: id and both timestamps.
    pub open spec fn spec_encoded(self) -> Seq<u8> {
        seq![OnlinePong::ID] + u64_be_bytes(self.ping_time as u64) + u64_be_bytes(
            self.pong_time as u64,
        )
    }

    /// Encodes the pong.
    pub fn encode(&self) -> (r: Vec<u8>)
        ensures
            r@ == self.spec_encoded(),
    {
        let mut buf: Vec<u8> = Vec::new();
        put_u8(&mut buf, OnlinePong::ID);
        put_u64_be(&mut buf, self.ping_time as u64);
        put_u64_be(&mut buf, self.pong_time as u64);
        proof {
            assert(buf@ =~= self.spec_encoded());
        }
        buf
    }
}

/// Answer to an offline ping, carrying the server banner.
#[derive(Debug, Clone, PartialEq, Eq)]
pub struct UnconnectedPong<'a> {
    /// The ping's own timestamp, echoed.
    pub time: u64,
    /// Randomised identifier of the server.
    pub server_guid: u64,
    /// Banner text shown in the server list.
    pub metadata: &'a str,
}

impl<'a> UnconnectedPong<'a> {
    /// Wire id of this packet.
    pub const ID: u8 = 0x1c;

    /// The encoded pong.
    pub open spec fn spec_encoded(self) -> Seq<u8> {
        seq![UnconnectedPong::ID] + u64_be_bytes(self.time) + u64_be_bytes(self.server_guid)
            + spec_offline_message_data() + u16_be_bytes(self.metadata.spec_bytes().len() as u16)
            + self.metadata.spec_bytes()
    }

    /// Number of bytes the encoded pong occupies.
    pub fn serialized_size(&self) -> (r: usize)
        requires
            self.metadata.spec_bytes().len() <= 0xffff,
        ensures
            r == self.spec_encoded().len(),
    {
        1 + 8 + 8 + 16 + 2 + self.metadata.as_bytes().len()
    }

    /// Appends the encoded pong.
    pub fn serialize(&self, buffer: &mut Vec<u8>)
        requires
            self.metadata.spec_bytes().len() <= 0xffff,
        ensures
            final(buffer)@ == old(buffer)@ + self.spec_encoded(),
    {
        put_u8(buffer, UnconnectedPong::ID);
        put_u64_be(buffer, self.time);
        put_u64_be(buffer, self.server_guid);
        put_offline_message_data(buffer);
        let bytes = self.metadata.as_bytes();
        put_u16_be(buffer, bytes.len() as u16);
        put_bytes(buffer, bytes);
        proof {
            assert(buffer@ =~= old(buffer)@ + self.spec_encoded());
        }
    }
}

/// First reply of the connection handshake: server identity, a security
/// flag kept off, and the agreed MTU.
#[derive(Debug, Copy, Clone, PartialEq, Eq, Structural)]
pub struct OpenConnectionReply1 {
    /// Randomised identifier of the server.
    pub server_guid: u64,
    /// MTU echoed from the request.
    pub mtu: u16,
}

impl OpenConnectionReply1 {
    /// Wire id of this packet.
    pub const ID: u8 = 0x06;

    /// The encoded reply: id, magic, identity, the security byte held
    /// at zero so the login sequence can continue, and the MTU.
    pub open spec fn spec_encoded(self) -> Seq<u8> {
        seq![OpenConnectionReply1::ID] + spec_offline_message_data() + u64_be_bytes(
            self.server_guid,
        ) + seq![0u8] + u16_be_bytes(self.mtu)
    }

    /// Number of bytes the encoded reply occupies.
    pub fn serialized_size(&self) -> (r: usize)
        ensures
            r == self.spec_encoded().len(),
    {
        1 + 16 + 8 + 1 + 2
    }

    /// Appends the encoded reply.
    pub fn serialize(&self, buffer: &mut Vec<u8>)
        ensures
            final(buffer)@ == old(buffer)@ + self.spec_encoded(),
    {
        put_u8(buffer, OpenConnectionReply1::ID);
        put_offline_message_data(buffer);
        put_u64_be(buffer, self.server_guid);
        put_u8(buffer, 0);
        put_u16_be(buffer, self.mtu);
        proof {
            assert(buffer@ =~= old(buffer)@ + self.spec_encoded());
        }
    }
}

/// Second reply of the connection handshake; after it, all traffic is
/// framed.
#[derive(Debug, Copy, Clone, PartialEq, Eq)]
pub struct OpenConnectionReply2 {
    /// Randomised identifier of the server.
    pub server_guid: u64,
    /// Address of the client as the server sees it.
    pub client_address: Addr,
    /// MTU echoed from the request.
    pub mtu: u16,
}

impl OpenConnectionReply2 {
    /// Wire id of this packet.
    pub const ID: u8 = 0x08;

    /// The encoded reply: id, magic, identity, the client's address,
    /// the MTU, and the encryption flag held off so the login sequence
    /// can continue.
    pub open spec fn spec_encoded(self) -> Seq<u8> {
        seq![OpenConnectionReply2::ID] + spec_offline_message_data() + u64_be_bytes(
            self.server_guid,
        ) + spec_addr_bytes(self.client_address) + u16_be_bytes(self.mtu) + seq![0u8]
    }

    /// Number of bytes the encoded reply occupies.
    pub fn serialized_size(&self) -> (r: usize)
        ensures
            r == self.spec_encoded().len(),
    {
        proof {
            match self.client_address {
                Addr::V6 { groups, port } => {
                    assert(spec_groups_bytes(groups@).len() == 16) by {
                        reveal_with_fuel(spec_groups_bytes, 9);
                    }
                },
                _ => {},
            }
        }
        1 + 16 + 8 + match self.client_address {
            Addr::V4 { .. } => 7,
            Addr::V6 { .. } => 29,
        } + 2 + 1
    }

    /// Appends the encoded reply.
    pub fn serialize(&self, buffer: &mut Vec<u8>)
        ensures
            final(buffer)@ == old(buffer)@ + self.spec_encoded(),
    {
        put_u8(buffer, OpenConnectionReply2::ID);
        put_offline_message_data(buffer);
        put_u64_be(buffer, self.server_guid);
        put_addr(buffer, &self.client_address);
        put_u16_be(buffer, self.mtu);
        put_u8(buffer, 0);
        proof {
            assert(buffer@ =~= old(buffer)@ + self.spec_encoded());
        }
    }
}

} // verus!
