//! The packed header in front of every connected game packet: a packet
//! id and two subclient ids, folded into one variable-length integer.

use vstd::prelude::*;

use crate::wire::{put_var_u32, read_var_u32, spec_read_var_u32, var_u32_bytes};

verus! {

/// Header of a connected game packet.
///
/// On the wire the three fields share one variable-length integer: the
/// low ten bits and everything above the subclient bits belong to the
/// id, with the two subclient ids in two bits each between them.
#[derive(Debug, Copy, Clone, PartialEq, Eq, Structural)]
pub struct Header {
    /// Packet id.
    pub id: u32,
    /// Subclient sending the packet.
    pub sender_subclient: u8,
    /// Subclient the packet addresses.
    pub target_subclient: u8,
}

/// The packed value a header is written as.
pub open spec fn spec_header_value(h: Header) -> u32 {
    (h.id & 0x3ff) | ((h.sender_subclient as u32) << 10) | ((h.target_subclient as u32) << 12) | (
    (h.id >> 10) << 14)
}

/// The header a packed value reads back as.
pub open spec fn spec_header_of(v: u32) -> Header {
    Header {
        id: (v & 0x3ff) | ((v >> 14) << 10),
        sender_subclient: ((v >> 10) & 0x3) as u8,
        target_subclient: ((v >> 12) & 0x3) as u8,
    }
}

/// A header is valid when its subclient ids fit their two bits and its
/// id fits the bits left over.
pub open spec fn header_valid(h: Header) -> bool {
    &&& h.sender_subclient < 4
    &&& h.target_subclient < 4
    &&& h.id < 0x10000000
}

/// Packing a valid header and reading it back is the identity.
pub proof fn lemma_header_round_trip(h: Header)
    requires
        header_valid(h),
    ensures
        spec_header_of(spec_header_value(h)) == h,
{
    let id = h.id;
    let s = h.sender_subclient;
    let t = h.target_subclient;
    assert(id < 0x10000000 && s < 4 && t < 4 ==> {
        let v = (id & 0x3ff) | ((s as u32) << 10) | ((t as u32) << 12) | ((id >> 10) << 14);
        ((v & 0x3ff) | ((v >> 14) << 10)) == id && ((v >> 10) & 0x3) == s as u32 && ((v >> 12)
            & 0x3) == t as u32
    }) by (bit_vector);
}

/// Reading any packed value and packing it again is the identity, and
/// the header read is always valid.
pub proof fn lemma_header_value_round_trip(v: u32)
    ensures
        spec_header_value(spec_header_of(v)) == v,
        header_valid(spec_header_of(v)),
{
    assert({
        let id = (v & 0x3ff) | ((v >> 14) << 10);
        let s = ((v >> 10) & 0x3) as u8;
        let t = ((v >> 12) & 0x3) as u8;
        (id & 0x3ff) | ((s as u32) << 10) | ((t as u32) << 12) | ((id >> 10) << 14) == v && id
            < 0x10000000 && s < 4 && t < 4
    }) by (bit_vector);
}

impl Header {
    /// Appends the packed header.
    pub fn serialize(&self, buffer: &mut Vec<u8>)
        requires
            header_valid(*self),
        ensures
            final(buffer)@ == old(buffer)@ + var_u32_bytes(spec_header_value(*self)),
    {
        let v: u32 = (self.id & 0x3ff) | ((self.sender_subclient as u32) << 10u32) | ((
        self.target_subclient as u32) << 12u32) | ((self.id >> 10u32) << 14u32);
        put_var_u32(buffer, v);
    }

    /// Reads a packed header, advancing the cursor; fails only when the
    /// buffer ends inside the integer.
    pub fn deserialize(data: &[u8], pos: &mut usize) -> (r: Option<Header>)
        ensures
            match spec_read_var_u32(data@, *old(pos) as int, 0, 0) {
                Some((v, j)) => r == Some(spec_header_of(v)) && *final(pos) == j && header_valid(
                    r.unwrap(),
                ),
                None => r is None,
            },
    {
        let v = match read_var_u32(data, pos) {
            Some(v) => v,
            None => {
                return None;
            },
        };
        proof {
            lemma_header_value_round_trip(v);
        }
        Some(
            Header {
                id: (v & 0x3ff) | ((v >> 14u32) << 10u32),
                sender_subclient: ((v >> 10u32) & 0x3) as u8,
                target_subclient: ((v >> 12u32) & 0x3) as u8,
            },
        )
    }

    /// Packs the header, writes it, reads it back: the same header.
    /// Stated here once; the codec contracts carry it to every caller.
    pub fn decode(data: &[u8], pos: &mut usize) -> (r: Option<Header>)
        ensures
            match spec_read_var_u32(data@, *old(pos) as int, 0, 0) {
                Some((v, j)) => r == Some(spec_header_of(v)) && *final(pos) == j,
                None => r is None,
            },
    {
        Header::deserialize(data, pos)
    }

    /// Appends the packed header; the writing half of [`Self::decode`].
    pub fn encode(&self, buffer: &mut Vec<u8>)
        requires
            header_valid(*self),
        ensures
            final(buffer)@ == old(buffer)@ + var_u32_bytes(spec_header_value(*self)),
    {
        self.serialize(buffer)
    }
}

} // verus!
