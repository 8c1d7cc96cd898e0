//! The frame and batch data model of the reliability layer.
//!
//! A `Frame` is one reliability-wrapped unit of payload; a `FrameBatch` is
//! one UDP datagram's worth of frames plus a batch sequence number.  The
//! ghost models `FrameModel` and `FrameBatchModel` are what every contract
//! in the crate speaks about.

use vstd::prelude::*;

verus! {

/// Top bit of a datagram's first byte: set on framed (connected-peer)
/// datagrams, clear on unconnected control packets.
pub const CONNECTED_PEER_BIT_FLAG: u8 = 0x80;

/// Bit of the per-frame flags byte marking a fragment of a split payload.
pub const SPLIT_BIT_FLAG: u8 = 0x10;

/// Largest payload that fits the 16-bit payload bit-length field.
pub const MAX_FRAME_PAYLOAD: usize = 8191;

/// Reliability class of a frame.  The class decides which header fields
/// are present on the wire and which delivery mechanisms apply.
#[derive(Debug, Copy, Clone, PartialEq, Eq, Structural)]
pub enum Reliability {
    Unreliable,
    UnreliableSequenced,
    Reliable,
    ReliableOrdered,
    ReliableSequenced,
    ReliableOrderedWithAckReceipt,
    UnreliableWithAckReceipt,
}

impl Reliability {
    /// Wire tag of the class, stored in the top three bits of the frame
    /// flags byte.
    pub open spec fn spec_tag(self) -> u8 {
        match self {
            Reliability::Unreliable => 0,
            Reliability::UnreliableSequenced => 1,
            Reliability::Reliable => 2,
            Reliability::ReliableOrdered => 3,
            Reliability::ReliableSequenced => 4,
            Reliability::ReliableOrderedWithAckReceipt => 5,
            Reliability::UnreliableWithAckReceipt => 6,
        }
    }

    /// Executable twin of [`Self::spec_tag`].
    pub fn tag(self) -> (r: u8)
        ensures
            r == self.spec_tag(),
    {
        match self {
            Reliability::Unreliable => 0,
            Reliability::UnreliableSequenced => 1,
            Reliability::Reliable => 2,
            Reliability::ReliableOrdered => 3,
            Reliability::ReliableSequenced => 4,
            Reliability::ReliableOrderedWithAckReceipt => 5,
            Reliability::UnreliableWithAckReceipt => 6,
        }
    }

    /// Class for a wire tag; `None` exactly on the out-of-range tags.
    pub open spec fn spec_from_tag(tag: u8) -> Option<Reliability> {
        if tag == 0 {
            Some(Reliability::Unreliable)
        } else if tag == 1 {
            Some(Reliability::UnreliableSequenced)
        } else if tag == 2 {
            Some(Reliability::Reliable)
        } else if tag == 3 {
            Some(Reliability::ReliableOrdered)
        } else if tag == 4 {
            Some(Reliability::ReliableSequenced)
        } else if tag == 5 {
            Some(Reliability::ReliableOrderedWithAckReceipt)
        } else if tag == 6 {
            Some(Reliability::UnreliableWithAckReceipt)
        } else {
            None
        }
    }

    /// Executable twin of [`Self::spec_from_tag`].
    pub fn from_tag(tag: u8) -> (r: Option<Reliability>)
        ensures
            r == Self::spec_from_tag(tag),
    {
        if tag == 0 {
            Some(Reliability::Unreliable)
        } else if tag == 1 {
            Some(Reliability::UnreliableSequenced)
        } else if tag == 2 {
            Some(Reliability::Reliable)
        } else if tag == 3 {
            Some(Reliability::ReliableOrdered)
        } else if tag == 4 {
            Some(Reliability::ReliableSequenced)
        } else if tag == 5 {
            Some(Reliability::ReliableOrderedWithAckReceipt)
        } else if tag == 6 {
            Some(Reliability::UnreliableWithAckReceipt)
        } else {
            None
        }
    }

    /// Reliable-class frames carry a reliable index, are retransmitted
    /// until acknowledged and are deduplicated by the receiver.
    pub open spec fn spec_is_reliable(self) -> bool {
        match self {
            Reliability::Reliable => true,
            Reliability::ReliableOrdered => true,
            Reliability::ReliableSequenced => true,
            Reliability::ReliableOrderedWithAckReceipt => true,
            _ => false,
        }
    }

    /// Executable twin of [`Self::spec_is_reliable`].
    pub fn is_reliable(self) -> (r: bool)
        ensures
            r == self.spec_is_reliable(),
    {
        match self {
            Reliability::Reliable => true,
            Reliability::ReliableOrdered => true,
            Reliability::ReliableSequenced => true,
            Reliability::ReliableOrderedWithAckReceipt => true,
            _ => false,
        }
    }

    /// Sequenced-class frames carry a sequence index and obey latest-wins
    /// delivery: a stale frame is dropped, never delayed.
    pub open spec fn spec_is_sequenced(self) -> bool {
        match self {
            Reliability::UnreliableSequenced => true,
            Reliability::ReliableSequenced => true,
            _ => false,
        }
    }

    /// Executable twin of [`Self::spec_is_sequenced`].
    pub fn is_sequenced(self) -> (r: bool)
        ensures
            r == self.spec_is_sequenced(),
    {
        match self {
            Reliability::UnreliableSequenced => true,
            Reliability::ReliableSequenced => true,
            _ => false,
        }
    }

    /// Ordered-class frames carry an order index and an order channel.
    /// Sequenced frames belong to the class too: their per-channel
    /// latest-wins counter lives on the same channels.
    pub open spec fn spec_is_ordered(self) -> bool {
        match self {
            Reliability::UnreliableSequenced => true,
            Reliability::ReliableOrdered => true,
            Reliability::ReliableSequenced => true,
            Reliability::ReliableOrderedWithAckReceipt => true,
            _ => false,
        }
    }

    /// Executable twin of [`Self::spec_is_ordered`].
    pub fn is_ordered(self) -> (r: bool)
        ensures
            r == self.spec_is_ordered(),
    {
        match self {
            Reliability::UnreliableSequenced => true,
            Reliability::ReliableOrdered => true,
            Reliability::ReliableSequenced => true,
            Reliability::ReliableOrderedWithAckReceipt => true,
            _ => false,
        }
    }
}

/// Why a datagram failed to decode.
#[derive(Debug, Copy, Clone, PartialEq, Eq, Structural)]
pub enum DecodeError {
    /// Fewer bytes remained than a header declared.
    Truncated,
    /// The reliability tag of a frame was out of range.
    InvalidReliability,
    /// The compound metadata of a frame was inconsistent: a split frame
    /// declaring fewer than two fragments, or a fragment index at or past
    /// the declared fragment count.
    InvalidCompound,
}

/// Ghost model of a [`Frame`].
#[verifier::ext_equal]
pub ghost struct FrameModel {
    pub reliability: Reliability,
    pub reliable_index: u32,
    pub sequence_index: u32,
    pub order_index: u32,
    pub order_channel: u8,
    pub compound_id: u16,
    pub compound_size: u32,
    pub compound_index: u32,
    pub payload: Seq<u8>,
}

/// A frame model is valid when every field that its reliability class
/// does not use sits at its canonical value, the fields that the wire
/// format stores in 24 bits fit them, the compound metadata is
/// consistent, and the payload bit length fits its 16-bit field.
pub open spec fn frame_valid(f: FrameModel) -> bool {
    &&& f.reliable_index < 0x1000000
    &&& f.sequence_index < 0x1000000
    &&& (!f.reliability.spec_is_reliable() ==> f.reliable_index == 0)
    &&& (!f.reliability.spec_is_sequenced() ==> f.sequence_index == 0)
    &&& (!f.reliability.spec_is_ordered() ==> f.order_index == 0 && f.order_channel == 0)
    &&& f.compound_size >= 1
    &&& (f.compound_size == 1 ==> f.compound_id == 0 && f.compound_index == 0)
    &&& f.compound_index < f.compound_size
    &&& f.payload.len() <= MAX_FRAME_PAYLOAD
}

/// One reliability-wrapped unit of payload.
///
/// Fields that a frame's reliability class does not use are kept at their
/// canonical values: zero, and a compound size of one for a frame that is
/// not a fragment of a split payload.
#[derive(Debug, Clone)]
pub struct Frame {
    /// Reliability class; decides which of the fields below apply.
    pub reliability: Reliability,
    /// Monotonically assigned index of reliable-class frames, preserved
    /// across retransmits; deduplicates at the receiver.
    pub reliable_index: u32,
    /// Index of sequenced-class frames; stale values are discarded.
    pub sequence_index: u32,
    /// Position in the order channel's stream, for ordered-class frames.
    pub order_index: u32,
    /// Order channel the frame belongs to.
    pub order_channel: u8,
    /// Identifier shared by the fragments of one split payload.
    pub compound_id: u16,
    /// Number of fragments of the split payload; one for a whole payload.
    pub compound_size: u32,
    /// Position of this fragment within the split payload.
    pub compound_index: u32,
    /// Opaque payload bytes.
    pub payload: Vec<u8>,
}

impl View for Frame {
    type V = FrameModel;

    open spec fn view(&self) -> FrameModel {
        FrameModel {
            reliability: self.reliability,
            reliable_index: self.reliable_index,
            sequence_index: self.sequence_index,
            order_index: self.order_index,
            order_channel: self.order_channel,
            compound_id: self.compound_id,
            compound_size: self.compound_size,
            compound_index: self.compound_index,
            payload: self.payload@,
        }
    }
}

impl DeepView for Frame {
    type V = FrameModel;

    open spec fn deep_view(&self) -> FrameModel {
        self.view()
    }
}

impl Default for Frame {
    /// An unreliable frame with an empty payload and every field at its
    /// canonical value.
    fn default() -> (r: Frame)
        ensures
            r@ == (FrameModel {
                reliability: Reliability::Unreliable,
                reliable_index: 0,
                sequence_index: 0,
                order_index: 0,
                order_channel: 0,
                compound_id: 0,
                compound_size: 1,
                compound_index: 0,
                payload: Seq::<u8>::empty(),
            }),
            frame_valid(r@),
    {
        let r = Frame {
            reliability: Reliability::Unreliable,
            reliable_index: 0,
            sequence_index: 0,
            order_index: 0,
            order_channel: 0,
            compound_id: 0,
            compound_size: 1,
            compound_index: 0,
            payload: Vec::new(),
        };
        assert(r@.payload =~= Seq::<u8>::empty());
        r
    }
}

impl PartialEq for Frame {
    fn eq(&self, other: &Frame) -> (r: bool) {
        let r = self.reliability == other.reliability && self.reliable_index
            == other.reliable_index && self.sequence_index == other.sequence_index
            && self.order_index == other.order_index && self.order_channel == other.order_channel
            && self.compound_id == other.compound_id && self.compound_size == other.compound_size
            && self.compound_index == other.compound_index && self.payload == other.payload;
        proof {
            if r {
                assert(self.payload@ =~= other.payload@);
                assert(self@ =~= other@);
            } else {
                if self@ == other@ {
                    assert(self.payload@ == other.payload@);
                    assert(forall|i: int|
                        0 <= i < self.payload@.len() ==> self.payload@[i] == other.payload@[i]);
                }
            }
        }
        r
    }
}

impl vstd::std_specs::cmp::PartialEqSpecImpl for Frame {
    open spec fn obeys_eq_spec() -> bool {
        true
    }

    open spec fn eq_spec(&self, other: &Frame) -> bool {
        self@ == other@
    }
}

impl Eq for Frame {

}

/// Ghost model of a [`FrameBatch`].
#[verifier::ext_equal]
pub ghost struct FrameBatchModel {
    pub sequence_number: u32,
    pub frames: Seq<FrameModel>,
}

/// A batch model is valid when its sequence number fits the 24-bit wire
/// field and every frame in it is valid.
pub open spec fn batch_valid(b: FrameBatchModel) -> bool {
    &&& b.sequence_number < 0x1000000
    &&& forall|i: int| 0 <= i < b.frames.len() ==> frame_valid(#[trigger] b.frames[i])
}

/// One decoded UDP datagram: a batch sequence number plus the frames the
/// datagram carried.
#[derive(Debug, Clone)]
pub struct FrameBatch {
    /// Sequence number of the datagram; the space the ACK/NACK ranges
    /// refer to, independent of the frames' reliable indices.
    pub sequence_number: u32,
    /// The frames of the datagram, in wire order.
    pub frames: Vec<Frame>,
}

impl View for FrameBatch {
    type V = FrameBatchModel;

    open spec fn view(&self) -> FrameBatchModel {
        FrameBatchModel { sequence_number: self.sequence_number, frames: self.frames.deep_view() }
    }
}

impl DeepView for FrameBatch {
    type V = FrameBatchModel;

    open spec fn deep_view(&self) -> FrameBatchModel {
        self.view()
    }
}

impl PartialEq for FrameBatch {
    fn eq(&self, other: &FrameBatch) -> (r: bool) {
        if self.sequence_number != other.sequence_number {
            return false;
        }
        if self.frames.len() != other.frames.len() {
            proof {
                assert(self.frames.deep_view().len() == self.frames@.len());
                assert(other.frames.deep_view().len() == other.frames@.len());
            }
            return false;
        }
        let mut i: usize = 0;
        while i < self.frames.len()
            invariant
                i <= self.frames@.len(),
                self.frames@.len() == other.frames@.len(),
                forall|k: int| 0 <= k < i ==> self.frames@[k]@ == other.frames@[k]@,
            decreases self.frames@.len() - i,
        {
            if !(self.frames[i] == other.frames[i]) {
                proof {
                    assert(self.frames.deep_view()[i as int] == self.frames@[i as int]@);
                    assert(other.frames.deep_view()[i as int] == other.frames@[i as int]@);
                }
                return false;
            }
            i = i + 1;
        }
        proof {
            assert(self.frames.deep_view() =~= other.frames.deep_view());
            assert(self@ =~= other@);
        }
        true
    }
}

impl vstd::std_specs::cmp::PartialEqSpecImpl for FrameBatch {
    open spec fn obeys_eq_spec() -> bool {
        true
    }

    open spec fn eq_spec(&self, other: &FrameBatch) -> bool {
        self@ == other@
    }
}

impl Eq for FrameBatch {

}

} // verus!
