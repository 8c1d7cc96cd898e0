//! Outgoing frame accumulation and MTU-sized batching.
//!
//! Frames queue up in submission order and are drained greedily into
//! batches whose encoded size never exceeds the session MTU, each batch
//! taking the next unused datagram sequence number.  An oversized
//! payload must have been split into compound fragments before it ever
//! reaches this queue.

use vstd::prelude::*;

use crate::codec::{frame_size, spec_batch_size, spec_encode_frames, spec_frame_size};
use crate::frame::{batch_valid, frame_valid, Frame, FrameBatch, FrameBatchModel, FrameModel};
use crate::recovery::clone_bytes;

verus! {

/// The frames of a run of batches, launched in order.
pub open spec fn batches_frames(bs: Seq<FrameBatchModel>) -> Seq<FrameModel>
    decreases bs.len(),
{
    if bs.len() == 0 {
        Seq::<FrameModel>::empty()
    } else {
        bs[0].frames + batches_frames(bs.drop_first())
    }
}

/// Appending a batch appends its frames.
proof fn lemma_batches_frames_snoc(bs: Seq<FrameBatchModel>, b: FrameBatchModel)
    ensures
        batches_frames(bs.push(b)) == batches_frames(bs) + b.frames,
    decreases bs.len(),
{
    if bs.len() == 0 {
        assert(bs.push(b)[0] == b);
        assert(bs.push(b).drop_first() =~= Seq::<FrameBatchModel>::empty());
        assert(batches_frames(Seq::<FrameBatchModel>::empty()) == Seq::<FrameModel>::empty());
        assert(batches_frames(bs.push(b)) =~= batches_frames(bs) + b.frames);
    } else {
        assert(bs.push(b).drop_first() =~= bs.drop_first().push(b));
        lemma_batches_frames_snoc(bs.drop_first(), b);
        assert(batches_frames(bs.push(b)) =~= batches_frames(bs) + b.frames);
    }
}

/// Ghost model of the [`SendQueue`].
#[verifier::ext_equal]
pub ghost struct SendQueueModel {
    /// Frames awaiting batching, in submission order.
    pub pending: Seq<FrameModel>,
    /// Next unused datagram sequence number.
    pub next_sequence: u32,
}

/// The outgoing queue of one session.
pub struct SendQueue {
    pending: Vec<Frame>,
    next_sequence: u32,
}

impl View for SendQueue {
    type V = SendQueueModel;

    closed spec fn view(&self) -> SendQueueModel {
        SendQueueModel { pending: self.pending.deep_view(), next_sequence: self.next_sequence }
    }
}

/// A copy of a frame whose model equals the original's.
pub fn clone_frame(f: &Frame) -> (r: Frame)
    ensures
        r@ == f@,
{
    let r = Frame {
        reliability: f.reliability,
        reliable_index: f.reliable_index,
        sequence_index: f.sequence_index,
        order_index: f.order_index,
        order_channel: f.order_channel,
        compound_id: f.compound_id,
        compound_size: f.compound_size,
        compound_index: f.compound_index,
        payload: clone_bytes(&f.payload),
    };
    proof {
        assert(r@ =~= f@);
    }
    r
}

impl SendQueue {
    /// Every pending frame is valid.
    pub open spec fn wf(self) -> bool {
        forall|i: int| 0 <= i < self@.pending.len() ==> frame_valid(#[trigger] self@.pending[i])
    }

    /// An empty queue that will stamp its first batch with the given
    /// sequence number.
    pub fn new(first_sequence: u32) -> (r: SendQueue)
        ensures
            r.wf(),
            r@ == (SendQueueModel {
                pending: Seq::<FrameModel>::empty(),
                next_sequence: first_sequence,
            }),
    {
        let r = SendQueue { pending: Vec::new(), next_sequence: first_sequence };
        proof {
            assert(r@ =~= (SendQueueModel {
                pending: Seq::<FrameModel>::empty(),
                next_sequence: first_sequence,
            }));
        }
        r
    }

    /// Appends one frame to the pending list.
    pub fn enqueue(&mut self, frame: Frame)
        requires
            old(self).wf(),
            frame_valid(frame@),
        ensures
            final(self).wf(),
            final(self)@.next_sequence == old(self)@.next_sequence,
            final(self)@.pending == old(self)@.pending.push(frame@),
    {
        let ghost fm = frame@;
        self.pending.push(frame);
        proof {
            assert(self@.pending =~= old(self)@.pending.push(fm));
        }
    }

    /// Hands out the next unused datagram sequence number, for a
    /// retransmission that must leave under a fresh number.
    pub fn take_sequence(&mut self) -> (r: u32)
        requires
            old(self).wf(),
            old(self)@.next_sequence < 0x1000000,
        ensures
            final(self).wf(),
            r == old(self)@.next_sequence,
            final(self)@.pending == old(self)@.pending,
            final(self)@.next_sequence == old(self)@.next_sequence + 1,
    {
        let r = self.next_sequence;
        self.next_sequence = self.next_sequence + 1;
        proof {
            assert(self@.pending =~= old(self)@.pending);
        }
        r
    }

    /// The sequence number the next batch will take.
    pub fn next_sequence_value(&self) -> (r: u32)
        ensures
            r == self@.next_sequence,
    {
        self.next_sequence
    }

    /// Number of frames waiting.
    pub fn pending_len(&self) -> (r: usize)
        ensures
            r == self@.pending.len(),
    {
        self.pending.len()
    }

    /// Greedily packs the pending frames, in order, into batches whose
    /// encoded size stays within the MTU, stamping consecutive sequence
    /// numbers.  Each batch is filled until its next frame would not
    /// fit, so none could have taken more.  Every pending frame must fit
    /// a batch of its own: an oversized payload is split upstream, and
    /// handing one in unsplit is a caller error.
    #[verifier::rlimit(100)]
    pub fn drain_batches(&mut self, mtu: u16) -> (r: Vec<FrameBatch>)
        requires
            old(self).wf(),
            forall|i: int|
                0 <= i < old(self)@.pending.len() ==> spec_frame_size(
                    #[trigger] old(self)@.pending[i],
                ) + 4 <= mtu,
            old(self)@.next_sequence + old(self)@.pending.len() <= 0x1000000,
        ensures
            final(self).wf(),
            final(self)@.pending == Seq::<FrameModel>::empty(),
            final(self)@.next_sequence == old(self)@.next_sequence + r.deep_view().len(),
            batches_frames(r.deep_view()) == old(self)@.pending,
            r.deep_view().len() <= old(self)@.pending.len(),
            forall|i: int|
                0 <= i < r.deep_view().len() ==> {
                    &&& (#[trigger] r.deep_view()[i]).sequence_number == old(self)@.next_sequence
                        + i
                    &&& r.deep_view()[i].frames.len() >= 1
                    &&& batch_valid(r.deep_view()[i])
                    &&& spec_batch_size(r.deep_view()[i].frames) <= mtu
                },
            forall|i: int|
                0 <= i < r.deep_view().len() - 1 ==> spec_batch_size(
                    (#[trigger] r.deep_view()[i]).frames,
                ) + spec_frame_size(r.deep_view()[i + 1].frames[0]) > mtu,
    {
        let ghost p0 = old(self)@.pending;
        let ghost s0 = old(self)@.next_sequence;
        let mut out: Vec<FrameBatch> = Vec::new();
        let mut cur: Vec<Frame> = Vec::new();
        let mut cur_size: usize = 4;
        let mut i: usize = 0;
        proof {
            assert(out.deep_view() =~= Seq::<FrameBatchModel>::empty());
            assert(cur.deep_view() =~= Seq::<FrameModel>::empty());
            assert(batches_frames(out.deep_view()) + cur.deep_view() =~= p0.subrange(0, 0));
            assert(spec_encode_frames(cur.deep_view()) =~= Seq::<u8>::empty());
        }
        while i < self.pending.len()
            invariant
                i <= self.pending@.len(),
                self == old(self),
                p0 == old(self)@.pending,
                s0 == old(self)@.next_sequence,
                old(self).wf(),
                forall|k: int|
                    0 <= k < p0.len() ==> spec_frame_size(#[trigger] p0[k]) + 4 <= mtu,
                s0 + p0.len() <= 0x1000000,
                out.deep_view().len() + if cur.len() > 0 {
                    1int
                } else {
                    0int
                } <= i,
                batches_frames(out.deep_view()) + cur.deep_view() == p0.subrange(0, i as int),
                cur_size == spec_batch_size(cur.deep_view()),
                cur_size <= mtu || cur.len() == 0,
                cur.len() == 0 ==> cur_size == 4,
                cur.len() == 0 ==> out.deep_view().len() == 0,
                forall|b: int|
                    0 <= b < out.deep_view().len() ==> {
                        &&& (#[trigger] out.deep_view()[b]).sequence_number == s0 + b
                        &&& out.deep_view()[b].frames.len() >= 1
                        &&& batch_valid(out.deep_view()[b])
                        &&& spec_batch_size(out.deep_view()[b].frames) <= mtu
                    },
                forall|b: int|
                    0 <= b < out.deep_view().len() - 1 ==> spec_batch_size(
                        (#[trigger] out.deep_view()[b]).frames,
                    ) + spec_frame_size(out.deep_view()[b + 1].frames[0]) > mtu,
                cur.len() > 0 && out.deep_view().len() > 0 ==> spec_batch_size(
                    out.deep_view()[out.deep_view().len() - 1].frames,
                ) + spec_frame_size(cur.deep_view()[0]) > mtu,
                forall|k: int|
                    0 <= k < cur.deep_view().len() ==> frame_valid(#[trigger] cur.deep_view()[k]),
            decreases self.pending@.len() - i,
        {
            proof {
                assert(p0[i as int] == self.pending@[i as int]@);
            }
            let fsize = frame_size(&self.pending[i]);
            if cur.len() > 0 && cur_size + fsize > mtu as usize {
                let ghost od = out.deep_view();
                let ghost cd = cur.deep_view();
                let batch = FrameBatch { sequence_number: self.next_sequence_at(&out), frames: cur };
                proof {
                    assert(batch@ =~= (FrameBatchModel {
                        sequence_number: (s0 + od.len()) as u32,
                        frames: cd,
                    }));
                }
                out.push(batch);
                proof {
                    assert(out.deep_view() =~= od.push(
                        FrameBatchModel { sequence_number: (s0 + od.len()) as u32, frames: cd },
                    ));
                    lemma_batches_frames_snoc(
                        od,
                        FrameBatchModel { sequence_number: (s0 + od.len()) as u32, frames: cd },
                    );
                }
                cur = Vec::new();
                cur_size = 4;
                proof {
                    assert(cur.deep_view() =~= Seq::<FrameModel>::empty());
                    assert(spec_encode_frames(cur.deep_view()) =~= Seq::<u8>::empty());
                    assert(batches_frames(out.deep_view()) + cur.deep_view() =~= p0.subrange(
                        0,
                        i as int,
                    ));
                }
            }
            let ghost od = out.deep_view();
            let ghost cd = cur.deep_view();
            let ghost csize0 = cur_size as int;
            let f = clone_frame(&self.pending[i]);
            cur.push(f);
            cur_size = cur_size + fsize;
            i = i + 1;
            proof {
                assert(cur.deep_view() =~= cd.push(p0[i - 1]));
                crate::codec::lemma_encode_frames_snoc(cd, p0[i - 1]);
                assert(batches_frames(od) + cd.push(p0[i - 1]) =~= (batches_frames(od) + cd).push(
                    p0[i - 1],
                ));
                assert(p0.subrange(0, i as int) =~= p0.subrange(0, i - 1).push(p0[i - 1]));
                if od.len() > 0 {
                    if cd.len() == 0 {
                        assert(cur.deep_view()[0] == p0[i - 1]);
                        assert(spec_batch_size(od[od.len() - 1].frames) + spec_frame_size(
                            p0[i - 1],
                        ) > mtu);
                    } else {
                        assert(cur.deep_view()[0] == cd[0]);
                    }
                }
            }
        }
        if cur.len() > 0 {
            let ghost od = out.deep_view();
            let ghost cd = cur.deep_view();
            let batch = FrameBatch { sequence_number: self.next_sequence_at(&out), frames: cur };
            proof {
                assert(batch@ =~= (FrameBatchModel {
                    sequence_number: (s0 + od.len()) as u32,
                    frames: cd,
                }));
            }
            out.push(batch);
            proof {
                assert(out.deep_view() =~= od.push(
                    FrameBatchModel { sequence_number: (s0 + od.len()) as u32, frames: cd },
                ));
                lemma_batches_frames_snoc(
                    od,
                    FrameBatchModel { sequence_number: (s0 + od.len()) as u32, frames: cd },
                );
            }
        } else {
            proof {
                assert(batches_frames(out.deep_view()) + cur.deep_view() =~= batches_frames(
                    out.deep_view(),
                ));
            }
        }
        self.pending = Vec::new();
        let count = out.len();
        proof {
            assert(p0.subrange(0, p0.len() as int) =~= p0);
            assert(batches_frames(out.deep_view()) =~= p0);
            assert(self@.pending =~= Seq::<FrameModel>::empty());
            assert(out.deep_view().len() <= p0.len());
        }
        self.next_sequence = self.next_sequence + count as u32;
        out
    }

    /// The sequence number the next completed batch will take.
    fn next_sequence_at(&self, out: &Vec<FrameBatch>) -> (r: u32)
        requires
            self@.next_sequence + out.deep_view().len() < 0x100000000,
        ensures
            r == self@.next_sequence + out.deep_view().len(),
    {
        proof {
            assert(out.deep_view().len() == out@.len());
        }
        self.next_sequence + out.len() as u32
    }
}

} // verus!
