//! Reorder buffer with contiguous release, plus the latest-wins counter
//! of sequenced frames.
//!
//! Ordered-class frames are released in order of their order index: a
//! frame at the expected index is released together with the buffered run
//! that follows it, an early frame is buffered, and a frame below the
//! expected index is a duplicate and is dropped.  Sequenced-class frames
//! are never buffered: one that does not beat the running counter is
//! dropped, stale data being discarded rather than delayed.

use vstd::prelude::*;

use std::collections::HashMap;

use crate::frame::{Frame, FrameModel};

verus! {

/// Ghost model of an [`OrderChannel`].
#[verifier::ext_equal]
pub ghost struct OrderChannelModel {
    /// Next order index to release.
    pub expected: u64,
    /// Lowest sequence index that a sequenced frame must reach to be
    /// delivered.
    pub next_sequence: u64,
    /// Frames received early, by order index.
    pub buffered: Map<u32, FrameModel>,
}

/// The released run carries consecutive order indices from the first
/// one released.
pub open spec fn released_indices(out: Seq<FrameModel>, e0: u64) -> bool {
    forall|k: int| #![trigger out[k]] 0 <= k < out.len() ==> out[k].order_index == e0 + k
}

/// Every released frame after the head came out of the buffer, stored
/// under its own order index.
pub open spec fn released_from(out: Seq<FrameModel>, buffered: Map<u32, FrameModel>) -> bool {
    forall|k: int|
        #![trigger out[k]]
        1 <= k < out.len() ==> buffered.contains_key(out[k].order_index) && out[k] == buffered[
            out[k].order_index
        ]
}

/// Extending a run with the frame at its next index keeps the run
/// consecutive.
proof fn lemma_indices_push(out: Seq<FrameModel>, e0: u64, f: FrameModel)
    requires
        released_indices(out, e0),
        f.order_index == e0 + out.len(),
    ensures
        released_indices(out.push(f), e0),
{
    assert forall|k: int| #![trigger out.push(f)[k]] 0 <= k < out.push(f).len() implies out.push(
        f,
    )[k].order_index == e0 + k by {
        if k < out.len() {
            assert(out.push(f)[k] == out[k]);
        } else {
            assert(out.push(f)[k] == f);
        }
    }
}

/// Extending a run with a frame the buffer holds under its own order
/// index keeps every released frame accounted for by the buffer.
proof fn lemma_released_push(out: Seq<FrameModel>, buffered: Map<u32, FrameModel>, f: FrameModel)
    requires
        released_from(out, buffered),
        buffered.contains_key(f.order_index),
        f == buffered[f.order_index],
    ensures
        released_from(out.push(f), buffered),
{
    assert forall|k: int|
        #![trigger out.push(f)[k]]
        1 <= k < out.push(f).len() implies buffered.contains_key(out.push(f)[k].order_index)
        && out.push(f)[k] == buffered[out.push(f)[k].order_index] by {
        if k < out.len() {
            assert(out.push(f)[k] == out[k]);
        } else {
            assert(out.push(f)[k] == f);
        }
    }
}

/// One ordering channel of a session.
pub struct OrderChannel {
    expected: u64,
    next_sequence: u64,
    buffer: HashMap<u32, Frame>,
}

impl DeepView for OrderChannel {
    type V = OrderChannelModel;

    open spec fn deep_view(&self) -> OrderChannelModel {
        self.view()
    }
}

impl View for OrderChannel {
    type V = OrderChannelModel;

    closed spec fn view(&self) -> OrderChannelModel {
        OrderChannelModel {
            expected: self.expected,
            next_sequence: self.next_sequence,
            buffered: self.buffer@.map_values(|f: Frame| f@),
        }
    }
}

impl OrderChannel {
    /// Every buffered frame sits under its own order index, past the
    /// expected index.
    pub closed spec fn wf(self) -> bool {
        forall|k: u32| #[trigger]
            self.buffer@.contains_key(k) ==> self.buffer@[k]@.order_index == k && (k as u64)
                > self.expected
    }

    /// A fresh channel: nothing released, nothing buffered, any first
    /// sequence index accepted.
    pub fn new() -> (r: OrderChannel)
        ensures
            r.wf(),
            r@ == (OrderChannelModel {
                expected: 0,
                next_sequence: 0,
                buffered: Map::<u32, FrameModel>::empty(),
            }),
    {
        broadcast use vstd::std_specs::hash::group_hash_axioms;

        let r = OrderChannel { expected: 0, next_sequence: 0, buffer: HashMap::new() };
        proof {
            assert(r@.buffered =~= Map::<u32, FrameModel>::empty());
        }
        r
    }

    /// Routes one ordered-class frame.
    ///
    /// A frame at the expected index comes back at the head of the
    /// released run, followed by the buffered frames whose indices
    /// continue it without a gap; the expected index moves past the run.
    /// An early frame is buffered and an already-released or
    /// already-buffered index is dropped, both with no release.
    #[verifier::rlimit(60)]
    pub fn insert(&mut self, frame: Frame) -> (r: Option<Vec<Frame>>)
        requires
            old(self).wf(),
        ensures
            final(self).wf(),
            final(self)@.next_sequence == old(self)@.next_sequence,
            (frame@.order_index as u64) < old(self)@.expected ==> r is None && final(self)@ == old(
                self,
            )@,
            (frame@.order_index as u64) > old(self)@.expected && old(self)@.buffered.contains_key(
                frame@.order_index,
            ) ==> r is None && final(self)@ == old(self)@,
            (frame@.order_index as u64) > old(self)@.expected && !old(self)@.buffered.contains_key(
                frame@.order_index,
            ) ==> r is None && final(self)@ == (OrderChannelModel {
                buffered: old(self)@.buffered.insert(frame@.order_index, frame@),
                ..old(self)@
            }),
            (frame@.order_index as u64) == old(self)@.expected ==> {
                &&& r is Some
                &&& r.unwrap().deep_view().len() >= 1
                &&& r.unwrap().deep_view()[0] == frame@
                &&& released_indices(r.unwrap().deep_view(), old(self)@.expected)
                &&& released_from(r.unwrap().deep_view(), old(self)@.buffered)
                &&& final(self)@.expected == old(self)@.expected + r.unwrap().deep_view().len()
                &&& (final(self)@.expected <= u32::MAX ==> !old(self)@.buffered.contains_key(
                    final(self)@.expected as u32,
                ))
                &&& forall|k: u32|
                    #[trigger] final(self)@.buffered.contains_key(k) <==> old(
                        self,
                    )@.buffered.contains_key(k) && (k as u64) >= final(self)@.expected
                &&& forall|k: u32|
                    #[trigger] final(self)@.buffered.contains_key(k) ==> final(self)@.buffered[k]
                        == old(self)@.buffered[k]
            },
            final(self)@ == spec_channel_insert(old(self)@, frame@).0,
            (match r {
                Some(v) => v.deep_view(),
                None => Seq::<FrameModel>::empty(),
            }) == spec_channel_insert(old(self)@, frame@).1,
    {
        broadcast use vstd::std_specs::hash::group_hash_axioms;

        let idx = frame.order_index;
        let ghost m0 = self.buffer@;
        let ghost fm = frame@;
        if (idx as u64) < self.expected {
            proof {
                assert(self@ == spec_channel_insert(old(self)@, fm).0);
            }
            return None;
        }
        if (idx as u64) > self.expected {
            if self.buffer.contains_key(&idx) {
                proof {
                    assert(old(self)@.buffered.contains_key(idx));
                    assert(self@ == spec_channel_insert(old(self)@, fm).0);
                }
                return None;
            }
            self.buffer.insert(idx, frame);
            proof {
                assert(self@.buffered =~= old(self)@.buffered.insert(fm.order_index, fm));
                assert(self@ =~= (OrderChannelModel {
                    buffered: old(self)@.buffered.insert(fm.order_index, fm),
                    ..old(self)@
                }));
                assert(!old(self)@.buffered.contains_key(idx));
                assert(self@ =~= spec_channel_insert(old(self)@, fm).0);
            }
            return None;
        }
        let ghost e0 = self.expected;
        let mut out: Vec<Frame> = Vec::new();
        out.push(frame);
        proof {
            assert(out.deep_view() =~= seq![fm]);
            assert(forall|k: u32| #[trigger]
                m0.contains_key(k) <==> old(self)@.buffered.contains_key(k));
            assert(forall|k: u32| #[trigger]
                m0.contains_key(k) ==> old(self)@.buffered[k] == m0[k]@);
        }
        self.expected = self.expected + 1;
        while self.expected <= 0xffff_ffffu64 && self.buffer.contains_key(
            &(self.expected as u32),
        )
            invariant
                e0 < self.expected <= 0x1_0000_0000u64,
                self.next_sequence == old(self).next_sequence,
                out.deep_view().len() == self.expected - e0,
                out.deep_view()[0] == fm,
                released_indices(out.deep_view(), e0),
                released_from(out.deep_view(), old(self)@.buffered),
                forall|k: u32| #[trigger]
                    m0.contains_key(k) <==> old(self)@.buffered.contains_key(k),
                forall|k: u32| #[trigger] m0.contains_key(k) ==> old(self)@.buffered[k] == m0[k]@,
                forall|k: u32|
                    #[trigger] self.buffer@.contains_key(k) <==> (m0.contains_key(k) && !(e0
                        < (k as u64) && (k as u64) < self.expected)),
                forall|k: u32|
                    #[trigger] self.buffer@.contains_key(k) ==> self.buffer@[k] == m0[k],
                forall|k: u32| #[trigger]
                    m0.contains_key(k) ==> m0[k]@.order_index == k && (k as u64) > e0,
            decreases 0x1_0000_0000u64 - self.expected,
        {
            let ghost dv0 = out.deep_view();
            let ghost b0 = self.buffer@;
            let key = self.expected as u32;
            let f = self.buffer.remove(&key).unwrap();
            proof {
                broadcast use vstd::std_specs::hash::group_hash_axioms;

                assert(b0.contains_key(key));
                assert(m0.contains_key(key));
                assert(f == b0[key]);
                assert(f == m0[key]);
                assert(f@.order_index == key);
            }
            out.push(f);
            self.expected = self.expected + 1;
            proof {
                assert(out.deep_view() =~= dv0.push(f@));
                lemma_indices_push(dv0, e0, f@);
                assert(m0.contains_key(key));
                assert(old(self)@.buffered.contains_key(key));
                assert(f@.order_index == key);
                assert(f@ == old(self)@.buffered[key]);
                lemma_released_push(dv0, old(self)@.buffered, f@);
            }
        }
        proof {
            assert(forall|k: u32|
                #[trigger] self@.buffered.contains_key(k) <==> self.buffer@.contains_key(k));
            assert(forall|k: u32| #[trigger]
                self.buffer@.contains_key(k) ==> self@.buffered[k] == self.buffer@[k]@);
            assert(forall|k: u32| #[trigger]
                old(self)@.buffered.contains_key(k) <==> m0.contains_key(k));
            assert(forall|k: u32| #[trigger]
                m0.contains_key(k) ==> old(self)@.buffered[k] == m0[k]@);
            // The released run is exactly the drained run of the model.
            let m = old(self)@;
            let tail = out.deep_view().drop_first();
            let e0i = e0 as int;
            let e1 = (e0 + 1) as u64;
            assert(e1 == e0 + 1);
            assert forall|j: int| #![trigger run_key(e1, j)] 0 <= j < tail.len() implies m.buffered.contains_key(
                run_key(e1, j),
            ) by {
                assert(tail[j] == out.deep_view()[j + 1]);
                assert((out.deep_view()[j + 1]).order_index == e0 + (j + 1));
                assert(out.deep_view()[j + 1] == m.buffered[out.deep_view()[j + 1].order_index]);
                assert(run_key(e1, j) == (out.deep_view()[j + 1]).order_index);
            }
            assert forall|j: int| #![trigger tail[j]] 0 <= j < tail.len() implies tail[j]
                == m.buffered[run_key(e1, j)] by {
                assert(tail[j] == out.deep_view()[j + 1]);
                assert((out.deep_view()[j + 1]).order_index == e0 + (j + 1));
                assert(out.deep_view()[j + 1] == m.buffered[out.deep_view()[j + 1].order_index]);
                assert(run_key(e1, j) == (out.deep_view()[j + 1]).order_index);
            }
            assert(e1 + tail.len() == e0 + out.deep_view().len());
            if e1 + tail.len() < 0x1_0000_0000 {
                assert(self.expected <= u32::MAX);
                assert(!m.buffered.contains_key((self.expected as u32)));
                assert(run_key(e1, tail.len() as int) == self.expected as u32);
                assert(!m.buffered.contains_key(run_key(e1, tail.len() as int)));
            }
            lemma_drain_characterized(m.buffered, e1, tail);
            assert(out.deep_view() =~= seq![fm] + tail);
            assert(spec_channel_insert(m, fm).1 == out.deep_view());
            assert(self@.buffered =~= spec_channel_insert(m, fm).0.buffered);
            assert(self@ =~= spec_channel_insert(m, fm).0);
        }
        Some(out)
    }

    /// Routes one sequenced-class frame: delivered exactly when its
    /// sequence index has not been superseded, moving the counter past
    /// it; otherwise dropped with no state change.
    pub fn insert_sequenced(&mut self, frame: &Frame) -> (r: bool)
        requires
            old(self).wf(),
        ensures
            final(self).wf(),
            r == ((frame@.sequence_index as u64) >= old(self)@.next_sequence),
            r ==> final(self)@ == (OrderChannelModel {
                next_sequence: (frame@.sequence_index as u64 + 1) as u64,
                ..old(self)@
            }),
            !r ==> final(self)@ == old(self)@,
    {
        if (frame.sequence_index as u64) >= self.next_sequence {
            self.next_sequence = frame.sequence_index as u64 + 1;
            proof {
                assert(self@ =~= (OrderChannelModel {
                    next_sequence: (frame@.sequence_index as u64 + 1) as u64,
                    ..old(self)@
                }));
            }
            true
        } else {
            proof {
                assert(self@ =~= old(self)@);
            }
            false
        }
    }
}

/// The run of buffered frames at consecutive indices from `e` upward,
/// in index order, stopping at the first gap.
pub open spec fn spec_drain(buffered: Map<u32, FrameModel>, e: u64) -> Seq<FrameModel>
    decreases 0x1_0000_0000 - e,
    when e <= 0x1_0000_0000
{
    if e >= 0x1_0000_0000 {
        Seq::<FrameModel>::empty()
    } else if buffered.contains_key(e as u32) {
        seq![buffered[e as u32]] + spec_drain(buffered, (e + 1) as u64)
    } else {
        Seq::<FrameModel>::empty()
    }
}

/// What inserting one ordered frame does to a channel: the new channel
/// state and the released run.
pub open spec fn spec_channel_insert(m: OrderChannelModel, f: FrameModel) -> (
    OrderChannelModel,
    Seq<FrameModel>,
) {
    let idx = f.order_index as u64;
    if idx < m.expected || m.buffered.contains_key(f.order_index) {
        (m, Seq::<FrameModel>::empty())
    } else if idx > m.expected {
        (
            OrderChannelModel { buffered: m.buffered.insert(f.order_index, f), ..m },
            Seq::<FrameModel>::empty(),
        )
    } else {
        let run = seq![f] + spec_drain(m.buffered, (idx + 1) as u64);
        (
            OrderChannelModel {
                expected: (idx + run.len()) as u64,
                buffered: m.buffered.remove_keys(
                    Set::new(|k: u32| idx <= k as u64 && (k as u64) < idx + run.len()),
                ),
                ..m
            },
            run,
        )
    }
}

/// The wire key `j` places past `e`.
pub open spec fn run_key(e: u64, j: int) -> u32 {
    ((e + j) as u32)
}

/// A run with consecutive indices from `e` upward, each frame taken
/// from the map under its own index, that stops at the first absent
/// index, is exactly the drained run.
proof fn lemma_drain_characterized(m: Map<u32, FrameModel>, e: u64, tail: Seq<FrameModel>)
    requires
        e + tail.len() <= 0x1_0000_0000,
        forall|j: int| #![trigger run_key(e, j)] 0 <= j < tail.len() ==> m.contains_key(run_key(e, j)),
        forall|j: int| #![trigger tail[j]] 0 <= j < tail.len() ==> tail[j] == m[run_key(e, j)],
        e + tail.len() == 0x1_0000_0000 || !m.contains_key(run_key(e, tail.len() as int)),
    ensures
        spec_drain(m, e) == tail,
    decreases tail.len(),
{
    if tail.len() == 0 {
        if e < 0x1_0000_0000 {
            assert(run_key(e, 0) == e as u32);
            assert(!m.contains_key(e as u32));
        }
        assert(spec_drain(m, e) =~= tail);
    } else {
        assert(m.contains_key(run_key(e, 0)));
        assert(run_key(e, 0) == e as u32);
        assert(tail[0] == m[run_key(e, 0)]);
        assert(tail[0] == m[e as u32]);
        let e1 = (e + 1) as u64;
        assert(e1 == e + 1);
        assert forall|j: int| #![trigger run_key(e1, j)] 0 <= j < tail.drop_first().len() implies m.contains_key(
            run_key(e1, j),
        ) by {
            assert(run_key(e1, j) == run_key(e, j + 1));
            assert(m.contains_key(run_key(e, j + 1)));
        }
        assert forall|j: int| #![trigger tail.drop_first()[j]] 0 <= j < tail.drop_first().len() implies tail.drop_first()[j]
            == m[run_key(e1, j)] by {
            assert(tail.drop_first()[j] == tail[j + 1]);
            assert(tail[j + 1] == m[run_key(e, j + 1)]);
            assert(run_key(e1, j) == run_key(e, j + 1));
        }
        assert(run_key(e1, tail.drop_first().len() as int) == run_key(e, tail.len() as int));
        lemma_drain_characterized(m, e1, tail.drop_first());
        assert(spec_drain(m, e) =~= seq![m[e as u32]] + tail.drop_first());
        assert(seq![m[e as u32]] + tail.drop_first() =~= tail);
    }
}

} // verus!
