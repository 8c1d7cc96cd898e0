//! Acknowledgement bookkeeping: which batch sequence numbers to ACK,
//! which gaps to NACK, and the wire form of both control packets.
//!
//! Received sequence numbers accumulate until a tick flushes them as
//! minimal contiguous inclusive ranges; a number that arrives above the
//! expected next one opens a gap, which is queued for a negative
//! acknowledgement until the missing datagram shows up.

use vstd::prelude::*;

use crate::recovery::seq_covered;
use crate::wire::{put_u16_le, put_u24_le, put_u8, read_u16_le, read_u24_le, read_u8};

verus! {

/// Sequence numbers sorted strictly increasing.
pub open spec fn nums_sorted(s: Seq<u32>) -> bool {
    forall|i: int, j: int| 0 <= i < j < s.len() ==> s[i] < s[j]
}

/// Ranges are well formed and minimal: each runs upward, and two
/// neighbours always leave a hole between them, so none could be merged.
pub open spec fn ranges_minimal(rs: Seq<(u32, u32)>) -> bool {
    &&& forall|i: int| 0 <= i < rs.len() ==> (#[trigger] rs[i]).0 <= rs[i].1
    &&& forall|i: int| 0 <= i < rs.len() - 1 ==> (#[trigger] rs[i]).1 + 1 < rs[i + 1].0
}

/// Ghost model of the [`AcknowledgementTracker`].
#[verifier::ext_equal]
pub ghost struct AckTrackerModel {
    /// Sequence numbers received and not yet acknowledged to the peer.
    pub acks: Seq<u32>,
    /// Detected gaps not yet negatively acknowledged.
    pub nacks: Seq<u32>,
    /// One past the highest sequence number seen.
    pub next_expected: u64,
}

/// The acknowledgement state of one session.
pub struct AcknowledgementTracker {
    acks: Vec<u32>,
    nacks: Vec<u32>,
    next_expected: u64,
}

impl View for AcknowledgementTracker {
    type V = AckTrackerModel;

    closed spec fn view(&self) -> AckTrackerModel {
        AckTrackerModel { acks: self.acks@, nacks: self.nacks@, next_expected: self.next_expected }
    }
}

/// Inserts a number into a sorted-distinct list, keeping it sorted; a
/// number already present is left alone.
pub(crate) fn insert_sorted(v: &mut Vec<u32>, x: u32)
    requires
        nums_sorted(old(v)@),
    ensures
        nums_sorted(final(v)@),
        forall|y: u32| final(v)@.contains(y) <==> old(v)@.contains(y) || y == x,
{
    let mut i: usize = 0;
    while i < v.len() && v[i] < x
        invariant
            i <= v@.len(),
            nums_sorted(v@),
            v == old(v),
            forall|k: int| 0 <= k < i ==> v@[k] < x,
        decreases v@.len() - i,
    {
        i = i + 1;
    }
    if i < v.len() && v[i] == x {
        proof {
            assert(v@.contains(x));
        }
        return ;
    }
    v.insert(i, x);
    proof {
        assert(nums_sorted(v@)) by {
            assert(forall|k: int| 0 <= k < i ==> v@[k] == old(v)@[k]);
            assert(forall|k: int| i < k < v@.len() ==> v@[k] == old(v)@[k - 1]);
            assert(v@[i as int] == x);
            assert(forall|k: int| i <= k < old(v)@.len() ==> old(v)@[k] > x || old(v)@[k] == x);
            assert(forall|k: int| i <= k < old(v)@.len() ==> old(v)@[k] > x);
        }
        assert(forall|y: u32| final(v)@.contains(y) <==> old(v)@.contains(y) || y == x) by {
            assert forall|y: u32| old(v)@.contains(y) || y == x implies final(v)@.contains(y) by {
                if y == x {
                    assert(final(v)@[i as int] == x);
                } else {
                    let w = choose|w: int| 0 <= w < old(v)@.len() && old(v)@[w] == y;
                    if w < i {
                        assert(final(v)@[w] == y);
                    } else {
                        assert(final(v)@[w + 1] == y);
                    }
                }
            }
            assert forall|y: u32| final(v)@.contains(y) implies old(v)@.contains(y) || y == x by {
                let w = choose|w: int| 0 <= w < final(v)@.len() && final(v)@[w] == y;
                if w < i {
                    assert(old(v)@[w] == y);
                } else if w > i {
                    assert(old(v)@[w - 1] == y);
                }
            }
        }
    }
}

/// Removes a number from a sorted-distinct list, if present.
pub(crate) fn remove_sorted(v: &mut Vec<u32>, x: u32)
    requires
        nums_sorted(old(v)@),
    ensures
        nums_sorted(final(v)@),
        forall|y: u32| final(v)@.contains(y) <==> old(v)@.contains(y) && y != x,
{
    let mut i: usize = 0;
    while i < v.len()
        invariant
            i <= v@.len(),
            nums_sorted(v@),
            v == old(v),
            forall|k: int| 0 <= k < i ==> v@[k] != x,
        decreases v@.len() - i,
    {
        if v[i] == x {
            v.remove(i);
            proof {
                assert(nums_sorted(v@)) by {
                    assert(forall|k: int| 0 <= k < i ==> v@[k] == old(v)@[k]);
                    assert(forall|k: int| i <= k < v@.len() ==> v@[k] == old(v)@[k + 1]);
                }
                assert forall|y: u32| v@.contains(y) implies old(v)@.contains(y) && y != x by {
                    let w = choose|w: int| 0 <= w < v@.len() && v@[w] == y;
                    if w < i {
                        assert(old(v)@[w] == y);
                        assert(old(v)@[w] != old(v)@[i as int]);
                    } else {
                        assert(old(v)@[w + 1] == y);
                        assert(old(v)@[w + 1] != old(v)@[i as int]);
                    }
                }
                assert forall|y: u32| old(v)@.contains(y) && y != x implies v@.contains(y) by {
                    let w = choose|w: int| 0 <= w < old(v)@.len() && old(v)@[w] == y;
                    if w < i {
                        assert(v@[w] == y);
                    } else {
                        assert(w != i);
                        assert(v@[w - 1] == y);
                    }
                }
            }
            return ;
        }
        i = i + 1;
    }
    proof {
        assert forall|y: u32| v@.contains(y) implies old(v)@.contains(y) && y != x by {
            let w = choose|w: int| 0 <= w < v@.len() && v@[w] == y;
        }
    }
}

/// Appending a range extends the covered set by exactly that range.
proof fn lemma_covered_push(rs: Seq<(u32, u32)>, r: (u32, u32))
    ensures
        forall|x: u32|
            seq_covered(x, rs.push(r)) <==> seq_covered(x, rs) || (r.0 <= x && x <= r.1),
{
    assert forall|x: u32| seq_covered(x, rs.push(r)) implies seq_covered(x, rs) || (r.0 <= x && x
        <= r.1) by {
        let w = choose|w: int| 0 <= w < rs.push(r).len() && (#[trigger] rs.push(r)[w]).0 <= x
            <= rs.push(r)[w].1;
        if w < rs.len() {
            assert(rs[w] == rs.push(r)[w]);
        } else {
            assert(rs.push(r)[w] == r);
        }
    }
    assert forall|x: u32| seq_covered(x, rs) || (r.0 <= x && x <= r.1) implies seq_covered(
        x,
        rs.push(r),
    ) by {
        if seq_covered(x, rs) {
            let w = choose|w: int| 0 <= w < rs.len() && (#[trigger] rs[w]).0 <= x <= rs[w].1;
            assert(rs.push(r)[w] == rs[w]);
        } else {
            assert(rs.push(r)[rs.len() as int] == r);
        }
    }
}

/// The ranges emitted so far, together with the open range, cover
/// exactly the prefix of the list walked so far.
pub open spec fn cover_upto(rs: Seq<(u32, u32)>, start: u32, prev: u32, v: Seq<u32>, i: int) -> bool {
    forall|x: u32|
        #![trigger seq_covered(x, rs)]
        #![trigger v.subrange(0, i).contains(x)]
        (seq_covered(x, rs) || (start <= x && x <= prev)) <==> v.subrange(0, i).contains(x)
}

/// Compresses a sorted-distinct list of sequence numbers into minimal
/// contiguous inclusive ranges covering exactly its members.  Every
/// range endpoint is itself a member.
#[verifier::rlimit(100)]
#[verifier::spinoff_prover]
fn compress_ranges(v: &Vec<u32>) -> (r: Vec<(u32, u32)>)
    requires
        nums_sorted(v@),
    ensures
        ranges_minimal(r.deep_view()),
        forall|x: u32| seq_covered(x, r.deep_view()) <==> v@.contains(x),
        forall|i: int|
            0 <= i < r.deep_view().len() ==> v@.contains((#[trigger] r.deep_view()[i]).0)
                && v@.contains(r.deep_view()[i].1),
{
    let mut ranges: Vec<(u32, u32)> = Vec::new();
    if v.len() == 0 {
        proof {
            assert(ranges.deep_view() =~= Seq::<(u32, u32)>::empty());
            assert(forall|x: u32| !seq_covered(x, ranges.deep_view()));
            assert(forall|x: u32| !v@.contains(x));
        }
        return ranges;
    }
    let mut start: u32 = v[0];
    let mut prev: u32 = v[0];
    let mut i: usize = 1;
    proof {
        assert(ranges.deep_view() =~= Seq::<(u32, u32)>::empty());
        assert(forall|x: u32| !seq_covered(x, ranges.deep_view()));
        assert(cover_upto(ranges.deep_view(), start, prev, v@, 1)) by {
            assert forall|x: u32|
                #![trigger seq_covered(x, ranges.deep_view())]
                #![trigger v@.subrange(0, 1).contains(x)]
                (seq_covered(x, ranges.deep_view()) || (start <= x && x <= prev)) <==> v@.subrange(
                0,
                1,
            ).contains(x) by {
                assert(!seq_covered(x, ranges.deep_view()));
                if start <= x && x <= prev {
                    assert(v@.subrange(0, 1)[0] == x);
                }
                if v@.subrange(0, 1).contains(x) {
                    let w = choose|w: int| 0 <= w < 1 && v@.subrange(0, 1)[w] == x;
                    assert(v@.subrange(0, 1)[0] == v@[0]);
                }
            }
        }
    }
    while i < v.len()
        invariant
            1 <= i <= v@.len(),
            v@.len() >= 1,
            nums_sorted(v@),
            prev == v@[i - 1],
            start <= prev,
            v@.contains(start),
            v@.contains(prev),
            ranges_minimal(ranges.deep_view()),
            forall|k: int|
                0 <= k < ranges.deep_view().len() ==> (#[trigger] ranges.deep_view()[k]).1 + 1
                    < start,
            forall|k: int|
                0 <= k < ranges.deep_view().len() ==> v@.contains(
                    (#[trigger] ranges.deep_view()[k]).0,
                ) && v@.contains(ranges.deep_view()[k].1),
            cover_upto(ranges.deep_view(), start, prev, v@, i as int),
        decreases v@.len() - i,
    {
        let x = v[i];
        proof {
            assert(v@[i - 1] < v@[i as int]);
            assert(v@.contains(v@[i as int])) by {
                assert(exists|w: int| 0 <= w < v@.len() && v@[w] == v@[i as int]);
            }
        }
        let ghost rs0 = ranges.deep_view();
        let ghost start0 = start;
        let ghost prev0 = prev;
        let ghost sub0 = v@.subrange(0, i as int);
        if prev < u32::MAX && x == prev + 1 {
            prev = x;
        } else {
            ranges.push((start, prev));
            proof {
                assert(ranges.deep_view() =~= rs0.push((start0, prev0)));
                lemma_covered_push(rs0, (start0, prev0));
            }
            start = x;
            prev = x;
        }
        i = i + 1;
        proof {
            assert(v@.subrange(0, i as int) =~= sub0.push(v@[i - 1]));
            assert(cover_upto(ranges.deep_view(), start, prev, v@, i as int)) by {
                assert forall|x2: u32|
                    #![trigger seq_covered(x2, ranges.deep_view())]
                    #![trigger v@.subrange(0, i as int).contains(x2)]
                    (seq_covered(x2, ranges.deep_view()) || (start <= x2 && x2 <= prev))
                        <==> v@.subrange(0, i as int).contains(x2) by {
                    assert((sub0.push(v@[i - 1]).contains(x2)) <==> (sub0.contains(x2) || x2
                        == v@[i - 1])) by {
                        if sub0.push(v@[i - 1]).contains(x2) {
                            let w = choose|w: int|
                                0 <= w < sub0.push(v@[i - 1]).len() && #[trigger] sub0.push(
                                    v@[i - 1],
                                )[w] == x2;
                            if w < sub0.len() {
                                assert(sub0[w] == x2);
                            }
                        }
                        if sub0.contains(x2) {
                            let w = choose|w: int| 0 <= w < sub0.len() && #[trigger] sub0[w] == x2;
                            assert(sub0.push(v@[i - 1])[w] == x2);
                        }
                        if x2 == v@[i - 1] {
                            assert(sub0.push(v@[i - 1])[sub0.len() as int] == x2);
                        }
                    }
                    assert((seq_covered(x2, rs0) || (start0 <= x2 && x2 <= prev0)) <==> sub0.contains(
                        x2,
                    ));
                }
            }
        }
    }
    let ghost rs0 = ranges.deep_view();
    ranges.push((start, prev));
    proof {
        assert(ranges.deep_view() =~= rs0.push((start, prev)));
        lemma_covered_push(rs0, (start, prev));
        assert(v@.subrange(0, v@.len() as int) =~= v@);
        assert(cover_upto(rs0, start, prev, v@, v@.len() as int));
        assert forall|x: u32| seq_covered(x, ranges.deep_view()) <==> v@.contains(x) by {
            assert((seq_covered(x, rs0) || (start <= x && x <= prev)) <==> v@.subrange(
                0,
                v@.len() as int,
            ).contains(x));
            assert(v@.subrange(0, v@.len() as int).contains(x) <==> v@.contains(x));
            assert(seq_covered(x, ranges.deep_view()) <==> (seq_covered(x, rs0) || (start <= x
                && x <= prev)));
        }
        assert forall|k: int|
            0 <= k < ranges.deep_view().len() implies v@.contains(
            (#[trigger] ranges.deep_view()[k]).0,
        ) && v@.contains(ranges.deep_view()[k].1) by {
            if k < rs0.len() {
                assert(ranges.deep_view()[k] == rs0[k]);
            } else {
                assert(ranges.deep_view()[k] == (start, prev));
            }
        }
        assert(ranges_minimal(ranges.deep_view())) by {
            assert forall|k: int|
                0 <= k < ranges.deep_view().len() implies (#[trigger] ranges.deep_view()[k]).0
                    <= ranges.deep_view()[k].1 by {
                if k < rs0.len() {
                    assert(ranges.deep_view()[k] == rs0[k]);
                } else {
                    assert(ranges.deep_view()[k] == (start, prev));
                }
            }
            assert forall|k: int|
                0 <= k < ranges.deep_view().len() - 1 implies (#[trigger] ranges.deep_view()[
                k]).1 + 1 < ranges.deep_view()[k + 1].0 by {
                if k < rs0.len() - 1 {
                    assert(ranges.deep_view()[k] == rs0[k]);
                    assert(ranges.deep_view()[k + 1] == rs0[k + 1]);
                } else {
                    assert(ranges.deep_view()[k] == rs0[k]);
                    assert(ranges.deep_view()[k + 1] == (start, prev));
                }
            }
        }
    }
    ranges
}

impl AcknowledgementTracker {
    /// Both pending lists stay sorted and duplicate free, pending
    /// acknowledgements stay below the expected next number, and pending
    /// gaps lie below some already-received number.
    pub closed spec fn wf(self) -> bool {
        &&& nums_sorted(self@.acks)
        &&& nums_sorted(self@.nacks)
        &&& forall|y: u32| #[trigger] self@.acks.contains(y) ==> (y as u64) < self@.next_expected
        &&& forall|y: u32| #[trigger] self@.nacks.contains(y) ==> (y as u64) < self@.next_expected
    }

    /// A fresh tracker: nothing seen, nothing pending.
    pub fn new() -> (r: AcknowledgementTracker)
        ensures
            r.wf(),
            r@ == (AckTrackerModel {
                acks: Seq::<u32>::empty(),
                nacks: Seq::<u32>::empty(),
                next_expected: 0,
            }),
    {
        let r = AcknowledgementTracker { acks: Vec::new(), nacks: Vec::new(), next_expected: 0 };
        proof {
            assert(r@ =~= (AckTrackerModel {
                acks: Seq::<u32>::empty(),
                nacks: Seq::<u32>::empty(),
                next_expected: 0,
            }));
        }
        r
    }

    /// Marks a sequence number as received: it joins the pending
    /// acknowledgements, any gap it closes stops being a gap, and the
    /// numbers skipped on the way to it become gaps to report.
    #[verifier::rlimit(60)]
    #[verifier::spinoff_prover]
    pub fn on_received(&mut self, sequence_number: u32)
        requires
            old(self).wf(),
        ensures
            final(self).wf(),
            forall|y: u32|
                final(self)@.acks.contains(y) <==> old(self)@.acks.contains(y) || y
                    == sequence_number,
            (sequence_number as u64) >= old(self)@.next_expected ==> {
                &&& final(self)@.next_expected == sequence_number as u64 + 1
                &&& forall|y: u32|
                    final(self)@.nacks.contains(y) <==> old(self)@.nacks.contains(y) || (old(
                        self,
                    )@.next_expected <= y && (y as u64) < sequence_number as u64)
            },
            (sequence_number as u64) < old(self)@.next_expected ==> {
                &&& final(self)@.next_expected == old(self)@.next_expected
                &&& forall|y: u32|
                    final(self)@.nacks.contains(y) <==> old(self)@.nacks.contains(y) && y
                        != sequence_number
            },
    {
        if (sequence_number as u64) >= self.next_expected {
            let mut gap: u64 = self.next_expected;
            while gap < sequence_number as u64
                invariant
                    old(self)@.next_expected <= gap <= sequence_number as u64,
                    self.acks == old(self).acks,
                    self.next_expected == old(self).next_expected,
                    nums_sorted(self.nacks@),
                    forall|y: u32|
                        #[trigger] self.nacks@.contains(y) <==> old(self)@.nacks.contains(y) || (
                        old(self)@.next_expected <= y && (y as u64) < gap),
                    forall|y: u32| #[trigger] self.nacks@.contains(y) ==> (y as u64) < gap,
                decreases sequence_number as u64 - gap,
            {
                insert_sorted(&mut self.nacks, gap as u32);
                gap = gap + 1;
            }
            self.next_expected = sequence_number as u64 + 1;
            insert_sorted(&mut self.acks, sequence_number);
        } else {
            remove_sorted(&mut self.nacks, sequence_number);
            insert_sorted(&mut self.acks, sequence_number);
        }
    }

    /// Flushes the pending acknowledgements as minimal contiguous
    /// inclusive ranges; they are cleared and will not be re-sent unless
    /// re-triggered.
    pub fn build_ack_ranges(&mut self) -> (r: Vec<(u32, u32)>)
        requires
            old(self).wf(),
        ensures
            final(self).wf(),
            ranges_minimal(r.deep_view()),
            forall|x: u32| seq_covered(x, r.deep_view()) <==> old(self)@.acks.contains(x),
            forall|i: int|
                0 <= i < r.deep_view().len() ==> old(self)@.acks.contains(
                    (#[trigger] r.deep_view()[i]).0,
                ) && old(self)@.acks.contains(r.deep_view()[i].1),
            final(self)@.acks == Seq::<u32>::empty(),
            final(self)@.nacks == old(self)@.nacks,
            final(self)@.next_expected == old(self)@.next_expected,
    {
        let r = compress_ranges(&self.acks);
        self.acks = Vec::new();
        proof {
            assert(self@.acks =~= Seq::<u32>::empty());
        }
        r
    }

    /// Flushes the pending gaps as minimal contiguous inclusive ranges;
    /// they are cleared and will not be re-sent unless re-triggered.
    pub fn build_nack_ranges(&mut self) -> (r: Vec<(u32, u32)>)
        requires
            old(self).wf(),
        ensures
            final(self).wf(),
            ranges_minimal(r.deep_view()),
            forall|x: u32| seq_covered(x, r.deep_view()) <==> old(self)@.nacks.contains(x),
            forall|i: int|
                0 <= i < r.deep_view().len() ==> old(self)@.nacks.contains(
                    (#[trigger] r.deep_view()[i]).0,
                ) && old(self)@.nacks.contains(r.deep_view()[i].1),
            final(self)@.nacks == Seq::<u32>::empty(),
            final(self)@.acks == old(self)@.acks,
            final(self)@.next_expected == old(self)@.next_expected,
    {
        let r = compress_ranges(&self.nacks);
        self.nacks = Vec::new();
        proof {
            assert(self@.nacks =~= Seq::<u32>::empty());
        }
        r
    }
}

/// Bytes of one encoded range record: a single number, or a flagged
/// start and end pair.
pub open spec fn spec_encode_range(r: (u32, u32)) -> Seq<u8> {
    if r.0 == r.1 {
        seq![1u8] + crate::wire::u24_le_bytes(r.0)
    } else {
        seq![0u8] + crate::wire::u24_le_bytes(r.0) + crate::wire::u24_le_bytes(r.1)
    }
}

/// Bytes of a run of encoded range records.
pub open spec fn spec_encode_ranges(rs: Seq<(u32, u32)>) -> Seq<u8>
    decreases rs.len(),
{
    if rs.len() == 0 {
        Seq::<u8>::empty()
    } else {
        spec_encode_range(rs[0]) + spec_encode_ranges(rs.drop_first())
    }
}

/// Bytes of an encoded acknowledgement control packet: the packet id,
/// the number of records, then the records.
pub open spec fn spec_encode_ack_packet(id: u8, rs: Seq<(u32, u32)>) -> Seq<u8> {
    seq![id] + crate::wire::u16_le_bytes(rs.len() as u16) + spec_encode_ranges(rs)
}

/// All range bounds fit the 24-bit wire fields, and there are few enough
/// records for the 16-bit count.
pub open spec fn ranges_encodable(rs: Seq<(u32, u32)>) -> bool {
    &&& rs.len() <= 0xffff
    &&& forall|i: int|
        0 <= i < rs.len() ==> (#[trigger] rs[i]).0 < 0x1000000 && rs[i].1 < 0x1000000
}

/// Appending one encoded range record to a run.
proof fn lemma_encode_ranges_snoc(rs: Seq<(u32, u32)>, r: (u32, u32))
    ensures
        spec_encode_ranges(rs.push(r)) == spec_encode_ranges(rs) + spec_encode_range(r),
    decreases rs.len(),
{
    if rs.len() == 0 {
        assert(rs.push(r)[0] == r);
        assert(rs.push(r).drop_first() =~= Seq::<(u32, u32)>::empty());
        assert(spec_encode_ranges(Seq::<(u32, u32)>::empty()) == Seq::<u8>::empty());
        assert(spec_encode_ranges(rs.push(r)) =~= spec_encode_ranges(rs) + spec_encode_range(r));
    } else {
        assert(rs.push(r).drop_first() =~= rs.drop_first().push(r));
        lemma_encode_ranges_snoc(rs.drop_first(), r);
        assert(spec_encode_ranges(rs.push(r)) =~= spec_encode_ranges(rs) + spec_encode_range(r));
    }
}

/// Encodes an acknowledgement control packet, positive or negative
/// according to the packet id the caller passes.
pub fn encode_ack_packet(id: u8, ranges: &Vec<(u32, u32)>) -> (r: Vec<u8>)
    requires
        ranges_encodable(ranges.deep_view()),
    ensures
        r@ == spec_encode_ack_packet(id, ranges.deep_view()),
{
    let mut buf: Vec<u8> = Vec::new();
    put_u8(&mut buf, id);
    put_u16_le(&mut buf, ranges.len() as u16);
    let ghost header = buf@;
    proof {
        assert(header =~= seq![id] + crate::wire::u16_le_bytes(ranges.deep_view().len() as u16));
    }
    let mut i: usize = 0;
    while i < ranges.len()
        invariant
            i <= ranges@.len(),
            ranges_encodable(ranges.deep_view()),
            buf@ == header + spec_encode_ranges(ranges.deep_view().subrange(0, i as int)),
        decreases ranges@.len() - i,
    {
        let (lo, hi) = ranges[i];
        let ghost sub = ranges.deep_view().subrange(0, i as int);
        let ghost b0 = buf@;
        assert(ranges.deep_view()[i as int] == (lo, hi));
        if lo == hi {
            put_u8(&mut buf, 1);
            put_u24_le(&mut buf, lo);
            proof {
                assert(buf@ =~= b0 + spec_encode_range((lo, hi)));
            }
        } else {
            put_u8(&mut buf, 0);
            put_u24_le(&mut buf, lo);
            put_u24_le(&mut buf, hi);
            proof {
                assert(buf@ =~= b0 + spec_encode_range((lo, hi)));
            }
        }
        i = i + 1;
        proof {
            lemma_encode_ranges_snoc(sub, (lo, hi));
            assert(ranges.deep_view().subrange(0, i as int) =~= sub.push((lo, hi)));
        }
    }
    proof {
        assert(ranges.deep_view().subrange(0, ranges.deep_view().len() as int) =~= ranges.deep_view());
    }
    buf
}

/// Decodes one range record at `i`: a single-number flag, a start, and
/// an end when the flag is clear.
pub open spec fn spec_decode_range(d: Seq<u8>, i: int) -> Option<((u32, u32), int)> {
    match crate::wire::spec_read_u8(d, i) {
        None => None,
        Some((single, i1)) => match spec_read_u24_le_at(d, i1) {
            None => None,
            Some((lo, i2)) => if single != 0 {
                Some(((lo, lo), i2))
            } else {
                match spec_read_u24_le_at(d, i2) {
                    None => None,
                    Some((hi, i3)) => Some(((lo, hi), i3)),
                }
            },
        },
    }
}

/// A shorthand for the wire-level 24-bit read.
pub open spec fn spec_read_u24_le_at(d: Seq<u8>, i: int) -> Option<(u32, int)> {
    crate::wire::spec_read_u24_le(d, i)
}

/// Decodes `n` range records back to back.
pub open spec fn spec_decode_ranges(d: Seq<u8>, i: int, n: int) -> Option<(Seq<(u32, u32)>, int)>
    decreases n,
{
    if n <= 0 {
        Some((Seq::<(u32, u32)>::empty(), i))
    } else {
        match spec_decode_range(d, i) {
            None => None,
            Some((r, j)) => match spec_decode_ranges(d, j, n - 1) {
                None => None,
                Some((rs, e)) => Some((seq![r] + rs, e)),
            },
        }
    }
}

/// Decodes the body of an acknowledgement control packet after its id
/// byte: the record count, then that many records.
pub open spec fn spec_decode_ack_body(d: Seq<u8>, i: int) -> Option<Seq<(u32, u32)>> {
    match crate::wire::spec_read_u16_le(d, i) {
        None => None,
        Some((count, j)) => match spec_decode_ranges(d, j, count as int) {
            None => None,
            Some((rs, _e)) => Some(rs),
        },
    }
}

/// Decodes the body of an acknowledgement control packet, after its id
/// byte, exactly as the specification decoder does.
pub fn decode_ack_ranges(d: &[u8], pos: &mut usize) -> (r: Option<Vec<(u32, u32)>>)
    ensures
        match spec_decode_ack_body(d@, *old(pos) as int) {
            Some(rs) => r is Some && r.unwrap().deep_view() == rs && rs.len() <= 0xffff,
            None => r is None,
        },
{
    let count = match read_u16_le(d, pos) {
        Some(v) => v,
        None => {
            return None;
        },
    };
    let mut out: Vec<(u32, u32)> = Vec::new();
    let mut i: usize = 0;
    proof {
        assert(out.deep_view() =~= Seq::<(u32, u32)>::empty());
    }
    while i < count as usize
        invariant
            i <= count as usize,
            match spec_decode_ranges(d@, (*pos) as int, count as int - i) {
                Some((rs, e)) => spec_decode_ranges(d@, range_records_start(d@, *old(pos) as int), count as int)
                    == Some::<(Seq<(u32, u32)>, int)>((out.deep_view() + rs, e)),
                None => spec_decode_ranges(d@, range_records_start(d@, *old(pos) as int), count as int)
                    is None,
            },
            crate::wire::spec_read_u16_le(d@, *old(pos) as int) == Some(
                (count, range_records_start(d@, *old(pos) as int)),
            ),
            out.deep_view().len() == i,
        decreases count as usize - i,
    {
        let ghost prev = (*pos) as int;
        let ghost acc0 = out.deep_view();
        let single = match read_u8(d, pos) {
            Some(v) => v,
            None => {
                return None;
            },
        };
        let lo = match read_u24_le(d, pos) {
            Some(v) => v,
            None => {
                return None;
            },
        };
        let hi = if single != 0 {
            lo
        } else {
            match read_u24_le(d, pos) {
                Some(v) => v,
                None => {
                    return None;
                },
            }
        };
        out.push((lo, hi));
        i = i + 1;
        proof {
            assert(spec_decode_range(d@, prev) == Some::<((u32, u32), int)>(
                ((lo, hi), (*pos) as int),
            ));
            assert(out.deep_view() =~= acc0.push((lo, hi)));
            if spec_decode_ranges(d@, (*pos) as int, count as int - i) is Some {
                let rs = spec_decode_ranges(d@, (*pos) as int, count as int - i).unwrap().0;
                assert((acc0 + (seq![(lo, hi)] + rs)) =~= (acc0.push((lo, hi)) + rs));
            }
        }
    }
    proof {
        assert(spec_decode_ranges(d@, (*pos) as int, 0) == Some::<(Seq<(u32, u32)>, int)>(
            (Seq::<(u32, u32)>::empty(), (*pos) as int),
        ));
        assert(out.deep_view() + Seq::<(u32, u32)>::empty() =~= out.deep_view());
    }
    Some(out)
}

/// Position of the first range record, after the record count.
pub open spec fn range_records_start(d: Seq<u8>, i: int) -> int {
    i + 2
}

} // verus!
