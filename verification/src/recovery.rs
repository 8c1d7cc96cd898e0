//! Retransmission bookkeeping for reliable sends.
//!
//! Every reliable datagram sent is recorded under its batch sequence
//! number until the peer acknowledges it.  An acknowledged entry leaves
//! the queue; an entry that outlives the retransmit timeout, or that the
//! peer negatively acknowledges, is handed back to the caller to be sent
//! again under a fresh sequence number — sequence numbers are never
//! reused, the frames' reliable indices alone drive deduplication.

use vstd::prelude::*;

verus! {

/// Ghost model of one recorded datagram.
#[verifier::ext_equal]
pub ghost struct RecoveryEntryModel {
    pub sequence_number: u32,
    pub bytes: Seq<u8>,
    pub send_time: u64,
}

/// One recorded datagram: its sequence number, its encoded bytes and the
/// time it was last sent.
pub struct RecoveryEntry {
    pub sequence_number: u32,
    pub bytes: Vec<u8>,
    pub send_time: u64,
}

impl View for RecoveryEntry {
    type V = RecoveryEntryModel;

    open spec fn view(&self) -> RecoveryEntryModel {
        RecoveryEntryModel {
            sequence_number: self.sequence_number,
            bytes: self.bytes@,
            send_time: self.send_time,
        }
    }
}

impl DeepView for RecoveryEntry {
    type V = RecoveryEntryModel;

    open spec fn deep_view(&self) -> RecoveryEntryModel {
        self.view()
    }
}

/// An entry has expired at `now` when its age exceeds the timeout.
pub open spec fn entry_expired(e: RecoveryEntryModel, now: u64, timeout: u64) -> bool {
    now > e.send_time && now - e.send_time > timeout
}

/// A sequence number is covered by a list of inclusive ranges.
pub open spec fn seq_covered(s: u32, ranges: Seq<(u32, u32)>) -> bool {
    exists|i: int| 0 <= i < ranges.len() && (#[trigger] ranges[i]).0 <= s <= ranges[i].1
}

/// Entry sequence numbers strictly increase along the record order.
pub open spec fn entries_sorted(entries: Seq<RecoveryEntryModel>) -> bool {
    forall|i: int, j: int|
        0 <= i < j < entries.len() ==> (#[trigger] entries[i]).sequence_number < (
        #[trigger] entries[j]).sequence_number
}

/// The queue holds an entry for a sequence number.
pub open spec fn holds_seq(entries: Seq<RecoveryEntryModel>, s: u32) -> bool {
    exists|i: int| 0 <= i < entries.len() && (#[trigger] entries[i]).sequence_number == s
}

/// Ghost model of the [`RecoveryQueue`]: the recorded entries in record
/// order, and the retransmit timeout.
#[verifier::ext_equal]
pub ghost struct RecoveryQueueModel {
    pub entries: Seq<RecoveryEntryModel>,
    pub timeout: u64,
}

/// The retransmission queue of one session.
pub struct RecoveryQueue {
    entries: Vec<RecoveryEntry>,
    timeout: u64,
}

impl View for RecoveryQueue {
    type V = RecoveryQueueModel;

    closed spec fn view(&self) -> RecoveryQueueModel {
        RecoveryQueueModel { entries: self.entries.deep_view(), timeout: self.timeout }
    }
}

/// Splitting off the last element of a filtered sequence.
proof fn lemma_filter_push<A>(s: Seq<A>, x: A, pred: spec_fn(A) -> bool)
    ensures
        s.push(x).filter(pred) == if pred(x) {
            s.filter(pred).push(x)
        } else {
            s.filter(pred)
        },
{
    reveal(Seq::filter);
    assert(s.push(x).drop_last() =~= s);
    assert(s.push(x).last() == x);
}

impl RecoveryQueue {
    /// Sequence numbers are recorded in strictly increasing order: they
    /// are assigned monotonically and never reused, so no two entries
    /// can share one.
    pub open spec fn wf(self) -> bool {
        entries_sorted(self@.entries)
    }

    /// An empty queue with the given retransmit timeout.
    pub fn new(timeout: u64) -> (r: RecoveryQueue)
        ensures
            r.wf(),
            r@ == (RecoveryQueueModel { entries: Seq::<RecoveryEntryModel>::empty(), timeout }),
    {
        let r = RecoveryQueue { entries: Vec::new(), timeout };
        proof {
            assert(r@.entries =~= Seq::<RecoveryEntryModel>::empty());
            assert(r@ =~= (RecoveryQueueModel {
                entries: Seq::<RecoveryEntryModel>::empty(),
                timeout,
            }));
        }
        r
    }

    /// Number of entries still recorded.
    pub fn len(&self) -> (r: usize)
        ensures
            r == self@.entries.len(),
    {
        self.entries.len()
    }

    /// Whether a sequence number is still recorded.
    pub fn contains(&self, sequence_number: u32) -> (r: bool)
        ensures
            r == holds_seq(self@.entries, sequence_number),
    {
        let mut i: usize = 0;
        while i < self.entries.len()
            invariant
                i <= self@.entries.len(),
                self@.entries.len() == self.entries@.len(),
                forall|k: int|
                    0 <= k < i ==> (#[trigger] self@.entries[k]).sequence_number
                        != sequence_number,
            decreases self@.entries.len() - i,
        {
            if self.entries[i].sequence_number == sequence_number {
                assert(self@.entries[i as int].sequence_number == sequence_number);
                return true;
            }
            i = i + 1;
        }
        false
    }

    /// Records a datagram sent at `now`.  The sequence number must be
    /// fresh: numbers are assigned monotonically and never reused, so it
    /// lies above every number already recorded.
    pub fn record(&mut self, sequence_number: u32, bytes: Vec<u8>, now: u64)
        requires
            old(self).wf(),
            forall|i: int|
                0 <= i < old(self)@.entries.len() ==> (#[trigger] old(
                    self,
                )@.entries[i]).sequence_number < sequence_number,
        ensures
            final(self).wf(),
            final(self)@.timeout == old(self)@.timeout,
            final(self)@.entries == old(self)@.entries.push(
                RecoveryEntryModel { sequence_number, bytes: bytes@, send_time: now },
            ),
    {
        let ghost e = RecoveryEntryModel { sequence_number, bytes: bytes@, send_time: now };
        self.entries.push(RecoveryEntry { sequence_number, bytes, send_time: now });
        proof {
            assert(self@.entries =~= old(self)@.entries.push(e));
        }
    }

    /// Drops the entry a received acknowledgement covers, if it is still
    /// recorded.
    pub fn acknowledge(&mut self, sequence_number: u32)
        requires
            old(self).wf(),
        ensures
            final(self).wf(),
            final(self)@.timeout == old(self)@.timeout,
            final(self)@.entries == old(self)@.entries.filter(
                |e: RecoveryEntryModel| e.sequence_number != sequence_number,
            ),
    {
        let ghost pred = |e: RecoveryEntryModel| e.sequence_number != sequence_number;
        let mut kept: Vec<RecoveryEntry> = Vec::new();
        let mut i: usize = 0;
        proof {
            assert(old(self)@.entries.subrange(0, 0).filter(pred) =~= Seq::<
                RecoveryEntryModel,
            >::empty());
            assert(kept.deep_view() =~= Seq::<RecoveryEntryModel>::empty());
        }
        while i < self.entries.len()
            invariant
                i <= self.entries@.len(),
                self == old(self),
                pred == (|e: RecoveryEntryModel| e.sequence_number != sequence_number),
                kept.deep_view() == old(self)@.entries.subrange(0, i as int).filter(pred),
            decreases self.entries@.len() - i,
        {
            let ghost sub = old(self)@.entries.subrange(0, i as int);
            let ghost kd = kept.deep_view();
            let keep = self.entries[i].sequence_number != sequence_number;
            if keep {
                let e = self.entries[i].clone_entry();
                kept.push(e);
                proof {
                    assert(kept.deep_view() =~= kd.push(self@.entries[i as int]));
                }
            }
            i = i + 1;
            proof {
                lemma_filter_push(sub, old(self)@.entries[i - 1], pred);
                assert(old(self)@.entries.subrange(0, i as int) =~= sub.push(
                    old(self)@.entries[i - 1],
                ));
            }
        }
        proof {
            assert(old(self)@.entries.subrange(0, old(self)@.entries.len() as int) =~= old(
                self,
            )@.entries);
        }
        self.entries = kept;
        proof {
            lemma_filter_sorted(old(self)@.entries, pred);
        }
    }

    /// Removes and returns the bytes of every entry whose age at `now`
    /// exceeds the timeout.  Each expired datagram comes back exactly
    /// once, in record order, and is gone from the queue afterwards; the
    /// rest of the queue is untouched.
    pub fn collect_expired(&mut self, now: u64) -> (r: Vec<Vec<u8>>)
        requires
            old(self).wf(),
        ensures
            final(self).wf(),
            final(self)@.timeout == old(self)@.timeout,
            final(self)@.entries == old(self)@.entries.filter(
                |e: RecoveryEntryModel| !entry_expired(e, now, old(self)@.timeout),
            ),
            r.deep_view() == old(self)@.entries.filter(
                |e: RecoveryEntryModel| entry_expired(e, now, old(self)@.timeout),
            ).map_values(|e: RecoveryEntryModel| e.bytes),
    {
        let ghost t = self@.timeout;
        let ghost keep_pred = |e: RecoveryEntryModel| !entry_expired(e, now, t);
        let ghost take_pred = |e: RecoveryEntryModel| entry_expired(e, now, t);
        let mut kept: Vec<RecoveryEntry> = Vec::new();
        let mut taken: Vec<Vec<u8>> = Vec::new();
        let mut i: usize = 0;
        proof {
            assert(kept.deep_view() =~= old(self)@.entries.subrange(0, 0).filter(keep_pred));
            assert(taken.deep_view() =~~= old(self)@.entries.subrange(0, 0).filter(
                take_pred,
            ).map_values(|e: RecoveryEntryModel| e.bytes));
        }
        while i < self.entries.len()
            invariant
                i <= self.entries@.len(),
                self == old(self),
                t == old(self)@.timeout,
                keep_pred == (|e: RecoveryEntryModel| !entry_expired(e, now, t)),
                take_pred == (|e: RecoveryEntryModel| entry_expired(e, now, t)),
                kept.deep_view() == old(self)@.entries.subrange(0, i as int).filter(keep_pred),
                taken.deep_view() == old(self)@.entries.subrange(0, i as int).filter(
                    take_pred,
                ).map_values(|e: RecoveryEntryModel| e.bytes),
            decreases self.entries@.len() - i,
        {
            let ghost sub = old(self)@.entries.subrange(0, i as int);
            let ghost kd = kept.deep_view();
            let ghost td = taken.deep_view();
            let e = &self.entries[i];
            let expired = now > e.send_time && now - e.send_time > self.timeout;
            if expired {
                let b = clone_bytes(&self.entries[i].bytes);
                taken.push(b);
                proof {
                    assert(taken.deep_view() =~~= td.push(self@.entries[i as int].bytes));
                }
            } else {
                let ke = self.entries[i].clone_entry();
                kept.push(ke);
                proof {
                    assert(kept.deep_view() =~= kd.push(self@.entries[i as int]));
                }
            }
            i = i + 1;
            proof {
                lemma_filter_push(sub, old(self)@.entries[i - 1], keep_pred);
                lemma_filter_push(sub, old(self)@.entries[i - 1], take_pred);
                assert(old(self)@.entries.subrange(0, i as int) =~= sub.push(
                    old(self)@.entries[i - 1],
                ));
                assert(sub.push(old(self)@.entries[i - 1]).filter(take_pred).map_values(
                    |e: RecoveryEntryModel| e.bytes,
                ) =~= if take_pred(old(self)@.entries[i - 1]) {
                    sub.filter(take_pred).map_values(|e: RecoveryEntryModel| e.bytes).push(
                        old(self)@.entries[i - 1].bytes,
                    )
                } else {
                    sub.filter(take_pred).map_values(|e: RecoveryEntryModel| e.bytes)
                });
            }
        }
        proof {
            assert(old(self)@.entries.subrange(0, old(self)@.entries.len() as int) =~= old(
                self,
            )@.entries);
        }
        self.entries = kept;
        proof {
            lemma_filter_sorted(old(self)@.entries, keep_pred);
        }
        taken
    }

    /// Drops every entry covered by the received acknowledgement ranges.
    pub fn apply_incoming_ack(&mut self, ranges: &Vec<(u32, u32)>)
        requires
            old(self).wf(),
        ensures
            final(self).wf(),
            final(self)@.timeout == old(self)@.timeout,
            final(self)@.entries == old(self)@.entries.filter(
                |e: RecoveryEntryModel| !seq_covered(e.sequence_number, ranges.deep_view()),
            ),
    {
        let ghost rs = ranges.deep_view();
        let ghost pred = |e: RecoveryEntryModel| !seq_covered(e.sequence_number, rs);
        let mut kept: Vec<RecoveryEntry> = Vec::new();
        let mut i: usize = 0;
        proof {
            assert(kept.deep_view() =~= old(self)@.entries.subrange(0, 0).filter(pred));
        }
        while i < self.entries.len()
            invariant
                i <= self.entries@.len(),
                self == old(self),
                rs == ranges.deep_view(),
                pred == (|e: RecoveryEntryModel| !seq_covered(e.sequence_number, rs)),
                kept.deep_view() == old(self)@.entries.subrange(0, i as int).filter(pred),
            decreases self.entries@.len() - i,
        {
            let ghost sub = old(self)@.entries.subrange(0, i as int);
            let ghost kd = kept.deep_view();
            let covered = ranges_cover(ranges, self.entries[i].sequence_number);
            if !covered {
                let e = self.entries[i].clone_entry();
                kept.push(e);
                proof {
                    assert(kept.deep_view() =~= kd.push(self@.entries[i as int]));
                }
            }
            i = i + 1;
            proof {
                lemma_filter_push(sub, old(self)@.entries[i - 1], pred);
                assert(old(self)@.entries.subrange(0, i as int) =~= sub.push(
                    old(self)@.entries[i - 1],
                ));
            }
        }
        proof {
            assert(old(self)@.entries.subrange(0, old(self)@.entries.len() as int) =~= old(
                self,
            )@.entries);
        }
        self.entries = kept;
        proof {
            lemma_filter_sorted(old(self)@.entries, pred);
        }
    }

    /// Removes and returns the bytes of every entry covered by the
    /// received negative-acknowledgement ranges, for immediate resend
    /// under fresh sequence numbers, regardless of age.
    pub fn apply_incoming_nack(&mut self, ranges: &Vec<(u32, u32)>) -> (r: Vec<Vec<u8>>)
        requires
            old(self).wf(),
        ensures
            final(self).wf(),
            final(self)@.timeout == old(self)@.timeout,
            final(self)@.entries == old(self)@.entries.filter(
                |e: RecoveryEntryModel| !seq_covered(e.sequence_number, ranges.deep_view()),
            ),
            r.deep_view() == old(self)@.entries.filter(
                |e: RecoveryEntryModel| seq_covered(e.sequence_number, ranges.deep_view()),
            ).map_values(|e: RecoveryEntryModel| e.bytes),
    {
        let ghost rs = ranges.deep_view();
        let ghost keep_pred = |e: RecoveryEntryModel| !seq_covered(e.sequence_number, rs);
        let ghost take_pred = |e: RecoveryEntryModel| seq_covered(e.sequence_number, rs);
        let mut kept: Vec<RecoveryEntry> = Vec::new();
        let mut taken: Vec<Vec<u8>> = Vec::new();
        let mut i: usize = 0;
        proof {
            assert(kept.deep_view() =~= old(self)@.entries.subrange(0, 0).filter(keep_pred));
            assert(taken.deep_view() =~~= old(self)@.entries.subrange(0, 0).filter(
                take_pred,
            ).map_values(|e: RecoveryEntryModel| e.bytes));
        }
        while i < self.entries.len()
            invariant
                i <= self.entries@.len(),
                self == old(self),
                rs == ranges.deep_view(),
                keep_pred == (|e: RecoveryEntryModel| !seq_covered(e.sequence_number, rs)),
                take_pred == (|e: RecoveryEntryModel| seq_covered(e.sequence_number, rs)),
                kept.deep_view() == old(self)@.entries.subrange(0, i as int).filter(keep_pred),
                taken.deep_view() == old(self)@.entries.subrange(0, i as int).filter(
                    take_pred,
                ).map_values(|e: RecoveryEntryModel| e.bytes),
            decreases self.entries@.len() - i,
        {
            let ghost sub = old(self)@.entries.subrange(0, i as int);
            let ghost kd = kept.deep_view();
            let ghost td = taken.deep_view();
            let covered = ranges_cover(ranges, self.entries[i].sequence_number);
            if covered {
                let b = clone_bytes(&self.entries[i].bytes);
                taken.push(b);
                proof {
                    assert(taken.deep_view() =~~= td.push(self@.entries[i as int].bytes));
                }
            } else {
                let e = self.entries[i].clone_entry();
                kept.push(e);
                proof {
                    assert(kept.deep_view() =~= kd.push(self@.entries[i as int]));
                }
            }
            i = i + 1;
            proof {
                lemma_filter_push(sub, old(self)@.entries[i - 1], keep_pred);
                lemma_filter_push(sub, old(self)@.entries[i - 1], take_pred);
                assert(old(self)@.entries.subrange(0, i as int) =~= sub.push(
                    old(self)@.entries[i - 1],
                ));
                assert(sub.push(old(self)@.entries[i - 1]).filter(take_pred).map_values(
                    |e: RecoveryEntryModel| e.bytes,
                ) =~= if take_pred(old(self)@.entries[i - 1]) {
                    sub.filter(take_pred).map_values(|e: RecoveryEntryModel| e.bytes).push(
                        old(self)@.entries[i - 1].bytes,
                    )
                } else {
                    sub.filter(take_pred).map_values(|e: RecoveryEntryModel| e.bytes)
                });
            }
        }
        proof {
            assert(old(self)@.entries.subrange(0, old(self)@.entries.len() as int) =~= old(
                self,
            )@.entries);
        }
        self.entries = kept;
        proof {
            lemma_filter_sorted(old(self)@.entries, keep_pred);
        }
        taken
    }
}

impl RecoveryEntry {
    /// A copy whose model equals this entry's.
    fn clone_entry(&self) -> (r: RecoveryEntry)
        ensures
            r@ == self@,
    {
        RecoveryEntry {
            sequence_number: self.sequence_number,
            bytes: clone_bytes(&self.bytes),
            send_time: self.send_time,
        }
    }
}

/// A byte-for-byte copy of a buffer.
pub fn clone_bytes(b: &Vec<u8>) -> (r: Vec<u8>)
    ensures
        r@ == b@,
{
    let mut r: Vec<u8> = Vec::new();
    let mut i: usize = 0;
    while i < b.len()
        invariant
            i <= b@.len(),
            r@ == b@.subrange(0, i as int),
        decreases b@.len() - i,
    {
        r.push(b[i]);
        i = i + 1;
        assert(r@ =~= b@.subrange(0, i as int));
    }
    assert(r@ =~= b@);
    r
}

/// Whether any of the inclusive ranges covers a sequence number.
pub fn ranges_cover(ranges: &Vec<(u32, u32)>, s: u32) -> (r: bool)
    ensures
        r == seq_covered(s, ranges.deep_view()),
{
    let mut i: usize = 0;
    while i < ranges.len()
        invariant
            i <= ranges@.len(),
            forall|k: int|
                0 <= k < i ==> !((#[trigger] ranges.deep_view()[k]).0 <= s
                    <= ranges.deep_view()[k].1),
        decreases ranges@.len() - i,
    {
        let (lo, hi) = ranges[i];
        if lo <= s && s <= hi {
            assert(ranges.deep_view()[i as int].0 <= s <= ranges.deep_view()[i as int].1);
            return true;
        }
        assert(ranges.deep_view()[i as int] == (lo, hi));
        i = i + 1;
    }
    false
}

/// Every element of a filtered sequence occurs in the sequence it was
/// filtered from.
pub proof fn lemma_filter_subset<A>(s: Seq<A>, pred: spec_fn(A) -> bool)
    ensures
        forall|i: int| 0 <= i < s.filter(pred).len() ==> s.contains(#[trigger] s.filter(pred)[i]),
    decreases s.len(),
{
    reveal(Seq::filter);
    if s.len() > 0 {
        let d = s.drop_last();
        lemma_filter_subset(d, pred);
        assert forall|i: int| 0 <= i < s.filter(pred).len() implies s.contains(
            #[trigger] s.filter(pred)[i],
        ) by {
            if pred(s.last()) && i == s.filter(pred).len() - 1 {
                assert(s.filter(pred)[i] == s.last());
                assert(s[s.len() - 1] == s.last());
            } else {
                assert(s.filter(pred)[i] == d.filter(pred)[i]);
                assert(d.contains(d.filter(pred)[i]));
                let w = choose|w: int| 0 <= w < d.len() && d[w] == d.filter(pred)[i];
                assert(s[w] == d[w]);
            }
        }
    }
}

/// Filtering keeps the record order, so it keeps the sequence numbers
/// strictly increasing.
proof fn lemma_filter_sorted(s: Seq<RecoveryEntryModel>, pred: spec_fn(RecoveryEntryModel) -> bool)
    requires
        entries_sorted(s),
    ensures
        entries_sorted(s.filter(pred)),
    decreases s.len(),
{
    reveal(Seq::filter);
    if s.len() > 0 {
        let d = s.drop_last();
        assert(entries_sorted(d)) by {
            assert(forall|i: int| 0 <= i < d.len() ==> d[i] == s[i]);
        }
        lemma_filter_sorted(d, pred);
        lemma_filter_subset(d, pred);
        if pred(s.last()) {
            assert(s.filter(pred) == d.filter(pred).push(s.last()));
            assert forall|i: int, j: int|
                0 <= i < j < s.filter(pred).len() implies (#[trigger] s.filter(
                pred,
            )[i]).sequence_number < (#[trigger] s.filter(pred)[j]).sequence_number by {
                if j < s.filter(pred).len() - 1 {
                    assert(s.filter(pred)[i] == d.filter(pred)[i]);
                    assert(s.filter(pred)[j] == d.filter(pred)[j]);
                } else {
                    assert(s.filter(pred)[j] == s.last());
                    assert(s.filter(pred)[i] == d.filter(pred)[i]);
                    assert(d.contains(d.filter(pred)[i]));
                    let w = choose|w: int| 0 <= w < d.len() && d[w] == d.filter(pred)[i];
                    assert(s[w] == d[w]);
                    assert(s[w].sequence_number < s[s.len() - 1].sequence_number);
                }
            }
        } else {
            assert(s.filter(pred) == d.filter(pred));
        }
    }
}

/// An entry that has expired is among what `collect_expired` returns —
/// at exactly one position, entries being distinct — and is absent from
/// the queue it leaves behind; an entry still inside its timeout stays
/// and is never returned.
pub proof fn lemma_expiry_exactly_once(
    entries: Seq<RecoveryEntryModel>,
    i: int,
    now: u64,
    timeout: u64,
)
    requires
        entries_sorted(entries),
        0 <= i < entries.len(),
    ensures
        entry_expired(entries[i], now, timeout) ==> entries.filter(
            |e: RecoveryEntryModel| entry_expired(e, now, timeout),
        ).contains(entries[i]) && !entries.filter(
            |e: RecoveryEntryModel| !entry_expired(e, now, timeout),
        ).contains(entries[i]),
        !entry_expired(entries[i], now, timeout) ==> entries.filter(
            |e: RecoveryEntryModel| !entry_expired(e, now, timeout),
        ).contains(entries[i]) && !entries.filter(
            |e: RecoveryEntryModel| entry_expired(e, now, timeout),
        ).contains(entries[i]),
        entries_sorted(entries.filter(|e: RecoveryEntryModel| entry_expired(e, now, timeout))),
{
    let expired = |e: RecoveryEntryModel| entry_expired(e, now, timeout);
    let kept = |e: RecoveryEntryModel| !entry_expired(e, now, timeout);
    broadcast use vstd::seq_lib::group_filter_ensures;

    lemma_filter_sorted(entries, expired);
    if entry_expired(entries[i], now, timeout) {
        assert(entries.filter(expired).contains(entries[i]));
        if entries.filter(kept).contains(entries[i]) {
            let w = choose|w: int|
                0 <= w < entries.filter(kept).len() && entries.filter(kept)[w] == entries[i];
            assert(kept(entries.filter(kept)[w]));
            assert(false);
        }
    } else {
        assert(entries.filter(kept).contains(entries[i]));
        if entries.filter(expired).contains(entries[i]) {
            let w = choose|w: int|
                0 <= w < entries.filter(expired).len() && entries.filter(expired)[w] == entries[i];
            assert(expired(entries.filter(expired)[w]));
            assert(false);
        }
    }
}

} // verus!
