//! Per-peer session: the state machine and the per-tick cycle that tie
//! the reliability pieces together.
//!
//! A session owns its ordering channels, compound collector, recovery
//! queue, send queue and acknowledgement tracker.  The receive path
//! decodes a datagram, records its sequence number for acknowledgement,
//! reassembles and reorders its frames and hands completed payloads
//! upward.  The tick path retransmits what expired, drains the send
//! queue into MTU-sized datagrams, and flushes pending ACK and NACK
//! ranges.  All socket and timer plumbing stays outside: time comes in
//! as an argument and datagrams leave as plain byte vectors.

use vstd::prelude::*;

use crate::codec::{
    decode_batch, encode_batch, spec_batch_size, spec_decode_batch, spec_encode_batch,
    spec_frame_size,
};
use crate::compound::CompoundCollector;
use crate::frame::{
    batch_valid, frame_valid, DecodeError, Frame, FrameBatch, FrameBatchModel, FrameModel,
    Reliability, CONNECTED_PEER_BIT_FLAG, MAX_FRAME_PAYLOAD,
};
use crate::order_channel::{OrderChannel, OrderChannelModel};
use crate::recovery::RecoveryQueue;
use crate::send_queue::{batches_frames, SendQueue};
use crate::tracker::{encode_ack_packet, AcknowledgementTracker};
use crate::wire::{put_u24_le, put_u8, u24_le_bytes};

verus! {

/// Number of ordering channels per session.
pub const ORDER_CHANNEL_COUNT: u8 = 16;

/// Wire id of a positive acknowledgement control packet.
pub const ACK_PACKET_ID: u8 = 0xc0;

/// Wire id of a negative acknowledgement control packet.
pub const NACK_PACKET_ID: u8 = 0xa0;

/// Smallest MTU a session accepts; leaves room for a batch header and a
/// full frame header next to some payload.
pub const MIN_MTU: u16 = 64;

/// Lifecycle of a session.
#[derive(Debug, Copy, Clone, PartialEq, Eq, Structural)]
pub enum SessionState {
    /// Created, waiting for the handshake to finish.
    Connecting,
    /// Exchanging traffic.
    Active,
    /// Shutting down; the next tick flushes what is pending.
    Disconnecting,
    /// Flushed and finished.
    Closed,
}

/// Operational tuning constants of a session; deployment inputs, not
/// protocol constants.
#[derive(Debug, Copy, Clone)]
pub struct SessionConfig {
    /// Age beyond which an unacknowledged datagram is resent.
    pub retransmit_timeout: u64,
    /// Age beyond which an incomplete compound group is evicted.
    pub compound_max_age: u64,
    /// Inactivity window after which the session is force-closed.
    pub session_timeout: u64,
}

/// Raw bytes received straight off the socket, with the sender's
/// address.
#[derive(Debug, Clone, PartialEq, Eq)]
pub struct BufPacket {
    /// Data contained in the packet.
    pub buf: Vec<u8>,
    /// Address of the sender or recipient.
    pub addr: crate::packets::control::Addr,
}

impl BufPacket {
    /// Whether the datagram is an unconnected control packet rather
    /// than a framed one: its first byte lacks the connected-peer bit.
    /// An empty datagram counts as neither.
    pub fn is_unconnected(&self) -> (r: bool)
        ensures
            r == (self.buf@.len() > 0 && self.buf@[0] & CONNECTED_PEER_BIT_FLAG == 0),
    {
        if self.buf.len() == 0 {
            false
        } else {
            self.buf[0] & CONNECTED_PEER_BIT_FLAG == 0
        }
    }

    /// The first byte of the packet: for an unconnected packet its id,
    /// for a framed one a value with the connected-peer bit set.
    pub fn packet_id(&self) -> (r: Option<u8>)
        ensures
            r == (if self.buf@.len() > 0 {
                Some(self.buf@[0])
            } else {
                Option::<u8>::None
            }),
    {
        if self.buf.len() == 0 {
            None
        } else {
            Some(self.buf[0])
        }
    }
}

/// What one tick hands back to the socket loop.
pub struct TickOutput {
    /// Datagrams to transmit, in order.
    pub datagrams: Vec<Vec<u8>>,
    /// Whether the session reached its closed state this tick.
    pub closed: bool,
}

/// One connected peer's reliability state.
pub struct Session {
    state: SessionState,
    mtu: u16,
    guid: u64,
    last_update: u64,
    session_timeout: u64,
    channels: Vec<OrderChannel>,
    collector: CompoundCollector,
    recovery: RecoveryQueue,
    send_queue: SendQueue,
    tracker: AcknowledgementTracker,
    retransmit: Vec<Vec<u8>>,
    seen_reliable: Vec<u32>,
    next_reliable_index: u32,
    next_sequence_index: u32,
    next_order_index: Vec<u32>,
    next_compound_id: u16,
}

impl Session {
    /// Lifecycle state.
    pub closed spec fn spec_state(self) -> SessionState {
        self.state
    }

    /// Negotiated MTU.
    pub closed spec fn spec_mtu(self) -> u16 {
        self.mtu
    }

    /// Client-chosen connection identifier.
    pub closed spec fn spec_guid(self) -> u64 {
        self.guid
    }

    /// Time of the last received datagram.
    pub closed spec fn spec_last_update(self) -> u64 {
        self.last_update
    }

    /// Frames waiting in the send queue.
    pub closed spec fn spec_pending(self) -> Seq<FrameModel> {
        self.send_queue@.pending
    }

    /// Pending acknowledgement numbers.
    pub closed spec fn spec_pending_acks(self) -> Seq<u32> {
        self.tracker@.acks
    }

    /// Pending negative-acknowledgement numbers.
    pub closed spec fn spec_pending_nacks(self) -> Seq<u32> {
        self.tracker@.nacks
    }

    /// Unacknowledged datagrams recorded for retransmission.
    pub closed spec fn spec_unacked(self) -> Seq<crate::recovery::RecoveryEntryModel> {
        self.recovery@.entries
    }

    /// The reliable indices already processed, as a set.
    pub closed spec fn spec_seen_set(self) -> Set<u32> {
        Set::new(|x: u32| self.seen_reliable@.contains(x))
    }

    /// The reassembly state.
    pub closed spec fn spec_collector(self) -> crate::compound::CompoundCollectorModel {
        self.collector@
    }

    /// The ordering channels, in channel order.
    pub closed spec fn spec_channels(self) -> Seq<OrderChannelModel> {
        self.channels.deep_view()
    }

    /// How much of the 24-bit datagram sequence space this session
    /// still needs for what is queued: the next number to assign plus
    /// one number for every pending frame, queued retransmission and
    /// unacknowledged datagram.
    pub closed spec fn spec_sequence_budget(self) -> int {
        self.send_queue@.next_sequence + self.send_queue@.pending.len()
            + self.retransmit@.len() + self.recovery@.entries.len()
    }

    /// Internal consistency of a session: every component well formed,
    /// one ordering channel per channel id, and every counter inside
    /// the field it is written to on the wire.
    pub closed spec fn wf(self) -> bool {
        &&& self.channels@.len() == ORDER_CHANNEL_COUNT as int
        &&& forall|i: int| 0 <= i < self.channels@.len() ==> (#[trigger] self.channels@[i]).wf()
        &&& self.next_order_index@.len() == ORDER_CHANNEL_COUNT as int
        &&& self.collector.wf()
        &&& self.recovery.wf()
        &&& self.send_queue.wf()
        &&& self.tracker.wf()
        &&& crate::tracker::nums_sorted(self.seen_reliable@)
        &&& self.mtu >= MIN_MTU
        &&& self.next_reliable_index < 0x1000000
        &&& self.next_sequence_index < 0x1000000
        &&& forall|i: int|
            0 <= i < self.send_queue@.pending.len() ==> spec_frame_size(
                #[trigger] self.send_queue@.pending[i],
            ) + 4 <= self.mtu
        &&& forall|y: u32| #[trigger] self.tracker@.acks.contains(y) ==> y < 0x1000000
        &&& forall|y: u32| #[trigger] self.tracker@.nacks.contains(y) ==> y < 0x1000000
        &&& forall|i: int|
            0 <= i < self.recovery@.entries.len() ==> (#[trigger] self.recovery@.entries[
                i]).sequence_number < self.send_queue@.next_sequence
    }

    /// Creates the reliability state for a peer that finished the
    /// connection handshake, in the connecting state.
    pub fn new(mtu: u16, guid: u64, config: SessionConfig, now: u64) -> (r: Session)
        requires
            mtu >= MIN_MTU,
        ensures
            r.wf(),
            r.spec_state() == SessionState::Connecting,
            r.spec_mtu() == mtu,
            r.spec_guid() == guid,
            r.spec_last_update() == now,
            r.spec_pending() == Seq::<FrameModel>::empty(),
            r.spec_unacked() == Seq::<crate::recovery::RecoveryEntryModel>::empty(),
    {
        let mut channels: Vec<OrderChannel> = Vec::new();
        let mut next_order_index: Vec<u32> = Vec::new();
        let mut i: usize = 0;
        while i < ORDER_CHANNEL_COUNT as usize
            invariant
                i <= ORDER_CHANNEL_COUNT as usize,
                channels@.len() == i,
                next_order_index@.len() == i,
                forall|k: int| 0 <= k < i ==> (#[trigger] channels@[k]).wf(),
            decreases ORDER_CHANNEL_COUNT as usize - i,
        {
            channels.push(OrderChannel::new());
            next_order_index.push(0);
            i = i + 1;
        }
        Session {
            state: SessionState::Connecting,
            mtu,
            guid,
            last_update: now,
            session_timeout: config.session_timeout,
            channels,
            collector: CompoundCollector::new(config.compound_max_age),
            recovery: RecoveryQueue::new(config.retransmit_timeout),
            send_queue: SendQueue::new(0),
            tracker: AcknowledgementTracker::new(),
            retransmit: Vec::new(),
            seen_reliable: Vec::new(),
            next_reliable_index: 0,
            next_sequence_index: 0,
            next_order_index,
            next_compound_id: 0,
        }
    }

    /// Marks the handshake complete: the session starts exchanging
    /// traffic.
    pub fn activate(&mut self, now: u64)
        requires
            old(self).wf(),
            old(self).spec_state() == SessionState::Connecting,
        ensures
            final(self).wf(),
            final(self).spec_state() == SessionState::Active,
            final(self).spec_last_update() == now,
            final(self).spec_mtu() == old(self).spec_mtu(),
            final(self).spec_guid() == old(self).spec_guid(),
    {
        self.state = SessionState::Active;
        self.last_update = now;
    }

    /// Starts the disconnect path: an explicit kick, a peer-initiated
    /// disconnect, or the inactivity timeout all end up here.  The next
    /// tick flushes what is pending and closes the session.
    pub fn disconnect(&mut self)
        requires
            old(self).wf(),
        ensures
            final(self).wf(),
            old(self).spec_state() == SessionState::Active || old(self).spec_state()
                == SessionState::Connecting ==> final(self).spec_state()
                == SessionState::Disconnecting,
            old(self).spec_state() == SessionState::Disconnecting || old(self).spec_state()
                == SessionState::Closed ==> final(self).spec_state() == old(self).spec_state(),
            final(self).spec_guid() == old(self).spec_guid(),
            final(self).spec_mtu() == old(self).spec_mtu(),
    {
        match self.state {
            SessionState::Active => {
                self.state = SessionState::Disconnecting;
            },
            SessionState::Connecting => {
                self.state = SessionState::Disconnecting;
            },
            _ => {},
        }
    }

    /// Whether the session still exchanges traffic.
    pub fn is_active(&self) -> (r: bool)
        ensures
            r == (self.spec_state() == SessionState::Active),
    {
        match self.state {
            SessionState::Active => true,
            _ => false,
        }
    }

    /// Randomly chosen connection identifier of the peer.
    pub fn get_guid(&self) -> (r: u64)
        ensures
            r == self.spec_guid(),
    {
        self.guid
    }
}

/// Whether a sorted list of reliable indices holds one.
fn seen_contains(v: &Vec<u32>, x: u32) -> (r: bool)
    ensures
        r == v@.contains(x),
{
    let mut i: usize = 0;
    while i < v.len()
        invariant
            i <= v@.len(),
            forall|k: int| 0 <= k < i ==> v@[k] != x,
        decreases v@.len() - i,
    {
        if v[i] == x {
            return true;
        }
        i = i + 1;
    }
    proof {
        if v@.contains(x) {
            let w = choose|w: int| 0 <= w < v@.len() && v@[w] == x;
        }
    }
    false
}

/// Executable check of the frame validity predicate.
pub fn frame_is_valid(f: &Frame) -> (r: bool)
    ensures
        r == frame_valid(f@),
{
    let rel_ok = f.reliable_index < 0x1000000 && (f.reliability.is_reliable() || f.reliable_index
        == 0);
    let seq_ok = f.sequence_index < 0x1000000 && (f.reliability.is_sequenced() || f.sequence_index
        == 0);
    let ord_ok = f.reliability.is_ordered() || (f.order_index == 0 && f.order_channel == 0);
    let cmp_ok = f.compound_size >= 1 && (f.compound_size > 1 || (f.compound_id == 0
        && f.compound_index == 0)) && f.compound_index < f.compound_size;
    let len_ok = f.payload.len() <= MAX_FRAME_PAYLOAD;
    rel_ok && seq_ok && ord_ok && cmp_ok && len_ok
}


/// What routing one decoded frame does to the receive-side state — the
/// seen reliable indices, the reassembly state and the ordering
/// channels — and what it delivers upward.
pub open spec fn spec_process_frame(
    seen: Set<u32>,
    coll: crate::compound::CompoundCollectorModel,
    chans: Seq<OrderChannelModel>,
    f: FrameModel,
    now: u64,
) -> (Set<u32>, crate::compound::CompoundCollectorModel, Seq<OrderChannelModel>, Seq<Seq<u8>>) {
    if !frame_valid(f) {
        (seen, coll, chans, Seq::<Seq<u8>>::empty())
    } else if f.reliability.spec_is_reliable() && seen.contains(f.reliable_index) {
        (seen, coll, chans, Seq::<Seq<u8>>::empty())
    } else {
        let seen1 = if f.reliability.spec_is_reliable() {
            seen.insert(f.reliable_index)
        } else {
            seen
        };
        let step = if f.compound_size > 1 {
            crate::compound::spec_collector_insert(coll, f, now)
        } else {
            (coll, Some(f.payload))
        };
        match step.1 {
            None => (seen1, step.0, chans, Seq::<Seq<u8>>::empty()),
            Some(payload) => {
                if f.order_channel >= ORDER_CHANNEL_COUNT {
                    (seen1, step.0, chans, Seq::<Seq<u8>>::empty())
                } else {
                    let whole = FrameModel {
                        compound_id: 0,
                        compound_size: 1,
                        compound_index: 0,
                        payload,
                        ..f
                    };
                    let ch = chans[f.order_channel as int];
                    if f.reliability.spec_is_sequenced() {
                        if whole.sequence_index as u64 >= ch.next_sequence {
                            (
                                seen1,
                                step.0,
                                chans.update(
                                    f.order_channel as int,
                                    OrderChannelModel {
                                        next_sequence: (whole.sequence_index as u64 + 1) as u64,
                                        ..ch
                                    },
                                ),
                                seq![payload],
                            )
                        } else {
                            (seen1, step.0, chans, Seq::<Seq<u8>>::empty())
                        }
                    } else if f.reliability.spec_is_ordered() {
                        let r = crate::order_channel::spec_channel_insert(ch, whole);
                        (
                            seen1,
                            step.0,
                            chans.update(f.order_channel as int, r.0),
                            r.1.map_values(|fr: FrameModel| fr.payload),
                        )
                    } else {
                        (seen1, step.0, chans, seq![payload])
                    }
                }
            },
        }
    }
}

/// Routing a run of decoded frames in order: the final receive-side
/// state and everything delivered upward.
pub open spec fn spec_receive_route(
    seen: Set<u32>,
    coll: crate::compound::CompoundCollectorModel,
    chans: Seq<OrderChannelModel>,
    frames: Seq<FrameModel>,
    now: u64,
) -> (Set<u32>, crate::compound::CompoundCollectorModel, Seq<OrderChannelModel>, Seq<Seq<u8>>)
    decreases frames.len(),
{
    if frames.len() == 0 {
        (seen, coll, chans, Seq::<Seq<u8>>::empty())
    } else {
        let h = spec_process_frame(seen, coll, chans, frames[0], now);
        let rest = spec_receive_route(h.0, h.1, h.2, frames.drop_first(), now);
        (rest.0, rest.1, rest.2, h.3 + rest.3)
    }
}

impl Session {
    /// Routes one decoded frame: reliable deduplication, reassembly of
    /// split payloads, then ordering; completed in-order payloads are
    /// appended to `delivered`.  A malformed frame is dropped without
    /// disturbing the rest of its batch.
    #[verifier::rlimit(100)]
    #[verifier::spinoff_prover]
    fn process_frame(&mut self, frame: Frame, now: u64, delivered: &mut Vec<Vec<u8>>)
        requires
            old(self).wf(),
        ensures
            final(self).wf(),
            final(self).spec_state() == old(self).spec_state(),
            final(self).spec_mtu() == old(self).spec_mtu(),
            final(self).spec_guid() == old(self).spec_guid(),
            final(self).spec_last_update() == old(self).spec_last_update(),
            final(self).spec_pending() == old(self).spec_pending(),
            final(self).spec_pending_acks() == old(self).spec_pending_acks(),
            final(self).spec_pending_nacks() == old(self).spec_pending_nacks(),
            final(self).spec_unacked() == old(self).spec_unacked(),
            final(self).spec_sequence_budget() == old(self).spec_sequence_budget(),
            final(self).spec_seen_set() == spec_process_frame(
                old(self).spec_seen_set(),
                old(self).spec_collector(),
                old(self).spec_channels(),
                frame@,
                now,
            ).0,
            final(self).spec_collector() == spec_process_frame(
                old(self).spec_seen_set(),
                old(self).spec_collector(),
                old(self).spec_channels(),
                frame@,
                now,
            ).1,
            final(self).spec_channels() == spec_process_frame(
                old(self).spec_seen_set(),
                old(self).spec_collector(),
                old(self).spec_channels(),
                frame@,
                now,
            ).2,
            final(delivered).deep_view() == old(delivered).deep_view() + spec_process_frame(
                old(self).spec_seen_set(),
                old(self).spec_collector(),
                old(self).spec_channels(),
                frame@,
                now,
            ).3,
    {
        let ghost fm = frame@;
        let ghost seen0 = self.spec_seen_set();
        let ghost coll0 = self.spec_collector();
        let ghost chans0 = self.spec_channels();
        let ghost d0 = delivered.deep_view();
        if !frame_is_valid(&frame) {
            // Malformed frame: dropped, the rest of the batch goes on.
            proof {
                assert(delivered.deep_view() =~~= d0 + Seq::<Seq<u8>>::empty());
            }
            return ;
        }
        if frame.reliability.is_reliable() {
            if crate::session::seen_contains(&self.seen_reliable, frame.reliable_index) {
                // Duplicate of an already-processed reliable frame.
                proof {
                    assert(seen0.contains(fm.reliable_index));
                    assert(delivered.deep_view() =~~= d0 + Seq::<Seq<u8>>::empty());
                }
                return ;
            }
            crate::tracker::insert_sorted(&mut self.seen_reliable, frame.reliable_index);
            proof {
                assert(self.spec_seen_set() =~= seen0.insert(fm.reliable_index));
            }
        }
        let ghost seen1 = self.spec_seen_set();
        proof {
            assert(seen1 == if fm.reliability.spec_is_reliable() {
                seen0.insert(fm.reliable_index)
            } else {
                seen0
            });
        }
        let reliability = frame.reliability;
        let sequence_index = frame.sequence_index;
        let order_index = frame.order_index;
        let order_channel = frame.order_channel;
        let reliable_index = frame.reliable_index;
        let payload = if frame.compound_size > 1 {
            match self.collector.insert(frame, now) {
                Some(p) => p,
                None => {
                    proof {
                        assert(delivered.deep_view() =~~= d0 + Seq::<Seq<u8>>::empty());
                    }
                    return ;
                },
            }
        } else {
            frame.payload
        };
        let ghost step = if fm.compound_size > 1 {
            crate::compound::spec_collector_insert(coll0, fm, now)
        } else {
            (coll0, Some(fm.payload))
        };
        proof {
            assert(self.spec_collector() == step.0);
            assert(payload@ == step.1.unwrap());
        }
        if order_channel >= ORDER_CHANNEL_COUNT {
            // No such channel: treated like a malformed frame.
            proof {
                assert(delivered.deep_view() =~~= d0 + Seq::<Seq<u8>>::empty());
            }
            return ;
        }
        let whole = Frame {
            reliability,
            reliable_index,
            sequence_index,
            order_index,
            order_channel,
            compound_id: 0,
            compound_size: 1,
            compound_index: 0,
            payload,
        };
        proof {
            assert(whole@ =~= (FrameModel {
                compound_id: 0,
                compound_size: 1,
                compound_index: 0,
                payload: step.1.unwrap(),
                ..fm
            }));
        }
        if reliability.is_sequenced() {
            let mut ch = self.channels.remove(order_channel as usize);
            proof {
                assert(ch@ == chans0[order_channel as int]);
            }
            let fresh = ch.insert_sequenced(&whole);
            let ghost chm = ch@;
            self.channels.insert(order_channel as usize, ch);
            proof {
                assert(forall|i: int|
                    0 <= i < self.channels@.len() ==> (#[trigger] self.channels@[i]).wf());
                assert(self.spec_channels() =~= chans0.update(order_channel as int, chm));
            }
            if fresh {
                let ghost dd = delivered.deep_view();
                delivered.push(whole.payload);
                proof {
                    assert(delivered.deep_view() =~~= dd.push(step.1.unwrap()));
                    assert(delivered.deep_view() =~~= d0 + seq![step.1.unwrap()]);
                }
            } else {
                proof {
                    assert(delivered.deep_view() =~~= d0 + Seq::<Seq<u8>>::empty());
                }
            }
        } else if reliability.is_ordered() {
            let mut ch = self.channels.remove(order_channel as usize);
            proof {
                assert(ch@ == chans0[order_channel as int]);
            }
            let ghost spec_step = crate::order_channel::spec_channel_insert(ch@, whole@);
            let released = ch.insert(whole);
            let ghost chm = ch@;
            self.channels.insert(order_channel as usize, ch);
            proof {
                assert(forall|i: int|
                    0 <= i < self.channels@.len() ==> (#[trigger] self.channels@[i]).wf());
                assert(chm == spec_step.0);
                assert(self.spec_channels() =~= chans0.update(order_channel as int, chm));
            }
            match released {
                Some(mut run) => {
                    proof {
                        assert(run.deep_view() == spec_step.1);
                    }
                    let mut k: usize = 0;
                    while k < run.len()
                        invariant
                            k <= run@.len(),
                            run.deep_view() == spec_step.1,
                            delivered.deep_view() == d0 + spec_step.1.map_values(
                                |fr: FrameModel| fr.payload,
                            ).take(k as int),
                        decreases run@.len() - k,
                    {
                        let ghost dd = delivered.deep_view();
                        let p = crate::recovery::clone_bytes(&run[k].payload);
                        proof {
                            assert(p@ == run.deep_view()[k as int].payload);
                        }
                        delivered.push(p);
                        k = k + 1;
                        proof {
                            let mapped = spec_step.1.map_values(|fr: FrameModel| fr.payload);
                            assert(delivered.deep_view() =~~= dd.push(mapped[k - 1]));
                            assert(mapped.take(k as int) =~= mapped.take(k - 1).push(
                                mapped[k - 1],
                            ));
                            assert(delivered.deep_view() =~~= d0 + mapped.take(k as int));
                        }
                    }
                    proof {
                        let mapped = spec_step.1.map_values(|fr: FrameModel| fr.payload);
                        assert(mapped.take(mapped.len() as int) =~= mapped);
                    }
                },
                None => {
                    proof {
                        assert(spec_step.1.map_values(|fr: FrameModel| fr.payload) =~= Seq::<
                            Seq<u8>,
                        >::empty());
                        assert(delivered.deep_view() =~~= d0 + spec_step.1.map_values(
                            |fr: FrameModel| fr.payload,
                        ));
                    }
                },
            }
        } else {
            let ghost dd = delivered.deep_view();
            delivered.push(whole.payload);
            proof {
                assert(delivered.deep_view() =~~= dd.push(step.1.unwrap()));
                assert(delivered.deep_view() =~~= d0 + seq![step.1.unwrap()]);
            }
        }
    }

    /// Feeds one framed datagram through the receive path.
    ///
    /// The datagram is decoded — reporting exactly the decoding error on
    /// a malformed one, with no state change: frame boundaries past a
    /// parse error are unknowable, so such a datagram is dropped whole
    /// and the session goes on.  On success its sequence number is
    /// recorded for acknowledgement, every frame is deduplicated,
    /// reassembled and reordered — a frame that parsed but is
    /// semantically unusable is dropped alone, the rest of the batch
    /// still processed — and the payloads that completed in-order
    /// delivery come back in order.
    pub fn receive_datagram(&mut self, data: &[u8], now: u64) -> (r: Result<
        Vec<Vec<u8>>,
        DecodeError,
    >)
        requires
            old(self).wf(),
            old(self).spec_state() == SessionState::Active,
        ensures
            final(self).wf(),
            final(self).spec_state() == SessionState::Active,
            final(self).spec_mtu() == old(self).spec_mtu(),
            final(self).spec_guid() == old(self).spec_guid(),
            r is Ok <==> spec_decode_batch(data@) is Ok,
            r is Err ==> r == Result::<Vec<Vec<u8>>, DecodeError>::Err(
                spec_decode_batch(data@)->Err_0,
            ) && final(self).spec_last_update() == old(self).spec_last_update(),
            r is Ok ==> final(self).spec_last_update() == now && final(self).spec_pending_acks().contains(spec_decode_batch(data@).unwrap().sequence_number),
            final(self).spec_pending() == old(self).spec_pending(),
            final(self).spec_sequence_budget() == old(self).spec_sequence_budget(),
    {
        let batch = match decode_batch(data) {
            Ok(b) => b,
            Err(e) => {
                return Err(e);
            },
        };
        self.last_update = now;
        proof {
            assert(batch@.sequence_number < 0x1000000);
        }
        self.tracker.on_received(batch.sequence_number);
        let ghost acked = self.tracker@.acks;
        let mut delivered: Vec<Vec<u8>> = Vec::new();
        let mut frames = batch.frames;
        let ghost fms = frames.deep_view();
        let ghost seen0 = self.spec_seen_set();
        let ghost coll0 = self.spec_collector();
        let ghost chans0 = self.spec_channels();
        let mut i: usize = 0;
        proof {
            assert(fms.skip(0) =~= fms);
        }
        while i < frames.len()
            invariant
                i <= frames@.len(),
                fms == frames.deep_view(),
                self.wf(),
                self.spec_state() == old(self).spec_state(),
                self.spec_mtu() == old(self).spec_mtu(),
                self.spec_guid() == old(self).spec_guid(),
                self.spec_last_update() == now,
                self.spec_pending() == old(self).spec_pending(),
                self.spec_pending_acks() == acked,
                self.spec_unacked() == old(self).spec_unacked(),
                self.spec_sequence_budget() == old(self).spec_sequence_budget(),
                spec_receive_route(seen0, coll0, chans0, fms, now) == {
                    let rest = spec_receive_route(
                        self.spec_seen_set(),
                        self.spec_collector(),
                        self.spec_channels(),
                        fms.skip(i as int),
                        now,
                    );
                    (rest.0, rest.1, rest.2, delivered.deep_view() + rest.3)
                },
            decreases frames@.len() - i,
        {
            let ghost dprev = delivered.deep_view();
            let ghost seen_c = self.spec_seen_set();
            let ghost coll_c = self.spec_collector();
            let ghost chans_c = self.spec_channels();
            let f = crate::send_queue::clone_frame(&frames[i]);
            proof {
                assert(f@ == fms[i as int]);
                assert(fms.skip(i as int)[0] == fms[i as int]);
                assert(fms.skip(i as int).drop_first() =~= fms.skip(i + 1));
            }
            self.process_frame(f, now, &mut delivered);
            i = i + 1;
            proof {
                let h = spec_process_frame(seen_c, coll_c, chans_c, fms[i - 1], now);
                let rest = spec_receive_route(
                    self.spec_seen_set(),
                    self.spec_collector(),
                    self.spec_channels(),
                    fms.skip(i as int),
                    now,
                );
                assert((dprev + h.3) + rest.3 =~~= dprev + (h.3 + rest.3));
            }
        }
        proof {
            assert(fms.skip(fms.len() as int).len() == 0);
            assert(delivered.deep_view() + Seq::<Seq<u8>>::empty() =~~= delivered.deep_view());
        }
        Ok(delivered)
    }
}


/// Payload bytes of a run of frames, in order.
pub open spec fn frames_payload(fs: Seq<FrameModel>) -> Seq<u8>
    decreases fs.len(),
{
    if fs.len() == 0 {
        Seq::<u8>::empty()
    } else {
        fs[0].payload + frames_payload(fs.drop_first())
    }
}

/// Appending a frame appends its payload.
pub proof fn lemma_frames_payload_snoc(fs: Seq<FrameModel>, f: FrameModel)
    ensures
        frames_payload(fs.push(f)) == frames_payload(fs) + f.payload,
    decreases fs.len(),
{
    if fs.len() == 0 {
        assert(fs.push(f)[0] == f);
        assert(fs.push(f).drop_first() =~= Seq::<FrameModel>::empty());
        assert(frames_payload(Seq::<FrameModel>::empty()) == Seq::<u8>::empty());
        assert(frames_payload(fs.push(f)) =~= frames_payload(fs) + f.payload);
    } else {
        assert(fs.push(f).drop_first() =~= fs.drop_first().push(f));
        lemma_frames_payload_snoc(fs.drop_first(), f);
        assert(frames_payload(fs.push(f)) =~= frames_payload(fs) + f.payload);
    }
}

/// Largest payload slice one frame of a session at this MTU may carry.
pub open spec fn spec_chunk(mtu: u16) -> int {
    if mtu - 28 < MAX_FRAME_PAYLOAD {
        (mtu - 28) as int
    } else {
        MAX_FRAME_PAYLOAD as int
    }
}

/// Number of fragments a payload of this length splits into.
pub open spec fn spec_frag_count(len: int, mtu: u16) -> int {
    if len <= spec_chunk(mtu) {
        1
    } else {
        (len + spec_chunk(mtu) - 1) / spec_chunk(mtu)
    }
}

/// Largest payload one `send` call accepts: what a full compound group
/// of maximal fragments can carry.
pub open spec fn spec_max_send(mtu: u16) -> int {
    spec_chunk(mtu) * crate::compound::MAX_COMPOUND_FRAGMENTS as int
}

impl Session {
    /// Next reliable index to assign.
    pub closed spec fn spec_next_reliable(self) -> u32 {
        self.next_reliable_index
    }

    /// Next sequence index to assign.
    pub closed spec fn spec_next_sequenced(self) -> u32 {
        self.next_sequence_index
    }

    /// Next order index of one channel.
    pub closed spec fn spec_next_order(self, ch: int) -> u32 {
        self.next_order_index@[ch]
    }

    /// Next compound id to stamp a split payload with.
    pub closed spec fn spec_next_compound(self) -> u16 {
        self.next_compound_id
    }

    /// Whether one payload of this length can be submitted on this
    /// channel right now: the executable face of `send`'s
    /// preconditions, for a caller that must establish them.
    pub fn can_send(&self, payload_len: usize, channel: u8) -> (r: bool)
        requires
            self.wf(),
        ensures
            r == (channel < ORDER_CHANNEL_COUNT && payload_len as int <= spec_max_send(
                self.spec_mtu(),
            ) && self.spec_next_reliable() + spec_frag_count(payload_len as int, self.spec_mtu())
                < 0x1000000 && self.spec_next_sequenced() + 1 < 0x1000000 && self.spec_next_order(
                channel as int,
            ) < 0xffff_ffff),
    {
        if channel >= ORDER_CHANNEL_COUNT {
            return false;
        }
        let chunk: usize = if ((self.mtu - 28) as usize) < MAX_FRAME_PAYLOAD {
            (self.mtu - 28) as usize
        } else {
            MAX_FRAME_PAYLOAD
        };
        proof {
            assert(chunk == spec_chunk(self.mtu));
        }
        proof {
            assert(chunk <= 8191);
        }
        // A full compound group of maximal fragments bounds one payload.
        if payload_len > chunk * 512 {
            return false;
        }
        let frags: u64 = if payload_len <= chunk {
            1
        } else {
            ((payload_len + chunk - 1) / chunk) as u64
        };
        proof {
            assert(frags == spec_frag_count(payload_len as int, self.mtu));
        }
        (self.next_reliable_index as u64 + frags < 0x1000000) && (self.next_sequence_index as u64
            + 1 < 0x1000000) && (self.next_order_index[channel as usize] < 0xffff_ffff)
    }

    /// Submits one application payload for transmission.
    ///
    /// The payload is wrapped in one frame, or split into compound
    /// fragments sharing a fresh compound id when it cannot fit a single
    /// datagram, each fragment carrying the indices its reliability
    /// class calls for; the frames join the send queue in order, whole
    /// payload first to last.
    #[verifier::rlimit(100)]
    pub fn send(&mut self, payload: Vec<u8>, reliability: Reliability, channel: u8)
        requires
            old(self).wf(),
            old(self).spec_state() == SessionState::Active,
            channel < ORDER_CHANNEL_COUNT,
            payload@.len() <= spec_max_send(old(self).spec_mtu()),
            old(self).spec_next_reliable() + spec_frag_count(
                payload@.len() as int,
                old(self).spec_mtu(),
            ) < 0x1000000,
            old(self).spec_next_sequenced() + 1 < 0x1000000,
            old(self).spec_next_order(channel as int) < 0xffff_ffff,
        ensures
            final(self).wf(),
            final(self).spec_state() == old(self).spec_state(),
            final(self).spec_mtu() == old(self).spec_mtu(),
            final(self).spec_guid() == old(self).spec_guid(),
            final(self).spec_last_update() == old(self).spec_last_update(),
            final(self).spec_pending().len() == old(self).spec_pending().len() + spec_frag_count(
                payload@.len() as int,
                old(self).spec_mtu(),
            ),
            frames_payload(
                final(self).spec_pending().skip(old(self).spec_pending().len() as int),
            ) == payload@,
            forall|i: int|
                old(self).spec_pending().len() <= i < final(self).spec_pending().len() ==> {
                    &&& (#[trigger] final(self).spec_pending()[i]).reliability == reliability
                    &&& (reliability.spec_is_ordered() ==> final(self).spec_pending()[
                        i].order_channel == channel && final(self).spec_pending()[i].order_index
                        == old(self).spec_next_order(channel as int))
                    &&& (reliability.spec_is_sequenced() ==> final(self).spec_pending()[
                        i].sequence_index == old(self).spec_next_sequenced())
                    &&& final(self).spec_pending()[i].compound_size == spec_frag_count(
                        payload@.len() as int,
                        old(self).spec_mtu(),
                    )
                    &&& (spec_frag_count(payload@.len() as int, old(self).spec_mtu()) > 1 ==> {
                        &&& final(self).spec_pending()[i].compound_id == old(self).spec_next_compound()
                        &&& final(self).spec_pending()[i].compound_index == i - old(self).spec_pending().len()
                    })
                },
            spec_frag_count(payload@.len() as int, old(self).spec_mtu()) > 1 ==> final(self).spec_next_compound() == (if old(self).spec_next_compound() == 0xffff {
                0u16
            } else {
                (old(self).spec_next_compound() + 1) as u16
            }),
            spec_frag_count(payload@.len() as int, old(self).spec_mtu()) == 1 ==> final(self).spec_next_compound() == old(self).spec_next_compound(),
            final(self).spec_sequence_budget() == old(self).spec_sequence_budget()
                + spec_frag_count(payload@.len() as int, old(self).spec_mtu()),
    {
        let ghost p0 = self.send_queue@.pending;
        let chunk: usize = if ((self.mtu - 28) as usize) < MAX_FRAME_PAYLOAD {
            (self.mtu - 28) as usize
        } else {
            MAX_FRAME_PAYLOAD
        };
        let order_index = if reliability.is_ordered() {
            self.next_order_index[channel as usize]
        } else {
            0
        };
        let order_channel = if reliability.is_ordered() {
            channel
        } else {
            0
        };
        let sequence_index = if reliability.is_sequenced() {
            self.next_sequence_index
        } else {
            0
        };
        if payload.len() <= chunk {
            // One whole frame.
            let reliable_index = if reliability.is_reliable() {
                self.next_reliable_index
            } else {
                0
            };
            let frame = Frame {
                reliability,
                reliable_index,
                sequence_index,
                order_index,
                order_channel,
                compound_id: 0,
                compound_size: 1,
                compound_index: 0,
                payload,
            };
            assert(frame_valid(frame@));
            assert(spec_frame_size(frame@) + 4 <= self.mtu);
            let ghost fm = frame@;
            self.send_queue.enqueue(frame);
            if reliability.is_reliable() {
                self.next_reliable_index = self.next_reliable_index + 1;
            }
            if reliability.is_sequenced() {
                self.next_sequence_index = self.next_sequence_index + 1;
            }
            if reliability.is_ordered() {
                let oi = self.next_order_index[channel as usize];
                self.next_order_index.set(channel as usize, oi + 1);
            }
            proof {
                assert(self.send_queue@.pending.skip(p0.len() as int) =~= seq![fm]);
                assert(seq![fm].drop_first() =~= Seq::<FrameModel>::empty());
                assert(frames_payload(Seq::<FrameModel>::empty()) == Seq::<u8>::empty());
                assert(seq![fm][0] == fm);
                assert(frames_payload(seq![fm]) =~= fm.payload);
            }
            return ;
        }
        // Split into compound fragments.
        let cid = self.next_compound_id;
        self.next_compound_id = if self.next_compound_id == 0xffff {
            0
        } else {
            self.next_compound_id + 1
        };
        let total = payload.len();
        let size: u32 = ((total + chunk - 1) / chunk) as u32;
        proof {
            assert(size == spec_frag_count(payload@.len() as int, self.mtu));
            assert(size >= 2 && size <= crate::compound::MAX_COMPOUND_FRAGMENTS && total as int
                > (size as int - 1) * (chunk as int) && total as int <= size as int * (
            chunk as int)) by (nonlinear_arith)
                requires
                    size as int == (total as int + chunk as int - 1) / (chunk as int),
                    chunk >= 1,
                    total > chunk,
                    total as int <= (chunk as int) * 512,
            ;
            assert(total <= 8191 * 512) by (nonlinear_arith)
                requires
                    total as int <= chunk as int * 512 && 1 <= chunk <= 8191,
            ;
        }
        let mut offset: usize = 0;
        let mut index: u32 = 0;
        while index < size
            invariant
                index <= size,
                size == spec_frag_count(payload@.len() as int, self.mtu),
                2 <= size <= crate::compound::MAX_COMPOUND_FRAGMENTS,
                chunk == spec_chunk(self.mtu),
                1 <= chunk <= MAX_FRAME_PAYLOAD,
                total == payload@.len(),
                total <= 8191 * 512,
                offset == if index < size {
                    index as int * chunk
                } else {
                    total as int
                },
                offset <= total,
                index < size ==> total - offset > (size - index - 1) * chunk,
                total - offset <= (size - index) * chunk,
                self.wf(),
                self.state == old(self).state,
                self.mtu == old(self).mtu,
                self.guid == old(self).guid,
                self.last_update == old(self).last_update,
                self.recovery@ == old(self).recovery@,
                self.retransmit@ == old(self).retransmit@,
                self.tracker@ == old(self).tracker@,
                self.next_sequence_index == old(self).next_sequence_index,
                self.next_order_index@ == old(self).next_order_index@,
                reliability.spec_is_reliable() ==> self.next_reliable_index == old(self).next_reliable_index + index,
                !reliability.spec_is_reliable() ==> self.next_reliable_index == old(self).next_reliable_index,
                old(self).next_reliable_index + size < 0x1000000,
                self.send_queue@.next_sequence == old(self).send_queue@.next_sequence,
                self.send_queue@.pending.len() == p0.len() + index,
                self.send_queue@.pending.subrange(0, p0.len() as int) == p0,
                frames_payload(self.send_queue@.pending.skip(p0.len() as int)) == payload@.subrange(
                    0,
                    offset as int,
                ),
                forall|i: int|
                    p0.len() <= i < self.send_queue@.pending.len() ==> {
                        &&& (#[trigger] self.send_queue@.pending[i]).reliability == reliability
                        &&& (reliability.spec_is_ordered() ==> self.send_queue@.pending[
                            i].order_channel == channel && self.send_queue@.pending[i].order_index
                            == order_index)
                        &&& (reliability.spec_is_sequenced() ==> self.send_queue@.pending[
                            i].sequence_index == sequence_index)
                        &&& self.send_queue@.pending[i].compound_size == size
                        &&& self.send_queue@.pending[i].compound_id == cid
                        &&& self.send_queue@.pending[i].compound_index == i - p0.len()
                    },
                cid == old(self).next_compound_id,
                self.next_compound_id == (if old(self).next_compound_id == 0xffff {
                    0u16
                } else {
                    (old(self).next_compound_id + 1) as u16
                }),
                sequence_index < 0x1000000,
                !reliability.spec_is_sequenced() ==> sequence_index == 0,
                !reliability.spec_is_ordered() ==> order_index == 0 && order_channel == 0,
                reliability.spec_is_ordered() ==> order_channel == channel,
                reliability.spec_is_ordered() ==> order_index == old(self).spec_next_order(
                    channel as int,
                ),
                reliability.spec_is_sequenced() ==> sequence_index == old(self).spec_next_sequenced(),
            decreases size - index,
        {
            proof {
                assert(offset + chunk <= total + 8191);
            }
            let end = if index + 1 == size {
                total
            } else {
                offset + chunk
            };
            proof {
                assert((size - index) as int * (chunk as int) - chunk as int == ((size
                    - index) as int - 1) * (chunk as int)) by (nonlinear_arith);
                assert(((size - index) as int - 1) >= 1 ==> ((size - index) as int - 1) * (
                chunk as int) >= chunk as int) by (nonlinear_arith);
                assert(((size - index) as int) == 1 ==> ((size - index) as int) * (chunk as int)
                    == chunk as int) by (nonlinear_arith);
                assert(offset < end <= total);
                assert(end - offset <= chunk);
            }
            let mut piece: Vec<u8> = Vec::new();
            let mut j: usize = offset;
            while j < end
                invariant
                    offset <= j <= end,
                    end <= payload@.len(),
                    piece@ == payload@.subrange(offset as int, j as int),
                decreases end - j,
            {
                piece.push(payload[j]);
                j = j + 1;
                proof {
                    assert(piece@ =~= payload@.subrange(offset as int, j as int));
                }
            }
            let reliable_index = if reliability.is_reliable() {
                self.next_reliable_index
            } else {
                0
            };
            let frame = Frame {
                reliability,
                reliable_index,
                sequence_index,
                order_index,
                order_channel,
                compound_id: cid,
                compound_size: size,
                compound_index: index,
                payload: piece,
            };
            assert(frame_valid(frame@));
            assert(spec_frame_size(frame@) + 4 <= self.mtu);
            let ghost fm = frame@;
            let ghost added0 = self.send_queue@.pending.skip(p0.len() as int);
            self.send_queue.enqueue(frame);
            if reliability.is_reliable() {
                self.next_reliable_index = self.next_reliable_index + 1;
            }
            proof {
                assert(self.send_queue@.pending.subrange(0, p0.len() as int) =~= p0);
                assert(self.send_queue@.pending.skip(p0.len() as int) =~= added0.push(fm));
                lemma_frames_payload_snoc(added0, fm);
                assert(payload@.subrange(0, offset as int) + payload@.subrange(
                    offset as int,
                    end as int,
                ) =~= payload@.subrange(0, end as int));
            }
            let ghost index0 = index as int;
            let ghost offset0 = offset as int;
            offset = end;
            index = index + 1;
            proof {
                assert(((index0 + 1)) * chunk == index0 * chunk + chunk) by (nonlinear_arith);
                assert((size as int - index0) * chunk - chunk == (size as int - index0 - 1)
                    * chunk) by (nonlinear_arith);
                assert((size as int - index0 - 1) * chunk - chunk == (size as int - index0 - 2)
                    * chunk) by (nonlinear_arith);
            }
        }
        proof {
            assert(payload@.subrange(0, payload@.len() as int) =~= payload@);
        }
        if reliability.is_sequenced() {
            self.next_sequence_index = self.next_sequence_index + 1;
        }
        if reliability.is_ordered() {
            let oi = self.next_order_index[channel as usize];
            self.next_order_index.set(channel as usize, oi + 1);
        }
    }
}


/// Complementary filters split a sequence's length exactly.
proof fn lemma_filter_partition<A>(s: Seq<A>, p: spec_fn(A) -> bool, q: spec_fn(A) -> bool)
    requires
        forall|x: A| #[trigger] p(x) <==> !q(x),
    ensures
        s.filter(p).len() + s.filter(q).len() == s.len(),
    decreases s.len(),
{
    reveal(Seq::filter);
    if s.len() > 0 {
        lemma_filter_partition(s.drop_last(), p, q);
        assert(p(s.last()) <==> !q(s.last()));
    }
}


/// One retransmitted batch body framed as a datagram under a sequence
/// number.
pub open spec fn spec_framed_datagram(seq: u32, body: Seq<u8>) -> Seq<u8> {
    seq![CONNECTED_PEER_BIT_FLAG] + u24_le_bytes(seq) + body
}

/// The datagrams that resend a list of bodies under consecutive fresh
/// sequence numbers starting at `s0`.
pub open spec fn spec_retransmit_datagrams(bodies: Seq<Seq<u8>>, s0: u32) -> Seq<Seq<u8>> {
    Seq::new(bodies.len(), |i: int| spec_framed_datagram((s0 + i) as u32, bodies[i]))
}

/// The recovery entries that re-record those bodies at time `now`.
pub open spec fn spec_retransmit_records(bodies: Seq<Seq<u8>>, s0: u32, now: u64) -> Seq<
    crate::recovery::RecoveryEntryModel,
> {
    Seq::new(
        bodies.len(),
        |i: int|
            crate::recovery::RecoveryEntryModel {
                sequence_number: (s0 + i) as u32,
                bytes: bodies[i],
                send_time: now,
            },
    )
}

/// The encodings of a run of batches, one datagram each.
pub open spec fn spec_batch_datagrams(bs: Seq<FrameBatchModel>) -> Seq<Seq<u8>> {
    Seq::new(bs.len(), |i: int| spec_encode_batch(bs[i]))
}

/// A batch carries at least one reliable-class frame.
pub open spec fn spec_batch_reliable(b: FrameBatchModel) -> bool {
    exists|i: int|
        0 <= i < b.frames.len() && (#[trigger] b.frames[i]).reliability.spec_is_reliable()
}

/// The recovery entry recording one reliable batch: its encoded body
/// without the four header bytes, under its own sequence number.
pub open spec fn spec_batch_record(b: FrameBatchModel, now: u64) -> crate::recovery::RecoveryEntryModel {
    crate::recovery::RecoveryEntryModel {
        sequence_number: b.sequence_number,
        bytes: spec_encode_batch(b).skip(4),
        send_time: now,
    }
}

/// The recovery entries recording the reliable batches of a run, in
/// order.
pub open spec fn spec_batch_records(bs: Seq<FrameBatchModel>, now: u64) -> Seq<
    crate::recovery::RecoveryEntryModel,
> {
    bs.filter(|b: FrameBatchModel| spec_batch_reliable(b)).map_values(
        |b: FrameBatchModel| spec_batch_record(b, now),
    )
}

/// Appending one batch appends its record exactly when it is reliable.
proof fn lemma_batch_records_snoc(bs: Seq<FrameBatchModel>, b: FrameBatchModel, now: u64)
    ensures
        spec_batch_records(bs.push(b), now) == if spec_batch_reliable(b) {
            spec_batch_records(bs, now).push(spec_batch_record(b, now))
        } else {
            spec_batch_records(bs, now)
        },
{
    reveal(Seq::filter);
    let pred = |x: FrameBatchModel| spec_batch_reliable(x);
    assert(bs.push(b).drop_last() =~= bs);
    assert(bs.push(b).last() == b);
    if pred(b) {
        assert(bs.push(b).filter(pred) == bs.filter(pred).push(b));
        assert(spec_batch_records(bs.push(b), now) =~= spec_batch_records(bs, now).push(
            spec_batch_record(b, now),
        ));
    } else {
        assert(bs.push(b).filter(pred) == bs.filter(pred));
    }
}

/// The control packets that flush a range list: one record-count
/// field's worth of ranges per packet.
pub open spec fn spec_control_packets(id: u8, rs: Seq<(u32, u32)>) -> Seq<Seq<u8>>
    decreases rs.len(),
{
    if rs.len() == 0 {
        Seq::<Seq<u8>>::empty()
    } else if rs.len() <= 0xffff {
        seq![crate::tracker::spec_encode_ack_packet(id, rs)]
    } else {
        seq![crate::tracker::spec_encode_ack_packet(id, rs.take(0xffff))]
            + spec_control_packets(id, rs.skip(0xffff))
    }
}

/// One datagram carrying a retransmitted batch body under a fresh
/// sequence number.
fn datagram_from_body(seq: u32, body: &Vec<u8>) -> (r: Vec<u8>)
    requires
        seq < 0x1000000,
    ensures
        r@ == seq![CONNECTED_PEER_BIT_FLAG] + u24_le_bytes(seq) + body@,
{
    let mut out: Vec<u8> = Vec::new();
    put_u8(&mut out, CONNECTED_PEER_BIT_FLAG);
    put_u24_le(&mut out, seq);
    crate::wire::put_bytes(&mut out, body.as_slice());
    proof {
        assert(out@ =~= seq![CONNECTED_PEER_BIT_FLAG] + u24_le_bytes(seq) + body@);
    }
    out
}

/// The body of an encoded datagram: everything after the four header
/// bytes.
fn body_of(data: &Vec<u8>) -> (r: Vec<u8>)
    requires
        data@.len() >= 4,
    ensures
        r@ == data@.subrange(4, data@.len() as int),
{
    let mut out: Vec<u8> = Vec::new();
    let mut i: usize = 4;
    while i < data.len()
        invariant
            4 <= i <= data@.len(),
            out@ == data@.subrange(4, i as int),
        decreases data@.len() - i,
    {
        out.push(data[i]);
        i = i + 1;
        proof {
            assert(out@ =~= data@.subrange(4, i as int));
        }
    }
    proof {
        assert(out@ =~= data@.subrange(4, data@.len() as int));
    }
    out
}

/// Whether a batch holds at least one reliable-class frame.
fn batch_has_reliable(b: &FrameBatch) -> (r: bool)
    ensures
        r == spec_batch_reliable(b@),
{
    let mut i: usize = 0;
    while i < b.frames.len()
        invariant
            i <= b.frames@.len(),
            forall|k: int|
                0 <= k < i ==> !(#[trigger] b@.frames[k]).reliability.spec_is_reliable(),
        decreases b.frames@.len() - i,
    {
        if b.frames[i].reliability.is_reliable() {
            proof {
                assert(b@.frames[i as int].reliability.spec_is_reliable());
            }
            return true;
        }
        proof {
            assert(b@.frames[i as int] == b.frames@[i as int]@);
        }
        i = i + 1;
    }
    false
}

impl Session {
    /// Queued retransmission bodies awaiting fresh sequence numbers.
    pub closed spec fn spec_retransmit_count(self) -> int {
        self.retransmit@.len() as int
    }

    /// The queued retransmission bodies themselves, in queue order.
    pub closed spec fn spec_retransmit_bodies(self) -> Seq<Seq<u8>> {
        self.retransmit.deep_view()
    }

    /// The configured retransmit timeout.
    pub closed spec fn spec_retransmit_timeout(self) -> u64 {
        self.recovery@.timeout
    }

    /// The next unused datagram sequence number.
    pub closed spec fn spec_next_sequence(self) -> u32 {
        self.send_queue@.next_sequence
    }

    /// The bodies a tick at `now` must resend: what was already queued
    /// for retransmission, then the recorded datagrams whose age has
    /// passed the timeout, in record order.
    pub open spec fn spec_due_bodies(self, now: u64) -> Seq<Seq<u8>> {
        self.spec_retransmit_bodies() + self.spec_unacked().filter(
            |e: crate::recovery::RecoveryEntryModel|
                crate::recovery::entry_expired(e, now, self.spec_retransmit_timeout()),
        ).map_values(|e: crate::recovery::RecoveryEntryModel| e.bytes)
    }

    /// Whether a buffer is an acknowledgement control packet this
    /// session accepts: the right id byte followed by a well-formed
    /// range body.
    pub open spec fn spec_is_ack_packet(d: Seq<u8>) -> bool {
        d.len() >= 1 && d[0] == ACK_PACKET_ID && crate::tracker::spec_decode_ack_body(d, 1)
            is Some
    }

    /// The negative counterpart of [`Self::spec_is_ack_packet`].
    pub open spec fn spec_is_nack_packet(d: Seq<u8>) -> bool {
        d.len() >= 1 && d[0] == NACK_PACKET_ID && crate::tracker::spec_decode_ack_body(d, 1)
            is Some
    }

    /// Applies a received positive acknowledgement: every covered
    /// sequence number leaves the recovery queue for good.
    pub fn receive_ack(&mut self, data: &[u8]) -> (r: bool)
        requires
            old(self).wf(),
        ensures
            final(self).wf(),
            final(self).spec_state() == old(self).spec_state(),
            final(self).spec_mtu() == old(self).spec_mtu(),
            final(self).spec_guid() == old(self).spec_guid(),
            final(self).spec_last_update() == old(self).spec_last_update(),
            final(self).spec_pending() == old(self).spec_pending(),
            r == Session::spec_is_ack_packet(data@),
            r ==> final(self).spec_unacked() == old(self).spec_unacked().filter(
                |e: crate::recovery::RecoveryEntryModel|
                    !crate::recovery::seq_covered(e.sequence_number, spec_acked_ranges(data@)),
            ),
            !r ==> final(self).spec_unacked() == old(self).spec_unacked(),
            final(self).spec_retransmit_bodies() == old(self).spec_retransmit_bodies(),
            final(self).spec_sequence_budget() <= old(self).spec_sequence_budget(),
    {
        let mut pos: usize = 0;
        let id = match crate::wire::read_u8(data, &mut pos) {
            Some(v) => v,
            None => {
                return false;
            },
        };
        if id != ACK_PACKET_ID {
            return false;
        }
        let ranges = match crate::tracker::decode_ack_ranges(data, &mut pos) {
            Some(v) => v,
            None => {
                return false;
            },
        };
        proof {
            assert(ranges.deep_view() == spec_acked_ranges(data@));
        }
        self.recovery.apply_incoming_ack(&ranges);
        proof {
            crate::recovery::lemma_filter_subset(
                old(self).recovery@.entries,
                |e: crate::recovery::RecoveryEntryModel|
                    !crate::recovery::seq_covered(e.sequence_number, ranges.deep_view()),
            );
            assert forall|i: int|
                0 <= i < self.recovery@.entries.len() implies (
            #[trigger] self.recovery@.entries[i]).sequence_number
                < self.send_queue@.next_sequence by {
                assert(old(self).recovery@.entries.contains(self.recovery@.entries[i]));
                let w = choose|w: int|
                    0 <= w < old(self).recovery@.entries.len() && old(self).recovery@.entries[w]
                        == self.recovery@.entries[i];
            }
        }
        true
    }

    /// Applies a received negative acknowledgement: every covered
    /// datagram leaves the recovery queue and is queued to be resent,
    /// regardless of its age, under a fresh sequence number at the next
    /// tick.
    pub fn receive_nack(&mut self, data: &[u8]) -> (r: bool)
        requires
            old(self).wf(),
        ensures
            final(self).wf(),
            final(self).spec_state() == old(self).spec_state(),
            final(self).spec_mtu() == old(self).spec_mtu(),
            final(self).spec_guid() == old(self).spec_guid(),
            final(self).spec_last_update() == old(self).spec_last_update(),
            final(self).spec_pending() == old(self).spec_pending(),
            r == Session::spec_is_nack_packet(data@),
            r ==> final(self).spec_unacked() == old(self).spec_unacked().filter(
                |e: crate::recovery::RecoveryEntryModel|
                    !crate::recovery::seq_covered(e.sequence_number, spec_nacked_ranges(data@)),
            ),
            r ==> final(self).spec_retransmit_bodies() == old(self).spec_retransmit_bodies() + old(self).spec_unacked().filter(
                |e: crate::recovery::RecoveryEntryModel|
                    crate::recovery::seq_covered(e.sequence_number, spec_nacked_ranges(data@)),
            ).map_values(|e: crate::recovery::RecoveryEntryModel| e.bytes),
            !r ==> final(self).spec_unacked() == old(self).spec_unacked() && final(self).spec_retransmit_bodies() == old(self).spec_retransmit_bodies(),
            final(self).spec_sequence_budget() <= old(self).spec_sequence_budget(),
    {
        let mut pos: usize = 0;
        let id = match crate::wire::read_u8(data, &mut pos) {
            Some(v) => v,
            None => {
                return false;
            },
        };
        if id != NACK_PACKET_ID {
            return false;
        }
        let ranges = match crate::tracker::decode_ack_ranges(data, &mut pos) {
            Some(v) => v,
            None => {
                return false;
            },
        };
        proof {
            assert(ranges.deep_view() == spec_nacked_ranges(data@));
        }
        let mut bodies = self.recovery.apply_incoming_nack(&ranges);
        proof {
            crate::recovery::lemma_filter_subset(
                old(self).recovery@.entries,
                |e: crate::recovery::RecoveryEntryModel|
                    !crate::recovery::seq_covered(e.sequence_number, ranges.deep_view()),
            );
            assert forall|i: int|
                0 <= i < self.recovery@.entries.len() implies (
            #[trigger] self.recovery@.entries[i]).sequence_number
                < self.send_queue@.next_sequence by {
                assert(old(self).recovery@.entries.contains(self.recovery@.entries[i]));
                let w = choose|w: int|
                    0 <= w < old(self).recovery@.entries.len() && old(self).recovery@.entries[w]
                        == self.recovery@.entries[i];
            }
            lemma_filter_partition(
                old(self).recovery@.entries,
                |e: crate::recovery::RecoveryEntryModel|
                    !crate::recovery::seq_covered(e.sequence_number, ranges.deep_view()),
                |e: crate::recovery::RecoveryEntryModel|
                    crate::recovery::seq_covered(e.sequence_number, ranges.deep_view()),
            );
        }
        let ghost entries_now = self.recovery@.entries;
        let mut k: usize = 0;
        while k < bodies.len()
            invariant
                k <= bodies@.len(),
                self.wf(),
                self.state == old(self).state,
                self.mtu == old(self).mtu,
                self.guid == old(self).guid,
                self.last_update == old(self).last_update,
                self.send_queue@ == old(self).send_queue@,
                self.tracker@ == old(self).tracker@,
                self.recovery@ == old(self).recovery@ || self.recovery@.entries == entries_now,
                self.recovery@.entries == entries_now,
                entries_now.len() + bodies.deep_view().len() == old(self).recovery@.entries.len(),
                self.retransmit.deep_view() == old(self).retransmit.deep_view()
                    + bodies.deep_view().subrange(0, k as int),
            decreases bodies@.len() - k,
        {
            let ghost rt0 = self.retransmit.deep_view();
            let b = crate::recovery::clone_bytes(&bodies[k]);
            self.retransmit.push(b);
            k = k + 1;
            proof {
                assert(self.retransmit.deep_view() =~~= rt0.push(bodies.deep_view()[k - 1]));
                assert(bodies.deep_view().subrange(0, k as int) =~= bodies.deep_view().subrange(
                    0,
                    k - 1,
                ).push(bodies.deep_view()[k - 1]));
            }
        }
        proof {
            assert(bodies.deep_view().subrange(0, bodies.deep_view().len() as int)
                =~= bodies.deep_view());
            assert(self.retransmit.deep_view() =~~= old(self).retransmit.deep_view()
                + bodies.deep_view());
        }
        true
    }
}

/// The ranges an acknowledgement control packet carries, when its id and
/// body parse; what `receive_ack` applies.
pub open spec fn spec_acked_ranges(d: Seq<u8>) -> Seq<(u32, u32)> {
    spec_control_ranges(d)
}

/// The ranges a negative acknowledgement control packet carries, when
/// its id and body parse; what `receive_nack` applies.
pub open spec fn spec_nacked_ranges(d: Seq<u8>) -> Seq<(u32, u32)> {
    spec_control_ranges(d)
}

/// The range records of a control packet body, mirroring the executable
/// range decoder.
pub open spec fn spec_control_ranges(d: Seq<u8>) -> Seq<(u32, u32)> {
    match crate::tracker::spec_decode_ack_body(d, 1) {
        Some(rs) => rs,
        None => Seq::<(u32, u32)>::empty(),
    }
}


impl Session {
    /// Executable view of the sequence-space budget, for a caller that
    /// must check the tick precondition.
    pub fn sequence_budget(&self) -> (r: usize)
        requires
            self.spec_sequence_budget() <= usize::MAX,
        ensures
            r == self.spec_sequence_budget(),
    {
        proof {
            assert(self.retransmit@.len() == self.retransmit.deep_view().len());
        }
        self.send_queue.next_sequence_value() as usize + self.send_queue.pending_len()
            + self.retransmit.len() + self.recovery_len()
    }

    /// Number of unacknowledged recorded datagrams.
    fn recovery_len(&self) -> (r: usize)
        ensures
            r == self.recovery@.entries.len(),
    {
        self.recovery.len()
    }

    /// Whether the inactivity timeout has passed at `now`.
    pub open spec fn spec_timed_out(self, now: u64) -> bool {
        now > self.spec_last_update() && now - self.spec_last_update()
            > self.spec_session_timeout()
    }

    /// The configured inactivity window.
    pub closed spec fn spec_session_timeout(self) -> u64 {
        self.session_timeout
    }

    /// Runs one tick of the session at time `now`.
    ///
    /// The receive side has already run; this is the timed half of the
    /// cycle: force-close on inactivity, evict stale compound groups,
    /// queue expired datagrams for retransmission, resend everything
    /// queued under fresh sequence numbers, drain the send queue into
    /// MTU-sized datagrams — recording the reliable ones — and flush the
    /// pending ACK and NACK ranges.  The returned datagram list is
    /// pinned: first the retransmissions, then the encoded batches
    /// draining the send queue, then the ACK packets, then the NACK
    /// packets.  A disconnecting session closes once this flush is out.
    #[verifier::rlimit(100)]
    #[verifier::spinoff_prover]
    pub fn tick(&mut self, now: u64) -> (r: TickOutput)
        requires
            old(self).wf(),
            old(self).spec_sequence_budget() <= 0x1000000,
        ensures
            final(self).wf(),
            final(self).spec_mtu() == old(self).spec_mtu(),
            final(self).spec_guid() == old(self).spec_guid(),
            final(self).spec_last_update() == old(self).spec_last_update(),
            old(self).spec_state() == SessionState::Closed ==> final(self).spec_state()
                == SessionState::Closed && r.datagrams@.len() == 0 && *final(self) == *old(self),
            old(self).spec_state() != SessionState::Closed ==> final(self).spec_pending() == Seq::<
                FrameModel,
            >::empty() && final(self).spec_pending_acks() == Seq::<u32>::empty() && final(self).spec_pending_nacks() == Seq::<u32>::empty() && final(self).spec_retransmit_count()
                == 0,
            old(self).spec_state() == SessionState::Connecting ==> final(self).spec_state()
                == SessionState::Connecting,
            old(self).spec_state() == SessionState::Active && !old(self).spec_timed_out(now)
                ==> final(self).spec_state() == SessionState::Active,
            old(self).spec_state() == SessionState::Active && old(self).spec_timed_out(now)
                ==> final(self).spec_state() == SessionState::Closed,
            old(self).spec_state() == SessionState::Disconnecting ==> final(self).spec_state()
                == SessionState::Closed,
            r.closed == (final(self).spec_state() == SessionState::Closed),
            old(self).spec_state() != SessionState::Closed ==> exists|
                bs: Seq<FrameBatchModel>,
                ars: Seq<(u32, u32)>,
                nrs: Seq<(u32, u32)>,
            |
                #![trigger spec_batch_datagrams(bs), spec_control_packets(ACK_PACKET_ID, ars), spec_control_packets(NACK_PACKET_ID, nrs)]
                {
                    &&& batches_frames(bs) == old(self).spec_pending()
                    &&& bs.len() <= old(self).spec_pending().len()
                    &&& forall|i: int|
                        0 <= i < bs.len() ==> (#[trigger] bs[i]).sequence_number == old(
                            self,
                        ).spec_next_sequence() + old(self).spec_due_bodies(now).len() + i && bs[
                            i].frames.len() >= 1 && batch_valid(bs[i]) && spec_batch_size(
                            bs[i].frames,
                        ) <= old(self).spec_mtu()
                    &&& (forall|x: u32|
                        crate::recovery::seq_covered(x, ars) <==> old(
                            self,
                        ).spec_pending_acks().contains(x))
                    &&& crate::tracker::ranges_minimal(ars)
                    &&& (forall|x: u32|
                        crate::recovery::seq_covered(x, nrs) <==> old(
                            self,
                        ).spec_pending_nacks().contains(x))
                    &&& crate::tracker::ranges_minimal(nrs)
                    &&& r.datagrams.deep_view() == spec_retransmit_datagrams(
                        old(self).spec_due_bodies(now),
                        old(self).spec_next_sequence(),
                    ) + spec_batch_datagrams(bs) + spec_control_packets(ACK_PACKET_ID, ars)
                        + spec_control_packets(NACK_PACKET_ID, nrs)
                    &&& final(self).spec_unacked() == old(self).spec_unacked().filter(
                        |e: crate::recovery::RecoveryEntryModel|
                            !crate::recovery::entry_expired(
                                e,
                                now,
                                old(self).spec_retransmit_timeout(),
                            ),
                    ) + spec_retransmit_records(
                        old(self).spec_due_bodies(now),
                        old(self).spec_next_sequence(),
                        now,
                    ) + spec_batch_records(bs, now)
                    &&& final(self).spec_next_sequence() == old(self).spec_next_sequence() + old(
                        self,
                    ).spec_due_bodies(now).len() + bs.len()
                },
    {
        let mut datagrams: Vec<Vec<u8>> = Vec::new();
        match self.state {
            SessionState::Closed => {
                return TickOutput { datagrams, closed: true };
            },
            _ => {},
        }
        // Liveness: a silent peer is force-closed through the same path
        // as an explicit kick.
        match self.state {
            SessionState::Active => {
                if now > self.last_update && now - self.last_update > self.session_timeout {
                    self.state = SessionState::Disconnecting;
                }
            },
            _ => {},
        }
        let ghost st1 = self.state;
        let ghost due = old(self).spec_due_bodies(now);
        let ghost s0r = self.send_queue@.next_sequence;
        // Stale compound groups go first.
        self.collector.evict_stale(now);
        // Expired reliable datagrams join the retransmission queue.
        let expired = self.recovery.collect_expired(now);
        proof {
            lemma_filter_partition(
                old(self).recovery@.entries,
                |e: crate::recovery::RecoveryEntryModel|
                    !crate::recovery::entry_expired(e, now, old(self).recovery@.timeout),
                |e: crate::recovery::RecoveryEntryModel|
                    crate::recovery::entry_expired(e, now, old(self).recovery@.timeout),
            );
            crate::recovery::lemma_filter_subset(
                old(self).recovery@.entries,
                |e: crate::recovery::RecoveryEntryModel|
                    !crate::recovery::entry_expired(e, now, old(self).recovery@.timeout),
            );
            assert forall|i: int|
                0 <= i < self.recovery@.entries.len() implies (
            #[trigger] self.recovery@.entries[i]).sequence_number
                < self.send_queue@.next_sequence by {
                assert(old(self).recovery@.entries.contains(self.recovery@.entries[i]));
                let w = choose|w: int|
                    0 <= w < old(self).recovery@.entries.len() && old(self).recovery@.entries[w]
                        == self.recovery@.entries[i];
            }
        }
        let ghost kept = self.recovery@.entries;
        let mut k: usize = 0;
        while k < expired.len()
            invariant
                k <= expired@.len(),
                self.wf(),
                self.mtu == old(self).mtu,
                self.guid == old(self).guid,
                self.last_update == old(self).last_update,
                self.state == st1,
                self.send_queue@ == old(self).send_queue@,
                self.tracker@ == old(self).tracker@,
                self.recovery@.entries == kept,
                self.recovery@.timeout == old(self).recovery@.timeout,
                kept.len() + expired.deep_view().len() + old(self).retransmit@.len() <= old(
                    self,
                ).recovery@.entries.len() + old(self).retransmit@.len(),
                self.retransmit.deep_view() == old(self).retransmit.deep_view()
                    + expired.deep_view().subrange(0, k as int),
            decreases expired@.len() - k,
        {
            let ghost rt0 = self.retransmit.deep_view();
            let b = crate::recovery::clone_bytes(&expired[k]);
            self.retransmit.push(b);
            k = k + 1;
            proof {
                assert(self.retransmit.deep_view() =~~= rt0.push(expired.deep_view()[k - 1]));
                assert(expired.deep_view().subrange(0, k as int) =~= expired.deep_view().subrange(
                    0,
                    k - 1,
                ).push(expired.deep_view()[k - 1]));
            }
        }
        proof {
            assert(expired.deep_view().subrange(0, expired.deep_view().len() as int)
                =~= expired.deep_view());
            assert(self.retransmit.deep_view() =~~= due);
        }
        // Everything queued for retransmission leaves now, re-recorded
        // under fresh sequence numbers.
        let mut rk: usize = 0;
        while rk < self.retransmit.len()
            invariant
                rk <= self.retransmit@.len(),
                self.wf(),
                self.mtu == old(self).mtu,
                self.guid == old(self).guid,
                self.last_update == old(self).last_update,
                self.state == st1,
                self.tracker@ == old(self).tracker@,
                self.recovery@.timeout == old(self).recovery@.timeout,
                self.retransmit.deep_view() == due,
                self.send_queue@.pending == old(self).send_queue@.pending,
                self.send_queue@.next_sequence == s0r + rk,
                self.send_queue@.next_sequence + (self.retransmit@.len() - rk)
                    + self.send_queue@.pending.len() <= 0x1000000,
                forall|i: int|
                    0 <= i < kept.len() ==> (#[trigger] kept[i]).sequence_number < s0r,
                self.recovery@.entries == kept + spec_retransmit_records(due, s0r, now).take(
                    rk as int,
                ),
                datagrams.deep_view() == spec_retransmit_datagrams(due, s0r).take(rk as int),
            decreases self.retransmit@.len() - rk,
        {
            let seq = self.send_queue.take_sequence();
            let body = crate::recovery::clone_bytes(&self.retransmit[rk]);
            let dg = datagram_from_body(seq, &body);
            proof {
                assert(body@ == due[rk as int]);
                assert forall|i: int|
                    0 <= i < self.recovery@.entries.len() implies (
                #[trigger] self.recovery@.entries[i]).sequence_number < seq by {
                    if i < kept.len() {
                        assert(self.recovery@.entries[i] == kept[i]);
                    } else {
                        assert(self.recovery@.entries[i] == spec_retransmit_records(
                            due,
                            s0r,
                            now,
                        ).take(rk as int)[i - kept.len()]);
                    }
                }
            }
            self.recovery.record(seq, body, now);
            let ghost dgs0 = datagrams.deep_view();
            datagrams.push(dg);
            rk = rk + 1;
            proof {
                assert(spec_retransmit_datagrams(due, s0r)[rk - 1] == spec_framed_datagram(
                    seq,
                    due[rk - 1],
                ));
                assert(datagrams.deep_view() =~~= dgs0.push(
                    spec_retransmit_datagrams(due, s0r)[rk - 1],
                ));
                assert(spec_retransmit_datagrams(due, s0r).take(rk as int)
                    =~= spec_retransmit_datagrams(due, s0r).take(rk - 1).push(
                    spec_retransmit_datagrams(due, s0r)[rk - 1],
                ));
                assert(spec_retransmit_records(due, s0r, now).take(rk as int)
                    =~= spec_retransmit_records(due, s0r, now).take(rk - 1).push(
                    spec_retransmit_records(due, s0r, now)[rk - 1],
                ));
                assert(self.recovery@.entries =~= kept + spec_retransmit_records(
                    due,
                    s0r,
                    now,
                ).take(rk as int));
            }
        }
        self.retransmit = Vec::new();
        proof {
            assert(self.retransmit@.len() == 0);
            assert(spec_retransmit_records(due, s0r, now).take(due.len() as int)
                =~= spec_retransmit_records(due, s0r, now));
            assert(spec_retransmit_datagrams(due, s0r).take(due.len() as int)
                =~= spec_retransmit_datagrams(due, s0r));
            assert(datagrams.deep_view() == spec_retransmit_datagrams(due, s0r));
        }
        // Drain the send queue into datagrams, recording the reliable
        // ones for retransmission.
        let ghost s0 = self.send_queue@.next_sequence;
        let ghost kept2 = self.recovery@.entries;
        let batches = self.send_queue.drain_batches(self.mtu);
        let ghost bdv = batches.deep_view();
        proof {
            assert(spec_batch_records(bdv.take(0), now) =~= Seq::<
                crate::recovery::RecoveryEntryModel,
            >::empty()) by {
                assert(bdv.take(0) =~= Seq::<FrameBatchModel>::empty());
                reveal(Seq::filter);
            }
        }
        let mut bi: usize = 0;
        while bi < batches.len()
            invariant
                bi <= batches@.len(),
                self.wf(),
                self.mtu == old(self).mtu,
                self.guid == old(self).guid,
                self.last_update == old(self).last_update,
                self.state == st1,
                self.tracker@ == old(self).tracker@,
                self.retransmit@.len() == 0,
                self.send_queue@.pending == Seq::<FrameModel>::empty(),
                bdv == batches.deep_view(),
                self.send_queue@.next_sequence == s0 + bdv.len(),
                forall|j: int|
                    0 <= j < bdv.len() ==> (#[trigger] bdv[j]).sequence_number == s0 + j
                        && batch_valid(bdv[j]),
                forall|i: int|
                    0 <= i < kept2.len() ==> (#[trigger] kept2[i]).sequence_number < s0,
                self.recovery@.entries == kept2 + spec_batch_records(bdv.take(bi as int), now),
                datagrams.deep_view() == spec_retransmit_datagrams(due, s0r)
                    + spec_batch_datagrams(bdv).take(bi as int),
            decreases batches@.len() - bi,
        {
            proof {
                assert(bdv[bi as int] == batches@[bi as int]@);
            }
            let bytes = encode_batch(&batches[bi]);
            if batch_has_reliable(&batches[bi]) {
                proof {
                    assert(bytes@.len() >= 4);
                    assert forall|i: int|
                        0 <= i < self.recovery@.entries.len() implies (
                    #[trigger] self.recovery@.entries[i]).sequence_number < bdv[
                        bi as int].sequence_number by {
                        if i < kept2.len() {
                            assert(self.recovery@.entries[i] == kept2[i]);
                        } else {
                            let recs = spec_batch_records(bdv.take(bi as int), now);
                            assert(self.recovery@.entries[i] == recs[i - kept2.len()]);
                            lemma_batch_record_seqs(bdv.take(bi as int), now, i - kept2.len());
                        }
                    }
                }
                let body = body_of(&bytes);
                proof {
                    assert(body@ =~= spec_encode_batch(bdv[bi as int]).skip(4));
                }
                self.recovery.record(batches[bi].sequence_number, body, now);
            }
            let ghost dgs0 = datagrams.deep_view();
            datagrams.push(bytes);
            bi = bi + 1;
            proof {
                lemma_batch_records_snoc(bdv.take(bi - 1), bdv[bi - 1], now);
                assert(bdv.take(bi as int) =~= bdv.take(bi - 1).push(bdv[bi - 1]));
                assert(self.recovery@.entries =~= kept2 + spec_batch_records(
                    bdv.take(bi as int),
                    now,
                ));
                assert(spec_batch_datagrams(bdv)[bi - 1] == spec_encode_batch(bdv[bi - 1]));
                assert(datagrams.deep_view() =~~= dgs0.push(spec_batch_datagrams(bdv)[bi - 1]));
                assert(spec_batch_datagrams(bdv).take(bi as int) =~= spec_batch_datagrams(
                    bdv,
                ).take(bi - 1).push(spec_batch_datagrams(bdv)[bi - 1]));
                assert(datagrams.deep_view() =~= spec_retransmit_datagrams(due, s0r)
                    + spec_batch_datagrams(bdv).take(bi as int));
            }
        }
        proof {
            assert(bdv.take(bdv.len() as int) =~= bdv);
            assert(spec_batch_datagrams(bdv).take(bdv.len() as int) =~= spec_batch_datagrams(bdv));
        }
        // Flush pending acknowledgement and gap ranges.
        let ghost dgs_before_acks = datagrams.deep_view();
        let acks = self.tracker.build_ack_ranges();
        emit_control_packets(ACK_PACKET_ID, &acks, &mut datagrams);
        let ghost dgs_before_nacks = datagrams.deep_view();
        let nacks = self.tracker.build_nack_ranges();
        emit_control_packets(NACK_PACKET_ID, &nacks, &mut datagrams);
        // A disconnecting session has now flushed what was pending.
        let closed = match self.state {
            SessionState::Disconnecting => {
                self.state = SessionState::Closed;
                true
            },
            _ => false,
        };
        proof {
            let bs = bdv;
            let ars = acks.deep_view();
            let nrs = nacks.deep_view();
            assert(datagrams.deep_view() =~~= spec_retransmit_datagrams(due, s0r)
                + spec_batch_datagrams(bs) + spec_control_packets(ACK_PACKET_ID, ars)
                + spec_control_packets(NACK_PACKET_ID, nrs));
            assert(self.recovery@.entries =~= old(self).recovery@.entries.filter(
                |e: crate::recovery::RecoveryEntryModel|
                    !crate::recovery::entry_expired(e, now, old(self).spec_retransmit_timeout()),
            ) + spec_retransmit_records(due, s0r, now) + spec_batch_records(bs, now));
        }
        TickOutput { datagrams, closed }
    }
}

/// Every recorded sequence number of a batch run lies below any later
/// batch's.
proof fn lemma_batch_record_seqs(bs: Seq<FrameBatchModel>, now: u64, i: int)
    requires
        0 <= i < spec_batch_records(bs, now).len(),
    ensures
        exists|w: int|
            0 <= w < bs.len() && (#[trigger] bs[w]).sequence_number == spec_batch_records(
                bs,
                now,
            )[i].sequence_number,
{
    let pred = |b: FrameBatchModel| spec_batch_reliable(b);
    crate::recovery::lemma_filter_subset(bs, pred);
    assert(spec_batch_records(bs, now)[i] == spec_batch_record(bs.filter(pred)[i], now));
    assert(bs.contains(bs.filter(pred)[i]));
    let w = choose|w: int| 0 <= w < bs.len() && bs[w] == bs.filter(pred)[i];
    assert(bs[w].sequence_number == spec_batch_records(bs, now)[i].sequence_number);
}

/// Encodes ranges as acknowledgement control packets, at most one
/// record-count field's worth per packet, appending exactly the
/// packets `spec_control_packets` names to the datagram list.
fn emit_control_packets(id: u8, ranges: &Vec<(u32, u32)>, datagrams: &mut Vec<Vec<u8>>)
    requires
        forall|i: int|
            0 <= i < ranges.deep_view().len() ==> (#[trigger] ranges.deep_view()[i]).0 < 0x1000000
                && ranges.deep_view()[i].1 < 0x1000000,
    ensures
        final(datagrams).deep_view() == old(datagrams).deep_view() + spec_control_packets(
            id,
            ranges.deep_view(),
        ),
{
    let ghost rdv = ranges.deep_view();
    let mut start: usize = 0;
    proof {
        assert(rdv.skip(0) =~= rdv);
    }
    while start < ranges.len()
        invariant
            start <= ranges@.len(),
            rdv == ranges.deep_view(),
            forall|i: int|
                0 <= i < rdv.len() ==> (#[trigger] rdv[i]).0 < 0x1000000 && rdv[i].1 < 0x1000000,
            old(datagrams).deep_view() + spec_control_packets(id, rdv) == datagrams.deep_view()
                + spec_control_packets(id, rdv.skip(start as int)),
        decreases ranges@.len() - start,
    {
        let end = if ranges.len() - start > 0xffff {
            start + 0xffff
        } else {
            ranges.len()
        };
        let mut chunk: Vec<(u32, u32)> = Vec::new();
        let mut i: usize = start;
        while i < end
            invariant
                start <= i <= end,
                end <= ranges@.len(),
                end - start <= 0xffff,
                rdv == ranges.deep_view(),
                chunk@ == ranges@.subrange(start as int, i as int),
                forall|j: int|
                    0 <= j < rdv.len() ==> (#[trigger] rdv[j]).0 < 0x1000000 && rdv[j].1
                        < 0x1000000,
            decreases end - i,
        {
            let (lo, hi) = ranges[i];
            proof {
                assert(ranges@[i as int] == (lo, hi));
            }
            chunk.push((lo, hi));
            i = i + 1;
            proof {
                assert(chunk@ =~= ranges@.subrange(start as int, i as int));
            }
        }
        proof {
            assert forall|k: int| 0 <= k < chunk.deep_view().len() implies #[trigger] chunk.deep_view()[k]
                == rdv[start + k] by {
                assert(chunk.deep_view()[k] == chunk@[k].deep_view());
                assert(chunk@[k] == ranges@[start + k]);
                assert(rdv[start + k] == ranges@[start + k].deep_view());
            }
            assert(chunk.deep_view().len() == chunk@.len());
            assert(chunk.deep_view() =~= rdv.subrange(start as int, end as int));
            assert(crate::tracker::ranges_encodable(chunk.deep_view()));
        }
        let pkt = crate::tracker::encode_ack_packet(id, &chunk);
        let ghost dgs0 = datagrams.deep_view();
        datagrams.push(pkt);
        proof {
            let rest = rdv.skip(start as int);
            if end < ranges@.len() {
                assert(rest.take(0xffff) =~= rdv.subrange(start as int, end as int));
                assert(rest.skip(0xffff) =~= rdv.skip(end as int));
                assert(spec_control_packets(id, rest) == seq![
                    crate::tracker::spec_encode_ack_packet(id, chunk.deep_view()),
                ] + spec_control_packets(id, rdv.skip(end as int)));
            } else {
                assert(rest =~= rdv.subrange(start as int, end as int));
                assert(rdv.skip(end as int).len() == 0);
                assert(spec_control_packets(id, rdv.skip(end as int)) =~= Seq::<Seq<u8>>::empty());
                assert(spec_control_packets(id, rest) =~= seq![
                    crate::tracker::spec_encode_ack_packet(id, chunk.deep_view()),
                ]);
            }
            assert(datagrams.deep_view() =~~= dgs0.push(
                crate::tracker::spec_encode_ack_packet(id, chunk.deep_view()),
            ));
            assert(old(datagrams).deep_view() + spec_control_packets(id, rdv)
                =~~= datagrams.deep_view() + spec_control_packets(id, rdv.skip(end as int)));
        }
        start = end;
    }
    proof {
        assert(rdv.skip(start as int).len() == 0);
        assert(spec_control_packets(id, rdv.skip(start as int)) =~= Seq::<Seq<u8>>::empty());
        assert(final(datagrams).deep_view() =~~= old(datagrams).deep_view()
            + spec_control_packets(id, rdv));
    }
}

} // verus!
