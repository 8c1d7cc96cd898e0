//! Behaviour of the reliability engine: ordering, reassembly,
//! retransmission bookkeeping and the whole session cycle.

use raknet_core::compound::CompoundCollector;
use raknet_core::frame::Frame;
use raknet_core::frame::Reliability;
use raknet_core::order_channel::OrderChannel;
use raknet_core::packets::control::Addr;
use raknet_core::session::BufPacket;
use raknet_core::recovery::RecoveryQueue;
use raknet_core::session::Session;
use raknet_core::session::SessionConfig;
use raknet_core::session::SessionState;
use raknet_core::tracker::AcknowledgementTracker;

#[test]
fn order_channel() {
    let mut test_frame = Frame::default();
    let mut channel = OrderChannel::new();

    test_frame.order_index = 0;
    assert!(channel.insert(test_frame.clone()).is_some());

    test_frame.order_index = 2;
    assert!(channel.insert(test_frame.clone()).is_none());

    test_frame.order_index = 1;
    let output = channel.insert(test_frame).unwrap();

    assert_eq!(output.len(), 2);
    assert_eq!(output[0].order_index, 1);
    assert_eq!(output[1].order_index, 2);
}

#[test]
fn test_order_channel() {
    let mut test_frame = Frame::default();
    let mut channel = OrderChannel::new();

    test_frame.order_index = 0;
    assert!(channel.insert(test_frame.clone()).is_some());

    test_frame.order_index = 2;
    assert!(channel.insert(test_frame.clone()).is_none());

    test_frame.order_index = 1;
    let output = channel.insert(test_frame).unwrap();

    assert_eq!(output.len(), 2);
    assert_eq!(output[0].order_index, 1);
    assert_eq!(output[1].order_index, 2);
}

#[test]
fn order_channel_duplicate_release_is_empty() {
    let mut channel = OrderChannel::new();
    let mut frame = Frame::default();
    frame.order_index = 0;
    assert!(channel.insert(frame.clone()).is_some());
    // Re-inserting an already-released index yields no release.
    assert!(channel.insert(frame.clone()).is_none());
    // An already-buffered index is dropped too.
    frame.order_index = 5;
    assert!(channel.insert(frame.clone()).is_none());
    assert!(channel.insert(frame).is_none());
}

#[test]
fn sequenced_channel_latest_wins() {
    let mut channel = OrderChannel::new();
    let mut frame = Frame::default();
    frame.reliability = Reliability::UnreliableSequenced;

    frame.sequence_index = 5;
    assert!(channel.insert_sequenced(&frame));
    frame.sequence_index = 3;
    assert!(!channel.insert_sequenced(&frame));
    frame.sequence_index = 7;
    assert!(channel.insert_sequenced(&frame));
}

fn fragment(id: u16, size: u32, index: u32, payload: &[u8]) -> Frame {
    let mut f = Frame::default();
    f.reliability = Reliability::Reliable;
    f.compound_id = id;
    f.compound_size = size;
    f.compound_index = index;
    f.payload = payload.to_vec();
    f
}

#[test]
fn compound_collector_reassembles_in_index_order() {
    let mut collector = CompoundCollector::new(1000);
    assert!(collector.insert(fragment(9, 3, 2, b"cc"), 0).is_none());
    assert!(collector.insert(fragment(9, 3, 0, b"aa"), 0).is_none());
    let whole = collector.insert(fragment(9, 3, 1, b"bb"), 0).unwrap();
    assert_eq!(whole, b"aabbcc".to_vec());
}

#[test]
fn compound_collector_passes_whole_frames_through() {
    let mut collector = CompoundCollector::new(1000);
    let mut f = Frame::default();
    f.payload = b"plain".to_vec();
    assert_eq!(collector.insert(f, 0).unwrap(), b"plain".to_vec());
}

#[test]
fn compound_collector_evicts_stale_groups() {
    let mut collector = CompoundCollector::new(10);
    assert!(collector.insert(fragment(1, 2, 0, b"xx"), 0).is_none());
    collector.evict_stale(100);
    // The first fragment aged out: the second alone cannot finish the
    // group, it only reopens it.
    assert!(collector.insert(fragment(1, 2, 1, b"yy"), 100).is_none());
}

#[test]
fn recovery_queue_expires_exactly_once() {
    let mut queue = RecoveryQueue::new(100);
    queue.record(1, b"abc".to_vec(), 10);
    // Not yet expired at the deadline itself.
    assert!(queue.collect_expired(110).is_empty());
    let expired = queue.collect_expired(111);
    assert_eq!(expired, vec![b"abc".to_vec()]);
    // Gone afterwards.
    assert!(queue.collect_expired(1000).is_empty());
}

#[test]
fn recovery_queue_acknowledged_never_expires() {
    let mut queue = RecoveryQueue::new(100);
    queue.record(1, b"abc".to_vec(), 10);
    queue.acknowledge(1);
    assert!(queue.collect_expired(1000).is_empty());
}

#[test]
fn recovery_queue_nack_returns_bytes_regardless_of_age() {
    let mut queue = RecoveryQueue::new(100);
    queue.record(3, b"abc".to_vec(), 10);
    queue.record(4, b"def".to_vec(), 10);
    let replay = queue.apply_incoming_nack(&vec![(4, 4)]);
    assert_eq!(replay, vec![b"def".to_vec()]);
    assert!(queue.contains(3));
    assert!(!queue.contains(4));
}

#[test]
fn tracker_compresses_minimal_ranges() {
    let mut tracker = AcknowledgementTracker::new();
    tracker.on_received(0);
    tracker.on_received(1);
    tracker.on_received(2);
    tracker.on_received(3);
    tracker.on_received(7);
    assert_eq!(tracker.build_ack_ranges(), vec![(0, 3), (7, 7)]);
    // The skipped numbers became gaps to report.
    assert_eq!(tracker.build_nack_ranges(), vec![(4, 6)]);
    // Flushing cleared both sets.
    assert!(tracker.build_ack_ranges().is_empty());
    assert!(tracker.build_nack_ranges().is_empty());
}

#[test]
fn tracker_gap_filled_clears_nack() {
    let mut tracker = AcknowledgementTracker::new();
    tracker.on_received(0);
    tracker.on_received(2);
    tracker.on_received(1);
    assert_eq!(tracker.build_nack_ranges(), vec![]);
    assert_eq!(tracker.build_ack_ranges(), vec![(0, 2)]);
}

fn config() -> SessionConfig {
    SessionConfig { retransmit_timeout: 100, compound_max_age: 1000, session_timeout: 5000 }
}

#[test]
fn end_to_end_reassembles_reversed_batches() {
    let mut sender = Session::new(1400, 1, config(), 0);
    sender.activate(0);
    let small = b"before".to_vec();
    let big: Vec<u8> = (0..5000u32).map(|i| (i % 251) as u8).collect();
    sender.send(small.clone(), Reliability::ReliableOrdered, 0);
    sender.send(big.clone(), Reliability::ReliableOrdered, 0);
    let out = sender.tick(1);
    // The oversized payload split across several datagrams.
    assert!(out.datagrams.len() > 3);

    let mut receiver = Session::new(1400, 2, config(), 0);
    receiver.activate(0);
    let mut delivered: Vec<Vec<u8>> = Vec::new();
    for datagram in out.datagrams.iter().rev() {
        let mut got = receiver.receive_datagram(&datagram[..], 2).unwrap();
        delivered.append(&mut got);
    }
    // Both payloads arrive exactly once, in submission order.
    assert_eq!(delivered.len(), 2);
    assert_eq!(delivered[0], small);
    assert_eq!(delivered[1], big);
}

#[test]
fn session_times_out_and_closes() {
    let mut session = Session::new(1400, 7, config(), 0);
    session.activate(0);
    assert!(session.is_active());
    let out = session.tick(10_000);
    assert!(out.closed);
    assert!(!session.is_active());
}

#[test]
fn session_retransmits_expired_datagrams() {
    let mut sender = Session::new(1400, 1, config(), 0);
    sender.activate(0);
    sender.send(b"needy".to_vec(), Reliability::Reliable, 0);
    let first = sender.tick(1);
    assert_eq!(first.datagrams.len(), 1);
    // Unacknowledged past the timeout: the same body leaves again
    // under a fresh sequence number.
    let second = sender.tick(200);
    assert_eq!(second.datagrams.len(), 1);
    assert_eq!(first.datagrams[0][4..], second.datagrams[0][4..]);
    assert_ne!(first.datagrams[0][..4], second.datagrams[0][..4]);
}

#[test]
fn session_ack_stops_retransmission() {
    let mut sender = Session::new(1400, 1, config(), 0);
    sender.activate(0);
    sender.send(b"ackme".to_vec(), Reliability::Reliable, 0);
    let first = sender.tick(1);
    assert_eq!(first.datagrams.len(), 1);

    let mut receiver = Session::new(1400, 2, config(), 0);
    receiver.activate(0);
    receiver.receive_datagram(&first.datagrams[0][..], 2).unwrap();
    let reply = receiver.tick(3);
    // The receiver's tick flushed one acknowledgement packet.
    assert_eq!(reply.datagrams.len(), 1);
    assert_eq!(reply.datagrams[0][0], raknet_core::session::ACK_PACKET_ID);

    assert!(sender.receive_ack(&reply.datagrams[0][..]));
    let later = sender.tick(500);
    assert!(later.datagrams.is_empty());
}

#[test]
fn session_state_machine_walks_to_closed() {
    let mut session = Session::new(1400, 9, config(), 0);
    assert!(!session.is_active());
    session.activate(0);
    assert!(session.is_active());
    session.disconnect();
    assert!(!session.is_active());
    let out = session.tick(1);
    assert!(out.closed);
    assert_eq!(session.get_guid(), 9);
    let _ = SessionState::Closed;
}

#[test]
fn session_delivers_plain_unreliable_payloads() {
    let mut sender = Session::new(1400, 1, config(), 0);
    sender.activate(0);
    sender.send(b"one".to_vec(), Reliability::Unreliable, 0);
    sender.send(b"two".to_vec(), Reliability::Unreliable, 0);
    let out = sender.tick(1);
    assert_eq!(out.datagrams.len(), 1);
    let mut receiver = Session::new(1400, 2, config(), 0);
    receiver.activate(0);
    let delivered = receiver.receive_datagram(&out.datagrams[0][..], 2).unwrap();
    assert_eq!(delivered, vec![b"one".to_vec(), b"two".to_vec()]);
}

#[test]
fn session_can_send_bounds() {
    let session = Session::new(1400, 1, config(), 0);
    assert!(session.can_send(5000, 0));
    assert!(!session.can_send(5000, 16));
    assert!(!session.can_send(10_000_000, 0));
}

#[test]
fn buf_packet_classifies() {
    let addr = Addr::V4 { a: 127, b: 0, c: 0, d: 1, port: 19132 };
    let unconnected = BufPacket { buf: vec![0x01, 2, 3], addr };
    assert!(unconnected.is_unconnected());
    assert_eq!(unconnected.packet_id(), Some(0x01));
    let framed = BufPacket { buf: vec![0x84, 0, 0, 0], addr };
    assert!(!framed.is_unconnected());
    let empty = BufPacket { buf: Vec::new(), addr };
    assert!(!empty.is_unconnected());
    assert_eq!(empty.packet_id(), None);
}

#[test]
fn session_drops_duplicate_reliable_frames() {
    let mut sender = Session::new(1400, 1, config(), 0);
    sender.activate(0);
    sender.send(b"once".to_vec(), Reliability::Reliable, 0);
    let out = sender.tick(1);
    let mut receiver = Session::new(1400, 2, config(), 0);
    receiver.activate(0);
    let first = receiver.receive_datagram(&out.datagrams[0][..], 2).unwrap();
    assert_eq!(first, vec![b"once".to_vec()]);
    // The identical datagram again: deduplicated by reliable index.
    let second = receiver.receive_datagram(&out.datagrams[0][..], 3).unwrap();
    assert!(second.is_empty());
}
