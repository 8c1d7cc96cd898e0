//! Byte-level behaviour: the frame batch codec round trip, the wire
//! primitives and the packed game packet header.

use raknet_core::codec::decode_batch;
use raknet_core::codec::encode_batch;
use raknet_core::frame::DecodeError;
use raknet_core::frame::Frame;
use raknet_core::frame::FrameBatch;
use raknet_core::frame::Reliability;
use raknet_core::packets::header::Header;
use raknet_core::wire::put_u24_le;
use raknet_core::wire::put_var_u32;
use raknet_core::wire::read_u24_le;
use raknet_core::wire::read_var_u32;

#[test]
fn read_write_var_u32() {
    let mut buffer: Vec<u8> = Vec::new();
    put_var_u32(&mut buffer, 45);
    put_var_u32(&mut buffer, 2769);
    put_var_u32(&mut buffer, 105356);
    put_var_u32(&mut buffer, 359745976);

    let mut pos = 0;
    assert_eq!(read_var_u32(&buffer[..], &mut pos).unwrap(), 45);
    assert_eq!(read_var_u32(&buffer[..], &mut pos).unwrap(), 2769);
    assert_eq!(read_var_u32(&buffer[..], &mut pos).unwrap(), 105356);
    assert_eq!(read_var_u32(&buffer[..], &mut pos).unwrap(), 359745976);

    let buffer = [0xc1u8, 0xe9, 0x33];
    let mut pos = 0;
    let a = read_var_u32(&buffer[..], &mut pos).unwrap();

    let mut buffer2: Vec<u8> = Vec::new();
    put_var_u32(&mut buffer2, a);

    assert_eq!(&[0xc1, 0xe9, 0x33], &buffer2[..]);
}

#[test]
fn read_write_u24_le() {
    let mut buffer: Vec<u8> = Vec::new();
    put_u24_le(&mut buffer, 125); // Test first byte only
    put_u24_le(&mut buffer, 50250); // Test first two bytes
    put_u24_le(&mut buffer, 1097359); // Test all bytes

    let mut pos = 0;
    assert_eq!(read_u24_le(&buffer[..], &mut pos).unwrap(), 125);
    assert_eq!(read_u24_le(&buffer[..], &mut pos).unwrap(), 50250);
    assert_eq!(read_u24_le(&buffer[..], &mut pos).unwrap(), 1097359);
}

#[test]
fn read_write_header() {
    let header = Header { id: 129, sender_subclient: 3, target_subclient: 2 };

    let mut buffer: Vec<u8> = Vec::new();
    header.serialize(&mut buffer);

    let mut pos = 0;
    assert_eq!(Header::deserialize(&buffer[..], &mut pos).unwrap(), header);
}

#[test]
fn header_encoding_decoding() {
    let encoded = [0xc1u8, 0xe9, 0x33];
    let mut pos = 0;
    let decoded = Header::decode(&encoded[..], &mut pos).unwrap();

    let mut reencoded: Vec<u8> = Vec::new();
    decoded.encode(&mut reencoded);

    assert_eq!(&reencoded[..], &[0xc1, 0xe9, 0x33]);
}

fn sample_batch() -> FrameBatch {
    let mut plain = Frame::default();
    plain.payload = b"plain".to_vec();

    let mut reliable = Frame::default();
    reliable.reliability = Reliability::Reliable;
    reliable.reliable_index = 7;
    reliable.payload = b"reliable".to_vec();

    let mut ordered = Frame::default();
    ordered.reliability = Reliability::ReliableOrdered;
    ordered.reliable_index = 8;
    ordered.order_index = 3;
    ordered.order_channel = 2;
    ordered.payload = b"ordered".to_vec();

    let mut sequenced = Frame::default();
    sequenced.reliability = Reliability::UnreliableSequenced;
    sequenced.sequence_index = 11;
    sequenced.order_index = 4;
    sequenced.order_channel = 1;
    sequenced.payload = b"sequenced".to_vec();

    let mut split = Frame::default();
    split.reliability = Reliability::Reliable;
    split.reliable_index = 9;
    split.compound_id = 5;
    split.compound_size = 3;
    split.compound_index = 1;
    split.payload = b"middle".to_vec();

    FrameBatch { sequence_number: 0x123456, frames: vec![plain, reliable, ordered, sequenced, split] }
}

#[test]
fn batch_codec_round_trip() {
    let batch = sample_batch();
    let encoded = encode_batch(&batch);
    let decoded = decode_batch(&encoded[..]).unwrap();
    assert_eq!(decoded, batch);
}

#[test]
fn batch_codec_empty_round_trip() {
    let batch = FrameBatch { sequence_number: 1, frames: Vec::new() };
    let encoded = encode_batch(&batch);
    assert_eq!(encoded.len(), 4);
    let decoded = decode_batch(&encoded[..]).unwrap();
    assert_eq!(decoded, batch);
}

#[test]
fn decode_truncated_datagram() {
    assert_eq!(decode_batch(&[][..]), Err(DecodeError::Truncated));
    assert_eq!(decode_batch(&[0x80u8, 1][..]), Err(DecodeError::Truncated));
    // Header fine, frame flags promise more than the buffer holds.
    assert_eq!(decode_batch(&[0x80u8, 1, 0, 0, 0x40][..]), Err(DecodeError::Truncated));
}

#[test]
fn decode_invalid_reliability_tag() {
    // The frame flags byte carries reliability tag seven.
    let data = [0x80u8, 0, 0, 0, 0xe0, 0, 0];
    assert_eq!(decode_batch(&data[..]), Err(DecodeError::InvalidReliability));
}

#[test]
fn decode_invalid_compound_metadata() {
    // A split frame declaring one fragment is inconsistent.
    let mut data: Vec<u8> = vec![0x80, 0, 0, 0];
    data.push((2 << 5) | 0x10); // reliable, split
    data.extend_from_slice(&[0, 0]); // zero payload bits
    data.extend_from_slice(&[0, 0, 0]); // reliable index
    data.extend_from_slice(&[1, 0, 0, 0]); // compound size one
    data.extend_from_slice(&[0, 0]); // compound id
    data.extend_from_slice(&[0, 0, 0, 0]); // compound index
    assert_eq!(decode_batch(&data[..]), Err(DecodeError::InvalidCompound));
}
