//! Tests for packet framing, encoding and decoding.

use libvirt_rpc::packet::{
    check_frame_len, MessageType, Packet, PacketError, Status, HEADER_SIZE, MAX_PACKET_SIZE,
    REMOTE_PROGRAM, REMOTE_PROTOCOL_VERSION,
};

#[test]
fn test_packet_encode_decode() {
    let payload = b"hello".to_vec();
    let packet = Packet::new_call(42, 1, payload.clone());

    let encoded = packet.encode();

    // Skip length prefix
    let decoded = Packet::decode(&encoded[4..]).unwrap();

    assert_eq!(decoded.program, REMOTE_PROGRAM);
    assert_eq!(decoded.version, REMOTE_PROTOCOL_VERSION);
    assert_eq!(decoded.procedure, 42);
    assert_eq!(decoded.msg_type, MessageType::Call);
    assert_eq!(decoded.serial, 1);
    assert_eq!(decoded.status, Status::Okay);
    assert_eq!(decoded.payload, payload);
}

#[test]
fn test_call_frame_bytes() {
    // A call for procedure 42, serial 1, 5-byte payload "hello":
    // the length word is 37 = 4 + 24 + 9 - 4 + ... = 4 + HEADER + 5,
    // and the payload travels raw, unpadded.
    let packet = Packet::new_call(42, 1, b"hello".to_vec());
    let encoded = packet.encode();
    assert_eq!(encoded.len(), 4 + HEADER_SIZE + 5);
    let mut expected: Vec<u8> = vec![
        0, 0, 0, 33, // total length including itself: 4 + 24 + 5
        0x20, 0x00, 0x80, 0x86, // program
        0, 0, 0, 1, // version
        0, 0, 0, 42, // procedure
        0, 0, 0, 0, // type: call
        0, 0, 0, 1, // serial
        0, 0, 0, 0, // status: success
    ];
    expected.extend_from_slice(b"hello");
    assert_eq!(encoded, expected);
}

#[test]
fn test_message_type_codes() {
    assert_eq!(MessageType::from_u32(0), Some(MessageType::Call));
    assert_eq!(MessageType::from_u32(1), Some(MessageType::Reply));
    assert_eq!(MessageType::from_u32(2), Some(MessageType::Message));
    assert_eq!(MessageType::from_u32(3), Some(MessageType::Stream));
    assert_eq!(MessageType::from_u32(4), None);
    assert_eq!(MessageType::Reply.to_u32(), 1);
}

#[test]
fn test_status_codes() {
    assert_eq!(Status::from_u32(0), Some(Status::Okay));
    assert_eq!(Status::from_u32(1), Some(Status::Error));
    assert_eq!(Status::from_u32(2), Some(Status::Continue));
    assert_eq!(Status::from_u32(3), None);
    assert_eq!(Status::Error.to_u32(), 1);
}

#[test]
fn test_decode_too_short() {
    assert_eq!(Packet::decode(&[0; 10]).unwrap_err(), PacketError::TooShort);
}

#[test]
fn test_decode_invalid_message_type() {
    let mut data = vec![0u8; 24];
    data[15] = 9; // message-type word = 9
    assert_eq!(
        Packet::decode(&data).unwrap_err(),
        PacketError::InvalidMessageType(9)
    );
}

#[test]
fn test_decode_invalid_status() {
    let mut data = vec![0u8; 24];
    data[15] = 1; // reply
    data[23] = 7; // status word = 7
    assert_eq!(
        Packet::decode(&data).unwrap_err(),
        PacketError::InvalidStatus(7)
    );
}

#[test]
fn test_frame_length_check() {
    assert_eq!(check_frame_len(28).unwrap(), 24);
    assert_eq!(check_frame_len(0).unwrap(), 0);
    let too_big = (MAX_PACKET_SIZE as u32) + 1;
    assert_eq!(
        check_frame_len(too_big).unwrap_err(),
        PacketError::TooLarge(too_big as usize)
    );
}
