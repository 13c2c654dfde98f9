//! Tests for fixed-length opaque data and UUID formatting.

use libvirt_rpc::codec::{XdrDeserializer, XdrSerializer};
use libvirt_rpc::opaque::FixedOpaque16;

#[test]
fn test_uuid_string_formatting() {
    let uuid = FixedOpaque16::new([
        0xde, 0xad, 0xbe, 0xef, 0x00, 0x01, 0x02, 0x03, 0x04, 0x05, 0x0a, 0x0b, 0x0c, 0x0d,
        0x0e, 0x0f,
    ]);
    assert_eq!(uuid.to_uuid_string(), "deadbeef-0001-0203-0405-0a0b0c0d0e0f");
}

#[test]
fn test_as_bytes_returns_inner() {
    let data = [7u8; 16];
    let uuid = FixedOpaque16::new(data);
    assert_eq!(uuid.as_bytes(), &data);
}

#[test]
fn test_fixed_opaque_16_takes_exactly_16_bytes() {
    let uuid = FixedOpaque16::new([9u8; 16]);
    let mut ser = XdrSerializer::new();
    ser.serialize_opaque_fixed(uuid.as_bytes());
    let bytes = ser.into_bytes();
    assert_eq!(bytes.len(), 16);
    assert_eq!(bytes, vec![9u8; 16]);
}

#[test]
fn test_fixed_opaque_round_trip() {
    let data: [u8; 16] = [
        1, 2, 3, 4, 5, 6, 7, 8, 9, 10, 11, 12, 13, 14, 15, 16,
    ];
    let mut ser = XdrSerializer::new();
    ser.serialize_opaque_fixed(&data);
    let bytes = ser.into_bytes();
    let mut de = XdrDeserializer::new(&bytes);
    let back = de.read_opaque_fixed(16).unwrap();
    assert_eq!(back, data.to_vec());
    assert_eq!(de.remaining(), 0);
}

#[test]
fn test_fixed_opaque_unaligned_padding() {
    // A 5-byte fixed opaque item is padded to 8 bytes on the wire.
    let mut ser = XdrSerializer::new();
    ser.serialize_opaque_fixed(&[1, 2, 3, 4, 5]);
    let bytes = ser.into_bytes();
    assert_eq!(bytes, vec![1, 2, 3, 4, 5, 0, 0, 0]);
}
