//! Wire-format tests for the XDR serializer and deserializer.

use libvirt_rpc::codec::{Error, XdrDeserializer, XdrSerializer};

#[test]
fn test_serialize_i32() {
    let mut ser = XdrSerializer::new();
    ser.serialize_i32(42);
    assert_eq!(ser.into_bytes(), vec![0, 0, 0, 42]);
    let mut ser = XdrSerializer::new();
    ser.serialize_i32(-1);
    assert_eq!(ser.into_bytes(), vec![255, 255, 255, 255]);
}

#[test]
fn test_serialize_u32() {
    let mut ser = XdrSerializer::new();
    ser.serialize_u32(42);
    assert_eq!(ser.into_bytes(), vec![0, 0, 0, 42]);
    let mut ser = XdrSerializer::new();
    ser.serialize_u32(0xFFFFFFFF);
    assert_eq!(ser.into_bytes(), vec![255, 255, 255, 255]);
}

#[test]
fn test_serialize_i64() {
    let mut ser = XdrSerializer::new();
    ser.serialize_i64(42);
    assert_eq!(ser.into_bytes(), vec![0, 0, 0, 0, 0, 0, 0, 42]);
}

#[test]
fn test_serialize_bool() {
    let mut ser = XdrSerializer::new();
    ser.serialize_bool(true);
    assert_eq!(ser.into_bytes(), vec![0, 0, 0, 1]);
    let mut ser = XdrSerializer::new();
    ser.serialize_bool(false);
    assert_eq!(ser.into_bytes(), vec![0, 0, 0, 0]);
}

#[test]
fn test_serialize_string() {
    // "hi" -> length 2 + "hi" + 2 bytes padding
    let mut ser = XdrSerializer::new();
    ser.serialize_str("hi");
    assert_eq!(ser.into_bytes(), vec![0, 0, 0, 2, b'h', b'i', 0, 0]);

    // "test" -> length 4 + "test" (already aligned)
    let mut ser = XdrSerializer::new();
    ser.serialize_str("test");
    assert_eq!(ser.into_bytes(), vec![0, 0, 0, 4, b't', b'e', b's', b't']);
}

#[test]
fn test_serialize_vec() {
    let v: Vec<i32> = vec![1, 2, 3];
    let mut ser = XdrSerializer::new();
    ser.serialize_u32(v.len() as u32);
    for x in &v {
        ser.serialize_i32(*x);
    }
    assert_eq!(
        ser.into_bytes(),
        vec![
            0, 0, 0, 3, // length
            0, 0, 0, 1, // 1
            0, 0, 0, 2, // 2
            0, 0, 0, 3, // 3
        ]
    );
}

#[test]
fn test_serialize_option() {
    let some: Option<i32> = Some(42);
    let none: Option<i32> = None;

    let mut ser = XdrSerializer::new();
    match some {
        Some(v) => {
            ser.serialize_option_tag(true);
            ser.serialize_i32(v);
        }
        None => ser.serialize_none(),
    }
    assert_eq!(ser.into_bytes(), vec![0, 0, 0, 1, 0, 0, 0, 42]);

    let mut ser = XdrSerializer::new();
    match none {
        Some(v) => {
            ser.serialize_option_tag(true);
            ser.serialize_i32(v);
        }
        None => ser.serialize_none(),
    }
    assert_eq!(ser.into_bytes(), vec![0, 0, 0, 0]);
}

#[test]
fn test_serialize_struct() {
    struct Point {
        x: i32,
        y: i32,
    }

    let p = Point { x: 10, y: 20 };
    let mut ser = XdrSerializer::new();
    ser.serialize_i32(p.x);
    ser.serialize_i32(p.y);
    assert_eq!(ser.into_bytes(), vec![0, 0, 0, 10, 0, 0, 0, 20]);
}

#[test]
fn test_deserialize_i32() {
    let mut de = XdrDeserializer::new(&[0, 0, 0, 42]);
    assert_eq!(de.read_i32().unwrap(), 42);
    let mut de = XdrDeserializer::new(&[255, 255, 255, 255]);
    assert_eq!(de.read_i32().unwrap(), -1);
}

#[test]
fn test_deserialize_u32() {
    let mut de = XdrDeserializer::new(&[0, 0, 0, 42]);
    assert_eq!(de.read_u32().unwrap(), 42);
    let mut de = XdrDeserializer::new(&[255, 255, 255, 255]);
    assert_eq!(de.read_u32().unwrap(), 0xFFFFFFFF);
}

#[test]
fn test_deserialize_i64() {
    let mut de = XdrDeserializer::new(&[0, 0, 0, 0, 0, 0, 0, 42]);
    assert_eq!(de.read_i64().unwrap(), 42);
}

#[test]
fn test_deserialize_bool() {
    let mut de = XdrDeserializer::new(&[0, 0, 0, 1]);
    assert!(de.read_bool().unwrap());
    let mut de = XdrDeserializer::new(&[0, 0, 0, 0]);
    assert!(!de.read_bool().unwrap());
    let mut de = XdrDeserializer::new(&[0, 0, 0, 2]);
    assert!(de.read_bool().is_err());
}

#[test]
fn test_deserialize_string() {
    let mut de = XdrDeserializer::new(&[0, 0, 0, 2, b'h', b'i', 0, 0]);
    assert_eq!(de.read_string().unwrap(), "hi");
    let mut de = XdrDeserializer::new(&[0, 0, 0, 4, b't', b'e', b's', b't']);
    assert_eq!(de.read_string().unwrap(), "test");
}

#[test]
fn test_deserialize_vec() {
    let bytes = [
        0, 0, 0, 3, // length
        0, 0, 0, 1, // 1
        0, 0, 0, 2, // 2
        0, 0, 0, 3, // 3
    ];
    let mut de = XdrDeserializer::new(&bytes);
    let len = de.read_u32().unwrap();
    let mut out: Vec<i32> = Vec::new();
    for _ in 0..len {
        out.push(de.read_i32().unwrap());
    }
    assert_eq!(out, vec![1, 2, 3]);
}

#[test]
fn test_deserialize_option() {
    let mut de = XdrDeserializer::new(&[0, 0, 0, 1, 0, 0, 0, 42]);
    let v = if de.read_option_tag().unwrap() {
        Some(de.read_i32().unwrap())
    } else {
        None
    };
    assert_eq!(v, Some(42));

    let mut de = XdrDeserializer::new(&[0, 0, 0, 0]);
    let v = if de.read_option_tag().unwrap() {
        Some(de.read_i32().unwrap())
    } else {
        None
    };
    assert_eq!(v, None);
}

#[test]
fn test_deserialize_struct() {
    #[derive(Debug, PartialEq)]
    struct Point {
        x: i32,
        y: i32,
    }

    let bytes = [0, 0, 0, 10, 0, 0, 0, 20];
    let mut de = XdrDeserializer::new(&bytes);
    let p = Point {
        x: de.read_i32().unwrap(),
        y: de.read_i32().unwrap(),
    };
    assert_eq!(p, Point { x: 10, y: 20 });
}

#[test]
fn test_roundtrip() {
    #[derive(Debug, PartialEq)]
    struct TestStruct {
        name: String,
        value: i32,
        items: Vec<u32>,
        optional: Option<i64>,
    }

    let original = TestStruct {
        name: "test".to_string(),
        value: -42,
        items: vec![1, 2, 3],
        optional: Some(12345),
    };

    let mut ser = XdrSerializer::new();
    ser.serialize_str(&original.name);
    ser.serialize_i32(original.value);
    ser.serialize_u32(original.items.len() as u32);
    for x in &original.items {
        ser.serialize_u32(*x);
    }
    match original.optional {
        Some(v) => {
            ser.serialize_option_tag(true);
            ser.serialize_i64(v);
        }
        None => ser.serialize_none(),
    }
    let bytes = ser.into_bytes();

    let mut de = XdrDeserializer::new(&bytes);
    let name = de.read_string().unwrap();
    let value = de.read_i32().unwrap();
    let n = de.read_u32().unwrap();
    let mut items: Vec<u32> = Vec::new();
    for _ in 0..n {
        items.push(de.read_u32().unwrap());
    }
    let optional = if de.read_option_tag().unwrap() {
        Some(de.read_i64().unwrap())
    } else {
        None
    };
    let decoded = TestStruct {
        name,
        value,
        items,
        optional,
    };

    assert_eq!(original, decoded);
    assert_eq!(de.remaining(), 0);
}

#[test]
fn test_eof_reporting() {
    let mut de = XdrDeserializer::new(&[0, 0]);
    assert_eq!(de.read_u32().unwrap_err(), Error::Eof);
    let mut de = XdrDeserializer::new(&[0, 0, 0, 9, b'x']);
    assert_eq!(de.read_string().unwrap_err(), Error::Eof);
}

#[test]
fn test_invalid_utf8_reporting() {
    // length 2, bytes 0xFF 0xFE: not UTF-8.
    let mut de = XdrDeserializer::new(&[0, 0, 0, 2, 0xFF, 0xFE, 0, 0]);
    assert_eq!(de.read_string().unwrap_err(), Error::InvalidUtf8);
}

#[test]
fn test_invalid_bool_value_kept() {
    let mut de = XdrDeserializer::new(&[0, 0, 0, 2]);
    assert_eq!(de.read_bool().unwrap_err(), Error::InvalidBool(2));
}

#[test]
fn test_invalid_option_tag() {
    let mut de = XdrDeserializer::new(&[0, 0, 0, 7]);
    assert_eq!(de.read_option_tag().unwrap_err(), Error::InvalidBool(7));
}

#[test]
fn test_narrow_integer_promotions() {
    let mut ser = XdrSerializer::new();
    ser.serialize_i8(-1);
    ser.serialize_i16(-2);
    ser.serialize_u8(200);
    ser.serialize_u16(40000);
    assert_eq!(
        ser.into_bytes(),
        vec![
            255, 255, 255, 255, // -1 sign-extended
            255, 255, 255, 254, // -2 sign-extended
            0, 0, 0, 200, // 200 zero-extended
            0, 0, 156, 64, // 40000 zero-extended
        ]
    );
}

#[test]
fn test_variable_opaque_size() {
    // 5 payload bytes: 4-byte length + 5 bytes + 3 padding = 12 total.
    let mut ser = XdrSerializer::new();
    ser.serialize_bytes(&[1, 2, 3, 4, 5]);
    let bytes = ser.into_bytes();
    assert_eq!(bytes.len(), 12);
    assert_eq!(&bytes[..9], &[0, 0, 0, 5, 1, 2, 3, 4, 5]);
    assert_eq!(&bytes[9..], &[0, 0, 0]);
}

#[test]
fn test_padding_skipped_without_inspection() {
    // Nonzero padding bytes must be accepted on decode.
    let mut de = XdrDeserializer::new(&[0, 0, 0, 1, b'x', 9, 9, 9]);
    assert_eq!(de.read_bytes_var().unwrap(), vec![b'x']);
    assert_eq!(de.remaining(), 0);
}
