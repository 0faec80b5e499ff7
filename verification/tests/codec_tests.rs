//! The PackStream codec from the outside: boundary encodings, round trips,
//! and the decoder's error reporting.

use bolt_protocol::decode::decode;
use bolt_protocol::encode::{encode, get_struct_header, serialize_boolean, serialize_float,
    serialize_integer, serialize_list, serialize_map, serialize_null, serialize_string};
use bolt_protocol::packstream::{DecodeError, EncodeError};
use bolt_protocol::value::Value;

fn bytes_of(v: &Value) -> Vec<u8> {
    encode(v).expect("value within limits must encode")
}

fn round_trip(v: Value) {
    let bytes = bytes_of(&v);
    let (back, used) = decode(&bytes).expect("encoding must decode");
    assert_eq!(used, bytes.len());
    assert_eq!(back, v);
}

#[test]
fn it_works() {
}

#[test]
fn boundary_int_127() {
    assert_eq!(serialize_integer(127), vec![0x7F]);
}

#[test]
fn boundary_int_minus_16() {
    assert_eq!(serialize_integer(-16), vec![0xF0]);
}

#[test]
fn boundary_int_minus_17() {
    assert_eq!(serialize_integer(-17), vec![0xC8, 0xEF]);
}

#[test]
fn boundary_int_128() {
    assert_eq!(serialize_integer(128), vec![0xC9, 0x00, 0x80]);
}

#[test]
fn boundary_int_minus_129() {
    assert_eq!(serialize_integer(-129), vec![0xC9, 0xFF, 0x7F]);
}

#[test]
fn boundary_int_32768() {
    assert_eq!(serialize_integer(32768), vec![0xCA, 0x00, 0x00, 0x80, 0x00]);
}

#[test]
fn boundary_int_wide() {
    assert_eq!(serialize_integer(-32768), vec![0xC9, 0x80, 0x00]);
    assert_eq!(
        serialize_integer(0x8000_0000),
        vec![0xCB, 0x00, 0x00, 0x00, 0x00, 0x80, 0x00, 0x00, 0x00]
    );
    assert_eq!(
        serialize_integer(i64::MIN),
        vec![0xCB, 0x80, 0x00, 0x00, 0x00, 0x00, 0x00, 0x00, 0x00]
    );
}

#[test]
fn boundary_string_15() {
    let s = vec![0x41u8; 15];
    let mut expected = vec![0x8F];
    expected.extend_from_slice(&s);
    assert_eq!(serialize_string(&s).unwrap(), expected);
}

#[test]
fn boundary_string_16() {
    let s = vec![0x41u8; 16];
    let mut expected = vec![0xD0, 0x10];
    expected.extend_from_slice(&s);
    assert_eq!(serialize_string(&s).unwrap(), expected);
}

#[test]
fn boundary_string_256() {
    let s = vec![0x41u8; 256];
    let mut expected = vec![0xD1, 0x01, 0x00];
    expected.extend_from_slice(&s);
    assert_eq!(serialize_string(&s).unwrap(), expected);
}

#[test]
fn boundary_empty_list() {
    assert_eq!(serialize_list(&Vec::new()).unwrap(), vec![0x90]);
}

#[test]
fn boundary_empty_map() {
    assert_eq!(serialize_map(&Vec::new()).unwrap(), vec![0xA0]);
}

#[test]
fn boundary_null() {
    assert_eq!(serialize_null(), vec![0xC0]);
}

#[test]
fn boundary_true() {
    assert_eq!(serialize_boolean(true), vec![0xC3]);
    assert_eq!(serialize_boolean(false), vec![0xC2]);
}

#[test]
fn float_encoding_is_marker_and_bits() {
    let bits = 1.5f64.to_bits();
    let encoded = serialize_float(bits);
    assert_eq!(encoded.len(), 9);
    assert_eq!(encoded[0], 0xC1);
    assert_eq!(&encoded[1..], &bits.to_be_bytes());
}

#[test]
fn round_trip_scalars() {
    round_trip(Value::Null);
    round_trip(Value::Bool(true));
    round_trip(Value::Bool(false));
    for i in [0i64, 1, -1, -16, -17, 127, 128, -128, -129, 32767, 32768, -32768, -32769,
        2147483647, 2147483648, -2147483648, -2147483649, i64::MAX, i64::MIN] {
        round_trip(Value::Int(i));
    }
    round_trip(Value::Float(3.25f64.to_bits()));
    round_trip(Value::Float(f64::NAN.to_bits()));
}

#[test]
fn round_trip_text() {
    round_trip(Value::Str(Vec::new()));
    round_trip(Value::Str(b"hello".to_vec()));
    round_trip(Value::Str("snowman \u{2603} and more".as_bytes().to_vec()));
    round_trip(Value::Str(vec![0x41u8; 300]));
}

#[test]
fn round_trip_containers() {
    round_trip(Value::List(vec![Value::Int(1), Value::Str(b"two".to_vec()), Value::Null]));
    round_trip(Value::Dict(vec![
        (b"one".to_vec(), Value::Int(1)),
        (b"two".to_vec(), Value::List(vec![Value::Bool(true)])),
    ]));
    round_trip(Value::Structure(0x4E, vec![
        Value::Int(42),
        Value::List(vec![Value::Str(b"Label".to_vec())]),
        Value::Dict(vec![(b"k".to_vec(), Value::Str(b"v".to_vec()))]),
    ]));
    round_trip(Value::List((0..20).map(|_| Value::Null).collect()));
}

#[test]
fn round_trip_preserves_map_order() {
    let v = Value::Dict(vec![
        (b"zebra".to_vec(), Value::Int(1)),
        (b"apple".to_vec(), Value::Int(2)),
        (b"mango".to_vec(), Value::Int(3)),
    ]);
    let bytes = bytes_of(&v);
    let (back, _) = decode(&bytes).unwrap();
    match back {
        Value::Dict(pairs) => {
            let keys: Vec<&[u8]> = pairs.iter().map(|p| p.0.as_slice()).collect();
            assert_eq!(keys, vec![b"zebra".as_slice(), b"apple", b"mango"]);
        }
        other => panic!("expected a map, got {:?}", other),
    }
}

#[test]
fn encoding_is_deterministic() {
    let v = Value::Dict(vec![
        (b"b".to_vec(), Value::Int(1)),
        (b"a".to_vec(), Value::Int(2)),
    ]);
    assert_eq!(bytes_of(&v), bytes_of(&v));
}

#[test]
fn deep_nesting_within_cap_round_trips() {
    let mut v = Value::Int(7);
    for _ in 0..63 {
        v = Value::List(vec![v]);
    }
    round_trip(v);
}

#[test]
fn nesting_past_cap_is_depth_exceeded() {
    let mut v = Value::Int(7);
    for _ in 0..65 {
        v = Value::List(vec![v]);
    }
    let bytes = bytes_of(&v);
    assert_eq!(decode(&bytes), Err(DecodeError::DepthExceeded));
}

#[test]
fn truncated_string_is_reported() {
    // A string-8 header announcing five bytes with only two present.
    assert_eq!(decode(&[0xD0, 0x05, 0x41, 0x41]), Err(DecodeError::Truncated));
}

#[test]
fn truncated_inputs_are_reported() {
    assert_eq!(decode(&[]), Err(DecodeError::Truncated));
    assert_eq!(decode(&[0xC9, 0x00]), Err(DecodeError::Truncated));
    assert_eq!(decode(&[0xCB, 1, 2, 3]), Err(DecodeError::Truncated));
    assert_eq!(decode(&[0x91]), Err(DecodeError::Truncated));
    assert_eq!(decode(&[0xB1]), Err(DecodeError::Truncated));
}

#[test]
fn unknown_marker_is_reported() {
    assert_eq!(decode(&[0xC4]), Err(DecodeError::UnknownMarker(0xC4)));
    assert_eq!(decode(&[0xDB]), Err(DecodeError::UnknownMarker(0xDB)));
}

#[test]
fn invalid_utf8_is_reported() {
    // A one-byte string whose byte is a lone continuation byte.
    assert_eq!(decode(&[0x81, 0xFF]), Err(DecodeError::InvalidUtf8));
    // An overlong two-byte encoding of an ASCII character.
    assert_eq!(decode(&[0x82, 0xC0, 0xAF]), Err(DecodeError::InvalidUtf8));
}

#[test]
fn map_key_must_be_a_string() {
    // One-pair map whose key is an integer.
    assert_eq!(decode(&[0xA1, 0x01, 0x01]), Err(DecodeError::UnknownMarker(0x01)));
}

#[test]
fn struct_size_past_two_byte_class_is_refused() {
    assert_eq!(get_struct_header(65536), Err(EncodeError::StructTooLong));
    assert_eq!(get_struct_header(0).unwrap(), vec![0xB0]);
    assert_eq!(get_struct_header(16).unwrap(), vec![0xDC, 0x10]);
    assert_eq!(get_struct_header(256).unwrap(), vec![0xDD, 0x01, 0x00]);
}

#[test]
fn oversized_structure_is_refused() {
    let v = Value::Structure(0x00, (0..65536).map(|_| Value::Null).collect());
    assert_eq!(encode(&v), Err(EncodeError::StructTooLong));
}

#[test]
fn decoder_reports_consumed_bytes() {
    let mut bytes = bytes_of(&Value::Int(300));
    let tail_start = bytes.len();
    bytes.extend_from_slice(&[0xDE, 0xAD]);
    let (back, used) = decode(&bytes).unwrap();
    assert_eq!(back, Value::Int(300));
    assert_eq!(used, tail_start);
}
