//! Chunked framing, the handshake, and the hex renderer from the outside.

use bolt_protocol::chunk::{chunk, dechunk};
use bolt_protocol::handshake::{handshake_request, parse_handshake_response, HandshakeError};
use bolt_protocol::message::serialize_init_message;
use bolt_protocol::packstream::DecodeError;
use bolt_protocol::util::pretty_print_hex;

fn chunk_round_trip(message: &[u8]) {
    let framed = chunk(message);
    let (back, used) = dechunk(&framed).expect("framing must reassemble");
    assert_eq!(used, framed.len());
    assert_eq!(back, message);
}

#[test]
fn empty_message_is_just_the_terminator() {
    assert_eq!(chunk(&[]), vec![0x00, 0x00]);
}

#[test]
fn small_message_is_one_chunk_and_terminator() {
    let framed = chunk(&[0xB0, 0x3F]);
    assert_eq!(framed, vec![0x00, 0x02, 0xB0, 0x3F, 0x00, 0x00]);
}

#[test]
fn chunk_round_trips() {
    chunk_round_trip(&[]);
    chunk_round_trip(&[0x42]);
    chunk_round_trip(&vec![7u8; 65535]);
    chunk_round_trip(&vec![9u8; 65536]);
    chunk_round_trip(&vec![1u8; 200_000]);
}

#[test]
fn chunk_boundary_at_65536() {
    // An Init message of exactly 65536 bytes: header (1) + signature (1)
    // + a string in the two-byte length class (3 + 65530) + an empty map (1).
    let name = vec![0x41u8; 65530];
    let message = serialize_init_message(&name, &Vec::new()).unwrap();
    assert_eq!(message.len(), 65536);
    let framed = chunk(&message);
    assert_eq!(framed.len(), 2 + 65535 + 2 + 1 + 2);
    assert_eq!(&framed[0..2], &[0xFF, 0xFF]);
    assert_eq!(&framed[2 + 65535..2 + 65535 + 2], &[0x00, 0x01]);
    assert_eq!(&framed[framed.len() - 2..], &[0x00, 0x00]);
    let (back, used) = dechunk(&framed).unwrap();
    assert_eq!(used, framed.len());
    assert_eq!(back, message);
}

#[test]
fn dechunk_reports_truncation() {
    assert_eq!(dechunk(&[]), Err(DecodeError::Truncated));
    assert_eq!(dechunk(&[0x00]), Err(DecodeError::Truncated));
    assert_eq!(dechunk(&[0x00, 0x05, 0x41]), Err(DecodeError::Truncated));
    // A full chunk but no terminator after it.
    assert_eq!(dechunk(&[0x00, 0x01, 0x41]), Err(DecodeError::Truncated));
}

#[test]
fn dechunk_concatenates_chunks_in_order() {
    let stream = [0x00, 0x02, 0x61, 0x62, 0x00, 0x01, 0x63, 0x00, 0x00];
    let (message, used) = dechunk(&stream).unwrap();
    assert_eq!(message, b"abc".to_vec());
    assert_eq!(used, stream.len());
}

#[test]
fn dechunk_leaves_later_messages_alone() {
    let stream = [0x00, 0x01, 0x61, 0x00, 0x00, 0x00, 0x01, 0x62, 0x00, 0x00];
    let (message, used) = dechunk(&stream).unwrap();
    assert_eq!(message, b"a".to_vec());
    assert_eq!(used, 5);
    let (second, used2) = dechunk(&stream[used..]).unwrap();
    assert_eq!(second, b"b".to_vec());
    assert_eq!(used2, 5);
}

#[test]
fn handshake_request_is_magic_and_proposals() {
    let req = handshake_request();
    assert_eq!(
        req,
        vec![
            0x60, 0x60, 0xB0, 0x17,
            0x00, 0x00, 0x00, 0x01,
            0x00, 0x00, 0x00, 0x00,
            0x00, 0x00, 0x00, 0x00,
            0x00, 0x00, 0x00, 0x00,
        ]
    );
}

#[test]
fn handshake_accepts_version_one() {
    assert_eq!(parse_handshake_response(&[0, 0, 0, 1]), Ok(1));
}

#[test]
fn handshake_rejection_is_no_compatible_version() {
    assert_eq!(
        parse_handshake_response(&[0, 0, 0, 0]),
        Err(HandshakeError::NoCompatibleVersion)
    );
}

#[test]
fn handshake_refuses_other_versions() {
    assert_eq!(
        parse_handshake_response(&[0, 0, 0, 2]),
        Err(HandshakeError::UnsupportedVersion(2))
    );
    assert_eq!(
        parse_handshake_response(&[0x01, 0, 0, 0]),
        Err(HandshakeError::UnsupportedVersion(0x0100_0000))
    );
}

#[test]
fn hex_rendering_groups_and_wraps() {
    let bytes: Vec<u8> = (0u8..18).collect();
    let rendered = pretty_print_hex(&bytes);
    assert_eq!(
        rendered,
        "00 01 02 03  04 05 06 07  08 09 0A 0B  0C 0D 0E 0F \n10 11 "
    );
}

#[test]
fn hex_rendering_of_nothing_is_empty() {
    assert_eq!(pretty_print_hex(&[]), "");
    assert_eq!(pretty_print_hex(&[0xAB]), "AB ");
}
