//! The message builders, response classification, and the session state
//! machine, driven through the scenarios a live connection would produce.

use bolt_protocol::decode::decode;
use bolt_protocol::message::{classify_response, dict_get, serialize_ack_failure_message,
    serialize_discard_all_message, serialize_failure_message, serialize_ignored_message,
    serialize_init_message, serialize_node, serialize_path, serialize_pull_all_message,
    serialize_record_message, serialize_relationship, serialize_reset_message,
    serialize_run_message, serialize_success_message, serialize_unbound_relationship,
    ResponseKind};
use bolt_protocol::session::{Outcome, RequestKind, SessionCore, SessionState};
use bolt_protocol::value::Value;

fn pairs(entries: &[(&str, &str)]) -> Vec<(Vec<u8>, Value)> {
    entries
        .iter()
        .map(|(k, v)| (k.as_bytes().to_vec(), Value::Str(v.as_bytes().to_vec())))
        .collect()
}

/// Decodes one server message from its wire bytes and classifies it.
fn classify_bytes(bytes: &[u8]) -> (ResponseKind, Value) {
    let (value, used) = decode(bytes).expect("server message must decode");
    assert_eq!(used, bytes.len());
    classify_response(value).expect("server message must classify")
}

#[test]
fn run_message_bytes_are_exact() {
    let message = serialize_run_message(b"RETURN 1", &Vec::new()).unwrap();
    let mut expected = vec![0xB2, 0x10, 0x88];
    expected.extend_from_slice(b"RETURN 1");
    expected.push(0xA0);
    assert_eq!(message, expected);
}

#[test]
fn empty_messages_are_header_and_signature() {
    assert_eq!(serialize_pull_all_message(), vec![0xB0, 0x3F]);
    assert_eq!(serialize_discard_all_message(), vec![0xB0, 0x2F]);
    assert_eq!(serialize_ack_failure_message(), vec![0xB0, 0x0E]);
    assert_eq!(serialize_reset_message(), vec![0xB0, 0x0F]);
}

#[test]
fn init_message_carries_name_and_token() {
    let auth = pairs(&[("scheme", "basic"), ("principal", "neo4j"), ("credentials", "secret")]);
    let message = serialize_init_message(b"MyClient/1.0", &auth).unwrap();
    let (value, used) = decode(&message).unwrap();
    assert_eq!(used, message.len());
    match value {
        Value::Structure(0x01, fields) => {
            assert_eq!(fields.len(), 2);
            assert_eq!(fields[0], Value::Str(b"MyClient/1.0".to_vec()));
            match &fields[1] {
                Value::Dict(entries) => {
                    assert_eq!(entries.len(), 3);
                    assert_eq!(entries[0].0, b"scheme".to_vec());
                }
                other => panic!("expected a map, got {:?}", other),
            }
        }
        other => panic!("expected an Init structure, got {:?}", other),
    }
}

#[test]
fn server_messages_classify_by_signature() {
    let success = serialize_success_message(&pairs(&[("server", "Neo4j/3.0.0")])).unwrap();
    assert_eq!(classify_bytes(&success).0, ResponseKind::Success);

    let failure = serialize_failure_message(&pairs(&[("code", "x"), ("message", "y")])).unwrap();
    assert_eq!(classify_bytes(&failure).0, ResponseKind::Failure);

    let ignored = serialize_ignored_message(&Vec::new()).unwrap();
    assert_eq!(classify_bytes(&ignored).0, ResponseKind::Ignored);

    let record = serialize_record_message(&vec![Value::Int(1)]).unwrap();
    let (kind, payload) = classify_bytes(&record);
    assert_eq!(kind, ResponseKind::Record);
    assert_eq!(payload, Value::List(vec![Value::Int(1)]));
}

#[test]
fn malformed_server_messages_do_not_classify() {
    // A structure with the right signature but a list where the metadata
    // map belongs.
    let (value, _) = decode(&[0xB1, 0x70, 0x90]).unwrap();
    assert!(classify_response(value).is_none());
    // Not a structure at all.
    assert!(classify_response(Value::Int(5)).is_none());
}

#[test]
fn dict_get_finds_first_match() {
    let entries = pairs(&[("code", "Neo.ClientError"), ("message", "bad"), ("code", "other")]);
    match dict_get(&entries, b"code") {
        Some(Value::Str(s)) => assert_eq!(s, &b"Neo.ClientError".to_vec()),
        other => panic!("expected the first code entry, got {:?}", other),
    }
    assert!(dict_get(&entries, b"missing").is_none());
}

#[test]
fn graph_structures_encode_with_their_signatures() {
    let node = serialize_node(1, &vec![b"X".to_vec()], &Vec::new()).unwrap();
    assert_eq!(node, vec![0xB3, 0x4E, 0x01, 0x91, 0x81, 0x58, 0xA0]);

    let rel = serialize_relationship(2, 1, 3, b"KNOWS", &Vec::new()).unwrap();
    let (value, _) = decode(&rel).unwrap();
    match value {
        Value::Structure(0x52, fields) => {
            assert_eq!(fields.len(), 5);
            assert_eq!(fields[0], Value::Int(2));
            assert_eq!(fields[3], Value::Str(b"KNOWS".to_vec()));
        }
        other => panic!("expected a relationship, got {:?}", other),
    }

    let unbound = serialize_unbound_relationship(7, b"LIKES", &Vec::new()).unwrap();
    let (value, _) = decode(&unbound).unwrap();
    match value {
        Value::Structure(0x72, fields) => assert_eq!(fields.len(), 3),
        other => panic!("expected an unbound relationship, got {:?}", other),
    }

    let path = serialize_path(&Vec::new(), &Vec::new(), &vec![1, -1]).unwrap();
    let (value, _) = decode(&path).unwrap();
    match value {
        Value::Structure(0x50, fields) => {
            assert_eq!(fields.len(), 3);
            assert_eq!(fields[2], Value::List(vec![Value::Int(1), Value::Int(-1)]));
        }
        other => panic!("expected a path, got {:?}", other),
    }
}

/// Drives a fresh session through `Init` acknowledged by `Success`.
fn ready_session() -> SessionCore {
    let mut core = SessionCore::new();
    assert_eq!(core.state, SessionState::Connected);
    assert!(core.request(RequestKind::Init));
    let success = serialize_success_message(&pairs(&[("server", "Neo4j/3.0.0")])).unwrap();
    let (kind, payload) = classify_bytes(&success);
    match core.handle_message(kind, payload) {
        Outcome::Completed(RequestKind::Init, _) => {}
        other => panic!("expected Init to complete, got {:?}", other),
    }
    assert_eq!(core.state, SessionState::Ready);
    core
}

#[test]
fn init_reaches_ready() {
    ready_session();
}

#[test]
fn init_is_the_only_request_before_ready() {
    let mut core = SessionCore::new();
    assert!(!core.request(RequestKind::Run));
    assert!(!core.request(RequestKind::PullAll));
    assert_eq!(core.state, SessionState::Connected);
    assert!(core.request(RequestKind::Init));
}

#[test]
fn run_and_pull_all_stream_records_in_order() {
    let mut core = ready_session();
    assert!(core.request(RequestKind::Run));
    // Pipelined: PullAll is legal because Run is expected to succeed.
    assert!(core.request(RequestKind::PullAll));

    let run_ok = serialize_success_message(&pairs(&[("fields", "x")])).unwrap();
    let (kind, payload) = classify_bytes(&run_ok);
    match core.handle_message(kind, payload) {
        Outcome::Completed(RequestKind::Run, _) => {}
        other => panic!("expected Run to complete, got {:?}", other),
    }
    assert_eq!(core.state, SessionState::Streaming);

    let record = serialize_record_message(&vec![Value::Int(1)]).unwrap();
    let (kind, payload) = classify_bytes(&record);
    match core.handle_message(kind, payload) {
        Outcome::Streamed => {}
        other => panic!("expected the record to stream, got {:?}", other),
    }

    let done = serialize_success_message(&Vec::new()).unwrap();
    let (kind, payload) = classify_bytes(&done);
    match core.handle_message(kind, payload) {
        Outcome::Completed(RequestKind::PullAll, _) => {}
        other => panic!("expected PullAll to complete, got {:?}", other),
    }
    assert_eq!(core.state, SessionState::Ready);

    let records = core.take_records();
    assert_eq!(records, vec![Value::List(vec![Value::Int(1)])]);
    assert!(core.take_records().is_empty());
}

#[test]
fn server_failure_locks_the_session_until_acknowledged() {
    let mut core = ready_session();
    assert!(core.request(RequestKind::Run));

    let failure = serialize_failure_message(&pairs(&[
        ("code", "Neo.ClientError.Statement.SyntaxError"),
        ("message", "Invalid input 'BAD'"),
    ]))
    .unwrap();
    let (kind, payload) = classify_bytes(&failure);
    match core.handle_message(kind, payload) {
        Outcome::Completed(RequestKind::Run, metadata) => match metadata {
            Value::Dict(entries) => {
                match dict_get(&entries, b"code") {
                    Some(Value::Str(code)) => {
                        assert_eq!(code, &b"Neo.ClientError.Statement.SyntaxError".to_vec())
                    }
                    other => panic!("expected a failure code, got {:?}", other),
                }
            }
            other => panic!("expected failure metadata, got {:?}", other),
        },
        other => panic!("expected Run to complete with the failure, got {:?}", other),
    }
    assert_eq!(core.state, SessionState::Failed);

    // A follow-up Run is refused locally: nothing may touch the wire.
    assert!(!core.request(RequestKind::Run));
    assert_eq!(core.state, SessionState::Failed);

    // Acknowledging the failure restores the session.
    assert!(core.request(RequestKind::AckFailure));
    let ack_ok = serialize_success_message(&Vec::new()).unwrap();
    let (kind, payload) = classify_bytes(&ack_ok);
    match core.handle_message(kind, payload) {
        Outcome::Completed(RequestKind::AckFailure, _) => {}
        other => panic!("expected AckFailure to complete, got {:?}", other),
    }
    assert_eq!(core.state, SessionState::Ready);
}

#[test]
fn reset_also_recovers_a_failed_session() {
    let mut core = ready_session();
    assert!(core.request(RequestKind::Run));
    let failure = serialize_failure_message(&pairs(&[("code", "x"), ("message", "y")])).unwrap();
    let (kind, payload) = classify_bytes(&failure);
    core.handle_message(kind, payload);
    assert_eq!(core.state, SessionState::Failed);

    assert!(core.request(RequestKind::Reset));
    let ok = serialize_success_message(&Vec::new()).unwrap();
    let (kind, payload) = classify_bytes(&ok);
    core.handle_message(kind, payload);
    assert_eq!(core.state, SessionState::Ready);
}

#[test]
fn pipelined_requests_complete_in_send_order() {
    let mut core = ready_session();
    assert!(core.request(RequestKind::Run));
    assert!(core.request(RequestKind::PullAll));
    let ok = serialize_success_message(&Vec::new()).unwrap();

    let (kind, payload) = classify_bytes(&ok);
    match core.handle_message(kind, payload) {
        Outcome::Completed(RequestKind::Run, _) => {}
        other => panic!("the first response must answer Run, got {:?}", other),
    }
    let (kind, payload) = classify_bytes(&ok);
    match core.handle_message(kind, payload) {
        Outcome::Completed(RequestKind::PullAll, _) => {}
        other => panic!("the second response must answer PullAll, got {:?}", other),
    }
}

#[test]
fn unexpected_messages_leave_the_session_defunct() {
    // A response with nothing pending.
    let mut core = ready_session();
    let ok = serialize_success_message(&Vec::new()).unwrap();
    let (kind, payload) = classify_bytes(&ok);
    match core.handle_message(kind, payload) {
        Outcome::ProtocolViolation => {}
        other => panic!("expected a protocol violation, got {:?}", other),
    }
    assert_eq!(core.state, SessionState::Defunct);

    // A record outside a stream.
    let mut core = ready_session();
    assert!(core.request(RequestKind::Run));
    let record = serialize_record_message(&vec![Value::Int(1)]).unwrap();
    let (kind, payload) = classify_bytes(&record);
    match core.handle_message(kind, payload) {
        Outcome::ProtocolViolation => {}
        other => panic!("expected a protocol violation, got {:?}", other),
    }
    assert_eq!(core.state, SessionState::Defunct);

    // Nothing may be sent once the session is defunct.
    assert!(!core.request(RequestKind::Reset));
}

#[test]
fn discard_all_drops_records() {
    let mut core = ready_session();
    assert!(core.request(RequestKind::Run));
    assert!(core.request(RequestKind::DiscardAll));
    let ok = serialize_success_message(&Vec::new()).unwrap();
    let (kind, payload) = classify_bytes(&ok);
    core.handle_message(kind, payload);
    assert_eq!(core.state, SessionState::Streaming);

    let record = serialize_record_message(&vec![Value::Int(9)]).unwrap();
    let (kind, payload) = classify_bytes(&record);
    match core.handle_message(kind, payload) {
        Outcome::Streamed => {}
        other => panic!("expected the record to be dropped quietly, got {:?}", other),
    }
    assert!(core.take_records().is_empty());

    let (kind, payload) = classify_bytes(&ok);
    core.handle_message(kind, payload);
    assert_eq!(core.state, SessionState::Ready);
}
