use fwatch::handlers::{echo, echo_error, respond};
use fwatch::types::{Action, Alias, Command, Error, Packet, Request, Track};
use fwatch::wire::{decode_request, decode_track, encode_request, encode_track, MAX_FRAME};

fn text(s: &str) -> String {
    s.to_string()
}

fn round_trip(req: Request) -> Request {
    let bytes = encode_request(&req);
    decode_request(&bytes).expect("a request that was encoded decodes")
}

#[test]
fn echo_request_round_trip() {
    match round_trip(Request::Echo(text("hello"))) {
        Request::Echo(m) => assert_eq!(m, "hello"),
        other => panic!("unexpected {:?}", other),
    }
}

#[test]
fn echo_returns_message_exactly() {
    let r = echo(&text("hello"));
    assert_eq!(r.as_ref().unwrap(), "hello");
    assert_eq!(respond(Command::Echo, &r), b"hello".to_vec());
}

#[test]
fn echo_error_carries_message() {
    let r = echo_error(&text("boom"));
    match &r {
        Err(Error::Echoed(m)) => assert_eq!(m, "boom"),
        other => panic!("unexpected {:?}", other),
    }
    let bytes = respond(Command::EchoError, &r);
    let line = String::from_utf8(bytes).unwrap();
    assert_eq!(line, "EchoError failed: boom");
    assert!(line.contains("boom"));
}

#[test]
fn failure_response_names_command_and_kind() {
    let r: Result<String, Error> = Err(Error::NotFound(text("no such tracked file")));
    let line = String::from_utf8(respond(Command::List, &r)).unwrap();
    assert_eq!(line, "List failed: not found: no such tracked file");
}

#[test]
fn list_request_exact_bytes() {
    let bytes = encode_request(&Request::List(text("*")));
    let mut expected = vec![2u8, 0, 0, 0, 9, 0, 0, 0, 0, 0, 0, 0];
    expected.extend_from_slice(&[1, 0, 0, 0, 0, 0, 0, 0, b'*']);
    assert_eq!(bytes, expected);
}

#[test]
fn non_ascii_string_is_length_prefixed_in_bytes() {
    let bytes = encode_request(&Request::Echo(text("é")));
    assert_eq!(&bytes[12..], &[2, 0, 0, 0, 0, 0, 0, 0, 0xc3, 0xa9]);
    match decode_request(&bytes).unwrap() {
        Request::Echo(m) => assert_eq!(m, "é"),
        other => panic!("unexpected {:?}", other),
    }
}

#[test]
fn select_request_round_trip() {
    match round_trip(Request::Select(text("/tmp/a.txt"), text("abc"))) {
        Request::Select(p, d) => {
            assert_eq!(p, "/tmp/a.txt");
            assert_eq!(d, "abc");
        }
        other => panic!("unexpected {:?}", other),
    }
}

#[test]
fn list_and_echo_error_round_trip() {
    match round_trip(Request::List(text("/etc/hosts"))) {
        Request::List(p) => assert_eq!(p, "/etc/hosts"),
        other => panic!("unexpected {:?}", other),
    }
    match round_trip(Request::EchoError(text(""))) {
        Request::EchoError(m) => assert_eq!(m, ""),
        other => panic!("unexpected {:?}", other),
    }
}

#[test]
fn track_request_round_trip_every_policy() {
    let cases = vec![
        (Alias::Basename, Action::Save),
        (Alias::Name(text("config")), Action::Script(text("/bin/notify"))),
        (Alias::Script(text("/bin/label")), Action::Save),
    ];
    for (alias, action) in cases {
        let t = Track { fpath: text("/tmp/a.txt"), alias: alias.clone(), action: action.clone() };
        match round_trip(Request::Track(t)) {
            Request::Track(back) => {
                assert_eq!(back.fpath, "/tmp/a.txt");
                assert_eq!(format!("{:?}", back.alias), format!("{:?}", alias));
                assert_eq!(format!("{:?}", back.action), format!("{:?}", action));
            }
            other => panic!("unexpected {:?}", other),
        }
    }
}

#[test]
fn track_payload_layout() {
    let t = Track { fpath: text("a"), alias: Alias::Basename, action: Action::Script(text("s")) };
    let bytes = encode_track(&t);
    let expected: Vec<u8> = vec![
        1, 0, 0, 0, 0, 0, 0, 0, b'a', // path
        1, 0, 0, 0, // basename
        1, 0, 0, 0, 1, 0, 0, 0, 0, 0, 0, 0, b's', // script action
    ];
    assert_eq!(bytes, expected);
    assert!(decode_track(&bytes).is_ok());
}

#[test]
fn trailing_bytes_are_ignored() {
    let mut bytes = encode_request(&Request::Echo(text("hi")));
    bytes.resize(1024, 0);
    match decode_request(&bytes).unwrap() {
        Request::Echo(m) => assert_eq!(m, "hi"),
        other => panic!("unexpected {:?}", other),
    }
}

#[test]
fn short_envelope_is_protocol_error() {
    assert!(matches!(Packet::decode(&[0, 0, 0]), Err(Error::Protocol(_))));
    assert!(matches!(decode_request(&[]), Err(Error::Protocol(_))));
}

#[test]
fn unknown_command_is_protocol_error() {
    let bytes = vec![5u8, 0, 0, 0, 0, 0, 0, 0, 0, 0, 0, 0];
    assert!(matches!(Packet::decode(&bytes), Err(Error::Protocol(_))));
}

#[test]
fn truncated_payload_is_protocol_error() {
    let mut bytes = encode_request(&Request::Echo(text("hello")));
    bytes.truncate(bytes.len() - 1);
    assert!(matches!(decode_request(&bytes), Err(Error::Protocol(_))));
}

#[test]
fn invalid_utf8_payload_is_protocol_error() {
    let p = Packet { command: Command::Echo, payload: vec![1, 0, 0, 0, 0, 0, 0, 0, 0xff] };
    let bytes = p.encode();
    let decoded = Packet::decode(&bytes).unwrap();
    assert_eq!(decoded.payload, p.payload);
    assert!(matches!(Request::from_packet(&decoded), Err(Error::Protocol(_))));
}

#[test]
fn bad_alias_tag_is_protocol_error() {
    let bytes: Vec<u8> = vec![1, 0, 0, 0, 0, 0, 0, 0, b'a', 7, 0, 0, 0, 0, 0, 0, 0];
    assert!(matches!(decode_track(&bytes), Err(Error::Protocol(_))));
}

#[test]
fn frame_size_reads_payload_length() {
    let bytes = encode_request(&Request::Echo(text("hello")));
    assert_eq!(Packet::frame_size(&bytes[..12]), Some(bytes.len()));
    assert_eq!(Packet::frame_size(&bytes[..11]), None);
    let mut huge = vec![1u8, 0, 0, 0];
    huge.extend_from_slice(&(MAX_FRAME as u64).to_le_bytes());
    assert_eq!(Packet::frame_size(&huge), None);
}

#[test]
fn command_tags_and_rewatch() {
    for (tag, c) in [(0u32, Command::EchoError), (1, Command::Echo), (2, Command::List), (3, Command::Track), (4, Command::Select)] {
        assert_eq!(c.tag(), tag);
        assert_eq!(Command::from_tag(tag), Some(c));
    }
    assert_eq!(Command::from_tag(5), None);
    assert!(Command::Track.needs_rewatch());
    assert!(Command::Select.needs_rewatch());
    assert!(!Command::List.needs_rewatch());
    assert!(!Command::Echo.needs_rewatch());
}

#[test]
fn error_texts() {
    let cases = vec![
        (Error::Io(text("x")), "I/O error: x"),
        (Error::IndexCorrupt(text("x")), "corrupt index: x"),
        (Error::NotFound(text("x")), "not found: x"),
        (Error::Protocol(text("x")), "protocol error: x"),
        (Error::Alias(text("x")), "alias error: x"),
        (Error::Script(text("x")), "script error: x"),
        (Error::Spawn(text("x")), "spawn error: x"),
        (Error::Privilege(text("x")), "privilege error: x"),
        (Error::Echoed(text("x")), "x"),
    ];
    for (e, t) in cases {
        assert_eq!(e.text(), t);
    }
}
