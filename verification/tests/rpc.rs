//! Framing of messages.

use gitlab_ci_bash_ls::json::Json;
use gitlab_ci_bash_ls::rpc::{frame, read, read_frame, received, Found, Frame, Received};
use gitlab_ci_bash_ls::value::{from_value, to_value};
use serde_json::Value;

fn value(text: &str) -> Value {
    serde_json::from_str(text).unwrap()
}

fn json(text: &str) -> Json {
    from_value(value(text))
}

/// Reads the next message of a complete stream.
fn next(stream: &mut &[u8]) -> Option<Value> {
    let next = read(stream, true);
    *stream = &stream[next.used..];
    match next.found {
        Found::Message(message) => Some(to_value(&message)),
        Found::End => None,
        other => panic!("{other:?}"),
    }
}

#[test]
fn round_trips_messages() {
    let mut buffer = Vec::new();
    buffer.extend(gitlab_ci_bash_ls::rpc::write(&json(r#"{"jsonrpc": "2.0", "method": "ä"}"#)));
    buffer.extend(gitlab_ci_bash_ls::rpc::write(&json(r#"{"id": 1}"#)));
    let mut reader = &buffer[..];
    assert_eq!(
        next(&mut reader),
        Some(value(r#"{"jsonrpc": "2.0", "method": "ä"}"#))
    );
    assert_eq!(next(&mut reader), Some(value(r#"{"id": 1}"#)));
    assert_eq!(next(&mut reader), None);
}

#[test]
fn skips_malformed_bodies() {
    let input = b"Content-Length: 3\r\n\r\nnopContent-Length: 2\r\n\r\n{}";
    let mut reader = &input[..];
    assert_eq!(next(&mut reader), Some(value("{}")));
}

#[test]
fn malformed_bodies_are_logged_and_done_with() {
    let input = b"Content-Length: 3\r\n\r\nnopContent-Length: 1\r\n\r\n]Content-Length: 2\r\n\r\n{";
    for ended in [false, true] {
        let next = read(input, ended);
        assert_eq!(next.used, 24 + 22);
        assert_eq!(
            next.ignored,
            [
                "gitlab-ci-bash-ls: ignoring malformed message: expected ident at line 1 column 2",
                "gitlab-ci-bash-ls: ignoring malformed message: expected value at line 1 column 1",
            ]
        );
        assert!(matches!(
            (next.found, ended),
            (Found::Partial, false) | (Found::Cut, true)
        ));
    }
    match received(Err("why".to_owned())) {
        Received::Ignored(line) => {
            assert_eq!(line, "gitlab-ci-bash-ls: ignoring malformed message: why");
        }
        other => panic!("{other:?}"),
    }
    assert!(matches!(received(Ok(Json::Null)), Received::Message(Json::Null)));
}

#[test]
fn messages_are_written_as_compact_json() {
    assert_eq!(
        gitlab_ci_bash_ls::rpc::write(&json(r#"{ "method": "ä", "id": 1 }"#)),
        "Content-Length: 22\r\n\r\n{\"id\":1,\"method\":\"ä\"}".as_bytes()
    );
}

#[test]
fn streams_that_break_off_are_told_apart() {
    assert!(matches!(read(b"", true).found, Found::End));
    assert!(matches!(read(b"", false).found, Found::Partial));
    assert!(matches!(read(b"\xff\n", false).found, Found::Invalid));
    let next = read(b"Content-Length: 2\r\n\r\n{}Content", false);
    assert_eq!(next.used, 23);
    assert!(next.ignored.is_empty());
    assert!(matches!(next.found, Found::Message(_)));
}

#[test]
fn messages_are_framed_with_their_length_in_bytes() {
    assert_eq!(frame("ä".as_bytes()), "Content-Length: 2\r\n\r\nä".as_bytes());
    assert_eq!(frame(b""), b"Content-Length: 0\r\n\r\n");
    let long = vec![b'x'; 1205];
    let framed = frame(&long);
    assert!(framed.starts_with(b"Content-Length: 1205\r\n\r\nxxx"));
    assert_eq!(framed.len(), 1205 + 24);
}

#[test]
fn headers_are_read_leniently() {
    for header in [
        "Content-Length: 2\r\n\r\n",
        "content-length:2\n\n",
        " CONTENT-LENGTH : +2 \r\n\r\n",
        "Content-Type: text\r\nContent-Length: 2\r\n\r\n",
        "\r\n\nContent-Length: 2\r\n \t\r\n",
        "Content-Length: 7\r\nContent-Length: 2\r\n\r\n",
        "no colon\r\nContent-Length: 02\r\n\r\n",
    ] {
        let input = format!("{header}ok and more");
        let start = header.len();
        assert_eq!(
            read_frame(input.as_bytes(), false),
            Frame::Body { start, end: start + 2 },
            "{header:?}"
        );
    }
}

#[test]
fn lengths_that_are_no_numbers_are_forgotten() {
    for value in ["-1", "+", "", "1 2", "0x2", "99999999999999999999999", "２"] {
        let input = format!("Content-Length: 2\r\nContent-Length: {value}\r\n\r\nContent-Length: 1\r\n\r\nx");
        let end = input.len();
        assert_eq!(
            read_frame(input.as_bytes(), true),
            Frame::Body { start: end - 1, end },
            "{value:?}"
        );
    }
}

#[test]
fn incomplete_and_broken_streams_are_told_apart() {
    for input in ["", "Content-Le", "Content-Length: 2\r\n", "Content-Length: 2\r\n\r\nx"] {
        assert_eq!(read_frame(input.as_bytes(), false), Frame::Partial, "{input:?}");
    }
    assert_eq!(read_frame(b"", true), Frame::End);
    assert_eq!(read_frame(b"Content-Le", true), Frame::End);
    assert_eq!(read_frame(b"Content-Length: 2\r\n", true), Frame::End);
    assert_eq!(read_frame(b"Content-Length: 2\r\n\r\nx", true), Frame::Cut);
    assert_eq!(read_frame(b"Content-Length: 0\r\n\r", true), Frame::Body { start: 20, end: 20 });
    assert_eq!(read_frame(b"Content-Length: \xff\r\n", false), Frame::Invalid);
    assert_eq!(read_frame(b"\xff", true), Frame::Invalid);
    assert_eq!(read_frame(b"\xff", false), Frame::Partial);
}

#[test]
fn decisions_do_not_change_when_more_is_read_frame() {
    let stream = b"Content-Length: 2\r\n\r\n{}Content-Length: 3\r\n\r\n[1]";
    let first = Frame::Body { start: 21, end: 23 };
    for count in 0..stream.len() {
        let found = read_frame(&stream[..count], false);
        if count < 23 {
            assert_eq!(found, Frame::Partial, "{count}");
        } else {
            assert_eq!(found, first, "{count}");
        }
    }
    assert_eq!(read_frame(stream, true), first);
    assert_eq!(read_frame(&stream[23..], true), Frame::Body { start: 21, end: 24 });
}
