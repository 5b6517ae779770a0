//! Messages on their way to the editor and back.

use dapintar::json::{from_value, to_value, Json};
use dapintar::transport::{DapReader, DapWriter, ReadError};
use serde_json::Value;

fn value(text: &str) -> Value {
    serde_json::from_str(text).unwrap()
}

fn read_all(bytes: &[u8]) -> Option<Result<Json, ReadError>> {
    let mut reader = DapReader::new(Vec::new());
    reader.feed(bytes);
    reader.read_message()
}

fn error_of(bytes: &[u8]) -> ReadError {
    match read_all(bytes) {
        Some(Err(e)) => e,
        _ => panic!("no error"),
    }
}

#[test]
fn test_framing_round_trip() {
    let mut writer = DapWriter::new(Vec::new());
    let mut reader = DapReader::new(Vec::new());

    let msg = value(
        r#"{"seq": 1, "type": "request", "command": "initialize", "arguments": {"adapterID": "dapintar"}}"#,
    );

    writer.send(&from_value(&msg));
    reader.feed(&writer.inner);
    let received = reader.read_message().unwrap().unwrap();

    assert_eq!(to_value(&received), msg);
}

#[test]
fn test_multiple_messages() {
    let mut writer = DapWriter::new(Vec::new());
    let mut reader = DapReader::new(Vec::new());

    let messages = vec![
        value(r#"{"seq": 1, "type": "request", "command": "initialize"}"#),
        value(r#"{"seq": 2, "type": "request", "command": "launch"}"#),
        value(r#"{"seq": 3, "type": "request", "command": "configurationDone"}"#),
    ];

    for msg in &messages {
        writer.send(&from_value(msg));
    }
    reader.feed(&writer.inner);

    for expected in &messages {
        let received = reader.read_message().unwrap().unwrap();
        assert_eq!(&to_value(&received), expected);
    }
    assert!(reader.read_message().is_none());
}

#[test]
fn frame_is_a_header_and_the_printed_message() {
    let mut writer = DapWriter::new(Vec::new());
    writer.send(&Json::object().with("b", Json::Null).with("a", Json::from_text("\u{e9}")));
    // Two bytes for the letter.
    assert_eq!(writer.inner, "Content-Length: 19\r\n\r\n{\"a\":\"\u{e9}\",\"b\":null}".as_bytes());
}

#[test]
fn message_is_read_once_all_of_it_is_there() {
    let whole = b"Content-Type: x\r\nContent-Length: 4\r\n\r\ntrueContent";
    for n in 0..whole.len() - 7 {
        assert!(read_all(&whole[..n]).is_none(), "cut at {n}");
    }
    let mut reader = DapReader::new(Vec::new());
    for b in whole.iter() {
        reader.feed(&[*b]);
    }
    assert!(matches!(reader.read_message(), Some(Ok(Json::Bool(true)))));
    // What follows is kept.
    assert_eq!(reader.inner, b"Content".to_vec());
}

#[test]
fn last_length_counts_and_spaces_do_not() {
    assert!(matches!(
        read_all(b"Content-Length: 9\nContent-Length:  +4 \n\nnull"),
        Some(Ok(Json::Null))
    ));
    // A header is told by its very letters.
    assert_eq!(error_of(b"content-length: 4\r\n\r\nnull"), ReadError::MissingLength);
}

#[test]
fn bad_frames_are_errors() {
    let no_digit = || ReadError::BadLength("invalid digit found in string".to_string());
    assert_eq!(error_of(b"\r\n{}"), ReadError::MissingLength);
    assert_eq!(error_of(b"Content-Length: four\r\n"), no_digit());
    assert_eq!(error_of(b"Content-Length: -1\r\n"), no_digit());
    assert_eq!(
        error_of(b"Content-Length: \r\n"),
        ReadError::BadLength("cannot parse integer from empty string".to_string())
    );
    assert_eq!(error_of(b"X: \xff\r\n"), ReadError::NotUtf8);
    assert_eq!(
        error_of(b"Content-Length: 3\r\n\r\n{]}").message(),
        "key must be a string at line 1 column 2"
    );
    assert_eq!(
        error_of(b"Content-Length: 0\r\n\r\n"),
        ReadError::NotJson("EOF while parsing a value at line 1 column 0".to_string())
    );
    assert_eq!(ReadError::MissingLength.message(), "missing Content-Length header");
    assert_eq!(ReadError::Closed.message(), "connection closed");
}

#[test]
fn reading_goes_on_behind_a_bad_frame() {
    let mut reader = DapReader::new(Vec::new());
    reader.feed(b"Content-Length: x\r\n\r\nContent-Length: 2\r\n\r\n{]Content-Length: 4\r\n\r\ntrue");
    assert!(matches!(reader.read_message(), Some(Err(ReadError::BadLength(_)))));
    assert!(matches!(reader.read_message(), Some(Err(ReadError::MissingLength))));
    assert!(matches!(reader.read_message(), Some(Err(ReadError::NotJson(_)))));
    assert!(matches!(reader.read_message(), Some(Ok(Json::Bool(true)))));
    assert!(reader.read_message().is_none());
}

#[test]
fn numbers_that_are_not_whole_are_carried_through() {
    for text in ["1.5", "-0.25", "18446744073709551616", "[5,-5,5.0]"] {
        let v = value(text);
        assert_eq!(to_value(&from_value(&v)), v, "{text}");
    }
    assert!(matches!(from_value(&value("5.0")), Json::Real(_)));
    assert_eq!(from_value(&Value::from(5i64)), Json::Unsigned(5));
    assert_eq!(from_value(&to_value(&Json::Negative(5))), Json::Unsigned(5));
}
