use serde_json::Value;
use v_kernel::codec::{DecodeError, Envelope};
use v_kernel::message::{document_of, JupyterMessage};

fn value(text: &str) -> Value {
    serde_json::from_str(text).unwrap()
}

fn request_frames(key: &[u8]) -> Vec<Vec<u8>> {
    Envelope {
        identities: vec![b"client".to_vec()],
        header: b"{\"msg_id\":\"1\",\"msg_type\":\"execute_request\",\"session\":\"s\"}".to_vec(),
        parent_header: b"{}".to_vec(),
        metadata: b"not json at all".to_vec(),
        content: b"{ \"code\": \"x := 1\", \"silent\": false }".to_vec(),
        buffers: vec![vec![9, 8, 7]],
    }
    .to_frames(key)
}

#[test]
fn a_text_that_parses_is_its_document() {
    assert_eq!(document_of(b"{\"a\": [1, true, null, \"x\"]}"), value("{\"a\":[1,true,null,\"x\"]}"));
    assert_eq!(document_of(b"17"), value("17"));
    assert_eq!(document_of(b"\"text\""), Value::String("text".to_string()));
}

#[test]
fn a_text_that_does_not_parse_is_the_empty_object() {
    assert_eq!(document_of(b""), value("{}"));
    assert_eq!(document_of(b"{\"a\": "), value("{}"));
    assert_eq!(document_of(&[0xff, 0x00]), value("{}"));
    assert_eq!(document_of(b"{} trailing"), value("{}"));
}

#[test]
fn decoding_reads_the_parts() {
    let frames = request_frames(b"key");
    let m = JupyterMessage::from_frames(&frames, b"key").unwrap();
    assert_eq!(m.identities, vec![b"client".to_vec()]);
    assert_eq!(m.header, value("{\"msg_id\":\"1\",\"msg_type\":\"execute_request\",\"session\":\"s\"}"));
    assert_eq!(m.parent_header, value("{}"));
    assert_eq!(m.metadata, value("{}"));
    assert_eq!(m.content, value("{\"code\":\"x := 1\",\"silent\":false}"));
    assert_eq!(m.buffers, vec![vec![9, 8, 7]]);
}

#[test]
fn decoding_fails_as_the_envelope_does() {
    let frames = request_frames(b"key");
    assert!(matches!(
        JupyterMessage::from_frames(&frames, b"wrong"),
        Err(DecodeError::SignatureMismatch)
    ));
    assert!(matches!(
        JupyterMessage::from_frames(&frames[..4], b"key"),
        Err(DecodeError::TooFewFrames)
    ));
    assert!(matches!(
        JupyterMessage::from_frames(&frames[..1], b"key"),
        Err(DecodeError::NoDelimiter)
    ));
    let mut bad = frames.clone();
    bad[2] = vec![0xc3];
    assert!(matches!(JupyterMessage::from_frames(&bad, b"key"), Err(DecodeError::SignatureNotText)));
}

#[test]
fn encoding_prints_the_parts_compactly() {
    let m = JupyterMessage {
        identities: vec![b"id".to_vec()],
        header: value("{ \"msg_type\" : \"status\",  \"b\": [1, 2] }"),
        parent_header: value("{}"),
        metadata: value("{}"),
        content: value("{\"text\": \"a\\nb \\u00e9\"}"),
        buffers: vec![],
    };
    let raw = m.to_envelope();
    assert_eq!(raw.identities, vec![b"id".to_vec()]);
    assert_eq!(raw.header, b"{\"b\":[1,2],\"msg_type\":\"status\"}".to_vec());
    assert_eq!(raw.parent_header, b"{}".to_vec());
    assert_eq!(raw.metadata, b"{}".to_vec());
    assert_eq!(raw.content, "{\"text\":\"a\\nb \u{e9}\"}".as_bytes().to_vec());
    assert!(raw.buffers.is_empty());
    let frames = m.to_frames(b"key");
    assert_eq!(frames, raw.to_frames(b"key"));
    assert_eq!(frames[3], raw.header);
}

#[test]
fn a_message_comes_back_from_its_frames() {
    let m = JupyterMessage {
        identities: vec![b"a".to_vec(), b"b".to_vec()],
        header: value("{\"msg_type\":\"execute_reply\",\"version\":\"5.3\"}"),
        parent_header: value("{\"msg_id\":\"7\"}"),
        metadata: value("{}"),
        content: value("{\"status\":\"ok\",\"execution_count\":3,\"payload\":[],\"user_expressions\":{}}"),
        buffers: vec![vec![0], vec![]],
    };
    for key in [&b"k"[..], &b""[..]] {
        let back = JupyterMessage::from_frames(&m.to_frames(key), key).unwrap();
        assert_eq!(back.identities, m.identities);
        assert_eq!(back.header, m.header);
        assert_eq!(back.parent_header, m.parent_header);
        assert_eq!(back.metadata, m.metadata);
        assert_eq!(back.content, m.content);
        assert_eq!(back.buffers, m.buffers);
    }
}
