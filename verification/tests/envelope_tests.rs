use libcfd::connect_request;
use libcfd::connect_response;
use libcfd::framing::{
    accept_frame, check_signature, message_length, respond_frame, ConnectResponse,
};
use libcfd::metadata;
use libcfd::table::MetadataTable;
use libcfd::error::TunnelError;
use libcfd::ConnectionType;

fn magic() -> Vec<u8> {
    vec![0x0A, 0x36, 0xCD, 0x12, 0xA1, 0x3E, 0x30, 0x31]
}

#[test]
fn signature_is_the_fixed_prefix() {
    assert_eq!(libcfd::signature(), magic());
    assert!(check_signature(&magic()).is_ok());
}

#[test]
fn signature_corruption() {
    // An inbound stream whose first byte is 0xFF is rejected without
    // reading past the first 8 bytes.
    let mut first = magic();
    first[0] = 0xFF;
    let err = check_signature(&first).unwrap_err();
    match &err {
        TunnelError::SignatureMismatch { observed } => assert_eq!(observed, &first),
        other => panic!("wrong error kind: {:?}", other),
    }
    let text = err.message();
    assert!(text.contains("unknown signature"));
    assert!(text.contains("[FF, 36, CD, 12, A1, 3E, 30, 31]"));
}

#[test]
fn signature_differs_in_any_position() {
    for i in 0..8 {
        let mut first = magic();
        first[i] ^= 0x01;
        assert!(check_signature(&first).is_err(), "byte {} accepted", i);
    }
    let short = vec![0x0A, 0x36];
    assert!(check_signature(&short).is_err());
}

#[test]
fn http_envelope() {
    // Inbound: magic + {dest: "example.com", type: Http,
    // metadata: {"HttpHeader:Host": "example.com"}}.
    let mut b = connect_request::Builder::new();
    b.set_dest("example.com");
    b.set_type(ConnectionType::Http);
    b.set_metadata(vec![metadata::Builder::with_texts("HttpHeader:Host", "example.com")]);
    assert!(b.encodable());
    let message = b.encode();

    check_signature(&magic()).unwrap();
    let req = accept_frame(&message).unwrap();
    assert_eq!(req.request_dest, "example.com");
    assert_eq!(req.request_type, ConnectionType::Http);
    assert_eq!(req.metadata.len(), 1);
    assert_eq!(req.metadata.get("HttpHeader:Host").unwrap(), "example.com");
    assert!(req.metadata.get("HttpHeader:Hos").is_none());

    // Outbound: the caller accepts with response headers; the frame
    // is the magic followed by the encoded envelope.
    let mut headers = MetadataTable::new();
    headers.insert(String::from("HttpStatus"), String::from("200"));
    let frame = respond_frame(&ConnectResponse::Metadata(headers)).unwrap();
    assert_eq!(&frame[0..8], &magic()[..]);

    let mut expected = connect_response::Builder::new();
    expected.set_metadata(vec![metadata::Builder::with_texts("HttpStatus", "200")]);
    assert_eq!(&frame[8..], &expected.encode()[..]);
}

#[test]
fn websocket_upgrade() {
    let mut b = connect_request::Builder::new();
    b.set_dest("/ws");
    b.set_type(ConnectionType::Websocket);
    b.set_metadata(vec![metadata::Builder::with_texts(
        "HttpHeader:Sec-Websocket-Key",
        "dGhlIHNhbXBsZSBub25jZQ==",
    )]);
    let message = b.encode();
    let req = accept_frame(&message).unwrap();
    assert_eq!(req.request_dest, "/ws");
    assert_eq!(req.request_type, ConnectionType::Websocket);
    assert_eq!(
        req.metadata.get("HttpHeader:Sec-Websocket-Key").unwrap(),
        "dGhlIHNhbXBsZSBub25jZQ=="
    );

    let mut headers = MetadataTable::new();
    headers.insert(String::from("HttpStatus"), String::from("101"));
    headers.insert(
        String::from("HttpHeader:Sec-Websocket-Accept"),
        String::from("s3pPLMBiTxaQ9kYGzzhZRbK+xOo="),
    );
    let frame = respond_frame(&ConnectResponse::Metadata(headers)).unwrap();
    assert_eq!(&frame[0..8], &magic()[..]);
    // The response envelope reads back with both headers.
    let rd = connect_response::decode_connect_response(&frame[8..]).unwrap();
    assert!(!rd.has_error());
    let entries = rd.get_metadata().unwrap();
    let table = MetadataTable::from_entries(entries);
    assert_eq!(table.get("HttpStatus").unwrap(), "101");
    assert_eq!(
        table.get("HttpHeader:Sec-Websocket-Accept").unwrap(),
        "s3pPLMBiTxaQ9kYGzzhZRbK+xOo="
    );
}

#[test]
fn request_round_trip() {
    let mut b = connect_request::Builder::new();
    b.set_dest("exämple.com:8080");
    b.set_type(ConnectionType::Tcp);
    b.set_metadata(vec![
        metadata::Builder::with_texts("a", "1"),
        metadata::Builder::with_texts("käse", "ö"),
        metadata::Builder::with_texts("", ""),
    ]);
    let bytes = b.encode();
    let rd = connect_request::decode_connect_request(&bytes).unwrap();
    assert_eq!(rd.get_dest(), "exämple.com:8080");
    assert!(rd.has_dest());
    assert_eq!(rd.get_type().unwrap(), ConnectionType::Tcp);
    let entries = rd.get_metadata().unwrap();
    assert_eq!(entries.len(), 3);
    assert_eq!(entries[0].get_key(), "a");
    assert_eq!(entries[0].get_val(), "1");
    assert_eq!(entries[1].get_key(), "käse");
    assert_eq!(entries[1].get_val(), "ö");
    assert_eq!(entries[2].get_key(), "");
    assert!(entries[2].has_key());
}

#[test]
fn request_round_trip_absent_fields() {
    let b = connect_request::Builder::new();
    let bytes = b.encode();
    let rd = connect_request::decode_connect_request(&bytes).unwrap();
    assert!(!rd.has_dest());
    assert_eq!(rd.get_dest(), "");
    assert!(!rd.has_metadata());
    assert_eq!(rd.get_type().unwrap(), ConnectionType::Http);
}

#[test]
fn response_round_trip_both_arms() {
    // The error arm.
    let mut b = connect_response::Builder::new();
    b.set_error("no such host");
    let bytes = b.encode();
    let rd = connect_response::decode_connect_response(&bytes).unwrap();
    assert!(rd.has_error());
    assert!(!rd.has_metadata());
    assert_eq!(rd.get_error(), "no such host");

    // The metadata arm.
    let mut b2 = connect_response::Builder::new();
    b2.set_metadata(vec![metadata::Builder::with_texts("HttpStatus", "204")]);
    let bytes2 = b2.encode();
    let rd2 = connect_response::decode_connect_response(&bytes2).unwrap();
    assert!(!rd2.has_error());
    let entries = rd2.get_metadata().unwrap();
    assert_eq!(entries.len(), 1);
    assert_eq!(entries[0].get_key(), "HttpStatus");
    assert_eq!(entries[0].get_val(), "204");
}

#[test]
fn metadata_duplicate_keys_collapse_last_write_wins() {
    let mut b = connect_request::Builder::new();
    b.set_dest("example.com");
    b.set_type(ConnectionType::Http);
    b.set_metadata(vec![
        metadata::Builder::with_texts("k", "first"),
        metadata::Builder::with_texts("other", "x"),
        metadata::Builder::with_texts("k", "second"),
        metadata::Builder::with_texts("k", "third"),
    ]);
    let req = accept_frame(&b.encode()).unwrap();
    assert_eq!(req.metadata.len(), 2);
    assert_eq!(req.metadata.get("k").unwrap(), "third");
    assert_eq!(req.metadata.get("other").unwrap(), "x");
}

#[test]
fn unknown_type_discriminant_fails_decoding() {
    let mut b = connect_request::Builder::new();
    b.set_dest("example.com");
    b.set_type(ConnectionType::Http);
    let mut bytes = b.encode();
    // The type tag is the low byte of the root struct's data word,
    // which follows the 8-byte segment table and the root pointer.
    assert_eq!(bytes[16], 0);
    bytes[16] = 5;
    let rd = connect_request::decode_connect_request(&bytes).unwrap();
    assert!(rd.get_type().is_err());
    let err = accept_frame(&bytes).unwrap_err();
    assert!(matches!(err, TunnelError::SchemaDecode { .. }));
}

#[test]
fn malformed_envelopes_fail_decoding() {
    assert!(connect_request::decode_connect_request(&[]).is_err());
    assert!(connect_request::decode_connect_request(&[0u8; 12]).is_err());
    // A two-segment table is refused.
    let mut bytes = connect_request::Builder::new().encode();
    bytes[0] = 1;
    assert!(connect_request::decode_connect_request(&bytes).is_err());
    // A truncated message is refused.
    let whole = connect_request::Builder::new().encode();
    assert!(connect_request::decode_connect_request(&whole[..whole.len() - 8]).is_err());
}

#[test]
fn message_length_matches_encoding() {
    let mut b = connect_request::Builder::new();
    b.set_dest("example.com");
    b.set_type(ConnectionType::Http);
    b.set_metadata(vec![metadata::Builder::with_texts("HttpHeader:Host", "example.com")]);
    let bytes = b.encode();
    let header: Vec<u8> = bytes[0..8].to_vec();
    let n = message_length(&header).unwrap();
    assert_eq!(n as usize, bytes.len());

    let bad = vec![2, 0, 0, 0, 1, 0, 0, 0];
    assert!(message_length(&bad).is_err());
}

#[test]
fn respond_frame_error_arm() {
    let frame = respond_frame(&ConnectResponse::Error(String::from("bad gateway"))).unwrap();
    assert_eq!(&frame[0..8], &magic()[..]);
    let rd = connect_response::decode_connect_response(&frame[8..]).unwrap();
    assert!(rd.has_error());
    assert_eq!(rd.get_error(), "bad gateway");
}

#[test]
fn entry_accessors_and_defaults() {
    let mut e = metadata::Builder::new();
    assert!(!e.has_key() && !e.has_val());
    assert_eq!(e.get_key(), "");
    e.set_key("User-Agent");
    e.set_val("probe");
    assert!(e.has_key() && e.has_val());
    let r = e.into_reader();
    assert_eq!(r.get_key(), "User-Agent");
    assert_eq!(r.get_val(), "probe");
}

#[test]
fn connection_type_codes() {
    assert_eq!(ConnectionType::from_code(0), Some(ConnectionType::Http));
    assert_eq!(ConnectionType::from_code(1), Some(ConnectionType::Websocket));
    assert_eq!(ConnectionType::from_code(2), Some(ConnectionType::Tcp));
    assert_eq!(ConnectionType::from_code(3), None);
    assert_eq!(ConnectionType::Websocket.code(), 1);
}

#[test]
fn capnp_runtime_agrees_with_the_encoding() {
    let mut b = connect_request::Builder::new();
    b.set_dest("example.com");
    b.set_type(ConnectionType::Http);
    b.set_metadata(vec![
        metadata::Builder::with_texts("HttpHeader:Host", "example.com"),
        metadata::Builder::with_texts("x", "y"),
    ]);
    let bytes = b.encode();
    // The runtime accepts the message and can traverse the whole tree.
    let reader =
        capnp::serialize::read_message(&bytes[..], capnp::message::ReaderOptions::new()).unwrap();
    let root: capnp::any_pointer::Reader = reader.get_root().unwrap();
    assert!(!root.is_null());
    assert!(root.target_size().unwrap().word_count > 0);
    // Copying the tree through the runtime reproduces the bytes: the
    // encoder lays objects out exactly as the runtime does.
    let mut msg = capnp::message::Builder::new_default();
    msg.set_root::<capnp::any_pointer::Owned>(root).unwrap();
    let rewritten = capnp::serialize::write_message_to_words(&msg);
    assert_eq!(rewritten, bytes);
    // And the library decodes the runtime's output in turn.
    let rd = connect_request::decode_connect_request(&rewritten).unwrap();
    assert_eq!(rd.get_dest(), "example.com");
    let entries = rd.get_metadata().unwrap();
    assert_eq!(entries.len(), 2);
    assert_eq!(entries[1].get_key(), "x");
}
