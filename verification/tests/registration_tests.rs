use libcfd::connection::{bind_failure, connect_failure};
use libcfd::error::TunnelError;
use libcfd::registration::{
    process_registration_response, RegistrationRequest, RegistrationResponse,
};
use libcfd::tunnel_config::TunnelConfig;
use libcfd::uuid::{uuid_parse, uuid_text};

fn sample_config() -> TunnelConfig {
    TunnelConfig::from_api_parts(
        String::from("0123456789abcdef"),
        "c2VjcmV0LWJ5dGVz",
        "01020304-0506-0708-090a-0b0c0d0e0f10",
        String::from("sample.trycloudflare.com"),
    )
    .unwrap()
}

#[test]
fn resolution_failure() {
    // A destination hint that resolves to nothing fails the whole
    // bring-up with a resolution error.
    let err = connect_failure(None);
    match &err {
        TunnelError::ResolutionFailed { detail } => {
            assert_eq!(detail, "could not resolve dst_addr to any address")
        },
        other => panic!("wrong error kind: {:?}", other),
    }
    let src_err = bind_failure(None);
    assert_eq!(src_err.message(), "could not resolve src_addr to any address");
    // With candidates tried, the last socket error is surfaced
    // instead.
    let err2 = connect_failure(Some(String::from("connection refused")));
    assert!(matches!(err2, TunnelError::ConnectFailed { .. }));
    assert_eq!(err2.message(), "connection refused");
}

#[test]
fn happy_registration() {
    let reply = RegistrationResponse::ConnectionDetails {
        uuid: vec![1, 2, 3, 4, 5, 6, 7, 8, 9, 10, 11, 12, 13, 14, 15, 16],
        location_name: String::from("DFW"),
        tunnel_is_remotely_managed: false,
    };
    let details = process_registration_response(reply).unwrap();
    assert_eq!(details.uuid, "01020304-0506-0708-090a-0b0c0d0e0f10");
    assert_eq!(details.location_name, "DFW");
    assert!(!details.tunnel_is_remotely_managed);
}

#[test]
fn rejected_registration() {
    let reply = RegistrationResponse::Error {
        cause: String::from("stale creds"),
        should_retry: false,
        retry_after: 0,
    };
    let err = process_registration_response(reply).unwrap_err();
    let text = err.message();
    assert!(text.contains("stale creds"));
    assert!(text.contains("should_retry = false"));
    assert!(text.contains("retry_after = 0"));
    assert_eq!(text, "stale creds (should_retry = false, retry_after = 0)");
}

#[test]
fn rejected_registration_with_retry() {
    let reply = RegistrationResponse::Error {
        cause: String::from("overloaded"),
        should_retry: true,
        retry_after: 12345,
    };
    let err = process_registration_response(reply).unwrap_err();
    assert_eq!(err.message(), "overloaded (should_retry = true, retry_after = 12345)");
}

#[test]
fn short_uuid_in_reply_fails_decoding() {
    let reply = RegistrationResponse::ConnectionDetails {
        uuid: vec![1, 2, 3],
        location_name: String::from("DFW"),
        tunnel_is_remotely_managed: true,
    };
    let err = process_registration_response(reply).unwrap_err();
    assert!(matches!(err, TunnelError::SchemaDecode { .. }));
}

#[test]
fn registration_shape() {
    // The payload always declares the exact feature list in order,
    // replace_existing, no compression, and a 16-byte client id.
    let cfg = sample_config();
    let req = RegistrationRequest::new(&cfg, 3, "0.1.0", "linux", "amd64");
    assert_eq!(req.conn_index, 3);
    assert_eq!(req.auth.account_tag, "0123456789abcdef");
    assert_eq!(req.auth.tunnel_secret, b"secret-bytes".to_vec());
    assert_eq!(
        req.tunnel_id,
        vec![1, 2, 3, 4, 5, 6, 7, 8, 9, 10, 11, 12, 13, 14, 15, 16]
    );
    assert_eq!(
        req.options.client.features,
        vec![
            String::from("serialized_headers"),
            String::from("support_datagram_v2"),
            String::from("support_quic_eof"),
            String::from("management_logs"),
        ]
    );
    assert_eq!(req.options.client.version, "libcfd_0.1.0");
    assert_eq!(req.options.client.arch, "linux_amd64");
    assert!(req.options.replace_existing);
    assert_eq!(req.options.compression_quality, 0);
    assert_eq!(req.options.client.client_id.len(), 16);
    // The client id parses as an identifier when rendered.
    let text = uuid_text(&req.options.client.client_id);
    assert_eq!(uuid_parse(&text).unwrap(), req.options.client.client_id);
    // Two requests draw distinct client ids.
    let req2 = RegistrationRequest::new(&cfg, 3, "0.1.0", "linux", "amd64");
    assert_ne!(req.options.client.client_id, req2.options.client.client_id);
}

#[test]
fn config_from_api_parts() {
    let cfg = sample_config();
    assert_eq!(cfg.account_tag, "0123456789abcdef");
    assert_eq!(cfg.tunnel_secret, b"secret-bytes".to_vec());
    assert_eq!(cfg.tunnel_id.len(), 16);
    assert_eq!(cfg.hostname, "sample.trycloudflare.com");
}

#[test]
fn config_rejects_bad_secret_or_id() {
    let bad_secret = TunnelConfig::from_api_parts(
        String::from("tag"),
        "not-base64!!",
        "01020304-0506-0708-090a-0b0c0d0e0f10",
        String::from("h"),
    );
    assert!(matches!(bad_secret.unwrap_err(), TunnelError::SchemaDecode { .. }));
    let bad_id = TunnelConfig::from_api_parts(
        String::from("tag"),
        "c2VjcmV0",
        "not-a-uuid",
        String::from("h"),
    );
    assert!(matches!(bad_id.unwrap_err(), TunnelError::SchemaDecode { .. }));
}

#[test]
fn uuid_text_matches_canonical_form() {
    let bytes: Vec<u8> = vec![
        0xF8, 0x1D, 0x4F, 0xAE, 0x7D, 0xEC, 0x11, 0xD0, 0xA7, 0x65, 0x00, 0xA0, 0xC9, 0x1E, 0x6B,
        0xF6,
    ];
    let text = uuid_text(&bytes);
    assert_eq!(text, "f81d4fae-7dec-11d0-a765-00a0c91e6bf6");
    // The uuid crate renders the same bytes the same way.
    let reference = uuid::Uuid::from_slice(&bytes).unwrap().to_string();
    assert_eq!(text, reference);
}

#[test]
fn uuid_parse_accepts_canonical_and_rejects_else() {
    let v = uuid_parse("F81D4FAE-7dec-11d0-A765-00a0c91e6bf6").unwrap();
    assert_eq!(v[0], 0xF8);
    assert_eq!(v[15], 0xF6);
    assert!(uuid_parse("").is_none());
    assert!(uuid_parse("f81d4fae7dec11d0a76500a0c91e6bf6").is_none());
    assert!(uuid_parse("f81d4fae-7dec-11d0-a765-00a0c91e6bfg").is_none());
    assert!(uuid_parse("f81d4fae-7dec-11d0-a765+00a0c91e6bf6").is_none());
}
