use libcfd::connection::{
    dst_host, src_host, tls_server_name, ConnectionLifecycle, ConnectionState, DstAddr,
    InboundQueue, SrcAddr,
};
use libcfd::driver::{DriverState, RpcDriver};
use libcfd::error::TunnelError;
use libcfd::fmt::u64_to_dec;
use libcfd::table::MetadataTable;

#[test]
fn region_aliases_and_tls_name() {
    assert_eq!(dst_host(&DstAddr::Region1), "region1.argotunnel.com:7844");
    assert_eq!(dst_host(&DstAddr::Region2), "region2.argotunnel.com:7844");
    assert_eq!(dst_host(&DstAddr::Default), "region2.argotunnel.com:7844");
    assert_eq!(dst_host(&DstAddr::Explicit(String::from("1.2.3.4:7844"))), "1.2.3.4:7844");
    assert_eq!(src_host(&SrcAddr::Default), "0.0.0.0:0");
    assert_eq!(src_host(&SrcAddr::Explicit(String::from("10.0.0.1:0"))), "10.0.0.1:0");
    assert_eq!(tls_server_name(), "quic.cftunnel.com");
}

#[test]
fn lifecycle_states() {
    let mut c = ConnectionLifecycle::new();
    assert_eq!(c.state(), ConnectionState::Unregistered);
    assert!(!c.accept_permitted());
    c.start_registration();
    assert_eq!(c.state(), ConnectionState::Registering);
    assert!(!c.accept_permitted());
    c.registration_succeeded();
    assert_eq!(c.state(), ConnectionState::Ready);
    assert!(c.accept_permitted());
    c.transport_lost();
    assert_eq!(c.state(), ConnectionState::Closed);
    assert!(!c.accept_permitted());
}

#[test]
fn lifecycle_registration_failure_closes() {
    let mut c = ConnectionLifecycle::new();
    c.start_registration();
    c.registration_failed();
    assert_eq!(c.state(), ConnectionState::Closed);
    assert!(!c.accept_permitted());
}

#[test]
fn inbound_streams_accepted_in_arrival_order() {
    let mut q = InboundQueue::new();
    for id in 0..1000u64 {
        q.stream_arrived(id);
    }
    for id in 0..1000u64 {
        assert_eq!(q.accept_next(), Some(id));
    }
    assert_eq!(q.accept_next(), None);
}

#[test]
fn inbound_interleaved_arrivals_keep_order() {
    let mut q = InboundQueue::new();
    q.stream_arrived(7);
    q.stream_arrived(9);
    assert_eq!(q.accept_next(), Some(7));
    q.stream_arrived(11);
    assert_eq!(q.accept_next(), Some(9));
    assert_eq!(q.accept_next(), Some(11));
    assert_eq!(q.accept_next(), None);
}

#[test]
fn driver_serves_fifo_within_capacity() {
    let mut d = RpcDriver::new();
    assert_eq!(d.state(), DriverState::Running);
    for id in 0..8u64 {
        assert!(d.has_room());
        d.enqueue(id);
    }
    assert!(!d.has_room());
    assert_eq!(d.serve_next(), Some(0));
    assert!(d.has_room());
    d.enqueue(8);
    for id in 1..9u64 {
        assert_eq!(d.serve_next(), Some(id));
    }
    assert_eq!(d.serve_next(), None);
    d.sender_closed();
    assert_eq!(d.state(), DriverState::Disconnecting);
    d.disconnected();
    assert_eq!(d.state(), DriverState::Finished);
}

#[test]
fn driver_engine_failure_is_terminal() {
    let mut d = RpcDriver::new();
    d.enqueue(1);
    d.engine_failed();
    assert_eq!(d.state(), DriverState::Finished);
}

#[test]
fn decimal_rendering() {
    assert_eq!(u64_to_dec(0), "0");
    assert_eq!(u64_to_dec(7), "7");
    assert_eq!(u64_to_dec(10), "10");
    assert_eq!(u64_to_dec(90210), "90210");
    assert_eq!(u64_to_dec(u64::MAX), "18446744073709551615");
}

#[test]
fn table_insert_get_overwrite() {
    let mut t = MetadataTable::new();
    assert_eq!(t.len(), 0);
    t.insert(String::from("k"), String::from("1"));
    t.insert(String::from("l"), String::from("2"));
    assert_eq!(t.len(), 2);
    assert_eq!(t.get("k").unwrap(), "1");
    t.insert(String::from("k"), String::from("3"));
    assert_eq!(t.len(), 2);
    assert_eq!(t.get("k").unwrap(), "3");
    assert!(t.get("K").is_none());
    let (k0, _) = t.entry_at(0);
    assert!(k0 == "k" || k0 == "l");
}

#[test]
fn error_messages_pass_detail_through() {
    let e = TunnelError::TlsFailed { detail: String::from("certificate expired") };
    assert_eq!(e.message(), "certificate expired");
    let e2 = TunnelError::StreamClosed { detail: String::from("reset by peer") };
    assert_eq!(e2.message(), "reset by peer");
    let e3 = TunnelError::RpcTransport { detail: String::from("engine gone") };
    assert_eq!(e3.message(), "engine gone");
}
