//! Client library for a multiplexed tunnel to a cloud edge.
//!
//! The library covers the pure core of the tunnel protocol: the wire
//! encoding of the per-request envelope (`connect_request`,
//! `connect_response`, `metadata`), the 8-byte framing signature, the
//! registration request and response handling, and the state machines
//! that govern the connection lifecycle and the RPC driver task.

pub mod connect_request;
pub mod connect_response;
pub mod connection;
pub mod driver;
pub mod envelope;
pub mod error;
pub mod fmt;
pub mod framing;
pub mod metadata;
pub mod registration;
pub mod table;
pub mod tunnel_config;
pub mod uuid;
pub mod wire;

use vstd::prelude::*;

verus! {

/// The fixed 8-byte prefix written at the head of both directions of
/// every per-request stream. The final two bytes are an opaque version
/// tag; the whole prefix is compared as a unit.
pub open spec fn signature_spec() -> Seq<u8> {
    seq![0x0Au8, 0x36u8, 0xCDu8, 0x12u8, 0xA1u8, 0x3Eu8, 0x30u8, 0x31u8]
}

/// The framing signature as a vector of bytes.
pub fn signature() -> (r: Vec<u8>)
    ensures
        r@ == signature_spec(),
{
    let mut v: Vec<u8> = Vec::new();
    v.push(0x0A);
    v.push(0x36);
    v.push(0xCD);
    v.push(0x12);
    v.push(0xA1);
    v.push(0x3E);
    v.push(0x30);
    v.push(0x31);
    proof {
        assert(v@ =~= signature_spec());
    }
    v
}

/// The closed set of upper-layer protocols an inbound request can
/// carry. Unknown wire discriminants fail decoding; they never map to
/// a default.
#[derive(Clone, Copy, Debug, PartialEq, Eq, Structural)]
pub enum ConnectionType {
    Http,
    Websocket,
    Tcp,
}

/// The wire discriminant of a connection type.
pub open spec fn connection_type_code(t: ConnectionType) -> u16 {
    match t {
        ConnectionType::Http => 0,
        ConnectionType::Websocket => 1,
        ConnectionType::Tcp => 2,
    }
}

/// The connection type of a wire discriminant, if it names one.
pub open spec fn connection_type_of(c: u16) -> Option<ConnectionType> {
    if c == 0 {
        Option::Some(ConnectionType::Http)
    } else if c == 1 {
        Option::Some(ConnectionType::Websocket)
    } else if c == 2 {
        Option::Some(ConnectionType::Tcp)
    } else {
        Option::None
    }
}

impl ConnectionType {
    /// The wire discriminant of this type.
    pub fn code(&self) -> (r: u16)
        ensures
            r == connection_type_code(*self),
    {
        match self {
            ConnectionType::Http => 0,
            ConnectionType::Websocket => 1,
            ConnectionType::Tcp => 2,
        }
    }

    /// The type a wire discriminant names, or nothing for an unknown
    /// one.
    pub fn from_code(c: u16) -> (r: Option<ConnectionType>)
        ensures
            r == connection_type_of(c),
    {
        if c == 0 {
            Option::Some(ConnectionType::Http)
        } else if c == 1 {
            Option::Some(ConnectionType::Websocket)
        } else if c == 2 {
            Option::Some(ConnectionType::Tcp)
        } else {
            Option::None
        }
    }
}

/// A type's discriminant always maps back to the type.
pub proof fn lemma_connection_type_round_trip(t: ConnectionType)
    ensures
        connection_type_of(connection_type_code(t)) == Option::Some(t),
{
}

} // verus!
