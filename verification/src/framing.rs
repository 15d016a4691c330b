//! Per-request framing: every accepted stream carries the 8-byte
//! magic, one schema-framed envelope, and then opaque bytes that
//! belong to the caller. The same framing runs in the reverse
//! direction for the response.

use vstd::prelude::*;
use vstd::bytes::{lemma_auto_spec_u32_to_from_le_bytes, spec_u32_from_le_bytes, u32_from_le_bytes};
use vstd::slice::slice_subrange;
use vstd::string::StringExecFns;
use crate::connect_request;
use crate::connect_request::RequestView;
use crate::connect_response;
use crate::connect_response::{enc_response, response_wf, ResponseView};
use crate::connection_type_of;
use crate::ConnectionType;
use crate::envelope::entries_view;
use crate::error::TunnelError;
use crate::metadata::{text_or_empty, EntryView};
use crate::signature_spec;
use crate::table::{entries_kv, table_map, MetadataTable};

verus! {

/// Check the first 8 bytes of an inbound stream against the magic.
/// Accepts exactly the magic; any differing bytes are a mismatch that
/// carries the observed bytes. Nothing past these 8 bytes is read.
pub fn check_signature(first: &Vec<u8>) -> (r: Result<(), TunnelError>)
    ensures
        r is Ok <==> first@ == signature_spec(),
        r matches Err(e) ==> e matches TunnelError::SignatureMismatch { observed } && observed@
            == first@,
{
    let expected = crate::signature();
    if first.len() != expected.len() {
        return Err(TunnelError::SignatureMismatch { observed: first.clone() });
    }
    let mut i: usize = 0;
    while i < expected.len()
        invariant
            expected@ == signature_spec(),
            expected@.len() == first@.len(),
            i <= expected@.len(),
            forall|k: int| 0 <= k < i ==> first@[k] == expected@[k],
        decreases expected@.len() - i,
    {
        if first[i] != expected[i] {
            return Err(TunnelError::SignatureMismatch { observed: first.clone() });
        }
        i = i + 1;
    }
    proof {
        assert(first@ =~= signature_spec());
    }
    Ok(())
}

/// The whole byte length of the envelope message whose first 8 bytes
/// these are: the segment table of a single-segment message states the
/// segment's size in words. A multi-segment message is refused.
pub fn message_length(header: &Vec<u8>) -> (r: Result<u64, TunnelError>)
    requires
        header@.len() == 8,
    ensures
        match r {
            Ok(n) => spec_u32_from_le_bytes(header@.subrange(0, 4)) == 0 && n == 8 + 8
                * spec_u32_from_le_bytes(header@.subrange(4, 8)),
            Err(e) => spec_u32_from_le_bytes(header@.subrange(0, 4)) != 0 && e matches
                TunnelError::SchemaDecode { .. },
        },
{
    let seg_count = u32_from_le_bytes(slice_subrange(header.as_slice(), 0, 4));
    if seg_count != 0 {
        return Err(
            TunnelError::SchemaDecode {
                detail: String::from_str("envelope message is not a single segment"),
            },
        );
    }
    let words = u32_from_le_bytes(slice_subrange(header.as_slice(), 4, 8));
    Ok(8 + 8 * (words as u64))
}

/// One inbound request as the caller sees it: the destination string
/// supplied by the edge, the protocol tag, and the metadata mapping
/// with unique keys.
#[derive(Debug)]
pub struct ConnectRequest {
    pub request_dest: String,
    pub request_type: ConnectionType,
    pub metadata: MetadataTable,
}

/// The mapping a decoded request's entries collapse to.
pub open spec fn request_table(v: RequestView) -> Map<Seq<char>, Seq<char>> {
    match v.metadata {
        Option::Some(es) => table_map(entries_kv(es)),
        Option::None => Map::empty(),
    }
}

/// Project a decoded envelope into the caller-facing request: the
/// destination (empty when absent), the type tag as the closed
/// enumeration, and the metadata collapsed last-write-wins. Fails
/// exactly on an unknown type discriminant.
pub fn project_request(rd: connect_request::Reader) -> (r: Result<ConnectRequest, TunnelError>)
    ensures
        match r {
            Ok(req) => {
                &&& connection_type_of(rd@.typ) == Option::Some(req.request_type)
                &&& req.request_dest@ == text_or_empty(rd@.dest)
                &&& req.metadata.inv()
                &&& req.metadata@ == request_table(rd@)
            },
            Err(e) => connection_type_of(rd@.typ) is None && e matches TunnelError::SchemaDecode {
                ..
            },
        },
{
    let request_type = match rd.get_type() {
        Ok(t) => t,
        Err(e) => {
            return Err(e);
        },
    };
    let request_dest = rd.get_dest();
    let metadata = match rd.get_metadata() {
        Option::Some(entries) => MetadataTable::from_entries(entries),
        Option::None => {
            let t = MetadataTable::new();
            proof {
                assert(request_table(rd@) =~= Map::<Seq<char>, Seq<char>>::empty());
            }
            t
        },
    };
    Ok(ConnectRequest { request_dest, request_type, metadata })
}

/// Decode an inbound envelope message and project it, in one step.
/// The signature must already have been checked.
pub fn accept_frame(message: &[u8]) -> (r: Result<ConnectRequest, TunnelError>)
    ensures
        match r {
            Ok(req) => connect_request::parse_request(message@) matches Option::Some(v)
                && connection_type_of(v.typ) == Option::Some(req.request_type)
                && req.request_dest@ == text_or_empty(v.dest) && req.metadata.inv()
                && req.metadata@ == request_table(v),
            Err(e) => (connect_request::parse_request(message@) is None || (
            connect_request::parse_request(message@) matches Option::Some(v) && connection_type_of(
                v.typ,
            ) is None)) && e matches TunnelError::SchemaDecode { .. },
        },
{
    let rd = match connect_request::decode_connect_request(message) {
        Ok(rd) => rd,
        Err(e) => {
            return Err(e);
        },
    };
    project_request(rd)
}

/// What the caller answers a request with: either response metadata
/// (acceptance) or an error text (rejection).
pub enum ConnectResponse {
    Metadata(MetadataTable),
    Error(String),
}

/// The entry views of a mapping's pairs, both texts present.
pub open spec fn table_entries(p: Seq<(Seq<char>, Seq<char>)>) -> Seq<EntryView> {
    Seq::new(p.len(), |i: int| EntryView {
        key: Option::Some(p[i].0),
        val: Option::Some(p[i].1),
    })
}

/// The envelope a response renders to.
pub open spec fn response_view_of(resp: ConnectResponse) -> ResponseView {
    match resp {
        ConnectResponse::Metadata(t) => ResponseView {
            error: Option::None,
            metadata: Option::Some(table_entries(t.pairs())),
        },
        ConnectResponse::Error(s) => ResponseView { error: Option::Some(s@), metadata: Option::None },
    }
}

/// Render the outbound frame for a response: the 8-byte magic, then
/// the schema-framed envelope. Fails exactly when the response
/// exceeds the wire format's size fields.
pub fn respond_frame(resp: &ConnectResponse) -> (r: Result<Vec<u8>, TunnelError>)
    ensures
        match r {
            Ok(bytes) => {
                &&& response_wf(response_view_of(*resp))
                &&& bytes@ == signature_spec() + enc_response(response_view_of(*resp))
                &&& bytes@.len() >= 8
                &&& bytes@.take(8) == signature_spec()
            },
            Err(e) => !response_wf(response_view_of(*resp)) && e matches TunnelError::SchemaDecode {
                ..
            },
        },
{
    let mut builder = connect_response::Builder::new();
    match resp {
        ConnectResponse::Metadata(t) => {
            let entries = t.to_entry_builders();
            proof {
                assert(entries_view(entries@) =~= table_entries(t.pairs()));
            }
            builder.set_metadata(entries);
        },
        ConnectResponse::Error(s) => {
            builder.set_error(s.as_str());
        },
    }
    proof {
        assert(builder@ == response_view_of(*resp));
    }
    if !builder.encodable() {
        return Err(
            TunnelError::SchemaDecode {
                detail: String::from_str("response envelope exceeds the wire format's size fields"),
            },
        );
    }
    let envelope = builder.encode();
    let mut bytes = crate::signature();
    let ghost sig = bytes@;
    let mut i: usize = 0;
    while i < envelope.len()
        invariant
            envelope@ == enc_response(response_view_of(*resp)),
            i <= envelope@.len(),
            bytes@ == sig + envelope@.subrange(0, i as int),
            sig == signature_spec(),
        decreases envelope@.len() - i,
    {
        bytes.push(envelope[i]);
        i = i + 1;
        proof {
            assert(sig + envelope@.subrange(0, i as int) =~= (sig + envelope@.subrange(
                0,
                i as int - 1,
            )).push(envelope@[i as int - 1]));
        }
    }
    proof {
        assert(envelope@.subrange(0, envelope@.len() as int) =~= envelope@);
        assert(bytes@.take(8) =~= signature_spec());
    }
    Ok(bytes)
}

} // verus!
