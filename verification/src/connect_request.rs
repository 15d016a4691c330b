//! The inbound per-request envelope: a destination text, a typed
//! protocol tag, and a list of metadata entries.

use vstd::prelude::*;
use vstd::string::{StringExecFns, StringSliceAdditionalSpecFns};
use crate::connection_type_of;
use crate::ConnectionType;
use crate::envelope::{
    arg_view, check_env_wf, decode_envelope, enc_envelope, encode_envelope, entries_view, env_wf,
    parse_envelope, readers_view, EnvelopeView,
};
use crate::error::TunnelError;
use crate::metadata;
use crate::metadata::{text_or_empty, text_view, EntryView};

verus! {

/// The mathematical value of a request envelope.
pub struct RequestView {
    pub dest: Option<Seq<char>>,
    pub typ: u16,
    pub metadata: Option<Seq<EntryView>>,
}

/// A request is an envelope whose data word carries the type tag.
pub open spec fn to_envelope(v: RequestView) -> EnvelopeView {
    EnvelopeView { typ: v.typ, text: v.dest, entries: v.metadata }
}

pub open spec fn of_envelope(e: EnvelopeView) -> RequestView {
    RequestView { dest: e.text, typ: e.typ, metadata: e.entries }
}

/// A request that fits the wire format's size fields.
pub open spec fn request_wf(v: RequestView) -> bool {
    env_wf(1, to_envelope(v))
}

/// The encoded bytes of a request envelope.
pub open spec fn enc_request(v: RequestView) -> Seq<u8> {
    enc_envelope(1, to_envelope(v))
}

/// The request an envelope message parses to, if any.
pub open spec fn parse_request(b: Seq<u8>) -> Option<RequestView> {
    match parse_envelope(b) {
        Option::Some(e) => Option::Some(of_envelope(e)),
        Option::None => Option::None,
    }
}

/// Parsing a request inverts encoding it.
pub proof fn lemma_request_round_trip(v: RequestView)
    requires
        request_wf(v),
    ensures
        parse_request(enc_request(v)) == Option::Some(v),
{
    crate::envelope::lemma_envelope_round_trip(1, to_envelope(v));
    assert(of_envelope(to_envelope(v)) == v);
}

/// A request envelope under construction.
pub struct Builder {
    dest: Option<String>,
    typ: u16,
    metadata: Option<Vec<metadata::Builder>>,
}

impl View for Builder {
    type V = RequestView;

    closed spec fn view(&self) -> RequestView {
        RequestView {
            dest: text_view(self.dest),
            typ: self.typ,
            metadata: match self.metadata {
                Option::Some(v) => Option::Some(entries_view(v@)),
                Option::None => Option::None,
            },
        }
    }
}

impl Builder {
    /// A new request with every field absent and the default type tag.
    pub fn new() -> (r: Builder)
        ensures
            r@ == (RequestView { dest: Option::None, typ: 0, metadata: Option::None }),
    {
        Builder { dest: Option::None, typ: 0, metadata: Option::None }
    }

    pub fn set_dest(&mut self, dest: &str)
        ensures
            final(self)@ == (RequestView {
                dest: Option::Some(dest@),
                typ: old(self)@.typ,
                metadata: old(self)@.metadata,
            }),
    {
        self.dest = Option::Some(dest.to_owned());
    }

    /// The destination text, or the empty string when absent.
    pub fn get_dest(&self) -> (r: String)
        ensures
            r@ == text_or_empty(self@.dest),
    {
        match &self.dest {
            Option::Some(s) => s.clone(),
            Option::None => String::new(),
        }
    }

    pub fn has_dest(&self) -> (r: bool)
        ensures
            r == (self@.dest is Some),
    {
        self.dest.is_some()
    }

    pub fn set_type(&mut self, t: ConnectionType)
        ensures
            final(self)@ == (RequestView {
                dest: old(self)@.dest,
                typ: crate::connection_type_code(t),
                metadata: old(self)@.metadata,
            }),
    {
        self.typ = t.code();
    }

    /// The type tag as the closed enumeration; an unknown discriminant
    /// is an error, never a default.
    pub fn get_type(&self) -> (r: Result<ConnectionType, TunnelError>)
        ensures
            match r {
                Ok(t) => connection_type_of(self@.typ) == Option::Some(t),
                Err(e) => connection_type_of(self@.typ) is None && e matches
                    TunnelError::SchemaDecode { .. },
            },
    {
        match ConnectionType::from_code(self.typ) {
            Option::Some(t) => Ok(t),
            Option::None => Err(
                TunnelError::SchemaDecode {
                    detail: String::from_str("unknown connection type discriminant"),
                },
            ),
        }
    }

    pub fn set_metadata(&mut self, entries: Vec<metadata::Builder>)
        ensures
            final(self)@ == (RequestView {
                dest: old(self)@.dest,
                typ: old(self)@.typ,
                metadata: Option::Some(entries_view(entries@)),
            }),
    {
        self.metadata = Option::Some(entries);
    }

    /// Initialise the metadata list with `size` empty entries.
    pub fn init_metadata(&mut self, size: u32)
        ensures
            final(self)@ == (RequestView {
                dest: old(self)@.dest,
                typ: old(self)@.typ,
                metadata: Option::Some(
                    Seq::new(size as nat, |i: int| EntryView {
                        key: Option::None,
                        val: Option::None,
                    }),
                ),
            }),
    {
        let mut v: Vec<metadata::Builder> = Vec::new();
        let mut i: u32 = 0;
        while i < size
            invariant
                i <= size,
                v@.len() == i,
                forall|k: int| 0 <= k < v@.len() ==> #[trigger] v@[k]@ == (EntryView {
                    key: Option::None,
                    val: Option::None,
                }),
            decreases size - i,
        {
            v.push(metadata::Builder::new());
            i = i + 1;
        }
        proof {
            assert(entries_view(v@) =~= Seq::new(size as nat, |k: int| EntryView {
                key: Option::None,
                val: Option::None,
            }));
        }
        self.metadata = Option::Some(v);
    }

    pub fn get_metadata(&self) -> (r: Option<&Vec<metadata::Builder>>)
        ensures
            match r {
                Option::Some(v) => self@.metadata == Option::Some(entries_view(v@)),
                Option::None => self@.metadata is None,
            },
    {
        match &self.metadata {
            Option::Some(v) => Option::Some(v),
            Option::None => Option::None,
        }
    }

    pub fn has_metadata(&self) -> (r: bool)
        ensures
            r == (self@.metadata is Some),
    {
        self.metadata.is_some()
    }

    /// Freeze the builder into the immutable form a decoder returns.
    pub fn into_reader(self) -> (r: Reader)
        ensures
            r@ == self@,
    {
        let metadata = match self.metadata {
            Option::Some(v) => {
                let ghost src = v@;
                let mut out: Vec<metadata::Reader> = Vec::new();
                let mut rest = v;
                while rest.len() > 0
                    invariant
                        out@.len() + rest@.len() == src.len(),
                        forall|k: int| 0 <= k < out@.len() ==> #[trigger] out@[k]@ == src[k]@,
                        forall|k: int| 0 <= k < rest@.len() ==> #[trigger] rest@[k] == src[out@.len()
                            + k],
                    decreases rest@.len(),
                {
                    let b = rest.remove(0);
                    out.push(b.into_reader());
                }
                proof {
                    assert(readers_view(out@) =~= entries_view(src));
                }
                Option::Some(out)
            },
            Option::None => Option::None,
        };
        Reader { dest: self.dest, typ: self.typ, metadata }
    }

    /// Whether the request fits the wire format's size fields.
    pub fn encodable(&self) -> (r: bool)
        ensures
            r == request_wf(self@),
    {
        let text = match &self.dest {
            Option::Some(s) => Option::Some(s),
            Option::None => Option::None,
        };
        let entries = match &self.metadata {
            Option::Some(v) => Option::Some(v),
            Option::None => Option::None,
        };
        let r = check_env_wf(true, self.typ, text, entries);
        proof {
            assert(arg_view(self.typ, text, entries) == to_envelope(self@));
        }
        r
    }

    /// Encode the request as one schema-framed message.
    pub fn encode(&self) -> (r: Vec<u8>)
        requires
            request_wf(self@),
        ensures
            r@ == enc_request(self@),
    {
        let text = match &self.dest {
            Option::Some(s) => Option::Some(s),
            Option::None => Option::None,
        };
        let entries = match &self.metadata {
            Option::Some(v) => Option::Some(v),
            Option::None => Option::None,
        };
        proof {
            assert(arg_view(self.typ, text, entries) == to_envelope(self@));
        }
        encode_envelope(true, self.typ, text, entries)
    }
}

/// A decoded request envelope.
pub struct Reader {
    dest: Option<String>,
    typ: u16,
    metadata: Option<Vec<metadata::Reader>>,
}

impl View for Reader {
    type V = RequestView;

    closed spec fn view(&self) -> RequestView {
        RequestView {
            dest: text_view(self.dest),
            typ: self.typ,
            metadata: match self.metadata {
                Option::Some(v) => Option::Some(readers_view(v@)),
                Option::None => Option::None,
            },
        }
    }
}

impl Reader {
    /// The destination text, or the empty string when absent.
    pub fn get_dest(&self) -> (r: String)
        ensures
            r@ == text_or_empty(self@.dest),
    {
        match &self.dest {
            Option::Some(s) => s.clone(),
            Option::None => String::new(),
        }
    }

    pub fn has_dest(&self) -> (r: bool)
        ensures
            r == (self@.dest is Some),
    {
        self.dest.is_some()
    }

    /// The type tag as the closed enumeration; an unknown discriminant
    /// is an error, never a default.
    pub fn get_type(&self) -> (r: Result<ConnectionType, TunnelError>)
        ensures
            match r {
                Ok(t) => connection_type_of(self@.typ) == Option::Some(t),
                Err(e) => connection_type_of(self@.typ) is None && e matches
                    TunnelError::SchemaDecode { .. },
            },
    {
        match ConnectionType::from_code(self.typ) {
            Option::Some(t) => Ok(t),
            Option::None => Err(
                TunnelError::SchemaDecode {
                    detail: String::from_str("unknown connection type discriminant"),
                },
            ),
        }
    }

    pub fn get_metadata(&self) -> (r: Option<&Vec<metadata::Reader>>)
        ensures
            match r {
                Option::Some(v) => self@.metadata == Option::Some(readers_view(v@)),
                Option::None => self@.metadata is None,
            },
    {
        match &self.metadata {
            Option::Some(v) => Option::Some(v),
            Option::None => Option::None,
        }
    }

    pub fn has_metadata(&self) -> (r: bool)
        ensures
            r == (self@.metadata is Some),
    {
        self.metadata.is_some()
    }
}

/// Decode one schema-framed message as a request envelope. Succeeds
/// exactly when the bytes parse.
pub fn decode_connect_request(b: &[u8]) -> (r: Result<Reader, TunnelError>)
    ensures
        match r {
            Ok(rd) => parse_request(b@) == Option::Some(rd@),
            Err(e) => parse_request(b@) is None && e matches TunnelError::SchemaDecode { .. },
        },
{
    match decode_envelope(b) {
        Option::Some(dec) => {
            let rd = Reader { dest: dec.text, typ: dec.typ, metadata: dec.entries };
            Ok(rd)
        },
        Option::None => Err(
            TunnelError::SchemaDecode {
                detail: String::from_str("malformed request envelope"),
            },
        ),
    }
}

} // verus!
