//! The outbound per-request envelope: either an error text or a list
//! of response metadata entries. On the wire the two arms are the two
//! pointer fields of one struct; the arm present is the one whose
//! pointer is set.

use vstd::prelude::*;
use vstd::string::StringExecFns;
use crate::envelope::{
    arg_view, check_env_wf, decode_envelope, enc_envelope, encode_envelope, entries_view, env_wf,
    parse_envelope, readers_view, EnvelopeView,
};
use crate::error::TunnelError;
use crate::metadata;
use crate::metadata::{text_or_empty, text_view, EntryView};

verus! {

/// The mathematical value of a response envelope.
pub struct ResponseView {
    pub error: Option<Seq<char>>,
    pub metadata: Option<Seq<EntryView>>,
}

/// A response is an envelope without a data section.
pub open spec fn to_envelope(v: ResponseView) -> EnvelopeView {
    EnvelopeView { typ: 0, text: v.error, entries: v.metadata }
}

pub open spec fn of_envelope(e: EnvelopeView) -> ResponseView {
    ResponseView { error: e.text, metadata: e.entries }
}

/// A response that fits the wire format's size fields.
pub open spec fn response_wf(v: ResponseView) -> bool {
    env_wf(0, to_envelope(v))
}

/// The encoded bytes of a response envelope.
pub open spec fn enc_response(v: ResponseView) -> Seq<u8> {
    enc_envelope(0, to_envelope(v))
}

/// The response an envelope message parses to, if any. A message
/// whose data word carries a non-zero value is not a response.
pub open spec fn parse_response(b: Seq<u8>) -> Option<ResponseView> {
    match parse_envelope(b) {
        Option::Some(e) => if e.typ == 0 {
            Option::Some(of_envelope(e))
        } else {
            Option::None
        },
        Option::None => Option::None,
    }
}

/// Parsing a response inverts encoding it.
pub proof fn lemma_response_round_trip(v: ResponseView)
    requires
        response_wf(v),
    ensures
        parse_response(enc_response(v)) == Option::Some(v),
{
    crate::envelope::lemma_envelope_round_trip(0, to_envelope(v));
    assert(of_envelope(to_envelope(v)) == v);
}

/// A response envelope under construction.
pub struct Builder {
    error: Option<String>,
    metadata: Option<Vec<metadata::Builder>>,
}

impl View for Builder {
    type V = ResponseView;

    closed spec fn view(&self) -> ResponseView {
        ResponseView {
            error: text_view(self.error),
            metadata: match self.metadata {
                Option::Some(v) => Option::Some(entries_view(v@)),
                Option::None => Option::None,
            },
        }
    }
}

impl Builder {
    /// A new response with both arms absent.
    pub fn new() -> (r: Builder)
        ensures
            r@ == (ResponseView { error: Option::None, metadata: Option::None }),
    {
        Builder { error: Option::None, metadata: Option::None }
    }

    pub fn set_error(&mut self, error: &str)
        ensures
            final(self)@ == (ResponseView {
                error: Option::Some(error@),
                metadata: old(self)@.metadata,
            }),
    {
        self.error = Option::Some(error.to_owned());
    }

    /// The error text, or the empty string when the arm is absent.
    pub fn get_error(&self) -> (r: String)
        ensures
            r@ == text_or_empty(self@.error),
    {
        match &self.error {
            Option::Some(s) => s.clone(),
            Option::None => String::new(),
        }
    }

    pub fn has_error(&self) -> (r: bool)
        ensures
            r == (self@.error is Some),
    {
        self.error.is_some()
    }

    pub fn set_metadata(&mut self, entries: Vec<metadata::Builder>)
        ensures
            final(self)@ == (ResponseView {
                error: old(self)@.error,
                metadata: Option::Some(entries_view(entries@)),
            }),
    {
        self.metadata = Option::Some(entries);
    }

    /// Initialise the metadata list with `size` empty entries.
    pub fn init_metadata(&mut self, size: u32)
        ensures
            final(self)@ == (ResponseView {
                error: old(self)@.error,
                metadata: Option::Some(
                    Seq::new(size as nat, |i: int| EntryView {
                        key: Option::None,
                        val: Option::None,
                    }),
                ),
            }),
    {
        let mut v: Vec<metadata::Builder> = Vec::new();
        let mut i: u32 = 0;
        while i < size
            invariant
                i <= size,
                v@.len() == i,
                forall|k: int| 0 <= k < v@.len() ==> #[trigger] v@[k]@ == (EntryView {
                    key: Option::None,
                    val: Option::None,
                }),
            decreases size - i,
        {
            v.push(metadata::Builder::new());
            i = i + 1;
        }
        proof {
            assert(entries_view(v@) =~= Seq::new(size as nat, |k: int| EntryView {
                key: Option::None,
                val: Option::None,
            }));
        }
        self.metadata = Option::Some(v);
    }

    pub fn get_metadata(&self) -> (r: Option<&Vec<metadata::Builder>>)
        ensures
            match r {
                Option::Some(v) => self@.metadata == Option::Some(entries_view(v@)),
                Option::None => self@.metadata is None,
            },
    {
        match &self.metadata {
            Option::Some(v) => Option::Some(v),
            Option::None => Option::None,
        }
    }

    pub fn has_metadata(&self) -> (r: bool)
        ensures
            r == (self@.metadata is Some),
    {
        self.metadata.is_some()
    }

    /// Freeze the builder into the immutable form a decoder returns.
    pub fn into_reader(self) -> (r: Reader)
        ensures
            r@ == self@,
    {
        let metadata = match self.metadata {
            Option::Some(v) => {
                let ghost src = v@;
                let mut out: Vec<metadata::Reader> = Vec::new();
                let mut rest = v;
                while rest.len() > 0
                    invariant
                        out@.len() + rest@.len() == src.len(),
                        forall|k: int| 0 <= k < out@.len() ==> #[trigger] out@[k]@ == src[k]@,
                        forall|k: int| 0 <= k < rest@.len() ==> #[trigger] rest@[k] == src[out@.len()
                            + k],
                    decreases rest@.len(),
                {
                    let b = rest.remove(0);
                    out.push(b.into_reader());
                }
                proof {
                    assert(readers_view(out@) =~= entries_view(src));
                }
                Option::Some(out)
            },
            Option::None => Option::None,
        };
        Reader { error: self.error, metadata }
    }

    /// Whether the response fits the wire format's size fields.
    pub fn encodable(&self) -> (r: bool)
        ensures
            r == response_wf(self@),
    {
        let text = match &self.error {
            Option::Some(s) => Option::Some(s),
            Option::None => Option::None,
        };
        let entries = match &self.metadata {
            Option::Some(v) => Option::Some(v),
            Option::None => Option::None,
        };
        let r = check_env_wf(false, 0, text, entries);
        proof {
            assert(arg_view(0, text, entries) == to_envelope(self@));
        }
        r
    }

    /// Encode the response as one schema-framed message.
    pub fn encode(&self) -> (r: Vec<u8>)
        requires
            response_wf(self@),
        ensures
            r@ == enc_response(self@),
    {
        let text = match &self.error {
            Option::Some(s) => Option::Some(s),
            Option::None => Option::None,
        };
        let entries = match &self.metadata {
            Option::Some(v) => Option::Some(v),
            Option::None => Option::None,
        };
        proof {
            assert(arg_view(0, text, entries) == to_envelope(self@));
        }
        encode_envelope(false, 0, text, entries)
    }
}

/// A decoded response envelope.
pub struct Reader {
    error: Option<String>,
    metadata: Option<Vec<metadata::Reader>>,
}

impl View for Reader {
    type V = ResponseView;

    closed spec fn view(&self) -> ResponseView {
        ResponseView {
            error: text_view(self.error),
            metadata: match self.metadata {
                Option::Some(v) => Option::Some(readers_view(v@)),
                Option::None => Option::None,
            },
        }
    }
}

impl Reader {
    /// The error text, or the empty string when the arm is absent.
    pub fn get_error(&self) -> (r: String)
        ensures
            r@ == text_or_empty(self@.error),
    {
        match &self.error {
            Option::Some(s) => s.clone(),
            Option::None => String::new(),
        }
    }

    pub fn has_error(&self) -> (r: bool)
        ensures
            r == (self@.error is Some),
    {
        self.error.is_some()
    }

    pub fn get_metadata(&self) -> (r: Option<&Vec<metadata::Reader>>)
        ensures
            match r {
                Option::Some(v) => self@.metadata == Option::Some(readers_view(v@)),
                Option::None => self@.metadata is None,
            },
    {
        match &self.metadata {
            Option::Some(v) => Option::Some(v),
            Option::None => Option::None,
        }
    }

    pub fn has_metadata(&self) -> (r: bool)
        ensures
            r == (self@.metadata is Some),
    {
        self.metadata.is_some()
    }
}

/// Decode one schema-framed message as a response envelope. Succeeds
/// exactly when the bytes parse as a response.
pub fn decode_connect_response(b: &[u8]) -> (r: Result<Reader, TunnelError>)
    ensures
        match r {
            Ok(rd) => parse_response(b@) == Option::Some(rd@),
            Err(e) => parse_response(b@) is None && e matches TunnelError::SchemaDecode { .. },
        },
{
    match decode_envelope(b) {
        Option::Some(dec) => {
            if dec.typ != 0 {
                return Err(
                    TunnelError::SchemaDecode {
                        detail: String::from_str("unexpected data section in response envelope"),
                    },
                );
            }
            let rd = Reader { error: dec.text, metadata: dec.entries };
            Ok(rd)
        },
        Option::None => Err(
            TunnelError::SchemaDecode {
                detail: String::from_str("malformed response envelope"),
            },
        ),
    }
}

} // verus!
