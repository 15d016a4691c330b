//! The tunnel credential: an account tag, a tunnel secret, a 16-byte
//! tunnel id, and a display hostname. Created once by a credential
//! source and never mutated.

use vstd::prelude::*;
use crate::error::TunnelError;
use crate::uuid::{uuid_parse, uuid_parse_spec};
use vstd::string::StringExecFns;

verus! {

/// What the standard-alphabet base64 decoder returns for a text, when
/// it accepts it. Decoding depends on the text alone.
pub uninterp spec fn base64_decoding(s: Seq<char>) -> Option<Seq<u8>>;

/// Relies on base64's `Engine::decode` with the standard alphabet and
/// padding: a pure function of the input text.
#[verifier::external_body]
fn base64_decode(s: &str) -> (r: Option<Vec<u8>>)
    ensures
        match r {
            Option::Some(v) => base64_decoding(s@) == Option::Some(v@),
            Option::None => base64_decoding(s@) is None,
        },
{
    match base64::Engine::decode(&base64::engine::general_purpose::STANDARD, s) {
        Ok(v) => Option::Some(v),
        Err(_) => Option::None,
    }
}

/// The credential a tunnel registers with.
#[derive(Debug)]
pub struct TunnelConfig {
    /// Opaque short string naming the account.
    pub account_tag: String,
    /// Opaque byte string proving possession of the tunnel.
    pub tunnel_secret: Vec<u8>,
    /// The 16-byte tunnel identifier.
    pub tunnel_id: Vec<u8>,
    /// Display-only hostname.
    pub hostname: String,
}

impl TunnelConfig {
    /// Build a credential from the fields a credential API returns:
    /// the secret in standard base64, the id in canonical hyphenated
    /// form. Fails exactly when either fails to decode.
    pub fn from_api_parts(account_tag: String, secret: &str, id: &str, hostname: String) -> (r:
        Result<TunnelConfig, TunnelError>)
        ensures
            match r {
                Ok(cfg) => {
                    &&& base64_decoding(secret@) == Option::Some(cfg.tunnel_secret@)
                    &&& uuid_parse_spec(id@) == Option::Some(cfg.tunnel_id@)
                    &&& cfg.tunnel_id@.len() == 16
                    &&& cfg.account_tag@ == account_tag@
                    &&& cfg.hostname@ == hostname@
                },
                Err(e) => (base64_decoding(secret@) is None || uuid_parse_spec(id@) is None) && e
                    matches TunnelError::SchemaDecode { .. },
            },
    {
        let tunnel_secret = match base64_decode(secret) {
            Option::Some(v) => v,
            Option::None => {
                return Err(
                    TunnelError::SchemaDecode {
                        detail: String::from_str("tunnel secret is not valid base64"),
                    },
                );
            },
        };
        let tunnel_id = match uuid_parse(id) {
            Option::Some(v) => v,
            Option::None => {
                return Err(
                    TunnelError::SchemaDecode {
                        detail: String::from_str("tunnel id is not a canonical identifier"),
                    },
                );
            },
        };
        Ok(TunnelConfig { account_tag, tunnel_secret, tunnel_id, hostname })
    }
}

} // verus!
