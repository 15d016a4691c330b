//! The error kinds the library surfaces. Nothing is retried
//! internally: every error is terminal for the operation that
//! produced it.

use vstd::prelude::*;
use vstd::string::StringExecFns;
use crate::fmt::{dec_str, hex_list, hex_dump, u64_to_dec, bool_to_text};

verus! {

/// Everything that can go wrong in the tunnel core.
#[derive(Debug)]
pub enum TunnelError {
    /// A source or destination hint resolved to no address at all.
    ResolutionFailed { detail: String },
    /// Every resolved source candidate failed at the socket layer.
    BindFailed { detail: String },
    /// Every resolved destination candidate failed to connect.
    ConnectFailed { detail: String },
    /// Certificate validation or the TLS handshake failed.
    TlsFailed { detail: String },
    /// The registration call returned the error arm.
    RegistrationRejected { cause: String, should_retry: bool, retry_after: u64 },
    /// The RPC engine terminated before a call completed.
    RpcTransport { detail: String },
    /// A per-request stream opened with bytes other than the magic.
    SignatureMismatch { observed: Vec<u8> },
    /// An envelope failed to decode, or a discriminant is unknown.
    SchemaDecode { detail: String },
    /// The transport surfaced an end of stream or a reset mid-frame.
    StreamClosed { detail: String },
}

/// The exact text `message` renders for an error.
pub open spec fn message_spec(e: TunnelError) -> Seq<char> {
    match e {
        TunnelError::ResolutionFailed { detail } => detail@,
        TunnelError::BindFailed { detail } => detail@,
        TunnelError::ConnectFailed { detail } => detail@,
        TunnelError::TlsFailed { detail } => detail@,
        TunnelError::RegistrationRejected { cause, should_retry, retry_after } => cause@
            + " (should_retry = "@ + (if should_retry {
            "true"@
        } else {
            "false"@
        }) + ", retry_after = "@ + dec_str(retry_after as nat) + ")"@,
        TunnelError::RpcTransport { detail } => detail@,
        TunnelError::SignatureMismatch { observed } => "unknown signature: "@ + hex_list(
            observed@,
        ),
        TunnelError::SchemaDecode { detail } => detail@,
        TunnelError::StreamClosed { detail } => detail@,
    }
}

impl TunnelError {
    /// The human-readable text of the error. A rejected registration
    /// carries its cause, `should_retry` and `retry_after` verbatim; a
    /// signature mismatch shows the observed bytes in hex.
    pub fn message(&self) -> (r: String)
        ensures
            r@ == message_spec(*self),
    {
        match self {
            TunnelError::ResolutionFailed { detail } => detail.clone(),
            TunnelError::BindFailed { detail } => detail.clone(),
            TunnelError::ConnectFailed { detail } => detail.clone(),
            TunnelError::TlsFailed { detail } => detail.clone(),
            TunnelError::RegistrationRejected { cause, should_retry, retry_after } => {
                let mut s = cause.clone();
                s.append(" (should_retry = ");
                let flag = bool_to_text(*should_retry);
                s.append(flag.as_str());
                s.append(", retry_after = ");
                let num = u64_to_dec(*retry_after);
                s.append(num.as_str());
                s.append(")");
                s
            },
            TunnelError::RpcTransport { detail } => detail.clone(),
            TunnelError::SignatureMismatch { observed } => {
                let mut s = String::from_str("unknown signature: ");
                let dump = hex_dump(observed);
                s.append(dump.as_str());
                s
            },
            TunnelError::SchemaDecode { detail } => detail.clone(),
            TunnelError::StreamClosed { detail } => detail.clone(),
        }
    }
}

} // verus!
