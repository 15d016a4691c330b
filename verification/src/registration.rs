//! The registration call: the payload sent on the bootstrap
//! capability and the handling of its tagged response.

use vstd::prelude::*;
use vstd::string::StringExecFns;
use crate::error::TunnelError;
use crate::tunnel_config::TunnelConfig;
use crate::uuid::{uuid_text, uuid_text_spec};

verus! {

/// The authentication sub-struct of the registration payload.
pub struct RegistrationAuth {
    pub account_tag: String,
    pub tunnel_secret: Vec<u8>,
}

/// What the client declares about itself.
pub struct ClientInfo {
    /// A freshly generated random 16-byte identifier.
    pub client_id: Vec<u8>,
    /// The exact feature list, order preserved.
    pub features: Vec<String>,
    pub version: String,
    pub arch: String,
}

/// The options of the registration payload.
pub struct ConnectionOptions {
    pub client: ClientInfo,
    pub replace_existing: bool,
    pub compression_quality: u8,
}

/// One complete registration payload.
pub struct RegistrationRequest {
    pub auth: RegistrationAuth,
    pub tunnel_id: Vec<u8>,
    pub conn_index: u8,
    pub options: ConnectionOptions,
}

/// Relies on uuid's `new_v4`: a fresh random identifier; nothing is
/// promised of its value except its 16-byte length.
#[verifier::external_body]
fn random_client_id() -> (r: Vec<u8>)
    ensures
        r@.len() == 16,
{
    ::uuid::Uuid::new_v4().as_bytes().to_vec()
}

/// The exact features every registration declares, in order.
pub fn client_features() -> (r: Vec<String>)
    ensures
        r@.len() == 4,
        r@[0]@ == "serialized_headers"@,
        r@[1]@ == "support_datagram_v2"@,
        r@[2]@ == "support_quic_eof"@,
        r@[3]@ == "management_logs"@,
{
    let mut v: Vec<String> = Vec::new();
    v.push(String::from_str("serialized_headers"));
    v.push(String::from_str("support_datagram_v2"));
    v.push(String::from_str("support_quic_eof"));
    v.push(String::from_str("management_logs"));
    v
}

impl RegistrationRequest {
    /// Assemble the payload for one registration: the credential's
    /// auth fields and tunnel id, the connection index, a fresh random
    /// client id, the fixed feature list, `replace_existing` set, and
    /// compression off. `pkg_version`, `os` and `arch` name the
    /// build; the version is prefixed and the platform halves joined
    /// as the transport expects.
    pub fn new(cfg: &TunnelConfig, conn_index: u8, pkg_version: &str, os: &str, arch: &str) -> (r:
        RegistrationRequest)
        ensures
            r.auth.account_tag@ == cfg.account_tag@,
            r.auth.tunnel_secret@ == cfg.tunnel_secret@,
            r.tunnel_id@ == cfg.tunnel_id@,
            r.conn_index == conn_index,
            r.options.client.client_id@.len() == 16,
            r.options.client.features@.len() == 4,
            r.options.client.features@[0]@ == "serialized_headers"@,
            r.options.client.features@[1]@ == "support_datagram_v2"@,
            r.options.client.features@[2]@ == "support_quic_eof"@,
            r.options.client.features@[3]@ == "management_logs"@,
            r.options.client.version@ == "libcfd_"@ + pkg_version@,
            r.options.client.arch@ == os@ + "_"@ + arch@,
            r.options.replace_existing == true,
            r.options.compression_quality == 0,
    {
        let mut version = String::from_str("libcfd_");
        version.append(pkg_version);
        let mut arch_text = String::from_str(os);
        arch_text.append("_");
        arch_text.append(arch);
        proof {
            assert(arch_text@ == os@ + "_"@ + arch@);
        }
        RegistrationRequest {
            auth: RegistrationAuth {
                account_tag: cfg.account_tag.clone(),
                tunnel_secret: cfg.tunnel_secret.clone(),
            },
            tunnel_id: cfg.tunnel_id.clone(),
            conn_index,
            options: ConnectionOptions {
                client: ClientInfo {
                    client_id: random_client_id(),
                    features: client_features(),
                    version,
                    arch: arch_text,
                },
                replace_existing: true,
                compression_quality: 0,
            },
        }
    }
}

/// The tagged response of the registration call.
pub enum RegistrationResponse {
    /// The edge accepted the connection.
    ConnectionDetails { uuid: Vec<u8>, location_name: String, tunnel_is_remotely_managed: bool },
    /// The edge rejected it.
    Error { cause: String, should_retry: bool, retry_after: u64 },
}

/// The result of a successful registration, the identifier rendered in
/// canonical hyphenated text.
#[derive(Debug)]
pub struct ConnectionDetails {
    pub uuid: String,
    pub location_name: String,
    pub tunnel_is_remotely_managed: bool,
}

/// Turn the tagged response into connection details or the error it
/// names. The accepted arm must carry a 16-byte identifier; the
/// rejected arm surfaces its cause, `should_retry` and `retry_after`
/// verbatim.
pub fn process_registration_response(r: RegistrationResponse) -> (out: Result<
    ConnectionDetails,
    TunnelError,
>)
    ensures
        match r {
            RegistrationResponse::ConnectionDetails {
                uuid,
                location_name,
                tunnel_is_remotely_managed,
            } => {
                if uuid@.len() == 16 {
                    out matches Ok(d) && d.uuid@ == uuid_text_spec(uuid@) && d.location_name@
                        == location_name@ && d.tunnel_is_remotely_managed
                        == tunnel_is_remotely_managed
                } else {
                    out matches Err(e) && e matches TunnelError::SchemaDecode { .. }
                }
            },
            RegistrationResponse::Error { cause, should_retry, retry_after } => out matches Err(e)
                && e matches TunnelError::RegistrationRejected {
                cause: c,
                should_retry: sr,
                retry_after: ra,
            } && c@ == cause@ && sr == should_retry && ra == retry_after,
        },
{
    match r {
        RegistrationResponse::ConnectionDetails {
            uuid,
            location_name,
            tunnel_is_remotely_managed,
        } => {
            if uuid.len() != 16 {
                return Err(
                    TunnelError::SchemaDecode {
                        detail: String::from_str(
                            "registration reply carried an identifier that is not 16 bytes",
                        ),
                    },
                );
            }
            Ok(
                ConnectionDetails {
                    uuid: uuid_text(&uuid),
                    location_name,
                    tunnel_is_remotely_managed,
                },
            )
        },
        RegistrationResponse::Error { cause, should_retry, retry_after } => Err(
            TunnelError::RegistrationRejected { cause, should_retry, retry_after },
        ),
    }
}

} // verus!
