//! TLS: which certificates and keys a listener or a bridge uses, what is in the
//! files, and who a client is by its certificate.
use vstd::prelude::*;
use crate::error::{MqttError, Result};
use crate::text;
use crate::text::{concat, concat3};

verus! {

broadcast use text::group_views;

/// The files of a listener that speaks TLS. With a `client_ca` clients must
/// present a certificate.
#[derive(Debug)]
pub struct ServerFiles {
    pub cert: String,
    pub key: String,
    pub client_ca: Option<String>,
}

/// The files of a listener that speaks TLS.
pub struct ServerFilesView {
    pub cert: Seq<char>,
    pub key: Seq<char>,
    pub client_ca: Option<Seq<char>>,
}

impl View for ServerFiles {
    type V = ServerFilesView;

    open spec fn view(&self) -> ServerFilesView {
        ServerFilesView {
            cert: self.cert@,
            key: self.key@,
            client_ca: text::opt_view(self.client_ca),
        }
    }
}

/// What is wrong with the files of a listener, told which of them there are.
pub open spec fn server_fault(
    cert: bool,
    key: bool,
    client_ca: bool,
    label: Seq<char>,
) -> Option<Seq<char>> {
    if cert != key {
        Some(label + ": both a certificate and a private key are required to enable TLS"@)
    } else if !cert && client_ca {
        Some(
            label
                + ": a client CA was set but TLS is not enabled (needs a certificate and key)"@,
        )
    } else {
        None
    }
}

/// The files of a listener: none without TLS. A certificate and a key go
/// together, and a CA for clients goes with them.
pub fn server_files(
    cert: &Option<String>,
    key: &Option<String>,
    client_ca: &Option<String>,
    label: &str,
) -> (r: Result<Option<ServerFiles>>)
    ensures
        match r {
            Ok(Some(f)) => cert is Some && key is Some && f@ == (ServerFilesView {
                cert: (cert->0)@,
                key: (key->0)@,
                client_ca: text::opt_view(*client_ca),
            }),
            Ok(None) => cert is None && key is None && client_ca is None,
            Err(e) => e matches MqttError::Config(m) && server_fault(
                cert is Some,
                key is Some,
                client_ca is Some,
                label@,
            ) == Some(m@),
        },
{
    match (cert, key) {
        (Some(c), Some(k)) => Ok(
            Some(
                ServerFiles {
                    cert: c.clone(),
                    key: k.clone(),
                    client_ca: text::clone_opt_string(client_ca),
                },
            ),
        ),
        (None, None) => {
            if client_ca.is_some() {
                return Err(
                    MqttError::Config(
                        concat(
                            label,
                            ": a client CA was set but TLS is not enabled (needs a certificate and key)",
                        ),
                    ),
                );
            }
            Ok(None)
        },
        _ => Err(
            MqttError::Config(
                concat(
                    label,
                    ": both a certificate and a private key are required to enable TLS",
                ),
            ),
        ),
    }
}

/// What is said of a listener for TLS alone that has no files; `prefix` is that
/// of its options.
pub open spec fn listener_text(prefix: Seq<char>) -> Seq<char> {
    prefix + "tls_listen_addr is set but "@ + prefix + "tls_cert/"@ + prefix
        + "tls_key are not — this should have been rejected at startup"@
}

/// The files of a listener that is for TLS alone, where it is to listen. It
/// cannot do without a certificate and a key. `prefix` is that of its options.
pub fn listener_files(
    listening: bool,
    cert: &Option<String>,
    key: &Option<String>,
    client_ca: &Option<String>,
    label: &str,
    prefix: &str,
) -> (r: Result<Option<ServerFiles>>)
    ensures
        match r {
            Ok(Some(f)) => listening && cert is Some && key is Some && f@ == (ServerFilesView {
                cert: (cert->0)@,
                key: (key->0)@,
                client_ca: text::opt_view(*client_ca),
            }),
            Ok(None) => !listening,
            Err(e) => listening && (cert is None || key is None) && (e matches MqttError::Config(m)
                && m@ == match server_fault(cert is Some, key is Some, client_ca is Some, label@) {
                Some(fault) => fault,
                None => listener_text(prefix@),
            }),
        },
{
    if !listening {
        return Ok(None);
    }
    match server_files(cert, key, client_ca, label) {
        Ok(Some(f)) => Ok(Some(f)),
        Ok(None) => {
            let mut m: String = concat3(prefix, "tls_listen_addr is set but ", prefix);
            m.append("tls_cert/");
            m.append(prefix);
            m.append("tls_key are not — this should have been rejected at startup");
            Err(MqttError::Config(m))
        },
        Err(e) => Err(e),
    }
}

/// The files of a port that speaks TLS where it has a certificate and a key,
/// unless there is another listener for TLS: then the port is a plain one.
pub fn port_files(
    has_tls_listener: bool,
    cert: &Option<String>,
    key: &Option<String>,
    client_ca: &Option<String>,
    label: &str,
) -> (r: Result<Option<ServerFiles>>)
    ensures
        match r {
            Ok(Some(f)) => !has_tls_listener && cert is Some && key is Some && f@ == (
            ServerFilesView {
                cert: (cert->0)@,
                key: (key->0)@,
                client_ca: text::opt_view(*client_ca),
            }),
            Ok(None) => has_tls_listener || (cert is None && key is None && client_ca is None),
            Err(e) => !has_tls_listener && (e matches MqttError::Config(m) && server_fault(
                cert is Some,
                key is Some,
                client_ca is Some,
                label@,
            ) == Some(m@)),
        },
{
    if has_tls_listener {
        return Ok(None);
    }
    server_files(cert, key, client_ca, label)
}

/// What a bridge that speaks TLS trusts and presents.
#[derive(Debug)]
pub struct ClientFiles {
    /// The CA bundle that the server is verified with; without one any server is
    /// trusted.
    pub ca: Option<String>,
    /// The certificate and the key to present.
    pub identity: Option<(String, String)>,
}

/// What a bridge that speaks TLS trusts and presents. Whether any server is
/// trusted has to be said, and a certificate and a key go together.
pub fn client_files(
    ca: &Option<String>,
    cert: &Option<String>,
    key: &Option<String>,
    insecure: bool,
) -> (r: Result<ClientFiles>)
    ensures
        match r {
            Ok(f) => (insecure || ca is Some) && (cert is Some == key is Some) && text::opt_view(
                f.ca,
            ) == (if insecure {
                None
            } else {
                text::opt_view(*ca)
            }) && match f.identity {
                Some(i) => cert is Some && i.0@ == (cert->0)@ && i.1@ == (key->0)@,
                None => cert is None,
            },
            Err(e) => e matches MqttError::Config(m) && if !insecure && ca is None {
                m@ == "a TLS bridge requires tls_ca (or tls_insecure)"@
            } else {
                cert is Some != key is Some && m@
                    == "bridge tls_cert and tls_key must be set together"@
            },
        },
{
    if !insecure && ca.is_none() {
        return Err(
            MqttError::Config("a TLS bridge requires tls_ca (or tls_insecure)".to_owned()),
        );
    }
    let trusted: Option<String> = if insecure {
        None
    } else {
        text::clone_opt_string(ca)
    };
    match (cert, key) {
        (Some(c), Some(k)) => Ok(ClientFiles { ca: trusted, identity: Some((c.clone(), k.clone())) }),
        (None, None) => Ok(ClientFiles { ca: trusted, identity: None }),
        _ => Err(
            MqttError::Config("bridge tls_cert and tls_key must be set together".to_owned()),
        ),
    }
}

/// The certificates in a PEM file, or why it cannot be read.
pub uninterp spec fn pem_certs_of(bytes: Seq<u8>) -> core::result::Result<
    Seq<Seq<u8>>,
    Seq<char>,
>;

/// Reads the certificates of a PEM file by `rustls_pemfile::certs`. They, or the
/// words of the error, depend on the bytes and on nothing else.
#[verifier::external_body]
fn pem_certs(bytes: &[u8]) -> (r: core::result::Result<Vec<Vec<u8>>, String>)
    ensures
        match r {
            Ok(v) => pem_certs_of(bytes@) == Ok::<Seq<Seq<u8>>, Seq<char>>(text::views(v@)),
            Err(e) => pem_certs_of(bytes@) == Err::<Seq<Seq<u8>>, Seq<char>>(e@),
        },
{
    let mut rd: &[u8] = bytes;
    let found: core::result::Result<Vec<_>, std::io::Error> = rustls_pemfile::certs(&mut rd).collect();
    match found {
        Ok(v) => Ok(v.iter().map(|c| c.as_ref().to_vec()).collect()),
        Err(e) => Err(e.to_string()),
    }
}

/// The certificates in a file, of which there must be one.
pub fn load_certs(path: &str, bytes: &[u8]) -> (r: Result<Vec<Vec<u8>>>)
    ensures
        match r {
            Ok(v) => pem_certs_of(bytes@) == Ok::<Seq<Seq<u8>>, Seq<char>>(text::views(v@))
                && v@.len() > 0,
            Err(e) => e matches MqttError::Config(m) && match pem_certs_of(bytes@) {
                Ok(v) => v.len() == 0 && m@ == "no certificates found in "@ + path@,
                Err(why) => m@ == "parse cert "@ + path@ + ": "@ + why,
            },
        },
{
    match pem_certs(bytes) {
        Ok(v) => {
            if v.len() == 0 {
                assert(text::views(v@).len() == 0);
                return Err(MqttError::Config(concat("no certificates found in ", path)));
            }
            Ok(v)
        },
        Err(e) => {
            let m: String = concat3("parse cert ", path, ": ");
            Err(MqttError::Config(concat(m.as_str(), e.as_str())))
        },
    }
}

/// How a private key is written.
#[derive(Debug, Clone, Copy, PartialEq, Eq, Structural)]
pub enum KeyKind {
    Pkcs1,
    Sec1,
    Pkcs8,
}

/// The first private key in a PEM file, if there is one, or why the file cannot
/// be read.
pub uninterp spec fn pem_key_of(bytes: Seq<u8>) -> core::result::Result<
    Option<(KeyKind, Seq<u8>)>,
    Seq<char>,
>;

/// The views of a key.
pub open spec fn key_view(k: Option<(KeyKind, Vec<u8>)>) -> Option<(KeyKind, Seq<u8>)> {
    match k {
        Some((kind, der)) => Some((kind, der@)),
        None => None,
    }
}

/// Reads the first private key of a PEM file by `rustls_pemfile::private_key`.
/// The key, or the words of the error, depends on the bytes and on nothing else.
#[verifier::external_body]
fn pem_key(bytes: &[u8]) -> (r: core::result::Result<Option<(KeyKind, Vec<u8>)>, String>)
    ensures
        match r {
            Ok(k) => pem_key_of(bytes@) == Ok::<Option<(KeyKind, Seq<u8>)>, Seq<char>>(
                key_view(k),
            ),
            Err(e) => pem_key_of(bytes@) == Err::<Option<(KeyKind, Seq<u8>)>, Seq<char>>(e@),
        },
{
    let mut rd: &[u8] = bytes;
    match rustls_pemfile::private_key(&mut rd) {
        Ok(Some(tokio_rustls::rustls::pki_types::PrivateKeyDer::Pkcs1(k))) => Ok(Some((KeyKind::Pkcs1, k.secret_pkcs1_der().to_vec()))),
        Ok(Some(tokio_rustls::rustls::pki_types::PrivateKeyDer::Sec1(k))) => Ok(Some((KeyKind::Sec1, k.secret_sec1_der().to_vec()))),
        Ok(Some(tokio_rustls::rustls::pki_types::PrivateKeyDer::Pkcs8(k))) => Ok(Some((KeyKind::Pkcs8, k.secret_pkcs8_der().to_vec()))),
        Ok(_) => Ok(None),
        Err(e) => Err(e.to_string()),
    }
}

/// The private key in a file, of which there must be one.
pub fn load_key(path: &str, bytes: &[u8]) -> (r: Result<(KeyKind, Vec<u8>)>)
    ensures
        match r {
            Ok(k) => pem_key_of(bytes@) == Ok::<Option<(KeyKind, Seq<u8>)>, Seq<char>>(
                Some((k.0, k.1@)),
            ),
            Err(e) => e matches MqttError::Config(m) && match pem_key_of(bytes@) {
                Ok(k) => k is None && m@ == "no private key found in "@ + path@,
                Err(why) => m@ == "parse key "@ + path@ + ": "@ + why,
            },
        },
{
    match pem_key(bytes) {
        Ok(Some(k)) => Ok(k),
        Ok(None) => Err(MqttError::Config(concat("no private key found in ", path))),
        Err(e) => {
            let m: String = concat3("parse key ", path, ": ");
            Err(MqttError::Config(concat(m.as_str(), e.as_str())))
        },
    }
}

/// The common names in the subject of a certificate, each a text where it is
/// one, or `None` where the bytes are no certificate.
pub uninterp spec fn common_names_of(der: Seq<u8>) -> Option<Seq<Option<Seq<char>>>>;

/// What a list of texts that may be missing holds.
pub open spec fn names_view(v: Seq<Option<String>>) -> Seq<Option<Seq<char>>> {
    Seq::new(v.len(), |i: int| text::opt_view(v[i]))
}

/// Reads a certificate by `x509_parser::parse_x509_certificate` and lists the
/// common names of its subject, in their order. They depend on the bytes and on
/// nothing else.
#[verifier::external_body]
fn common_names(der: &[u8]) -> (r: Option<Vec<Option<String>>>)
    ensures
        match r {
            Some(v) => common_names_of(der@) == Some(names_view(v@)),
            None => common_names_of(der@) is None,
        },
{
    match x509_parser::parse_x509_certificate(der) {
        Ok((_, cert)) => Some(cert.subject().iter_common_name().map(|cn| cn.as_str().ok().map(|s| s.to_owned())).collect()),
        Err(_) => None,
    }
}

/// Who a client is whose certificate has these names: the first of them.
pub open spec fn name_of(names: Option<Seq<Option<Seq<char>>>>) -> Option<Seq<char>> {
    match names {
        Some(v) => if v.len() > 0 {
            v[0]
        } else {
            None
        },
        None => None,
    }
}

/// Who a client is whose certificate has these names: the first of them.
pub fn first_name(names: Option<Vec<Option<String>>>) -> (r: Option<String>)
    ensures
        text::opt_view(r) == name_of(
            match names {
                Some(v) => Some(names_view(v@)),
                None => None,
            },
        ),
{
    match names {
        Some(v) => if v.len() > 0 {
            text::clone_opt_string(&v[0])
        } else {
            None
        },
        None => None,
    }
}

/// Who a client is by the certificates that it presented: the common name in
/// the first.
pub fn peer_cn(certificates: &Vec<Vec<u8>>) -> (r: Option<String>)
    ensures
        text::opt_view(r) == (if certificates@.len() > 0 {
            name_of(common_names_of(certificates@[0]@))
        } else {
            None
        }),
{
    if certificates.len() == 0 {
        return None;
    }
    first_name(common_names(certificates[0].as_slice()))
}

} // verus!
