//! The TLS material of the HTTP client: which PEM files are read, how the client
//! identity is assembled, and the errors for files that cannot be used.
//!
//! File contents never enter an error; only the path and the reason reading failed.
//! The PEM bytes are handed to `reqwest`, which parses the client identity and keeps the
//! CA certificate.
use vstd::prelude::*;

use crate::config::{opt_view, ClickHouseConfig};
use crate::error::{ClickHouseError, ClickHouseResult, ErrorView};

verus! {

/// The PEM files that a configuration names.
#[derive(Clone, Copy, Debug, PartialEq, Eq)]
pub enum TlsFile {
    /// An extra trusted CA.
    Ca,
    /// The client certificate (mTLS).
    ClientCert,
    /// The client private key (mTLS).
    ClientKey,
}

/// What went wrong while preparing the TLS material of the HTTP client.
#[derive(Clone, Debug, PartialEq, Eq)]
pub enum TlsFailure {
    /// A file could not be read; `reason` is the I/O error kind, as text.
    Read { file: TlsFile, path: String, reason: String },
    /// The CA file is not PEM.
    BadCaPem,
    /// The certificate and key do not form a PEM identity.
    BadIdentityPem,
    /// The HTTP client could not be built with this material.
    BuildFailed,
}

/// The files to read: the CA file when set, and the certificate and key when both are set.
pub struct TlsMaterial {
    pub ca_file: Option<String>,
    pub identity_files: Option<(String, String)>,
}

pub open spec fn file_label(file: TlsFile) -> Seq<char> {
    match file {
        TlsFile::Ca => "无法读取 TLS CA"@,
        TlsFile::ClientCert => "无法读取客户端证书"@,
        TlsFile::ClientKey => "无法读取客户端私钥"@,
    }
}

/// The configuration error for each failure.
pub open spec fn tls_error_view(f: TlsFailure) -> ErrorView {
    match f {
        TlsFailure::Read { file, path, reason } => ErrorView::Config(
            file_label(file) + " `"@ + path@ + "`: "@ + reason@,
        ),
        TlsFailure::BadCaPem => ErrorView::Config("TLS CA 不是合法 PEM"@),
        TlsFailure::BadIdentityPem => ErrorView::Config("客户端证书/私钥 PEM 无效"@),
        TlsFailure::BuildFailed => ErrorView::Config("HTTP 客户端构建失败（TLS 配置非法）"@),
    }
}

/// Maps a failure to a permanent configuration error naming the file, never its content.
pub fn tls_error(f: TlsFailure) -> (e: ClickHouseError)
    ensures
        e@ == tls_error_view(f),
{
    match f {
        TlsFailure::Read { file, path, reason } => {
            let label = match file {
                TlsFile::Ca => String::from_str("无法读取 TLS CA"),
                TlsFile::ClientCert => String::from_str("无法读取客户端证书"),
                TlsFile::ClientKey => String::from_str("无法读取客户端私钥"),
            };
            ClickHouseError::Config(
                label.concat(" `").concat(path.as_str()).concat("`: ").concat(reason.as_str()),
            )
        },
        TlsFailure::BadCaPem => ClickHouseError::Config(String::from_str("TLS CA 不是合法 PEM")),
        TlsFailure::BadIdentityPem => ClickHouseError::Config(
            String::from_str("客户端证书/私钥 PEM 无效"),
        ),
        TlsFailure::BuildFailed => ClickHouseError::Config(
            String::from_str("HTTP 客户端构建失败（TLS 配置非法）"),
        ),
    }
}

/// The TLS files that the HTTP client reads: the CA file when configured, and the client
/// certificate and key only when both are configured.
pub fn tls_material(config: &ClickHouseConfig) -> (m: TlsMaterial)
    ensures
        opt_view(m.ca_file) == config@.tls_ca_file,
        match m.identity_files {
            Some((c, k)) => config@.tls_client_cert_file == Some(c@)
                && config@.tls_client_key_file == Some(k@),
            None => config@.tls_client_cert_file is None || config@.tls_client_key_file is None,
        },
{
    let ca_file = match &config.tls_ca_file {
        Some(p) => Some(p.clone()),
        None => None,
    };
    let identity_files = match (&config.tls_client_cert_file, &config.tls_client_key_file) {
        (Some(c), Some(k)) => Some((c.clone(), k.clone())),
        _ => None,
    };
    TlsMaterial { ca_file, identity_files }
}

/// The identity buffer: the certificate PEM followed by the key PEM.
pub fn identity_pem(cert: &[u8], key: &[u8]) -> (pem: Vec<u8>)
    ensures
        pem@ == cert@ + key@,
{
    let mut pem: Vec<u8> = Vec::new();
    let mut i: usize = 0;
    while i < cert.len()
        invariant
            i <= cert@.len(),
            pem@ == cert@.take(i as int),
        decreases cert@.len() - i,
    {
        pem.push(cert[i]);
        proof {
            assert(cert@.take(i + 1) =~= cert@.take(i as int).push(cert@[i as int]));
        }
        i = i + 1;
    }
    let mut j: usize = 0;
    while j < key.len()
        invariant
            i == cert@.len(),
            j <= key@.len(),
            pem@ == cert@ + key@.take(j as int),
        decreases key@.len() - j,
    {
        pem.push(key[j]);
        proof {
            assert(key@.take(j + 1) =~= key@.take(j as int).push(key@[j as int]));
            assert(cert@ + key@.take(j + 1) =~= (cert@ + key@.take(j as int)).push(key@[j as int]));
        }
        j = j + 1;
    }
    proof {
        assert(key@.take(key@.len() as int) =~= key@);
        assert(cert@.take(cert@.len() as int) =~= cert@);
    }
    pem
}

/// A client identity (certificate chain and private key) as `reqwest` holds it.
#[verifier::external_type_specification]
#[verifier::external_body]
pub struct ExIdentity(reqwest::Identity);

/// A trusted root certificate as `reqwest` holds it.
#[verifier::external_type_specification]
#[verifier::external_body]
pub struct ExCertificate(reqwest::Certificate);

/// Whether `reqwest::Identity::from_pem` accepts `pem`: its PEM sections parse, each is a
/// certificate or a private key, and there is at least one of each.
pub uninterp spec fn identity_pem_accepted(pem: Seq<u8>) -> bool;

/// The identity that `reqwest::Identity::from_pem` builds from an accepted `pem` (its
/// private key and certificate chain, decoded from the PEM sections).
pub uninterp spec fn identity_of_pem(pem: Seq<u8>) -> reqwest::Identity;

/// The PEM bytes that a `reqwest::Certificate` made by `from_pem` keeps.
pub uninterp spec fn ca_pem_of(c: reqwest::Certificate) -> Seq<u8>;

/// `reqwest::Identity::from_pem`: the identity built from the PEM buffer when reqwest
/// accepts it, `None` when it refuses it.
#[verifier::external_body]
fn parse_identity_pem(pem: &[u8]) -> (r: Option<reqwest::Identity>)
    ensures
        r is Some <==> identity_pem_accepted(pem@),
        r matches Some(i) ==> i == identity_of_pem(pem@),
{
    reqwest::Identity::from_pem(pem).ok()
}

/// `reqwest::Certificate::from_pem`: with the rustls backend (the one this crate builds
/// reqwest with) it keeps a copy of the bytes and always succeeds; they are parsed when
/// the client is built.
#[verifier::external_body]
fn parse_ca_pem(pem: &[u8]) -> (r: Option<reqwest::Certificate>)
    ensures
        r is Some,
        ca_pem_of(r.unwrap()) == pem@,
{
    reqwest::Certificate::from_pem(pem).ok()
}

/// The client identity from the certificate PEM followed by the key PEM; a buffer that
/// reqwest does not accept as an identity is a permanent configuration error.
pub fn client_identity(cert: &[u8], key: &[u8]) -> (r: ClickHouseResult<reqwest::Identity>)
    ensures
        r is Ok <==> identity_pem_accepted(cert@ + key@),
        r matches Ok(i) ==> i == identity_of_pem(cert@ + key@),
        r matches Err(e) ==> e@ == tls_error_view(TlsFailure::BadIdentityPem),
{
    let pem = identity_pem(cert, key);
    match parse_identity_pem(pem.as_slice()) {
        Some(identity) => Ok(identity),
        None => Err(tls_error(TlsFailure::BadIdentityPem)),
    }
}

/// The extra trusted CA from its PEM file; reqwest keeps the bytes and checks them when
/// the client is built, so this step always succeeds, with a certificate holding `pem`.
pub fn ca_certificate(pem: &[u8]) -> (r: ClickHouseResult<reqwest::Certificate>)
    ensures
        r matches Ok(c) && ca_pem_of(c) == pem@,
{
    match parse_ca_pem(pem) {
        Some(certificate) => Ok(certificate),
        None => Err(tls_error(TlsFailure::BadCaPem)),
    }
}

} // verus!
