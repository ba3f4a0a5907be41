//! The credentials of the endpoint.

use rustls::pki_types::PrivateKeyDer;
use vstd::prelude::*;

verus! {

/// How a private key is written down.
#[derive(Debug, Clone, Copy, PartialEq, Eq, Structural)]
pub enum KeyKind {
    Pkcs1,
    Sec1,
    Pkcs8,
}

/// A private key.
pub struct PrivateKey {
    pub kind: KeyKind,
    pub der: Vec<u8>,
}

/// A private key.
#[verifier::ext_equal]
pub struct PrivateKeyView {
    pub kind: KeyKind,
    pub der: Seq<u8>,
}

impl View for PrivateKey {
    type V = PrivateKeyView;

    open spec fn view(&self) -> PrivateKeyView {
        PrivateKeyView { kind: self.kind, der: self.der@ }
    }
}

/// The certificates of the endpoint and the key that goes with them.
pub struct Credentials {
    pub certs: Vec<Vec<u8>>,
    pub key: PrivateKey,
}

/// Why there are no credentials.
#[derive(Debug, Clone)]
pub enum TlsError {
    /// A file cannot be read.
    Io(String),
    /// There is no private key in the file that should hold one.
    NoPrivateKey,
    /// The files are not there, and nothing may stand in for them.
    CertRequired,
}

/// The certificates that a PEM file holds, or what is wrong with it.
pub uninterp spec fn certs_in(pem: Seq<u8>) -> Result<Seq<Seq<u8>>, Seq<char>>;

/// The first private key that a PEM file holds, or what is wrong with it.
pub uninterp spec fn key_in(pem: Seq<u8>) -> Result<Option<PrivateKeyView>, Seq<char>>;

/// The items of a list.
pub open spec fn items(list: Seq<Vec<u8>>) -> Seq<Seq<u8>> {
    Seq::new(list.len(), |i: int| list[i]@)
}

/// A list of certificates, or what is wrong.
pub open spec fn certs_view(found: Result<Vec<Vec<u8>>, String>) -> Result<
    Seq<Seq<u8>>,
    Seq<char>,
> {
    match found {
        Ok(list) => Ok(items(list@)),
        Err(e) => Err(e@),
    }
}

/// A private key, if there is one, or what is wrong.
pub open spec fn key_view(found: Result<Option<PrivateKey>, String>) -> Result<
    Option<PrivateKeyView>,
    Seq<char>,
> {
    match found {
        Ok(Some(key)) => Ok(Some(key@)),
        Ok(None) => Ok(None),
        Err(e) => Err(e@),
    }
}

/// `rustls_pemfile::certs`: the certificates of a PEM file are a function of its bytes.
#[verifier::external_body]
fn pem_certs(pem: &[u8]) -> (found: Result<Vec<Vec<u8>>, String>)
    ensures
        certs_view(found) == certs_in(pem@),
{
    rustls_pemfile::certs(&mut &pem[..])
        .map(|cert| cert.map(|der| der.as_ref().to_vec()).map_err(|e| e.to_string()))
        .collect()
}

/// `rustls_pemfile::private_key`: the first private key of a PEM file is a function of its bytes.
#[verifier::external_body]
fn pem_key(pem: &[u8]) -> (found: Result<Option<PrivateKey>, String>)
    ensures
        key_view(found) == key_in(pem@),
{
    let found = rustls_pemfile::private_key(&mut &pem[..]).map_err(|e| e.to_string())?;
    Ok(found.map(|key| {
        let der = key.secret_der().to_vec();
        match key {
            PrivateKeyDer::Pkcs1(_) => PrivateKey { kind: KeyKind::Pkcs1, der },
            PrivateKeyDer::Sec1(_) => PrivateKey { kind: KeyKind::Sec1, der },
            _ => PrivateKey { kind: KeyKind::Pkcs8, der },
        }
    }))
}

/// Whether `r` is what certificates and a key make, or what is missing of them.
pub open spec fn assembled(
    certs: Result<Seq<Seq<u8>>, Seq<char>>,
    key: Result<Option<PrivateKeyView>, Seq<char>>,
    r: Result<Credentials, TlsError>,
) -> bool {
    match (certs, key) {
        (Err(e), _) => r matches Err(TlsError::Io(reason)) && reason@ == e,
        (Ok(_), Err(e)) => r matches Err(TlsError::Io(reason)) && reason@ == e,
        (Ok(_), Ok(None)) => r matches Err(TlsError::NoPrivateKey),
        (Ok(certs), Ok(Some(key))) => r matches Ok(made) && items(made.certs@) == certs && made.key@
            == key,
    }
}

/// Puts credentials together from what was found of them.
pub fn assemble(
    certs: Result<Vec<Vec<u8>>, String>,
    key: Result<Option<PrivateKey>, String>,
) -> (r: Result<Credentials, TlsError>)
    ensures
        assembled(certs_view(certs), key_view(key), r),
{
    let certs = match certs {
        Ok(certs) => certs,
        Err(e) => return Err(TlsError::Io(e)),
    };
    match key {
        Ok(Some(key)) => Ok(Credentials { certs, key }),
        Ok(None) => Err(TlsError::NoPrivateKey),
        Err(e) => Err(TlsError::Io(e)),
    }
}

/// The credentials that two PEM files hold, of which the first has the certificates and the second
/// the key. Without the files there are none to load, which is an error unless others may be made
/// up for the occasion.
pub fn load_credentials(pems: Option<(Vec<u8>, Vec<u8>)>, allow_self_signed: bool) -> (r: Result<
    Option<Credentials>,
    TlsError,
>)
    ensures
        match pems {
            Some((cert_pem, key_pem)) => match r {
                Ok(Some(made)) => assembled(certs_in(cert_pem@), key_in(key_pem@), Ok(made)),
                Ok(None) => false,
                Err(e) => assembled(certs_in(cert_pem@), key_in(key_pem@), Err(e)),
            },
            None => if allow_self_signed {
                r matches Ok(None)
            } else {
                r matches Err(TlsError::CertRequired)
            },
        },
{
    match pems {
        Some((cert_pem, key_pem)) => {
            match assemble(pem_certs(&cert_pem), pem_key(&key_pem)) {
                Ok(made) => Ok(Some(made)),
                Err(e) => Err(e),
            }
        },
        None => {
            if allow_self_signed {
                Ok(None)
            } else {
                Err(TlsError::CertRequired)
            }
        },
    }
}

} // verus!
