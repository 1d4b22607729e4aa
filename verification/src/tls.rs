//! Certificates and private keys out of PEM files.

use vstd::prelude::*;

verus! {

/// The encoding of a private key.
#[derive(Clone, Copy, Debug, PartialEq, Eq, Structural)]
pub enum KeyKind {
    /// PKCS #1, for RSA keys.
    Pkcs1,
    /// SEC 1, for elliptic-curve keys.
    Sec1,
    /// PKCS #8.
    Pkcs8,
    /// Any other.
    Other,
}

/// A private key in DER.
pub struct PrivateKey {
    /// The encoding of the key.
    pub kind: KeyKind,
    /// The octets of the key.
    pub der: Vec<u8>,
}

/// Why a certificate chain or a key could not be read.
pub enum TlsError {
    /// The file is not well-formed PEM.
    Malformed(String),
    /// The file holds no private key.
    NoPrivateKey,
}

impl TlsError {
    /// The message of the error.
    pub open spec fn message_of(&self) -> Seq<char> {
        match self {
            TlsError::Malformed(reason) => reason@,
            TlsError::NoPrivateKey => "No private key found in file"@,
        }
    }

    /// The message of the error.
    pub fn message(&self) -> (r: String)
        ensures
            r@ == self.message_of(),
    {
        match self {
            TlsError::Malformed(reason) => reason.clone(),
            TlsError::NoPrivateKey => "No private key found in file".to_owned(),
        }
    }
}

/// The octets in a list of octet strings.
pub open spec fn octet_strings(list: Seq<Vec<u8>>) -> Seq<Seq<u8>> {
    Seq::new(list.len(), |i: int| list[i]@)
}

/// The certificates, or the text of the error, that were read.
pub open spec fn certs_view(r: Result<Vec<Vec<u8>>, String>) -> Result<Seq<Seq<u8>>, Seq<char>> {
    match r {
        Ok(list) => Ok(octet_strings(list@)),
        Err(reason) => Err(reason@),
    }
}

/// The key, or the text of the error, that was read.
pub open spec fn key_view(r: Result<Option<PrivateKey>, String>) -> Result<
    Option<(KeyKind, Seq<u8>)>,
    Seq<char>,
> {
    match r {
        Ok(Some(key)) => Ok(Some((key.kind, key.der@))),
        Ok(None) => Ok(None),
        Err(reason) => Err(reason@),
    }
}

/// The certificates in a PEM file, in order, or the error of the first section
/// that is not well-formed.
pub uninterp spec fn pem_certs(pem: Seq<u8>) -> Result<Seq<Seq<u8>>, Seq<char>>;

/// The first private key in a PEM file, or the error of a section before it that
/// is not well-formed.
pub uninterp spec fn pem_private_key(pem: Seq<u8>) -> Result<
    Option<(KeyKind, Seq<u8>)>,
    Seq<char>,
>;

/// `rustls_pemfile::certs` over the octets of a file, collected up to the first
/// error. The result is a function of the octets, and is called `pem_certs`;
/// which octets are well-formed, and what they hold, is not stated.
#[verifier::external_body]
fn read_certs(pem: &[u8]) -> (r: Result<Vec<Vec<u8>>, String>)
    ensures
        certs_view(r) == pem_certs(pem@),
{
    let mut reader = pem;
    rustls_pemfile::certs(&mut reader)
        .map(|cert| cert.map(|der| der.to_vec()).map_err(|e| e.to_string()))
        .collect()
}

/// `rustls_pemfile::private_key` over the octets of a file. The result is a
/// function of the octets, and is called `pem_private_key`; which octets are
/// well-formed, and what they hold, is not stated.
#[verifier::external_body]
fn read_private_key(pem: &[u8]) -> (r: Result<Option<PrivateKey>, String>)
    ensures
        key_view(r) == pem_private_key(pem@),
{
    let mut reader = pem;
    let found = rustls_pemfile::private_key(&mut reader).map_err(|e| e.to_string())?;
    Ok(found.map(|key| PrivateKey {
        kind: match &key {
            rustls::pki_types::PrivateKeyDer::Pkcs1(_) => KeyKind::Pkcs1,
            rustls::pki_types::PrivateKeyDer::Sec1(_) => KeyKind::Sec1,
            rustls::pki_types::PrivateKeyDer::Pkcs8(_) => KeyKind::Pkcs8,
            _ => KeyKind::Other,
        },
        der: key.secret_der().to_vec(),
    }))
}

/// The certificate chain in a PEM file.
pub fn load_certs(pem: &[u8]) -> (r: Result<Vec<Vec<u8>>, TlsError>)
    ensures
        match (r, pem_certs(pem@)) {
            (Ok(certs), Ok(found)) => octet_strings(certs@) == found,
            (Err(TlsError::Malformed(message)), Err(reason)) => message@ == reason,
            _ => false,
        },
{
    match read_certs(pem) {
        Ok(certs) => Ok(certs),
        Err(reason) => Err(TlsError::Malformed(reason)),
    }
}

/// The private key that was found; a file without one is an error.
pub fn required_key(found: Result<Option<PrivateKey>, String>) -> (r: Result<PrivateKey, TlsError>)
    ensures
        r == (match found {
            Ok(Some(key)) => Ok::<PrivateKey, TlsError>(key),
            Ok(None) => Err::<PrivateKey, TlsError>(TlsError::NoPrivateKey),
            Err(reason) => Err::<PrivateKey, TlsError>(TlsError::Malformed(reason)),
        }),
{
    match found {
        Ok(Some(key)) => Ok(key),
        Ok(None) => Err(TlsError::NoPrivateKey),
        Err(reason) => Err(TlsError::Malformed(reason)),
    }
}

/// The first private key in a PEM file.
pub fn load_private_key(pem: &[u8]) -> (r: Result<PrivateKey, TlsError>)
    ensures
        match (r, pem_private_key(pem@)) {
            (Ok(key), Ok(Some(found))) => (key.kind, key.der@) == found,
            (Err(TlsError::NoPrivateKey), Ok(None)) => true,
            (Err(TlsError::Malformed(message)), Err(reason)) => message@ == reason,
            _ => false,
        },
{
    required_key(read_private_key(pem))
}

/// A key is required: one that was found is handed on, a file without one is an error, and
/// what could not be read keeps the reason.
pub proof fn key_is_required(
    found: Result<Option<PrivateKey>, String>,
    key: Result<PrivateKey, TlsError>,
)
    requires
        call_ensures(required_key, (found,), key),
    ensures
        found is Ok && found->Ok_0 is Some ==> key == Ok::<PrivateKey, TlsError>(found->Ok_0->0),
        found is Ok && found->Ok_0 is None ==> key is Err && key->Err_0 is NoPrivateKey,
        found is Err ==> key is Err && (key->Err_0 matches TlsError::Malformed(reason)
            && reason == found->Err_0),
{
}

/// Certificates and keys are those of the file, in its order; a file that could not be read
/// gives the reason, and one without a key is an error of its own.
pub proof fn files_give_what_they_hold(
    pem: &[u8],
    certs: Result<Vec<Vec<u8>>, TlsError>,
    key: Result<PrivateKey, TlsError>,
    i: int,
)
    requires
        call_ensures(load_certs, (pem,), certs),
        call_ensures(load_private_key, (pem,), key),
    ensures
        certs is Ok <==> pem_certs(pem@) is Ok,
        certs matches Ok(list) ==> list@.len() == pem_certs(pem@)->Ok_0.len() && (0 <= i
            < list@.len() ==> list@[i]@ == pem_certs(pem@)->Ok_0[i]),
        certs matches Err(e) ==> (e matches TlsError::Malformed(reason) && reason@
            == pem_certs(pem@)->Err_0),
        key is Ok <==> pem_private_key(pem@) is Ok && pem_private_key(pem@)->Ok_0 is Some,
        key matches Ok(found) ==> (found.kind, found.der@) == pem_private_key(pem@)->Ok_0->0,
        key matches Err(e) ==> (e is NoPrivateKey <==> pem_private_key(pem@) is Ok),
        key matches Err(TlsError::Malformed(reason)) ==> reason@ == pem_private_key(
            pem@,
        )->Err_0,
{
    if let Ok(list) = certs {
        assert(octet_strings(list@).len() == list@.len());
        if 0 <= i < list@.len() {
            assert(octet_strings(list@)[i] == list@[i]@);
        }
    }
}

/// The message of an error is its reason; that of a missing key says so.
pub proof fn message_says_what_is_wrong(error: TlsError, message: String)
    requires
        call_ensures(TlsError::message, (&error,), message),
    ensures
        error matches TlsError::Malformed(reason) ==> message@ == reason@,
        error is NoPrivateKey ==> message@ == "No private key found in file"@,
{
}

} // verus!
