//! TLS material for the listeners (certificate chain, private key and
//! client CA list read from PEM), ALPN, and the identity of mTLS-verified
//! clients.
use vstd::prelude::*;
use vstd::string::StringExecFns;
use crate::text::{hex_digit, hex_digit_str};

verus! {

/// The SHA-256 digest of `data`.
pub uninterp spec fn spec_sha256(data: Seq<u8>) -> Seq<u8>;

/// `ring::digest::digest(&SHA256, data)`: the 32-byte SHA-256 digest.
#[verifier::external_body]
fn sha256(data: &[u8]) -> (d: Vec<u8>)
    ensures
        d@ == spec_sha256(data@),
        d@.len() == 32,
{
    ring::digest::digest(&ring::digest::SHA256, data).as_ref().to_vec()
}

/// Two lowercase hex digits per byte, most significant first.
pub open spec fn spec_hex(bytes: Seq<u8>) -> Seq<char>
    decreases bytes.len(),
{
    if bytes.len() == 0 {
        Seq::empty()
    } else {
        spec_hex(bytes.drop_last()) + seq![hex_digit(bytes.last() as nat / 16), hex_digit(bytes.last() as nat % 16)]
    }
}

/// Lowercase hex encoding of `bytes`.
pub fn hex_encode(bytes: &[u8]) -> (s: String)
    ensures
        s@ == spec_hex(bytes@),
{
    let mut s = String::new();
    let mut i: usize = 0;
    while i < bytes.len()
        invariant
            i <= bytes@.len(),
            s@ == spec_hex(bytes@.take(i as int)),
        decreases bytes@.len() - i,
    {
        let b = bytes[i];
        s.append(hex_digit_str(b / 16));
        s.append(hex_digit_str(b % 16));
        assert(bytes@.take(i + 1).drop_last() =~= bytes@.take(i as int));
        i = i + 1;
    }
    assert(bytes@.take(i as int) =~= bytes@);
    s
}

/// SHA-256 fingerprint of a peer certificate's DER bytes, hex-encoded. Used
/// to give the upstream a stable identifier for the mTLS-verified client.
/// A fingerprint is always 64 lowercase hexadecimal digits, so it is a
/// valid header value.
pub fn cert_fingerprint(der: &[u8]) -> (s: String)
    ensures
        s@ == spec_hex(spec_sha256(der@)),
        s@.len() == 64,
        forall|i: int| 0 <= i < s@.len() ==> {
            let c = #[trigger] s@[i];
            ('0' <= c && c <= '9') || ('a' <= c && c <= 'f')
        },
{
    let digest = sha256(der);
    proof {
        lemma_hex_len(digest@);
    }
    hex_encode(digest.as_slice())
}

proof fn lemma_hex_len(bytes: Seq<u8>)
    ensures
        spec_hex(bytes).len() == 2 * bytes.len(),
        forall|i: int| 0 <= i < spec_hex(bytes).len() ==> {
            let c = #[trigger] spec_hex(bytes)[i];
            ('0' <= c && c <= '9') || ('a' <= c && c <= 'f')
        },
    decreases bytes.len(),
{
    if bytes.len() > 0 {
        lemma_hex_len(bytes.drop_last());
        let b = bytes.last() as nat;
        assert(b / 16 < 16 && b % 16 < 16);
    }
}

/// Application protocols a TLS listener offers, in order of preference:
/// HTTP/2 first, HTTP/1.1 as the fallback.
pub fn alpn_protocols() -> (r: Vec<Vec<u8>>)
    ensures
        r@.len() == 2,
        r@[0]@ == seq![104u8, 50u8],
        r@[1]@ == seq![104u8, 116u8, 116u8, 112u8, 47u8, 49u8, 46u8, 49u8],
{
    let h2: Vec<u8> = vec![104u8, 50u8];
    let http11: Vec<u8> = vec![104u8, 116u8, 116u8, 112u8, 47u8, 49u8, 46u8, 49u8];
    let r = vec![h2, http11];
    assert(r@[0]@ =~= seq![104u8, 50u8]);
    assert(r@[1]@ =~= seq![104u8, 116u8, 116u8, 112u8, 47u8, 49u8, 46u8, 49u8]);
    r
}

/// Whether a handshake negotiated HTTP/2 (`h2`) through ALPN; cleartext
/// connections and anything else are served as HTTP/1.1.
pub fn negotiated_h2(alpn: Option<&[u8]>) -> (r: bool)
    ensures
        r == (alpn matches Some(p) && p@ == seq![104u8, 50u8]),
{
    match alpn {
        Some(p) => {
            if p.len() == 2 && p[0] == 104u8 && p[1] == 50u8 {
                assert(p@ =~= seq![104u8, 50u8]);
                true
            } else {
                false
            }
        },
        None => false,
    }
}

/// How a private key is encoded.
#[derive(Debug, Clone, Copy, PartialEq, Eq, Structural)]
pub enum KeyFormat {
    /// PKCS #1 RSA key ("RSA PRIVATE KEY").
    Pkcs1,
    /// SEC1 elliptic-curve key ("EC PRIVATE KEY").
    Sec1,
    /// PKCS #8 key ("PRIVATE KEY").
    Pkcs8,
}

/// The DER certificates in a PEM file, in file order, or the text of the
/// first read error.
pub uninterp spec fn spec_pem_certs(pem: Seq<u8>) -> Result<Seq<Seq<u8>>, Seq<char>>;

/// The first private key in a PEM file, or none, or the text of the first
/// read error.
pub uninterp spec fn spec_pem_private_key(pem: Seq<u8>) -> Result<Option<(KeyFormat, Seq<u8>)>, Seq<char>>;

pub open spec fn ders_view(v: Seq<Vec<u8>>) -> Seq<Seq<u8>> {
    v.map_values(|d: Vec<u8>| d@)
}

/// `rustls_pemfile::certs` over the bytes of a PEM file, collected: every
/// "CERTIFICATE" section as DER, in order, or the first error's text.
#[verifier::external_body]
fn pem_certs(pem: &[u8]) -> (r: Result<Vec<Vec<u8>>, String>)
    ensures
        match r {
            Ok(v) => spec_pem_certs(pem@) == Ok::<Seq<Seq<u8>>, Seq<char>>(ders_view(v@)),
            Err(m) => spec_pem_certs(pem@) == Err::<Seq<Seq<u8>>, Seq<char>>(m@),
        },
{
    let mut rd: &[u8] = pem;
    match rustls_pemfile::certs(&mut rd).collect::<Result<Vec<_>, _>>() {
        Ok(certs) => Ok(certs.into_iter().map(|c| c.as_ref().to_vec()).collect()),
        Err(e) => Err(e.to_string()),
    }
}

/// `rustls_pemfile::private_key` over the bytes of a PEM file: the first
/// PKCS #1, SEC1 or PKCS #8 section as its format and DER, `None` when
/// there is none, or the first error's text.
#[verifier::external_body]
fn pem_private_key(pem: &[u8]) -> (r: Result<Option<(KeyFormat, Vec<u8>)>, String>)
    ensures
        match r {
            Ok(Some((f, der))) => spec_pem_private_key(pem@) == Ok::<Option<(KeyFormat, Seq<u8>)>, Seq<char>>(Some((f, der@))),
            Ok(None) => spec_pem_private_key(pem@) == Ok::<Option<(KeyFormat, Seq<u8>)>, Seq<char>>(None),
            Err(m) => spec_pem_private_key(pem@) == Err::<Option<(KeyFormat, Seq<u8>)>, Seq<char>>(m@),
        },
{
    let mut rd: &[u8] = pem;
    match rustls_pemfile::private_key(&mut rd) {
        Ok(Some(rustls::pki_types::PrivateKeyDer::Pkcs1(k))) => Ok(Some((KeyFormat::Pkcs1, k.secret_pkcs1_der().to_vec()))),
        Ok(Some(rustls::pki_types::PrivateKeyDer::Sec1(k))) => Ok(Some((KeyFormat::Sec1, k.secret_sec1_der().to_vec()))),
        Ok(Some(rustls::pki_types::PrivateKeyDer::Pkcs8(k))) => Ok(Some((KeyFormat::Pkcs8, k.secret_pkcs8_der().to_vec()))),
        Ok(Some(_)) => Err("unsupported private key encoding".to_string()),
        Ok(None) => Ok(None),
        Err(e) => Err(e.to_string()),
    }
}

/// Why a listener's TLS material was refused.
pub enum TlsFailure {
    CertParse(Seq<char>),
    NoCertificates,
    KeyParse(Seq<char>),
    NoPrivateKey,
    CaParse(Seq<char>),
    NoCaCertificates,
}

/// Why a listener's TLS material was refused; the messages name the file
/// the error concerns.
#[derive(Debug, Clone, PartialEq, Eq)]
pub enum TlsMaterialError {
    /// The certificate file could not be read as PEM.
    CertParse(String),
    /// The certificate file holds no certificate.
    NoCertificates,
    /// The key file could not be read as PEM.
    KeyParse(String),
    /// The key file holds no private key.
    NoPrivateKey,
    /// The client CA file could not be read as PEM.
    CaParse(String),
    /// The client CA file holds no certificate.
    NoCaCertificates,
}

impl View for TlsMaterialError {
    type V = TlsFailure;

    open spec fn view(&self) -> TlsFailure {
        match self {
            TlsMaterialError::CertParse(m) => TlsFailure::CertParse(m@),
            TlsMaterialError::NoCertificates => TlsFailure::NoCertificates,
            TlsMaterialError::KeyParse(m) => TlsFailure::KeyParse(m@),
            TlsMaterialError::NoPrivateKey => TlsFailure::NoPrivateKey,
            TlsMaterialError::CaParse(m) => TlsFailure::CaParse(m@),
            TlsMaterialError::NoCaCertificates => TlsFailure::NoCaCertificates,
        }
    }
}

impl TlsMaterialError {
    /// The text of this error; `path` is the file it concerns.
    pub open spec fn spec_message(&self, path: Seq<char>) -> Seq<char> {
        match self {
            TlsMaterialError::CertParse(m) => "parsing certificates in '"@ + path + "': "@ + m@,
            TlsMaterialError::NoCertificates => "No certificates found in "@ + path,
            TlsMaterialError::KeyParse(m) => m@,
            TlsMaterialError::NoPrivateKey => "No private key found in "@ + path,
            TlsMaterialError::CaParse(m) => "parsing certificates in '"@ + path + "': "@ + m@,
            TlsMaterialError::NoCaCertificates => "No CA certificates found in "@ + path,
        }
    }

    /// The human-readable text of this error, naming `path`, the file it
    /// concerns.
    pub fn message(&self, path: &str) -> (m: String)
        ensures
            m@ == self.spec_message(path@),
    {
        match self {
            TlsMaterialError::CertParse(c) | TlsMaterialError::CaParse(c) => {
                let mut m = String::from_str("parsing certificates in '");
                m.append(path);
                m.append("': ");
                m.append(c.as_str());
                m
            },
            TlsMaterialError::NoCertificates => {
                let mut m = String::from_str("No certificates found in ");
                m.append(path);
                m
            },
            TlsMaterialError::KeyParse(c) => c.clone(),
            TlsMaterialError::NoPrivateKey => {
                let mut m = String::from_str("No private key found in ");
                m.append(path);
                m
            },
            TlsMaterialError::NoCaCertificates => {
                let mut m = String::from_str("No CA certificates found in ");
                m.append(path);
                m
            },
        }
    }
}

impl TlsMaterialError {
    /// The text of a refused `acme.ca_cert` file at `path` (read with
    /// `tls_client_ca`).
    pub open spec fn spec_acme_ca_message(&self, path: Seq<char>) -> Seq<char> {
        match self {
            TlsMaterialError::CaParse(m) => "parsing acme.ca_cert '"@ + path + "': "@ + m@,
            TlsMaterialError::NoCaCertificates => "acme.ca_cert '"@ + path + "' contains no certificates"@,
            _ => self.spec_message(path),
        }
    }

    /// The human-readable text of a refused `acme.ca_cert` file at `path`.
    pub fn acme_ca_message(&self, path: &str) -> (m: String)
        ensures
            m@ == self.spec_acme_ca_message(path@),
    {
        match self {
            TlsMaterialError::CaParse(c) => {
                let mut m = String::from_str("parsing acme.ca_cert '");
                m.append(path);
                m.append("': ");
                m.append(c.as_str());
                m
            },
            TlsMaterialError::NoCaCertificates => {
                let mut m = String::from_str("acme.ca_cert '");
                m.append(path);
                m.append("' contains no certificates");
                m
            },
            _ => self.message(path),
        }
    }
}

/// What a listener serves with: its certificate chain, its private key,
/// and, for mTLS, the CA certificates client certificates must chain to.
#[derive(Debug, Clone)]
pub struct TlsMaterial {
    pub certs: Vec<Vec<u8>>,
    pub key_format: KeyFormat,
    pub key: Vec<u8>,
    pub client_ca: Option<Vec<Vec<u8>>>,
}

impl View for TlsMaterial {
    type V = (Seq<Seq<u8>>, (KeyFormat, Seq<u8>), Option<Seq<Seq<u8>>>);

    open spec fn view(&self) -> (Seq<Seq<u8>>, (KeyFormat, Seq<u8>), Option<Seq<Seq<u8>>>) {
        (
            ders_view(self.certs@),
            (self.key_format, self.key@),
            match self.client_ca {
                Some(v) => Some(ders_view(v@)),
                None => None,
            },
        )
    }
}

/// The certificate chain of a certificate file; an empty one is refused.
pub open spec fn spec_chain(pem: Seq<u8>) -> Result<Seq<Seq<u8>>, TlsFailure> {
    match spec_pem_certs(pem) {
        Err(m) => Err(TlsFailure::CertParse(m)),
        Ok(certs) => if certs.len() == 0 {
            Err(TlsFailure::NoCertificates)
        } else {
            Ok(certs)
        },
    }
}

/// The private key of a key file; a file without one is refused.
pub open spec fn spec_key(pem: Seq<u8>) -> Result<(KeyFormat, Seq<u8>), TlsFailure> {
    match spec_pem_private_key(pem) {
        Err(m) => Err(TlsFailure::KeyParse(m)),
        Ok(None) => Err(TlsFailure::NoPrivateKey),
        Ok(Some(k)) => Ok(k),
    }
}

/// The CA certificates of a client CA file; an empty one is refused.
pub open spec fn spec_client_ca(pem: Seq<u8>) -> Result<Seq<Seq<u8>>, TlsFailure> {
    match spec_pem_certs(pem) {
        Err(m) => Err(TlsFailure::CaParse(m)),
        Ok(certs) => if certs.len() == 0 {
            Err(TlsFailure::NoCaCertificates)
        } else {
            Ok(certs)
        },
    }
}

/// A listener's TLS material: the certificate chain, then the key, then
/// the client CAs when there is a CA file; the first refusal wins.
pub open spec fn spec_tls_material(cert_pem: Seq<u8>, key_pem: Seq<u8>, ca_pem: Option<Seq<u8>>) -> Result<
    (Seq<Seq<u8>>, (KeyFormat, Seq<u8>), Option<Seq<Seq<u8>>>),
    TlsFailure,
> {
    match spec_chain(cert_pem) {
        Err(e) => Err(e),
        Ok(certs) => match spec_key(key_pem) {
            Err(e) => Err(e),
            Ok(key) => match ca_pem {
                None => Ok((certs, key, None)),
                Some(ca) => match spec_client_ca(ca) {
                    Err(e) => Err(e),
                    Ok(cas) => Ok((certs, key, Some(cas))),
                },
            },
        },
    }
}

/// The certificate chain in the bytes of a certificate file.
pub fn tls_chain(cert_pem: &[u8]) -> (r: Result<Vec<Vec<u8>>, TlsMaterialError>)
    ensures
        match r {
            Ok(v) => spec_chain(cert_pem@) == Ok::<Seq<Seq<u8>>, TlsFailure>(ders_view(v@)),
            Err(e) => spec_chain(cert_pem@) == Err::<Seq<Seq<u8>>, TlsFailure>(e@),
        },
{
    match pem_certs(cert_pem) {
        Err(m) => Err(TlsMaterialError::CertParse(m)),
        Ok(v) => if v.len() == 0 {
            Err(TlsMaterialError::NoCertificates)
        } else {
            Ok(v)
        },
    }
}

/// The private key in the bytes of a key file.
pub fn tls_key(key_pem: &[u8]) -> (r: Result<(KeyFormat, Vec<u8>), TlsMaterialError>)
    ensures
        match r {
            Ok((f, der)) => spec_key(key_pem@) == Ok::<(KeyFormat, Seq<u8>), TlsFailure>((f, der@)),
            Err(e) => spec_key(key_pem@) == Err::<(KeyFormat, Seq<u8>), TlsFailure>(e@),
        },
{
    match pem_private_key(key_pem) {
        Err(m) => Err(TlsMaterialError::KeyParse(m)),
        Ok(None) => Err(TlsMaterialError::NoPrivateKey),
        Ok(Some(k)) => Ok(k),
    }
}

/// The CA certificates in the bytes of a client CA file.
pub fn tls_client_ca(ca_pem: &[u8]) -> (r: Result<Vec<Vec<u8>>, TlsMaterialError>)
    ensures
        match r {
            Ok(v) => spec_client_ca(ca_pem@) == Ok::<Seq<Seq<u8>>, TlsFailure>(ders_view(v@)),
            Err(e) => spec_client_ca(ca_pem@) == Err::<Seq<Seq<u8>>, TlsFailure>(e@),
        },
{
    match pem_certs(ca_pem) {
        Err(m) => Err(TlsMaterialError::CaParse(m)),
        Ok(v) => if v.len() == 0 {
            Err(TlsMaterialError::NoCaCertificates)
        } else {
            Ok(v)
        },
    }
}

/// A listener's TLS material from the bytes of its certificate, key and
/// (for mTLS) client CA files.
pub fn tls_material(cert_pem: &[u8], key_pem: &[u8], ca_pem: Option<&[u8]>) -> (r: Result<TlsMaterial, TlsMaterialError>)
    ensures
        match r {
            Ok(m) => spec_tls_material(cert_pem@, key_pem@, opt_bytes_view(ca_pem)) == Ok::<
                (Seq<Seq<u8>>, (KeyFormat, Seq<u8>), Option<Seq<Seq<u8>>>),
                TlsFailure,
            >(m@),
            Err(e) => spec_tls_material(cert_pem@, key_pem@, opt_bytes_view(ca_pem)) == Err::<
                (Seq<Seq<u8>>, (KeyFormat, Seq<u8>), Option<Seq<Seq<u8>>>),
                TlsFailure,
            >(e@),
        },
{
    let certs = match tls_chain(cert_pem) {
        Ok(v) => v,
        Err(e) => {
            return Err(e);
        },
    };
    let (key_format, key) = match tls_key(key_pem) {
        Ok(k) => k,
        Err(e) => {
            return Err(e);
        },
    };
    let client_ca = match ca_pem {
        None => None,
        Some(ca) => match tls_client_ca(ca) {
            Ok(v) => Some(v),
            Err(e) => {
                return Err(e);
            },
        },
    };
    Ok(TlsMaterial { certs, key_format, key, client_ca })
}

pub open spec fn opt_bytes_view(b: Option<&[u8]>) -> Option<Seq<u8>> {
    match b {
        Some(x) => Some(x@),
        None => None,
    }
}

} // verus!
