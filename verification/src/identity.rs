//! What the client shows of itself to a validator: a certificate for its signing key.

use crate::error::SlipstreamError;
use crate::text::joined;
use vstd::prelude::*;

verus! {

/// What stands before an Ed25519 secret key in its PKCS #8 document.
pub open spec fn pkcs8_header() -> Seq<u8> {
    seq![
        0x30u8,
        0x2e,
        0x02,
        0x01,
        0x00,
        0x30,
        0x05,
        0x06,
        0x03,
        0x2b,
        0x65,
        0x70,
        0x04,
        0x22,
        0x04,
        0x20,
    ]
}

/// The PKCS #8 document of the Ed25519 secret key `secret`.
pub open spec fn pkcs8(secret: Seq<u8>) -> Seq<u8> {
    pkcs8_header() + secret
}

/// The PKCS #8 document of the Ed25519 secret key `secret`.
pub fn ed25519_pkcs8(secret: &[u8; 32]) -> (r: Vec<u8>)
    ensures
        r@ == pkcs8(secret@),
{
    let mut r: Vec<u8> = vec![
        0x30,
        0x2e,
        0x02,
        0x01,
        0x00,
        0x30,
        0x05,
        0x06,
        0x03,
        0x2b,
        0x65,
        0x70,
        0x04,
        0x22,
        0x04,
        0x20,
    ];
    assert(r@ == pkcs8_header());
    let mut i: usize = 0;
    while i < 32
        invariant
            i <= 32,
            r@ == pkcs8_header() + secret@.take(i as int),
        decreases 32 - i,
    {
        r.push(secret[i]);
        i += 1;
        assert(r@ == pkcs8_header() + secret@.take(i as int));
    }
    assert(secret@.take(32) == secret@);
    r
}

/// What a result says: the bytes, or the reason in words why there are none.
pub open spec fn outcome(r: Result<Vec<u8>, String>) -> Result<Seq<u8>, Seq<char>> {
    match r {
        Ok(bytes) => Ok(bytes@),
        Err(reason) => Err(reason@),
    }
}

/// Whether `der` is the PKCS #8 document of an Ed25519 secret key.
pub open spec fn is_ed25519_key(der: Seq<u8>) -> bool {
    exists|secret: Seq<u8>| secret.len() == 32 && der == #[trigger] pkcs8(secret)
}

/// Whether all characters of the given texts are those of ASCII.
pub open spec fn are_ascii(texts: Seq<Seq<char>>) -> bool {
    forall|i: int, j: int|
        #![trigger texts[i][j]]
        0 <= i < texts.len() && 0 <= j < texts[i].len() ==> (texts[i][j] as u32) < 128
}

/// The X.509 certificate, in DER, that `rcgen` makes for the names `names` and signs with the
/// key in the PKCS #8 document `key`, or what it says against them.
pub uninterp spec fn certificate(names: Seq<Seq<char>>, key: Seq<u8>) -> Result<
    Seq<u8>,
    Seq<char>,
>;

/// `rcgen::KeyPair::try_from` and `serialize_der`: reads a private key and gives its PKCS #8
/// document. An Ed25519 key is always read, and the document that is given is the one that was
/// read.
#[verifier::external_body]
fn rcgen_key(der: &Vec<u8>) -> (r: Result<Vec<u8>, String>)
    requires
        is_ed25519_key(der@),
    ensures
        r is Ok,
        r->Ok_0@ == der@,
{
    match rcgen::KeyPair::try_from(der.as_slice()) {
        Ok(key) => Ok(key.serialize_der()),
        Err(e) => Err(e.to_string()),
    }
}

/// `rcgen::CertificateParams::new` and `self_signed`: makes a certificate for `names` that is
/// signed with its own key. An Ed25519 signature is fixed by the key and what is signed, and
/// the serial number and the dates are fixed too, so the certificate depends on the arguments
/// alone. There is always one for names in ASCII. What it holds is not stated.
#[verifier::external_body]
fn rcgen_self_signed(names: Vec<String>, key: &Vec<u8>) -> (r: Result<Vec<u8>, String>)
    requires
        is_ed25519_key(key@),
    ensures
        outcome(r) == certificate(names@.map_values(|name: String| name@), key@),
        are_ascii(names@.map_values(|name: String| name@)) ==> r is Ok,
{
    let pair = rcgen::KeyPair::try_from(key.as_slice()).map_err(|e| e.to_string())?;
    let params = rcgen::CertificateParams::new(names).map_err(|e| e.to_string())?;
    params.self_signed(&pair).map(|c| c.der().to_vec()).map_err(|e| e.to_string())
}

/// What the client needs for the TLS side of a QUIC connection.
#[derive(Debug)]
pub struct QuicIdentity {
    /// The certificate that the client shows.
    pub cert_der: Vec<u8>,
    /// The private key of the certificate.
    pub key_der: Vec<u8>,
    /// The application protocols that the client offers.
    pub alpn_protocols: Vec<Vec<u8>>,
}

/// The name of the protocol in which validators take transactions: `solana-tpu`.
pub open spec fn tpu_protocol() -> Seq<u8> {
    seq![115u8, 111, 108, 97, 110, 97, 45, 116, 112, 117]
}

/// Whether `r` is the identity that the given key and certificate make, or the error of the one
/// that could not be had.
pub open spec fn is_identity(
    r: Result<QuicIdentity, SlipstreamError>,
    key: Result<Seq<u8>, Seq<char>>,
    cert: Result<Seq<u8>, Seq<char>>,
) -> bool {
    match key {
        Err(reason) => {
            &&& r matches Err(SlipstreamError::Certificate(message))
            &&& message@ == "key conversion failed: "@ + reason
        },
        Ok(key_der) => match cert {
            Err(reason) => {
                &&& r matches Err(SlipstreamError::Certificate(message))
                &&& message@ == reason
            },
            Ok(cert_der) => {
                &&& r matches Ok(identity)
                &&& identity.cert_der@ == cert_der
                &&& identity.key_der@ == key_der
                &&& identity.alpn_protocols@.len() == 1
                &&& identity.alpn_protocols@[0]@ == tpu_protocol()
            },
        },
    }
}

/// The identity that the given key and certificate make. The certificate does not matter where
/// there is no key.
pub fn quic_identity(key: Result<Vec<u8>, String>, cert: Result<Vec<u8>, String>) -> (r: Result<
    QuicIdentity,
    SlipstreamError,
>)
    ensures
        is_identity(r, outcome(key), outcome(cert)),
{
    match key {
        Err(reason) => Err(
            SlipstreamError::Certificate(joined("key conversion failed: ", reason.as_str())),
        ),
        Ok(key_der) => match cert {
            Err(reason) => Err(SlipstreamError::Certificate(reason)),
            Ok(cert_der) => {
                let protocol: Vec<u8> = vec![115, 111, 108, 97, 110, 97, 45, 116, 112, 117];
                assert(protocol@ == tpu_protocol());
                let mut alpn_protocols: Vec<Vec<u8>> = Vec::new();
                alpn_protocols.push(protocol);
                Ok(QuicIdentity { cert_der, key_der, alpn_protocols })
            },
        },
    }
}

/// What can go wrong where the identity is put into the TLS side of a connection.
#[derive(Debug, Clone, Copy, PartialEq, Eq, Structural)]
pub enum TlsStage {
    /// The certificate and the key are taken over.
    ClientAuth,
    /// The TLS configuration is taken over for QUIC.
    Quic,
}

/// The error of a stage that failed for the reason `reason`.
pub fn tls_error(stage: TlsStage, reason: &str) -> (r: SlipstreamError)
    ensures
        r matches SlipstreamError::Certificate(message) && message@ == match stage {
            TlsStage::ClientAuth => reason@,
            TlsStage::Quic => "quic tls config failed: "@ + reason@,
        },
{
    SlipstreamError::Certificate(
        match stage {
            TlsStage::ClientAuth => reason.to_owned(),
            TlsStage::Quic => joined("quic tls config failed: ", reason),
        },
    )
}

/// What the client with the Ed25519 secret key `secret` needs for a QUIC connection: a
/// certificate for the name `solana`, signed with that key.
pub fn create_quic_config(secret: &[u8; 32]) -> (r: Result<QuicIdentity, SlipstreamError>)
    ensures
        r is Ok,
        is_identity(
            r,
            Ok(pkcs8(secret@)),
            certificate(seq!["solana"@], pkcs8(secret@)),
        ),
{
    let der: Vec<u8> = ed25519_pkcs8(secret);
    let key: Result<Vec<u8>, String> = rcgen_key(&der);
    let mut names: Vec<String> = Vec::new();
    names.push("solana".to_owned());
    proof {
        assert(names@.map_values(|name: String| name@) =~= seq!["solana"@]);
        reveal_strlit("solana");
        assert(are_ascii(seq!["solana"@]));
    }
    let cert: Result<Vec<u8>, String> = rcgen_self_signed(names, &der);
    quic_identity(key, cert)
}

/// The key document is 48 bytes, the last 32 of which are the secret key; the 16 before them say
/// what it is: a sequence of 46 bytes with the version 0, the algorithm 1.3.101.112, and 34 bytes
/// that are 32 bytes.
pub proof fn law_key_document_ends_with_the_key(secret: Seq<u8>)
    requires
        secret.len() == 32,
    ensures
        pkcs8(secret).len() == 48,
        pkcs8(secret).skip(16) == secret,
        pkcs8(secret).take(16) == seq![
            48u8, 46u8, 2u8, 1u8, 0u8, 48u8, 5u8, 6u8, 3u8, 43u8, 101u8, 112u8, 4u8, 34u8, 4u8, 32u8,
        ],
        is_ed25519_key(pkcs8(secret)),
{
    assert(pkcs8(secret).skip(16) =~= secret);
    assert(pkcs8(secret).take(16) =~= pkcs8_header());
}

/// An identity holds the key and the certificate that it is made of, and offers one protocol,
/// `solana-tpu`. It is there exactly where both are; a missing key is told before a missing
/// certificate.
pub proof fn law_identity_is_key_and_certificate(
    r: Result<QuicIdentity, SlipstreamError>,
    key: Result<Seq<u8>, Seq<char>>,
    cert: Result<Seq<u8>, Seq<char>>,
)
    requires
        is_identity(r, key, cert),
    ensures
        r is Ok <==> key is Ok && cert is Ok,
        r matches Ok(identity) ==> {
            &&& key == Ok::<Seq<u8>, Seq<char>>(identity.key_der@)
            &&& cert == Ok::<Seq<u8>, Seq<char>>(identity.cert_der@)
            &&& identity.alpn_protocols@.len() == 1
            &&& identity.alpn_protocols@[0]@.len() == "solana-tpu"@.len()
            &&& forall|i: int|
                0 <= i < "solana-tpu"@.len() ==> (#[trigger] identity.alpn_protocols@[0]@[i]) as char
                    == "solana-tpu"@[i]
        },
        key matches Err(reason) ==> r is Err && r->Err_0 is Certificate && r->Err_0.reason()
            == "key conversion failed: "@ + reason,
        key is Ok ==> (cert matches Err(reason) ==> r is Err && r->Err_0 is Certificate
            && r->Err_0.reason() == reason),
{
    reveal_strlit("solana-tpu");
}

/// What a result says is what it holds.
pub proof fn law_outcome_is_what_it_holds(bytes: Vec<u8>, reason: String)
    ensures
        outcome(Ok(bytes)) == Ok::<Seq<u8>, Seq<char>>(bytes@),
        outcome(Err(reason)) == Err::<Seq<u8>, Seq<char>>(reason@),
{
}

} // verus!
