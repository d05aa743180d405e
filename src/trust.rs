use vstd::prelude::*;

verus! {

/// How the client judges the certificate that the server presents.
pub enum TrustPolicy {
    /// Accept any certificate, for any name, unchecked. Insecure: for local
    /// development only.
    SkipVerification,
    /// Accept only certificates that chain to this authority (DER bytes), for
    /// the name that the client asked for.
    PinnedAuthority { authority_der: Vec<u8> },
}

/// Picks the client's policy: pinned to the authority's certificate when one
/// was given, else the unchecked development policy.
pub fn client_trust_policy(authority_der: Option<Vec<u8>>) -> (r: TrustPolicy)
    ensures
        authority_der is None ==> r is SkipVerification,
        authority_der is Some ==> (r matches TrustPolicy::PinnedAuthority { authority_der: a }
            && a@ == authority_der.unwrap()@),
{
    match authority_der {
        None => TrustPolicy::SkipVerification,
        Some(a) => TrustPolicy::PinnedAuthority { authority_der: a },
    }
}

/// Where the server's certificate and key come from.
pub enum CertificateSource {
    /// A fresh self-signed pair, made at start and never stored.
    SelfSigned,
    /// PEM files at these paths.
    Files { cert_path: String, key_path: String },
}

/// Picks the server's certificate source: the files when both paths were
/// given, else a fresh self-signed pair.
pub fn certificate_source(cert_path: Option<String>, key_path: Option<String>) -> (r:
    CertificateSource)
    ensures
        cert_path is Some && key_path is Some ==> (r matches CertificateSource::Files {
            cert_path: c,
            key_path: k,
        } && c@ == cert_path.unwrap()@ && k@ == key_path.unwrap()@),
        cert_path is None || key_path is None ==> r is SelfSigned,
{
    match (cert_path, key_path) {
        (Some(c), Some(k)) => CertificateSource::Files { cert_path: c, key_path: k },
        _ => CertificateSource::SelfSigned,
    }
}

/// A server certificate with its private key, both DER-encoded (the key as
/// PKCS #8).
pub struct ServerIdentity {
    pub cert_der: Vec<u8>,
    pub key_der: Vec<u8>,
}

/// Why the server's certificate material could not be had.
#[derive(Clone, Copy, Debug, PartialEq, Eq, Structural)]
pub enum ConfigError {
    /// Generating a self-signed certificate failed.
    Generation,
}

#[verifier::external_type_specification]
#[verifier::external_body]
pub struct ExRcgenError(rcgen::Error);

/// The names, each as its text, that the DER certificate `cert_der` is made
/// valid for (its subject alternative names).
pub uninterp spec fn certified_names(cert_der: Seq<u8>) -> Seq<Seq<char>>;

/// Relies on rcgen::generate_simple_self_signed: a new key pair and a
/// certificate signed by it and valid for the one name `name`, or rcgen's
/// error. A name with a colon may be an IPv6 address, which rcgen stores as
/// octets that more than one text spells: such names are left out.
#[verifier::external_body]
fn generate_self_signed(name: &str) -> (r: Result<(Vec<u8>, Vec<u8>), rcgen::Error>)
    requires
        forall|i: int| 0 <= i < name@.len() ==> name@[i] != ':',
    ensures
        r matches Ok(pair) ==> certified_names(pair.0@) == seq![name@],
{
    let made = rcgen::generate_simple_self_signed(vec![name.to_string()])?;
    Ok((made.cert.der().to_vec(), made.key_pair.serialize_der()))
}

/// A fresh self-signed identity, valid for the host `name` alone. The name
/// holds no colon, so it is no IPv6 address.
pub fn self_signed_identity(name: &String) -> (r: Result<ServerIdentity, ConfigError>)
    requires
        forall|i: int| 0 <= i < name@.len() ==> name@[i] != ':',
    ensures
        r matches Ok(id) ==> certified_names(id.cert_der@) == seq![name@],
        r matches Err(e) ==> e == ConfigError::Generation,
{
    match generate_self_signed(name.as_str()) {
        Ok((cert_der, key_der)) => Ok(ServerIdentity { cert_der, key_der }),
        Err(_) => Err(ConfigError::Generation),
    }
}

} // verus!
