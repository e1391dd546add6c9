//! The matching primitives: whether a private key and a public-key holder
//! form a pair, and whether one certificate is signed by another.

use vstd::prelude::*;

use crate::artifact::{bytes_equal, CertificateFile};
use crate::pem::{pem_encryption_marked, verifies, verify_signature};

verus! {

/// Compares a private key and a public key, each given as the big-endian
/// bytes of its RSA public modulus.  They form a pair exactly when the
/// moduli are bit-for-bit equal: any difference, down to a single bit,
/// fails the match.
pub fn private_to_public(rsa_private: &Vec<u8>, rsa_public: &Vec<u8>) -> (r: Result<
    (),
    &'static str,
>)
    ensures
        r is Ok <==> rsa_private@ == rsa_public@,
        r matches Err(m) ==> m@ == "Key file mismatch"@,
{
    if bytes_equal(rsa_private, rsa_public) {
        Ok(())
    } else {
        Err("Key file mismatch")
    }
}

/// Compares two certificates to see if the first is signed by the second,
/// that is, whether the first's signature checks out under the second's
/// public key.
pub fn certificate_to_signing_certificate(
    certificate: &CertificateFile,
    signing_certificate: &CertificateFile,
) -> (r: Result<(), &'static str>)
    requires
        !pem_encryption_marked(certificate.pem@),
        !pem_encryption_marked(signing_certificate.pem@),
    ensures
        r is Ok <==> verifies(certificate.pem@, signing_certificate.pem@),
        r matches Err(m) ==> m@ == "Certificate not signed by given signing certificate"@,
{
    if verify_signature(certificate.pem.as_str(), signing_certificate.pem.as_str()) {
        Ok(())
    } else {
        Err("Certificate not signed by given signing certificate")
    }
}

} // verus!
