//! The boundary to the cryptography library: PEM parsing and signature
//! verification are performed by openssl, and everything the engine needs
//! from an artifact is extracted here as plain values.  Each result is a
//! pure function of the input text, so it is given an uninterpreted name
//! that the rest of the library reasons with.
//!
//! One care is taken throughout: openssl's plain PEM readers, on a block
//! that carries encryption headers, fall back to a default passphrase
//! callback that prompts on the controlling terminal, so their result
//! would depend on what is typed rather than on the text.  The private
//! key reader is therefore called with a fixed (empty) passphrase, under
//! which an encrypted key deterministically fails to parse, and the
//! certificate and request readers, which have no such variant, are
//! fenced by `requires` off any text that contains the `ENCRYPTED`
//! marker every such header carries; `classify` checks the marker first
//! and treats marked files as unrecognized.

use vstd::prelude::*;

use openssl::nid::Nid;
use openssl::x509::{X509, X509Req};

verus! {

/// What a certificate-signing-request file yields once parsed: the RSA
/// public modulus and the text of the last common-name entry of the
/// subject, if one is present.
#[derive(Debug, PartialEq)]
pub struct ParsedRequest {
    pub modulus: Vec<u8>,
    pub subject_common_name: Option<String>,
}

/// What a certificate file yields once parsed: the RSA public modulus,
/// the raw signature bytes, the text of the last common-name entry of
/// the subject, and the subject-alternative-name entries (`None` for an
/// entry that has no DNS-name text form).
#[derive(Debug, PartialEq)]
pub struct ParsedCertificate {
    pub modulus: Vec<u8>,
    pub signature: Vec<u8>,
    pub subject_common_name: Option<String>,
    pub subject_alt_name_entries: Vec<Option<String>>,
}

/// The view of an optional owned string.
pub open spec fn opt_string_view(o: Option<String>) -> Option<Seq<char>> {
    match o {
        Some(s) => Some(s@),
        None => None,
    }
}

/// The view of the subject-alternative-name entries of a certificate.
pub open spec fn san_entries_view(v: Seq<Option<String>>) -> Seq<Option<Seq<char>>> {
    v.map_values(|o: Option<String>| opt_string_view(o))
}

/// The text `s` holds the marker `ENCRYPTED` starting at position `i`.
pub open spec fn marked_at(s: Seq<char>, i: int) -> bool {
    &&& 0 <= i
    &&& i + "ENCRYPTED"@.len() <= s.len()
    &&& s.subrange(i, i + "ENCRYPTED"@.len() as int) == "ENCRYPTED"@
}

/// The text holds the marker `ENCRYPTED` somewhere.  Every PEM block
/// that would send openssl's readers to their passphrase callback — a
/// `Proc-Type: 4,ENCRYPTED` header, or an `ENCRYPTED PRIVATE KEY` block
/// name — contains this marker, so a text without it is parsed without
/// any passphrase ever being consulted.  The guard errs on the safe
/// side: a text that merely happens to contain the marker is kept away
/// from the readers too, and classifies as no artifact.
pub open spec fn pem_encryption_marked(s: Seq<char>) -> bool {
    exists|i: int| marked_at(s, i)
}

/// Whether the text holds the `ENCRYPTED` marker anywhere.
pub fn contains_encryption_marker(s: &str) -> (r: bool)
    ensures
        r == pem_encryption_marked(s@),
{
    let pat = "ENCRYPTED";
    proof {
        reveal_strlit("ENCRYPTED");
    }
    let n = s.unicode_len();
    if n < 9 {
        proof {
            assert forall|i: int| !marked_at(s@, i) by {}
        }
        return false;
    }
    let mut i: usize = 0;
    while i <= n - 9
        invariant
            n == s@.len(),
            9 <= n,
            i <= n - 9 + 1,
            pat@ == "ENCRYPTED"@,
            pat@.len() == 9,
            forall|k: int| 0 <= k < i ==> !marked_at(s@, k),
        decreases n - i,
    {
        let mut ok = true;
        let mut j: usize = 0;
        while j < 9 && ok
            invariant
                n == s@.len(),
                i + 9 <= n,
                j <= 9,
                pat@ == "ENCRYPTED"@,
                pat@.len() == 9,
                ok ==> forall|t: int| 0 <= t < j ==> s@[i + t] == "ENCRYPTED"@[t],
                !ok ==> !marked_at(s@, i as int),
            decreases 9 - j,
        {
            let a = s.get_char(i + j);
            let b = pat.get_char(j);
            if a != b {
                proof {
                    if marked_at(s@, i as int) {
                        assert(s@.subrange(i as int, i as int + 9)[j as int] == s@[i + j]);
                    }
                }
                ok = false;
            }
            j += 1;
        }
        if ok {
            proof {
                assert(s@.subrange(i as int, i as int + 9) =~= "ENCRYPTED"@);
                assert(marked_at(s@, i as int));
            }
            return true;
        }
        i += 1;
    }
    proof {
        assert forall|k: int| !marked_at(s@, k) by {
            if 0 <= k < i {
            }
        }
    }
    false
}

/// The RSA public modulus of the private key that the text `s` encodes,
/// or `None` when `s` is not a PEM-encoded RSA private key.
pub uninterp spec fn parsed_key_modulus(s: Seq<char>) -> Option<Seq<u8>>;

/// The modulus and subject common name of the certificate request that
/// the text `s` encodes, or `None` when `s` is not a PEM-encoded request
/// carrying an RSA public key.
pub uninterp spec fn parsed_request(s: Seq<char>) -> Option<(Seq<u8>, Option<Seq<char>>)>;

/// The modulus, signature bytes, subject common name and
/// subject-alternative-name entries of the certificate that the text `s`
/// encodes, or `None` when `s` is not a PEM-encoded certificate carrying
/// an RSA public key.
pub uninterp spec fn parsed_certificate(s: Seq<char>) -> Option<
    (Seq<u8>, Seq<u8>, Option<Seq<char>>, Seq<Option<Seq<char>>>),
>;

/// Whether the signature on the certificate encoded by `cert_pem` checks
/// out under the public key of the certificate encoded by `signer_pem`.
/// False whenever either text fails to parse as a certificate.
pub uninterp spec fn verifies(cert_pem: Seq<char>, signer_pem: Seq<char>) -> bool;

/// Relies on openssl's `Rsa::private_key_from_pem_passphrase` to decide
/// whether the text is an RSA private key, and on `RsaRef::n` /
/// `BigNumRef::to_vec` for the big-endian bytes of its public modulus.
/// The passphrase variant hands openssl a fixed, empty passphrase as its
/// user data, so a passphrase-protected key deterministically fails to
/// parse and the default terminal prompt is never reached: the result is
/// a function of the text alone.
#[verifier::external_body]
pub fn str_to_private_key(contents: &str) -> (r: Option<Vec<u8>>)
    ensures
        r is Some <==> parsed_key_modulus(contents@) is Some,
        r matches Some(m) ==> parsed_key_modulus(contents@) == Some(m@),
{
    let parsed = openssl::rsa::Rsa::private_key_from_pem_passphrase(contents.as_bytes(), b"");
    let rsa = parsed.ok()?;
    Some(rsa.n().to_vec())
}

/// Relies on openssl's `X509Req::from_pem` to decide whether the text is
/// a certificate request (the `requires` keeps texts with the encryption
/// marker away, so the reader never consults a passphrase callback), on `X509ReqRef::public_key` / `PKey::rsa` /
/// `RsaRef::n` for the modulus of its RSA public key (a request whose key
/// is not RSA is reported as no request at all), and on
/// `X509NameRef::entries_by_nid` / `Asn1StringRef::as_utf8` for the text
/// of the last common-name entry of its subject (an entry that cannot be
/// converted to UTF-8 is reported as absent).
#[allow(deprecated)]
#[verifier::external_body]
pub fn str_to_x509req(contents: &str) -> (r: Option<ParsedRequest>)
    requires
        !pem_encryption_marked(contents@),
    ensures
        r is Some <==> parsed_request(contents@) is Some,
        r matches Some(q) ==> parsed_request(contents@) == Some(
            (q.modulus@, opt_string_view(q.subject_common_name)),
        ),
{
    let req = X509Req::from_pem(contents.as_bytes()).ok()?;
    let rsa = req.public_key().and_then(|k| k.rsa()).ok()?;
    let subject_common_name = req.subject_name().entries_by_nid(Nid::COMMONNAME).last().and_then(
        |e| e.data().as_utf8().ok(),
    ).map(|s| s.to_string());
    Some(ParsedRequest { modulus: rsa.n().to_vec(), subject_common_name })
}

/// Relies on openssl's `X509::from_pem` to decide whether the text is a
/// certificate (the `requires` keeps texts with the encryption marker
/// away, so the reader never consults a passphrase callback), on `X509Ref::public_key` / `PKey::rsa` / `RsaRef::n` for
/// the modulus of its RSA public key (a certificate whose key is not RSA
/// is reported as no certificate at all), on `X509Ref::signature` for the
/// raw signature bytes, on `X509NameRef::entries_by_nid` /
/// `Asn1StringRef::as_utf8` for the last common-name entry of the
/// subject, and on `X509Ref::subject_alt_names` / `GeneralNameRef::dnsname`
/// for the subject-alternative-name entries, each `None` when the entry
/// has no DNS-name text form.
#[allow(deprecated)]
#[verifier::external_body]
pub fn str_to_x509(contents: &str) -> (r: Option<ParsedCertificate>)
    requires
        !pem_encryption_marked(contents@),
    ensures
        r is Some <==> parsed_certificate(contents@) is Some,
        r matches Some(c) ==> parsed_certificate(contents@) == Some(
            (
                c.modulus@,
                c.signature@,
                opt_string_view(c.subject_common_name),
                san_entries_view(c.subject_alt_name_entries@),
            ),
        ),
{
    let cert = X509::from_pem(contents.as_bytes()).ok()?;
    let rsa = cert.public_key().and_then(|k| k.rsa()).ok()?;
    let subject_common_name = cert.subject_name().entries_by_nid(Nid::COMMONNAME).last().and_then(
        |e| e.data().as_utf8().ok(),
    ).map(|s| s.to_string());
    let subject_alt_name_entries = cert.subject_alt_names().map_or(Vec::new(), |st|
        st.iter().map(|g| g.dnsname().map(|d| d.to_string())).collect());
    let signature = cert.signature().as_slice().to_vec();
    Some(ParsedCertificate { modulus: rsa.n().to_vec(), signature, subject_common_name, subject_alt_name_entries })
}

/// Relies on openssl's `X509Ref::verify`, which checks nothing but the
/// signature itself, under the public key of the second certificate (the
/// `requires` keeps texts with the encryption marker away, so the two
/// parses never consult a passphrase callback).
/// Texts that do not parse as certificates, a verification error, and a
/// signature that does not check out are all reported as `false`.
#[verifier::external_body]
pub fn verify_signature(cert_pem: &str, signer_pem: &str) -> (r: bool)
    requires
        !pem_encryption_marked(cert_pem@),
        !pem_encryption_marked(signer_pem@),
    ensures
        r == verifies(cert_pem@, signer_pem@),
{
    let parsed = X509::from_pem(cert_pem.as_bytes()).ok().zip(
        X509::from_pem(signer_pem.as_bytes()).ok(),
    );
    match parsed {
        Some((cert, signer)) => match signer.public_key() {
            Ok(key) => cert.verify(&key).unwrap_or(false),
            Err(_) => false,
        },
        None => false,
    }
}

} // verus!
