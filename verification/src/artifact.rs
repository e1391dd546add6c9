//! The typed artifacts recovered from input files: private keys,
//! certificate-signing requests, and certificates, each carrying as plain
//! values exactly what the matching and chain-building engine reads.

use vstd::prelude::*;

use crate::pem::{
    contains_encryption_marker, opt_string_view, parsed_certificate, parsed_key_modulus,
    parsed_request, pem_encryption_marked, san_entries_view, str_to_private_key, str_to_x509,
    str_to_x509req, ParsedCertificate, ParsedRequest,
};

verus! {

/// One input file, as the discovery layer hands it over: its path and its
/// full text.
#[derive(Debug, PartialEq)]
pub struct SourceFile {
    pub path: String,
    pub contents: String,
}

/// A private key file, the foundation of each chain.  The key itself is
/// represented by the big-endian bytes of its RSA public modulus, which
/// is all the engine ever reads of it.
#[derive(Debug, PartialEq)]
pub struct PrivateKeyFile {
    pub path: String,
    pub modulus: Vec<u8>,
}

/// A certificate signing request (if found).
#[derive(Debug, PartialEq)]
pub struct CertificateRequestFile {
    pub path: String,
    pub modulus: Vec<u8>,
    pub subject_common_name: Option<String>,
}

/// An X.509 certificate found among the input files, including
/// intermediate and root signing certificates.  `signing_certificate`
/// links to the resolved issuer, forming an owned chain toward the root;
/// it is `None` exactly when the certificate is self-signed, no candidate
/// verifies its signature, or resolution was cut short by the cycle
/// guard.
#[derive(Debug, PartialEq)]
pub struct CertificateFile {
    pub path: String,
    pub pem: String,
    pub modulus: Vec<u8>,
    pub signature: Vec<u8>,
    pub subject_common_name: Option<String>,
    pub subject_alt_name_entries: Vec<Option<String>>,
    pub signing_certificate: Option<Box<CertificateFile>>,
    pub self_signed: bool,
}

/// The classification of one input file: at most one artifact per file.
#[derive(Debug, PartialEq)]
pub enum Artifact {
    PrivateKey(PrivateKeyFile),
    Request(CertificateRequestFile),
    Certificate(CertificateFile),
    Unrecognized,
}

/// Two certificates carry the same artifact data, leaving the issuer
/// resolution fields (`signing_certificate`, `self_signed`) aside.
pub open spec fn same_core(a: CertificateFile, b: CertificateFile) -> bool {
    &&& a.path@ == b.path@
    &&& a.pem@ == b.pem@
    &&& a.modulus@ == b.modulus@
    &&& a.signature@ == b.signature@
    &&& opt_string_view(a.subject_common_name) == opt_string_view(b.subject_common_name)
    &&& san_entries_view(a.subject_alt_name_entries@) == san_entries_view(
        b.subject_alt_name_entries@,
    )
}

/// Structural equality of certificates, issuer lineage included.
pub open spec fn cert_eq(a: CertificateFile, b: CertificateFile) -> bool
    decreases a,
{
    &&& same_core(a, b)
    &&& a.self_signed == b.self_signed
    &&& match (a.signing_certificate, b.signing_certificate) {
        (Option::None, Option::None) => true,
        (Option::Some(x), Option::Some(y)) => cert_eq(*x, *y),
        _ => false,
    }
}

/// The issuer lineage hanging off an optional link, nearest issuer first.
pub open spec fn chain_seq(o: Option<Box<CertificateFile>>) -> Seq<CertificateFile>
    decreases o,
{
    match o {
        Option::None => Seq::empty(),
        Option::Some(b) => seq![*b] + chain_seq(b.signing_certificate),
    }
}

/// The issuer lineage of a certificate, nearest issuer first.
pub open spec fn lineage_of(c: CertificateFile) -> Seq<CertificateFile> {
    chain_seq(c.signing_certificate)
}

/// The file's text is an RSA private key.
pub open spec fn is_key_file(contents: Seq<char>) -> bool {
    parsed_key_modulus(contents) is Some
}

/// The file's text is a certificate request (and not a private key).
/// A text holding the PEM encryption marker is kept away from the
/// request reader altogether, so it is no request.
pub open spec fn is_request_file(contents: Seq<char>) -> bool {
    &&& !is_key_file(contents)
    &&& !pem_encryption_marked(contents)
    &&& parsed_request(contents) is Some
}

/// The file's text is a certificate (and neither a key nor a request).
/// A text holding the PEM encryption marker is kept away from the
/// certificate reader altogether, so it is no certificate.
pub open spec fn is_certificate_file(contents: Seq<char>) -> bool {
    &&& !is_key_file(contents)
    &&& !is_request_file(contents)
    &&& !pem_encryption_marked(contents)
    &&& parsed_certificate(contents) is Some
}

/// A certificate whose fields hold exactly what parsing the file at
/// `path` with text `contents` yields, whatever its resolution fields
/// say.
pub open spec fn cert_core_of_file(c: CertificateFile, path: Seq<char>, contents: Seq<char>) -> bool {
    &&& c.path@ == path
    &&& c.pem@ == contents
    &&& !pem_encryption_marked(contents)
    &&& parsed_certificate(contents) matches Some(t) && {
        &&& c.modulus@ == t.0
        &&& c.signature@ == t.1
        &&& opt_string_view(c.subject_common_name) == t.2
        &&& san_entries_view(c.subject_alt_name_entries@) == t.3
    }
}

/// A freshly classified certificate: its fields hold exactly what parsing
/// the file yields, and no issuer has been resolved yet.
pub open spec fn clean_cert_of_file(c: CertificateFile, path: Seq<char>, contents: Seq<char>) -> bool {
    &&& cert_core_of_file(c, path, contents)
    &&& c.signing_certificate is None
    &&& !c.self_signed
}

/// What classifying one file must produce: the first of the three parses
/// that succeeds decides the artifact, and a file that matches none is
/// unrecognized.
pub open spec fn classified(path: Seq<char>, contents: Seq<char>, r: Artifact) -> bool {
    if is_key_file(contents) {
        r matches Artifact::PrivateKey(k) && k.path@ == path && Some(k.modulus@)
            == parsed_key_modulus(contents)
    } else if is_request_file(contents) {
        r matches Artifact::Request(q) && q.path@ == path && parsed_request(contents) == Some(
            (q.modulus@, opt_string_view(q.subject_common_name)),
        )
    } else if is_certificate_file(contents) {
        r matches Artifact::Certificate(c) && clean_cert_of_file(c, path, contents)
    } else {
        r is Unrecognized
    }
}

/// Whether two byte strings are equal.
pub fn bytes_equal(a: &Vec<u8>, b: &Vec<u8>) -> (r: bool)
    ensures
        r == (a@ == b@),
{
    let n = a.len();
    if n != b.len() {
        assert(a@ != b@);
        return false;
    }
    let mut i: usize = 0;
    while i < n
        invariant
            n == a@.len(),
            n == b@.len(),
            i <= n,
            forall|j: int| 0 <= j < i ==> a@[j] == b@[j],
        decreases n - i,
    {
        if a[i] != b[i] {
            assert(a@ != b@);
            return false;
        }
        i += 1;
    }
    assert(a@ =~= b@);
    true
}

/// Copies a byte vector.
pub fn copy_bytes(v: &Vec<u8>) -> (r: Vec<u8>)
    ensures
        r@ == v@,
{
    let mut r: Vec<u8> = Vec::new();
    let n = v.len();
    let mut i: usize = 0;
    while i < n
        invariant
            n == v@.len(),
            i <= n,
            r@.len() == i,
            forall|j: int| 0 <= j < i ==> r@[j] == v@[j],
        decreases n - i,
    {
        r.push(v[i]);
        i += 1;
    }
    assert(r@ =~= v@);
    r
}

/// Copies an optional string.
pub fn copy_opt_string(o: &Option<String>) -> (r: Option<String>)
    ensures
        opt_string_view(r) == opt_string_view(*o),
{
    match o {
        Some(s) => Some(s.clone()),
        None => None,
    }
}

/// Copies a vector of optional strings.
pub fn copy_opt_strings(v: &Vec<Option<String>>) -> (r: Vec<Option<String>>)
    ensures
        san_entries_view(r@) == san_entries_view(v@),
{
    let mut r: Vec<Option<String>> = Vec::new();
    let n = v.len();
    let mut i: usize = 0;
    while i < n
        invariant
            n == v@.len(),
            i <= n,
            r@.len() == i,
            forall|j: int| 0 <= j < i ==> opt_string_view(#[trigger] r@[j]) == opt_string_view(
                v@[j],
            ),
        decreases n - i,
    {
        r.push(copy_opt_string(&v[i]));
        i += 1;
    }
    assert(san_entries_view(r@) =~= san_entries_view(v@));
    r
}

impl PrivateKeyFile {
    pub fn new(path: &str, modulus: Vec<u8>) -> (r: Self)
        ensures
            r.path@ == path@,
            r.modulus == modulus,
    {
        PrivateKeyFile { path: path.to_owned(), modulus }
    }
}

impl CertificateRequestFile {
    pub fn new(path: &str, request: ParsedRequest) -> (r: Self)
        ensures
            r.path@ == path@,
            r.modulus == request.modulus,
            r.subject_common_name == request.subject_common_name,
    {
        CertificateRequestFile {
            path: path.to_owned(),
            modulus: request.modulus,
            subject_common_name: request.subject_common_name,
        }
    }

    /// The RSA public key embedded in the request, as its modulus bytes.
    pub fn to_rsa(&self) -> (r: Vec<u8>)
        ensures
            r@ == self.modulus@,
    {
        copy_bytes(&self.modulus)
    }

    /// The text of the last common-name entry of the request's subject.
    pub fn common_name(&self) -> (r: Option<String>)
        ensures
            opt_string_view(r) == opt_string_view(self.subject_common_name),
    {
        copy_opt_string(&self.subject_common_name)
    }
}

impl CertificateFile {
    pub fn new(path: &str, pem: &str, certificate: ParsedCertificate) -> (r: Self)
        ensures
            r.path@ == path@,
            r.pem@ == pem@,
            r.modulus == certificate.modulus,
            r.signature == certificate.signature,
            r.subject_common_name == certificate.subject_common_name,
            r.subject_alt_name_entries == certificate.subject_alt_name_entries,
            r.signing_certificate is None,
            !r.self_signed,
    {
        CertificateFile {
            path: path.to_owned(),
            pem: pem.to_owned(),
            modulus: certificate.modulus,
            signature: certificate.signature,
            subject_common_name: certificate.subject_common_name,
            subject_alt_name_entries: certificate.subject_alt_name_entries,
            signing_certificate: None,
            self_signed: false,
        }
    }

    /// The RSA public key embedded in the certificate, as its modulus bytes.
    pub fn to_rsa(&self) -> (r: Vec<u8>)
        ensures
            r@ == self.modulus@,
    {
        copy_bytes(&self.modulus)
    }

    /// The text of the last common-name entry of the certificate's subject.
    pub fn common_name(&self) -> (r: Option<String>)
        ensures
            opt_string_view(r) == opt_string_view(self.subject_common_name),
    {
        copy_opt_string(&self.subject_common_name)
    }

    /// A structurally equal copy of the certificate, lineage included.
    pub fn duplicate(&self) -> (r: CertificateFile)
        ensures
            cert_eq(r, *self),
        decreases *self,
    {
        let signing_certificate = match &self.signing_certificate {
            Some(b) => Some(Box::new((**b).duplicate())),
            None => None,
        };
        CertificateFile {
            path: self.path.clone(),
            pem: self.pem.clone(),
            modulus: copy_bytes(&self.modulus),
            signature: copy_bytes(&self.signature),
            subject_common_name: copy_opt_string(&self.subject_common_name),
            subject_alt_name_entries: copy_opt_strings(&self.subject_alt_name_entries),
            signing_certificate,
            self_signed: self.self_signed,
        }
    }

    /// The resolved issuer lineage, nearest issuer first.  A self-signed
    /// certificate reports an empty lineage.
    pub fn signing_certificate_chain(&self) -> (r: Vec<Box<CertificateFile>>)
        ensures
            self.self_signed ==> r@.len() == 0,
            !self.self_signed ==> {
                &&& r@.len() == lineage_of(*self).len()
                &&& forall|k: int| 0 <= k < r@.len() ==> cert_eq(*r@[k], #[trigger] lineage_of(*self)[k])
            },
    {
        if self.self_signed {
            return Vec::new();
        }
        let mut r: Vec<Box<CertificateFile>> = Vec::new();
        let mut current: &CertificateFile = self;
        proof {
            assert(lineage_of(*self).skip(0) =~= lineage_of(*self));
        }
        loop
            invariant
                r@.len() <= lineage_of(*self).len(),
                lineage_of(*current) == lineage_of(*self).skip(r@.len() as int),
                forall|k: int| 0 <= k < r@.len() ==> cert_eq(*r@[k], #[trigger] lineage_of(*self)[k]),
            ensures
                r@.len() == lineage_of(*self).len(),
                forall|k: int| 0 <= k < r@.len() ==> cert_eq(*r@[k], #[trigger] lineage_of(*self)[k]),
            decreases *current,
        {
            match &current.signing_certificate {
                Some(b) => {
                    proof {
                        let l = r@.len() as int;
                        assert(lineage_of(*current) == seq![**b] + lineage_of(**b));
                        assert(lineage_of(*current)[0] == **b);
                        assert(lineage_of(*self).skip(l)[0] == lineage_of(*self)[l]);
                        assert(lineage_of(*self)[l] == **b);
                        assert forall|i: int| 0 <= i < lineage_of(**b).len() implies lineage_of(
                            *self,
                        ).skip(l + 1)[i] == lineage_of(**b)[i] by {
                            assert(lineage_of(**b)[i] == lineage_of(*current)[i + 1]);
                            assert(lineage_of(*self).skip(l)[i + 1] == lineage_of(*self)[l + i + 1]);
                            assert(lineage_of(*self).skip(l + 1)[i] == lineage_of(*self)[l + 1 + i]);
                        }
                        assert(lineage_of(*self).skip(l + 1) =~= lineage_of(**b));
                    }
                    r.push(Box::new((**b).duplicate()));
                    current = &**b;
                },
                None => {
                    proof {
                        assert(lineage_of(*current).len() == 0);
                    }
                    break;
                },
            }
        }
        r
    }
}

/// Classifies one file: the first of the three parses (private key,
/// request, certificate) that succeeds decides the artifact, computed
/// once per file and reused by every phase of chain construction.
pub fn classify(path: &str, contents: &str) -> (r: Artifact)
    ensures
        classified(path@, contents@, r),
{
    if let Some(modulus) = str_to_private_key(contents) {
        return Artifact::PrivateKey(PrivateKeyFile::new(path, modulus));
    }
    // A text that holds the PEM encryption marker is kept away from the
    // certificate and request readers: they would consult a passphrase
    // callback on it.  Such a file contributes no artifact.
    if contains_encryption_marker(contents) {
        return Artifact::Unrecognized;
    }
    if let Some(request) = str_to_x509req(contents) {
        return Artifact::Request(CertificateRequestFile::new(path, request));
    }
    if let Some(certificate) = str_to_x509(contents) {
        return Artifact::Certificate(CertificateFile::new(path, contents, certificate));
    }
    Artifact::Unrecognized
}

} // verus!
