//! Chain construction: group the artifacts found among the input files
//! into one `Chain` per private key, attach at most one matching request
//! and every matching certificate to it, and resolve each certificate's
//! issuer lineage against the full pool of certificates.  The phases run
//! strictly in that order, each completing before the next starts.

use vstd::prelude::*;

use crate::artifact::{
    same_core,
    cert_core_of_file, cert_eq, chain_seq, classified, classify, clean_cert_of_file, copy_bytes,
    copy_opt_string, is_certificate_file, is_key_file, is_request_file, Artifact, CertificateFile,
    CertificateRequestFile, PrivateKeyFile, SourceFile,
};
use crate::compare::private_to_public;
use crate::pem::{opt_string_view, parsed_certificate, parsed_key_modulus, parsed_request};
use crate::resolve::{
    attach_signing_certificate_chain, candidates_of, chain_matches, spec_resolve, Candidate,
};

verus! {

/// The central aggregate: one private key, at most one matching request,
/// and every certificate whose public key matches the key, each with its
/// resolved issuer lineage.
#[derive(Debug, PartialEq)]
pub struct Chain {
    pub name: Option<String>,
    pub key: Option<PrivateKeyFile>,
    pub request: Option<CertificateRequestFile>,
    pub certificates: Vec<CertificateFile>,
}

impl Chain {
    pub fn new() -> (r: Self)
        ensures
            r.name is None,
            r.key is None,
            r.request is None,
            r.certificates@.len() == 0,
    {
        Chain { name: None, key: None, request: None, certificates: Vec::new() }
    }
}

/// The modulus of the private key that a key file yields.
pub open spec fn key_modulus(contents: Seq<char>) -> Seq<u8> {
    match parsed_key_modulus(contents) {
        Some(m) => m,
        None => Seq::empty(),
    }
}

/// The modulus of the public key that a request file yields.
pub open spec fn request_modulus(contents: Seq<char>) -> Seq<u8> {
    match parsed_request(contents) {
        Some(t) => t.0,
        None => Seq::empty(),
    }
}

/// The modulus of the public key that a certificate file yields.
pub open spec fn cert_modulus(contents: Seq<char>) -> Seq<u8> {
    match parsed_certificate(contents) {
        Some(t) => t.0,
        None => Seq::empty(),
    }
}

/// The signature bytes that a certificate file yields.
pub open spec fn cert_signature(contents: Seq<char>) -> Seq<u8> {
    match parsed_certificate(contents) {
        Some(t) => t.1,
        None => Seq::empty(),
    }
}

/// The indices of the private-key files, in file order.
pub open spec fn key_indices(files: Seq<SourceFile>) -> Seq<int>
    decreases files.len(),
{
    if files.len() == 0 {
        Seq::empty()
    } else if is_key_file(files.last().contents@) {
        key_indices(files.drop_last()).push(files.len() - 1)
    } else {
        key_indices(files.drop_last())
    }
}

/// The indices of the certificate files, in file order.
pub open spec fn cert_indices(files: Seq<SourceFile>) -> Seq<int>
    decreases files.len(),
{
    if files.len() == 0 {
        Seq::empty()
    } else if is_certificate_file(files.last().contents@) {
        cert_indices(files.drop_last()).push(files.len() - 1)
    } else {
        cert_indices(files.drop_last())
    }
}

/// The indices of the certificate files whose public-key modulus is `m`,
/// in file order.
pub open spec fn matching_cert_indices(files: Seq<SourceFile>, m: Seq<u8>) -> Seq<int>
    decreases files.len(),
{
    if files.len() == 0 {
        Seq::empty()
    } else if is_certificate_file(files.last().contents@) && cert_modulus(files.last().contents@)
        == m {
        matching_cert_indices(files.drop_last(), m).push(files.len() - 1)
    } else {
        matching_cert_indices(files.drop_last(), m)
    }
}

/// The index of the first request file at or after `i` whose public-key
/// modulus is `m`.
pub open spec fn first_request_match_from(files: Seq<SourceFile>, m: Seq<u8>, i: int) -> Option<
    int,
>
    decreases files.len() - i,
    when 0 <= i <= files.len()
{
    if i == files.len() {
        None
    } else if is_request_file(files[i].contents@) && request_modulus(files[i].contents@) == m {
        Some(i)
    } else {
        first_request_match_from(files, m, i + 1)
    }
}

/// Every key-file index is a valid file index.
pub proof fn lemma_key_indices_bounds(files: Seq<SourceFile>)
    ensures
        forall|k: int|
            0 <= k < key_indices(files).len() ==> 0 <= #[trigger] key_indices(files)[k]
                < files.len(),
    decreases files.len(),
{
    if files.len() > 0 {
        lemma_key_indices_bounds(files.drop_last());
        assert forall|k: int|
            0 <= k < key_indices(files).len() implies 0 <= #[trigger] key_indices(files)[k]
            < files.len() by {
            if k < key_indices(files.drop_last()).len() {
                assert(key_indices(files)[k] == key_indices(files.drop_last())[k]);
            }
        }
    }
}

/// Every certificate-file index is a valid file index.
pub proof fn lemma_cert_indices_bounds(files: Seq<SourceFile>)
    ensures
        forall|k: int|
            0 <= k < cert_indices(files).len() ==> 0 <= #[trigger] cert_indices(files)[k]
                < files.len(),
    decreases files.len(),
{
    if files.len() > 0 {
        lemma_cert_indices_bounds(files.drop_last());
        assert forall|k: int|
            0 <= k < cert_indices(files).len() implies 0 <= #[trigger] cert_indices(files)[k]
            < files.len() by {
            if k < cert_indices(files.drop_last()).len() {
                assert(cert_indices(files)[k] == cert_indices(files.drop_last())[k]);
            }
        }
    }
}

/// Every matching-certificate index is a valid file index.
pub proof fn lemma_matching_cert_indices_bounds(files: Seq<SourceFile>, m: Seq<u8>)
    ensures
        forall|k: int|
            0 <= k < matching_cert_indices(files, m).len() ==> 0
                <= #[trigger] matching_cert_indices(files, m)[k] < files.len(),
    decreases files.len(),
{
    if files.len() > 0 {
        lemma_matching_cert_indices_bounds(files.drop_last(), m);
        assert forall|k: int|
            0 <= k < matching_cert_indices(files, m).len() implies 0
            <= #[trigger] matching_cert_indices(files, m)[k] < files.len() by {
            if k < matching_cert_indices(files.drop_last(), m).len() {
                assert(matching_cert_indices(files, m)[k] == matching_cert_indices(
                    files.drop_last(),
                    m,
                )[k]);
            }
        }
    }
}

/// The candidate pool that the input files present to issuer resolution:
/// every certificate file, in file order.
pub open spec fn file_candidates(files: Seq<SourceFile>) -> Seq<Candidate> {
    cert_indices(files).map_values(
        |i: int|
            Candidate { pem: files[i].contents@, signature: cert_signature(files[i].contents@) },
    )
}

/// A private key taken from the file at index `fi`.
pub open spec fn key_file_ok(k: PrivateKeyFile, files: Seq<SourceFile>, fi: int) -> bool {
    &&& k.path@ == files[fi].path@
    &&& Some(k.modulus@) == parsed_key_modulus(files[fi].contents@)
}

/// The request slot holds the first request whose public key matches
/// modulus `m`, or nothing when no request matches.
pub open spec fn request_ok(r: Option<CertificateRequestFile>, files: Seq<SourceFile>, m: Seq<u8>) -> bool {
    match first_request_match_from(files, m, 0) {
        None => r is None,
        Some(ri) => r matches Some(q) && q.path@ == files[ri].path@ && parsed_request(
            files[ri].contents@,
        ) == Some((q.modulus@, opt_string_view(q.subject_common_name))),
    }
}

/// The certificates matching modulus `m`, in file order, still without
/// resolved lineage.
pub open spec fn certificates_clean_ok(
    certs: Seq<CertificateFile>,
    files: Seq<SourceFile>,
    m: Seq<u8>,
) -> bool {
    let mi = matching_cert_indices(files, m);
    &&& certs.len() == mi.len()
    &&& forall|k: int| #![trigger certs[k]]
        0 <= k < mi.len() ==> 0 <= mi[k] < files.len() && clean_cert_of_file(
            certs[k],
            files[mi[k]].path@,
            files[mi[k]].contents@,
        )
}

/// The issuer lineage `chain` matches the walk outcome `(idxs,
/// tail_self_signed)`, read directly off the input files: the walk's
/// indices select certificate files, each record carries that file's
/// data, and only the last record can be marked self-signed.
pub open spec fn lineage_ok(
    chain: Option<Box<CertificateFile>>,
    idxs: Seq<int>,
    tail_self_signed: bool,
    files: Seq<SourceFile>,
) -> bool {
    let l = chain_seq(chain);
    let ci = cert_indices(files);
    &&& l.len() == idxs.len()
    &&& forall|k: int| #![trigger idxs[k]]
        0 <= k < idxs.len() ==> 0 <= idxs[k] < ci.len() && 0 <= ci[idxs[k]] < files.len()
            && cert_core_of_file(l[k], files[ci[idxs[k]]].path@, files[ci[idxs[k]]].contents@)
    &&& forall|k: int| #![trigger l[k].self_signed]
        0 <= k < idxs.len() ==> (l[k].self_signed <==> (k == idxs.len() - 1 && tail_self_signed))
}

/// A certificate attached to a chain, after lineage resolution: it
/// carries the data of the file at index `fi`, and its self-signed flag
/// and lineage are exactly what the issuer walk over the file pool
/// concludes.
pub open spec fn attached_cert_ok(c: CertificateFile, files: Seq<SourceFile>, fi: int) -> bool {
    let res = spec_resolve(
        files[fi].contents@,
        cert_signature(files[fi].contents@),
        file_candidates(files),
        Set::empty(),
    );
    &&& cert_core_of_file(c, files[fi].path@, files[fi].contents@)
    &&& (c.self_signed <==> (res.0.len() == 0 && res.1))
    &&& lineage_ok(c.signing_certificate, res.0, res.1, files)
}

/// The certificates matching modulus `m`, in file order, each with its
/// lineage resolved.
pub open spec fn certificates_resolved_ok(
    certs: Seq<CertificateFile>,
    files: Seq<SourceFile>,
    m: Seq<u8>,
) -> bool {
    let mi = matching_cert_indices(files, m);
    &&& certs.len() == mi.len()
    &&& forall|k: int| #![trigger certs[k]]
        0 <= k < mi.len() ==> 0 <= mi[k] < files.len() && attached_cert_ok(certs[k], files, mi[k])
}

/// One finished chain, built for the key file at index `fi`.
pub open spec fn chain_ok(files: Seq<SourceFile>, fi: int, c: Chain) -> bool {
    let m = key_modulus(files[fi].contents@);
    &&& c.name is None
    &&& c.key matches Some(key) && key_file_ok(key, files, fi)
    &&& request_ok(c.request, files, m)
    &&& certificates_resolved_ok(c.certificates@, files, m)
}

/// The finished chain collection: one chain per private-key file, in file
/// order.
pub open spec fn chains_ok(files: Seq<SourceFile>, chains: Seq<Chain>) -> bool {
    let ki = key_indices(files);
    &&& chains.len() == ki.len()
    &&& forall|k: int| #![trigger chains[k]]
        0 <= k < ki.len() ==> 0 <= ki[k] < files.len() && chain_ok(files, ki[k], chains[k])
}

/// Each file classified, in order.
pub open spec fn artifacts_of(files: Seq<SourceFile>, arts: Seq<Artifact>) -> bool {
    &&& arts.len() == files.len()
    &&& forall|i: int| #![trigger arts[i]]
        0 <= i < files.len() ==> classified(files[i].path@, files[i].contents@, arts[i])
}

/// Classifies every input file once; later phases reuse the results
/// instead of re-parsing the same bytes.
fn classify_all(files: &Vec<SourceFile>) -> (r: Vec<Artifact>)
    ensures
        artifacts_of(files@, r@),
{
    let mut r: Vec<Artifact> = Vec::new();
    let n = files.len();
    let mut i: usize = 0;
    while i < n
        invariant
            n == files@.len(),
            i <= n,
            r@.len() == i,
            forall|k: int| #![trigger r@[k]]
                0 <= k < i ==> classified(files@[k].path@, files@[k].contents@, r@[k]),
        decreases n - i,
    {
        let a = classify(files[i].path.as_str(), files[i].contents.as_str());
        r.push(a);
        i += 1;
    }
    r
}

/// Initializes the chain collection, creating one chain for each private
/// key among the artifacts.  Files that are not private keys are ignored
/// in this phase.
fn initialize(chains: &mut Vec<Chain>, artifacts: &Vec<Artifact>, Ghost(files): Ghost<
    Seq<SourceFile>,
>)
    requires
        old(chains)@.len() == 0,
        artifacts_of(files, artifacts@),
    ensures
        ({
            let ki = key_indices(files);
            &&& final(chains)@.len() == ki.len()
            &&& forall|k: int| #![trigger final(chains)@[k]]
                0 <= k < ki.len() ==> {
                    let c = final(chains)@[k];
                    &&& 0 <= ki[k] < files.len()
                    &&& c.name is None
                    &&& c.request is None
                    &&& c.certificates@.len() == 0
                    &&& c.key matches Some(key) && key_file_ok(key, files, ki[k])
                }
        }),
{
    let n = artifacts.len();
    let mut i: usize = 0;
    while i < n
        invariant
            n == artifacts@.len(),
            n == files.len(),
            i <= n,
            artifacts_of(files, artifacts@),
            ({
                let ki = key_indices(files.take(i as int));
                &&& chains@.len() == ki.len()
                &&& forall|k: int| #![trigger chains@[k]]
                    0 <= k < ki.len() ==> {
                        let c = chains@[k];
                        &&& 0 <= ki[k] < files.len()
                        &&& c.name is None
                        &&& c.request is None
                        &&& c.certificates@.len() == 0
                        &&& c.key matches Some(key) && key_file_ok(key, files, ki[k])
                    }
            }),
        decreases n - i,
    {
        proof {
            assert(files.take(i as int + 1).drop_last() =~= files.take(i as int));
            assert(files.take(i as int + 1).last() == files[i as int]);
        }
        match &artifacts[i] {
            Artifact::PrivateKey(k) => {
                proof {
                    assert(classified(files[i as int].path@, files[i as int].contents@, artifacts@[i as int]));
                    assert(is_key_file(files[i as int].contents@));
                    assert(key_indices(files.take(i as int + 1)) == key_indices(
                        files.take(i as int),
                    ).push(i as int));
                }
                let mut chain = Chain::new();
                chain.key = Some(
                    PrivateKeyFile { path: k.path.clone(), modulus: copy_bytes(&k.modulus) },
                );
                chains.push(chain);
            },
            _ => {
                proof {
                    assert(classified(files[i as int].path@, files[i as int].contents@, artifacts@[i as int]));
                    assert(!is_key_file(files[i as int].contents@));
                    assert(key_indices(files.take(i as int + 1)) == key_indices(
                        files.take(i as int),
                    ));
                }
            },
        }
        i += 1;
    }
    proof {
        assert(files.take(n as int) =~= files);
    }
}

/// Locates the certificate signing request for each chain: the first
/// request among the artifacts whose public key matches the chain's key.
/// The scan for a chain stops as soon as one is found.
#[verifier::loop_isolation(false)]
fn attach_certificate_signing_requests(
    chains: &mut Vec<Chain>,
    artifacts: &Vec<Artifact>,
    Ghost(files): Ghost<Seq<SourceFile>>,
)
    requires
        artifacts_of(files, artifacts@),
        forall|k: int| 0 <= k < old(chains)@.len() ==> (#[trigger] old(chains)@[k]).request is None,
    ensures
        final(chains)@.len() == old(chains)@.len(),
        forall|k: int| #![trigger final(chains)@[k]]
            0 <= k < old(chains)@.len() ==> {
                let oc = old(chains)@[k];
                let nc = final(chains)@[k];
                &&& nc.key == oc.key
                &&& nc.name == oc.name
                &&& nc.certificates == oc.certificates
                &&& match oc.key {
                    Some(key) => request_ok(nc.request, files, key.modulus@),
                    None => nc.request is None,
                }
            },
{
    let n = chains.len();
    let mut ci: usize = 0;
    while ci < n
        invariant
            n == chains@.len(),
            n == old(chains)@.len(),
            ci <= n,
            artifacts_of(files, artifacts@),
            forall|k: int| #![trigger chains@[k]] ci <= k < n ==> chains@[k] == old(chains)@[k],
            forall|k: int| #![trigger chains@[k]]
                0 <= k < ci ==> {
                    let oc = old(chains)@[k];
                    let nc = chains@[k];
                    &&& nc.key == oc.key
                    &&& nc.name == oc.name
                    &&& nc.certificates == oc.certificates
                    &&& match oc.key {
                        Some(key) => request_ok(nc.request, files, key.modulus@),
                        None => nc.request is None,
                    }
                },
        decreases n - ci,
    {
        let ghost m = match chains@[ci as int].key {
            Some(key) => key.modulus@,
            None => Seq::empty(),
        };
        proof {
            assert(chains@[ci as int] == old(chains)@[ci as int]);
            assert(old(chains)@[ci as int].request is None);
        }
        if chains[ci].key.is_some() {
            let m_len = artifacts.len();
            let mut i: usize = 0;
            let mut found = false;
            while i < m_len && !found
                invariant
                    m_len == artifacts@.len(),
                    m_len == files.len(),
                    i <= m_len,
                    artifacts_of(files, artifacts@),
                    n == chains@.len(),
                    ci < n,
                    forall|k: int| #![trigger chains@[k]]
                        ci < k < n ==> chains@[k] == old(chains)@[k],
                    forall|k: int| #![trigger chains@[k]]
                        0 <= k < ci ==> {
                            let oc = old(chains)@[k];
                            let nc = chains@[k];
                            &&& nc.key == oc.key
                            &&& nc.name == oc.name
                            &&& nc.certificates == oc.certificates
                            &&& match oc.key {
                                Some(key) => request_ok(nc.request, files, key.modulus@),
                                None => nc.request is None,
                            }
                        },
                    chains@[ci as int].key == old(chains)@[ci as int].key,
                    chains@[ci as int].name == old(chains)@[ci as int].name,
                    chains@[ci as int].certificates == old(chains)@[ci as int].certificates,
                    old(chains)@[ci as int].key matches Some(key) && m == key.modulus@,
                    !found ==> chains@[ci as int].request is None && first_request_match_from(
                        files,
                        m,
                        0,
                    ) == first_request_match_from(files, m, i as int),
                    found ==> request_ok(chains@[ci as int].request, files, m),
                decreases m_len - i,
            {
                match &artifacts[i] {
                    Artifact::Request(q) => {
                        proof {
                            assert(classified(
                                files[i as int].path@,
                                files[i as int].contents@,
                                artifacts@[i as int],
                            ));
                            assert(is_request_file(files[i as int].contents@));
                        }
                        let matched = match &chains[ci].key {
                            Some(key) => private_to_public(&key.modulus, &q.modulus).is_ok(),
                            None => false,
                        };
                        if matched {
                            proof {
                                assert(request_modulus(files[i as int].contents@) == q.modulus@);
                                assert(first_request_match_from(files, m, i as int) == Some(
                                    i as int,
                                ));
                            }
                            chains[ci].request = Some(
                                CertificateRequestFile {
                                    path: q.path.clone(),
                                    modulus: copy_bytes(&q.modulus),
                                    subject_common_name: copy_opt_string(&q.subject_common_name),
                                },
                            );
                            found = true;
                        } else {
                            proof {
                                assert(request_modulus(files[i as int].contents@) == q.modulus@);
                                assert(first_request_match_from(files, m, i as int)
                                    == first_request_match_from(files, m, i as int + 1));
                            }
                        }
                    },
                    _ => {
                        proof {
                            assert(classified(
                                files[i as int].path@,
                                files[i as int].contents@,
                                artifacts@[i as int],
                            ));
                            assert(!is_request_file(files[i as int].contents@));
                            assert(first_request_match_from(files, m, i as int)
                                == first_request_match_from(files, m, i as int + 1));
                        }
                    },
                }
                i += 1;
            }
            proof {
                if !found {
                    assert(first_request_match_from(files, m, m_len as int) is None);
                }
                assert(request_ok(chains@[ci as int].request, files, m));
            }
        }
        proof {
            let oc = old(chains)@[ci as int];
            match oc.key {
                Some(key) => {
                    assert(request_ok(chains@[ci as int].request, files, key.modulus@));
                },
                None => {
                    assert(chains@[ci as int].request is None);
                },
            }
        }
        ci += 1;
    }
}

/// Locates the certificates for each chain: every certificate among the
/// artifacts whose public key matches the chain's key is appended, in
/// discovery order.
#[verifier::loop_isolation(false)]
fn attach_certificates(
    chains: &mut Vec<Chain>,
    artifacts: &Vec<Artifact>,
    Ghost(files): Ghost<Seq<SourceFile>>,
)
    requires
        artifacts_of(files, artifacts@),
        forall|k: int|
            0 <= k < old(chains)@.len() ==> (#[trigger] old(chains)@[k]).certificates@.len() == 0,
    ensures
        final(chains)@.len() == old(chains)@.len(),
        forall|k: int| #![trigger final(chains)@[k]]
            0 <= k < old(chains)@.len() ==> {
                let oc = old(chains)@[k];
                let nc = final(chains)@[k];
                &&& nc.key == oc.key
                &&& nc.name == oc.name
                &&& nc.request == oc.request
                &&& match oc.key {
                    Some(key) => certificates_clean_ok(nc.certificates@, files, key.modulus@),
                    None => nc.certificates@.len() == 0,
                }
            },
{
    let n = chains.len();
    let mut ci: usize = 0;
    while ci < n
        invariant
            n == chains@.len(),
            n == old(chains)@.len(),
            ci <= n,
            artifacts_of(files, artifacts@),
            forall|k: int| #![trigger chains@[k]] ci <= k < n ==> chains@[k] == old(chains)@[k],
            forall|k: int| #![trigger chains@[k]]
                0 <= k < ci ==> {
                    let oc = old(chains)@[k];
                    let nc = chains@[k];
                    &&& nc.key == oc.key
                    &&& nc.name == oc.name
                    &&& nc.request == oc.request
                    &&& match oc.key {
                        Some(key) => certificates_clean_ok(nc.certificates@, files, key.modulus@),
                        None => nc.certificates@.len() == 0,
                    }
                },
        decreases n - ci,
    {
        let ghost m = match chains@[ci as int].key {
            Some(key) => key.modulus@,
            None => Seq::empty(),
        };
        proof {
            assert(chains@[ci as int] == old(chains)@[ci as int]);
            assert(old(chains)@[ci as int].certificates@.len() == 0);
            assert(files.take(0) =~= Seq::<SourceFile>::empty());
            assert(matching_cert_indices(files.take(0), m).len() == 0);
        }
        if chains[ci].key.is_some() {
            let m_len = artifacts.len();
            let mut i: usize = 0;
            while i < m_len
                invariant
                    m_len == artifacts@.len(),
                    m_len == files.len(),
                    i <= m_len,
                    artifacts_of(files, artifacts@),
                    n == chains@.len(),
                    ci < n,
                    forall|k: int| #![trigger chains@[k]]
                        ci < k < n ==> chains@[k] == old(chains)@[k],
                    forall|k: int| #![trigger chains@[k]]
                        0 <= k < ci ==> {
                            let oc = old(chains)@[k];
                            let nc = chains@[k];
                            &&& nc.key == oc.key
                            &&& nc.name == oc.name
                            &&& nc.request == oc.request
                            &&& match oc.key {
                                Some(key) => certificates_clean_ok(
                                    nc.certificates@,
                                    files,
                                    key.modulus@,
                                ),
                                None => nc.certificates@.len() == 0,
                            }
                        },
                    chains@[ci as int].key == old(chains)@[ci as int].key,
                    chains@[ci as int].name == old(chains)@[ci as int].name,
                    chains@[ci as int].request == old(chains)@[ci as int].request,
                    old(chains)@[ci as int].key matches Some(key) && m == key.modulus@,
                    chains@[ci as int].certificates@.len() == matching_cert_indices(
                        files.take(i as int),
                        m,
                    ).len(),
                    forall|k: int| #![trigger chains@[ci as int].certificates@[k]]
                        0 <= k < matching_cert_indices(files.take(i as int), m).len()
                            ==> 0 <= matching_cert_indices(files.take(i as int), m)[k]
                            < files.len() && clean_cert_of_file(
                            chains@[ci as int].certificates@[k],
                            files[matching_cert_indices(files.take(i as int), m)[k]].path@,
                            files[matching_cert_indices(files.take(i as int), m)[k]].contents@,
                        ),
                decreases m_len - i,
            {
                proof {
                    assert(files.take(i as int + 1).drop_last() =~= files.take(i as int));
                    assert(files.take(i as int + 1).last() == files[i as int]);
                    lemma_matching_cert_indices_bounds(files.take(i as int + 1), m);
                    assert(classified(
                        files[i as int].path@,
                        files[i as int].contents@,
                        artifacts@[i as int],
                    ));
                }
                match &artifacts[i] {
                    Artifact::Certificate(c) => {
                        proof {
                            assert(is_certificate_file(files[i as int].contents@));
                            assert(cert_modulus(files[i as int].contents@) == c.modulus@);
                        }
                        let matched = match &chains[ci].key {
                            Some(key) => private_to_public(&key.modulus, &c.modulus).is_ok(),
                            None => false,
                        };
                        if matched {
                            proof {
                                assert(matching_cert_indices(files.take(i as int + 1), m)
                                    == matching_cert_indices(files.take(i as int), m).push(
                                    i as int,
                                ));
                            }
                            let dup = c.duplicate();
                            proof {
                                assert(cert_eq(dup, *c));
                                assert(clean_cert_of_file(
                                    dup,
                                    files[i as int].path@,
                                    files[i as int].contents@,
                                ));
                            }
                            let ghost prev = chains@[ci as int].certificates@;
                            chains[ci].certificates.push(dup);
                            proof {
                                let certs = chains@[ci as int].certificates@;
                                let mi0 = matching_cert_indices(files.take(i as int), m);
                                let mi1 = matching_cert_indices(files.take(i as int + 1), m);
                                assert(certs == prev.push(dup));
                                assert(mi1 == mi0.push(i as int));
                                assert forall|k: int|
                                    0 <= k < mi1.len() implies 0 <= mi1[k] < files.len()
                                    && clean_cert_of_file(
                                    #[trigger] certs[k],
                                    files[mi1[k]].path@,
                                    files[mi1[k]].contents@,
                                ) by {
                                    if k < prev.len() {
                                        assert(certs[k] == prev[k]);
                                        assert(mi1[k] == mi0[k]);
                                    } else {
                                        assert(certs[k] == dup);
                                        assert(mi1[k] == i as int);
                                    }
                                }
                            }
                        } else {
                            proof {
                                assert(matching_cert_indices(files.take(i as int + 1), m)
                                    == matching_cert_indices(files.take(i as int), m));
                            }
                        }
                    },
                    _ => {
                        proof {
                            assert(!is_certificate_file(files[i as int].contents@));
                            assert(matching_cert_indices(files.take(i as int + 1), m)
                                == matching_cert_indices(files.take(i as int), m));
                        }
                    },
                }
                i += 1;
            }
            proof {
                assert(files.take(m_len as int) =~= files);
                lemma_matching_cert_indices_bounds(files, m);
                assert(certificates_clean_ok(chains@[ci as int].certificates@, files, m));
            }
        }
        proof {
            let oc = old(chains)@[ci as int];
            match oc.key {
                Some(key) => {
                    assert(certificates_clean_ok(
                        chains@[ci as int].certificates@,
                        files,
                        key.modulus@,
                    ));
                },
                None => {
                    assert(chains@[ci as int].certificates@.len() == 0);
                },
            }
        }
        ci += 1;
    }
}

/// Every certificate file, in file order, still without resolved
/// lineage: the pool of candidate issuers.
pub open spec fn pool_matches(files: Seq<SourceFile>, pool: Seq<CertificateFile>) -> bool {
    let ci = cert_indices(files);
    &&& pool.len() == ci.len()
    &&& forall|k: int| #![trigger pool[k]]
        0 <= k < ci.len() ==> 0 <= ci[k] < files.len() && clean_cert_of_file(
            pool[k],
            files[ci[k]].path@,
            files[ci[k]].contents@,
        )
}

/// Collects every certificate among the artifacts, including ones not
/// associated with any chain: a certificate can be a pure intermediate
/// or root with no corresponding private key.
#[verifier::loop_isolation(false)]
fn find_certificates(artifacts: &Vec<Artifact>, Ghost(files): Ghost<Seq<SourceFile>>) -> (r: Vec<
    CertificateFile,
>)
    requires
        artifacts_of(files, artifacts@),
    ensures
        pool_matches(files, r@),
{
    let mut r: Vec<CertificateFile> = Vec::new();
    let n = artifacts.len();
    let mut i: usize = 0;
    while i < n
        invariant
            n == artifacts@.len(),
            n == files.len(),
            i <= n,
            artifacts_of(files, artifacts@),
            r@.len() == cert_indices(files.take(i as int)).len(),
            forall|k: int| #![trigger r@[k]]
                0 <= k < cert_indices(files.take(i as int)).len() ==> 0 <= cert_indices(
                    files.take(i as int),
                )[k] < files.len() && clean_cert_of_file(
                    r@[k],
                    files[cert_indices(files.take(i as int))[k]].path@,
                    files[cert_indices(files.take(i as int))[k]].contents@,
                ),
        decreases n - i,
    {
        proof {
            assert(files.take(i as int + 1).drop_last() =~= files.take(i as int));
            assert(files.take(i as int + 1).last() == files[i as int]);
            lemma_cert_indices_bounds(files.take(i as int + 1));
            assert(classified(
                files[i as int].path@,
                files[i as int].contents@,
                artifacts@[i as int],
            ));
        }
        match &artifacts[i] {
            Artifact::Certificate(c) => {
                proof {
                    assert(is_certificate_file(files[i as int].contents@));
                    assert(cert_indices(files.take(i as int + 1)) == cert_indices(
                        files.take(i as int),
                    ).push(i as int));
                }
                let dup = c.duplicate();
                proof {
                    assert(cert_eq(dup, *c));
                    assert(clean_cert_of_file(
                        dup,
                        files[i as int].path@,
                        files[i as int].contents@,
                    ));
                }
                let ghost prev = r@;
                r.push(dup);
                proof {
                    let ci0 = cert_indices(files.take(i as int));
                    let ci1 = cert_indices(files.take(i as int + 1));
                    assert(r@ == prev.push(dup));
                    assert(ci1 == ci0.push(i as int));
                    assert forall|k: int|
                        0 <= k < ci1.len() implies 0 <= ci1[k] < files.len()
                        && clean_cert_of_file(
                        #[trigger] r@[k],
                        files[ci1[k]].path@,
                        files[ci1[k]].contents@,
                    ) by {
                        if k < prev.len() {
                            assert(r@[k] == prev[k]);
                            assert(ci1[k] == ci0[k]);
                        } else {
                            assert(r@[k] == dup);
                            assert(ci1[k] == i as int);
                        }
                    }
                }
            },
            _ => {
                proof {
                    assert(!is_certificate_file(files[i as int].contents@));
                    assert(cert_indices(files.take(i as int + 1)) == cert_indices(
                        files.take(i as int),
                    ));
                }
            },
        }
        i += 1;
    }
    proof {
        assert(files.take(n as int) =~= files);
        lemma_cert_indices_bounds(files);
        assert(pool_matches(files, r@));
    }
    r
}

/// A pool built from the input files presents exactly the candidates
/// that the files themselves present.
proof fn lemma_candidates_from_pool(files: Seq<SourceFile>, pool: Seq<CertificateFile>)
    requires
        pool_matches(files, pool),
    ensures
        candidates_of(pool) == file_candidates(files),
{
    let a = candidates_of(pool);
    let b = file_candidates(files);
    let ci = cert_indices(files);
    assert forall|k: int| 0 <= k < a.len() implies a[k] == b[k] by {
        assert(clean_cert_of_file(pool[k], files[ci[k]].path@, files[ci[k]].contents@));
        assert(a[k] == Candidate { pem: pool[k].pem@, signature: pool[k].signature@ });
        assert(b[k] == Candidate {
            pem: files[ci[k]].contents@,
            signature: cert_signature(files[ci[k]].contents@),
        });
    }
    assert(a =~= b);
}

/// A lineage that matches the walk outcome over a pool built from the
/// files matches it read directly off the files.
proof fn lemma_lineage_from_pool(
    chain: Option<Box<CertificateFile>>,
    idxs: Seq<int>,
    tail_self_signed: bool,
    files: Seq<SourceFile>,
    pool: Seq<CertificateFile>,
)
    requires
        pool_matches(files, pool),
        chain_matches(chain, idxs, tail_self_signed, pool),
    ensures
        lineage_ok(chain, idxs, tail_self_signed, files),
{
    let l = chain_seq(chain);
    let ci = cert_indices(files);
    assert forall|k: int| #![trigger idxs[k]]
        0 <= k < idxs.len() implies 0 <= idxs[k] < ci.len() && 0 <= ci[idxs[k]] < files.len()
        && cert_core_of_file(l[k], files[ci[idxs[k]]].path@, files[ci[idxs[k]]].contents@) by {
        assert(same_core(l[k], pool[idxs[k]]));
        assert(clean_cert_of_file(pool[idxs[k]], files[ci[idxs[k]]].path@, files[ci[idxs[k]]].contents@));
    }
}

/// Resolves and attaches the signing-certificate lineage of every
/// certificate of every chain, against the full pool of certificates
/// found among the input files.
#[verifier::loop_isolation(false)]
fn attach_signing_certificates(
    chains: &mut Vec<Chain>,
    certificates: &Vec<CertificateFile>,
    Ghost(files): Ghost<Seq<SourceFile>>,
)
    requires
        pool_matches(files, certificates@),
        forall|k: int| #![trigger old(chains)@[k]]
            0 <= k < old(chains)@.len() ==> match old(chains)@[k].key {
                Some(key) => certificates_clean_ok(old(chains)@[k].certificates@, files, key.modulus@),
                None => old(chains)@[k].certificates@.len() == 0,
            },
    ensures
        final(chains)@.len() == old(chains)@.len(),
        forall|k: int| #![trigger final(chains)@[k]]
            0 <= k < old(chains)@.len() ==> {
                let oc = old(chains)@[k];
                let nc = final(chains)@[k];
                &&& nc.key == oc.key
                &&& nc.name == oc.name
                &&& nc.request == oc.request
                &&& match oc.key {
                    Some(key) => certificates_resolved_ok(nc.certificates@, files, key.modulus@),
                    None => nc.certificates@.len() == 0,
                }
            },
{
    proof {
        lemma_candidates_from_pool(files, certificates@);
    }
    let n = chains.len();
    let mut ci: usize = 0;
    while ci < n
        invariant
            n == chains@.len(),
            ci <= n,
            forall|k: int| #![trigger chains@[k]] ci <= k < n ==> chains@[k] == old(chains)@[k],
            forall|k: int| #![trigger chains@[k]]
                0 <= k < ci ==> {
                    let oc = old(chains)@[k];
                    let nc = chains@[k];
                    &&& nc.key == oc.key
                    &&& nc.name == oc.name
                    &&& nc.request == oc.request
                    &&& match oc.key {
                        Some(key) => certificates_resolved_ok(
                            nc.certificates@,
                            files,
                            key.modulus@,
                        ),
                        None => nc.certificates@.len() == 0,
                    }
                },
        decreases n - ci,
    {
        let ghost m = match chains@[ci as int].key {
            Some(key) => key.modulus@,
            None => Seq::empty(),
        };
        let ghost mi = matching_cert_indices(files, m);
        proof {
            assert(chains@[ci as int] == old(chains)@[ci as int]);
            let oc = old(chains)@[ci as int];
            match oc.key {
                Some(key) => {
                    assert(certificates_clean_ok(oc.certificates@, files, key.modulus@));
                    lemma_matching_cert_indices_bounds(files, key.modulus@);
                    assert forall|k: int| #![trigger chains@[ci as int].certificates@[k]]
                        0 <= k < mi.len() implies 0 <= mi[k] < files.len() && clean_cert_of_file(
                        chains@[ci as int].certificates@[k],
                        files[mi[k]].path@,
                        files[mi[k]].contents@,
                    ) by {
                        assert(oc.certificates@[k] == chains@[ci as int].certificates@[k]);
                    }
                },
                None => {},
            }
        }
        if chains[ci].key.is_some() {
        let c_len = chains[ci].certificates.len();
        let mut j: usize = 0;
        while j < c_len
            invariant
                n == chains@.len(),
                ci < n,
                c_len == chains@[ci as int].certificates@.len(),
                j <= c_len,
                forall|k: int| #![trigger chains@[k]]
                    ci < k < n ==> chains@[k] == old(chains)@[k],
                forall|k: int| #![trigger chains@[k]]
                    0 <= k < ci ==> {
                        let oc = old(chains)@[k];
                        let nc = chains@[k];
                        &&& nc.key == oc.key
                        &&& nc.name == oc.name
                        &&& nc.request == oc.request
                        &&& match oc.key {
                            Some(key) => certificates_resolved_ok(
                                nc.certificates@,
                                files,
                                key.modulus@,
                            ),
                            None => nc.certificates@.len() == 0,
                        }
                    },
                chains@[ci as int].key == old(chains)@[ci as int].key,
                chains@[ci as int].name == old(chains)@[ci as int].name,
                chains@[ci as int].request == old(chains)@[ci as int].request,
                old(chains)@[ci as int].key matches Some(key) && m == key.modulus@,
                mi == matching_cert_indices(files, m),
                c_len == mi.len(),
                forall|k: int| #![trigger mi[k]] 0 <= k < c_len ==> 0 <= mi[k] < files.len(),
                forall|k: int| #![trigger chains@[ci as int].certificates@[k]]
                    j <= k < c_len ==> clean_cert_of_file(
                        chains@[ci as int].certificates@[k],
                        files[mi[k]].path@,
                        files[mi[k]].contents@,
                    ),
                forall|k: int| #![trigger chains@[ci as int].certificates@[k]]
                    0 <= k < j ==> attached_cert_ok(
                        chains@[ci as int].certificates@[k],
                        files,
                        mi[k],
                    ),
            decreases c_len - j,
        {
            let ghost pres = chains@[ci as int].certificates@;
            let ghost pre = chains@[ci as int].certificates@[j as int];
            proof {
                assert(clean_cert_of_file(pre, files[mi[j as int]].path@, files[mi[j as int]].contents@));
            }
            attach_signing_certificate_chain(&mut chains[ci].certificates[j], certificates);
            proof {
                let post = chains@[ci as int].certificates@[j as int];
                let fi = mi[j as int];
                let res = spec_resolve(
                    files[fi].contents@,
                    cert_signature(files[fi].contents@),
                    file_candidates(files),
                    Set::empty(),
                );
                assert(pre.pem@ == files[fi].contents@);
                assert(pre.signature@ == cert_signature(files[fi].contents@));
                assert(candidates_of(certificates@) == file_candidates(files));
                assert(same_core(post, pre));
                assert(cert_core_of_file(post, files[fi].path@, files[fi].contents@));
                assert(chain_matches(post.signing_certificate, res.0, res.1, certificates@));
                lemma_lineage_from_pool(
                    post.signing_certificate,
                    res.0,
                    res.1,
                    files,
                    certificates@,
                );
                assert(attached_cert_ok(post, files, fi));
                let certs = chains@[ci as int].certificates@;
                assert forall|k: int| #![trigger certs[k]]
                    j + 1 <= k < c_len implies clean_cert_of_file(
                    certs[k],
                    files[mi[k]].path@,
                    files[mi[k]].contents@,
                ) by {
                    assert(certs[k] == pres[k]);
                }
                assert forall|k: int| #![trigger certs[k]]
                    0 <= k < j + 1 implies attached_cert_ok(certs[k], files, mi[k]) by {
                    if k < j {
                        assert(certs[k] == pres[k]);
                    }
                }
            }
            j += 1;
        }
        }
        proof {
            let oc = old(chains)@[ci as int];
            match oc.key {
                Some(key) => {
                    assert(certificates_resolved_ok(
                        chains@[ci as int].certificates@,
                        files,
                        key.modulus@,
                    ));
                },
                None => {
                    assert(chains@[ci as int].certificates@.len() == 0);
                },
            }
        }
        ci += 1;
    }
}

/// Builds the chains from the input files: classify every file once,
/// create one chain per private key, attach the first matching request
/// and all matching certificates to each, and resolve every attached
/// certificate's issuer lineage against the full certificate pool.
pub fn build(files: Vec<SourceFile>) -> (r: Result<Vec<Chain>, String>)
    ensures
        r matches Ok(chains) && chains_ok(files@, chains@),
{
    let artifacts = classify_all(&files);
    let mut chains: Vec<Chain> = Vec::new();
    initialize(&mut chains, &artifacts, Ghost(files@));
    let ghost s1 = chains@;
    attach_certificate_signing_requests(&mut chains, &artifacts, Ghost(files@));
    let ghost s2 = chains@;
    attach_certificates(&mut chains, &artifacts, Ghost(files@));
    let ghost s3 = chains@;
    let certificates = find_certificates(&artifacts, Ghost(files@));
    attach_signing_certificates(&mut chains, &certificates, Ghost(files@));
    proof {
        let ki = key_indices(files@);
        lemma_key_indices_bounds(files@);
        assert forall|k: int| #![trigger chains@[k]]
            0 <= k < ki.len() implies 0 <= ki[k] < files@.len() && chain_ok(
            files@,
            ki[k],
            chains@[k],
        ) by {
            let after_initialize = s1[k];
            let after_requests = s2[k];
            let after_certificates = s3[k];
            let key = match after_initialize.key {
                Some(key) => key,
                None => arbitrary(),
            };
            assert(key_file_ok(key, files@, ki[k]));
            assert(key.modulus@ == key_modulus(files@[ki[k]].contents@));
        }
        assert(chains_ok(files@, chains@));
    }
    Ok(chains)
}

/// Structural equality of optional private keys, by content.
pub open spec fn key_slot_eq(a: Option<PrivateKeyFile>, b: Option<PrivateKeyFile>) -> bool {
    match (a, b) {
        (Option::None, Option::None) => true,
        (Option::Some(x), Option::Some(y)) => x.path@ == y.path@ && x.modulus@ == y.modulus@,
        _ => false,
    }
}

/// Structural equality of optional requests, by content.
pub open spec fn request_slot_eq(
    a: Option<CertificateRequestFile>,
    b: Option<CertificateRequestFile>,
) -> bool {
    match (a, b) {
        (Option::None, Option::None) => true,
        (Option::Some(x), Option::Some(y)) => x.path@ == y.path@ && x.modulus@ == y.modulus@
            && opt_string_view(x.subject_common_name) == opt_string_view(y.subject_common_name),
        _ => false,
    }
}

/// Structural equality of optional issuer links, lineage included.
pub open spec fn issuer_link_eq(
    a: Option<Box<CertificateFile>>,
    b: Option<Box<CertificateFile>>,
) -> bool {
    match (a, b) {
        (Option::None, Option::None) => true,
        (Option::Some(x), Option::Some(y)) => cert_eq(*x, *y),
        _ => false,
    }
}

/// Structural equality of chains, by content.
pub open spec fn chain_equiv(a: Chain, b: Chain) -> bool {
    &&& opt_string_view(a.name) == opt_string_view(b.name)
    &&& key_slot_eq(a.key, b.key)
    &&& request_slot_eq(a.request, b.request)
    &&& a.certificates@.len() == b.certificates@.len()
    &&& forall|j: int|
        0 <= j < a.certificates@.len() ==> cert_eq(
            #[trigger] a.certificates@[j],
            b.certificates@[j],
        )
}

/// Structural equality of chain collections, by content.
pub open spec fn chains_equiv(a: Seq<Chain>, b: Seq<Chain>) -> bool {
    &&& a.len() == b.len()
    &&& forall|k: int| 0 <= k < a.len() ==> chain_equiv(#[trigger] a[k], b[k])
}

/// Two lineages that match the same walk outcome over the same files are
/// structurally equal.
proof fn lemma_lineage_deterministic(
    a: Option<Box<CertificateFile>>,
    b: Option<Box<CertificateFile>>,
    idxs: Seq<int>,
    tail_self_signed: bool,
    files: Seq<SourceFile>,
)
    requires
        lineage_ok(a, idxs, tail_self_signed, files),
        lineage_ok(b, idxs, tail_self_signed, files),
    ensures
        issuer_link_eq(a, b),
    decreases idxs.len(),
{
    let la = chain_seq(a);
    let lb = chain_seq(b);
    if idxs.len() == 0 {
        match a {
            Option::Some(x) => {
                assert(la.len() >= 1);
            },
            Option::None => {},
        }
        match b {
            Option::Some(y) => {
                assert(lb.len() >= 1);
            },
            Option::None => {},
        }
    } else {
        let x = a->Some_0;
        let y = b->Some_0;
        assert(a is Some && b is Some) by {
            match a {
                Option::None => {
                    assert(la.len() == 0);
                },
                Option::Some(_) => {},
            }
            match b {
                Option::None => {
                    assert(lb.len() == 0);
                },
                Option::Some(_) => {},
            }
        }
        assert(la == seq![*x] + chain_seq(x.signing_certificate));
        assert(lb == seq![*y] + chain_seq(y.signing_certificate));
        assert(la[0] == *x && lb[0] == *y);
        assert(idxs[0] == idxs[0]);
        let rest = idxs.skip(1);
        assert forall|k: int| #![trigger rest[k]]
            0 <= k < rest.len() implies 0 <= rest[k] < cert_indices(files).len() && 0
            <= cert_indices(files)[rest[k]] < files.len() && cert_core_of_file(
            chain_seq(x.signing_certificate)[k],
            files[cert_indices(files)[rest[k]]].path@,
            files[cert_indices(files)[rest[k]]].contents@,
        ) && cert_core_of_file(
            chain_seq(y.signing_certificate)[k],
            files[cert_indices(files)[rest[k]]].path@,
            files[cert_indices(files)[rest[k]]].contents@,
        ) by {
            assert(rest[k] == idxs[k + 1]);
            assert(chain_seq(x.signing_certificate)[k] == la[k + 1]);
            assert(chain_seq(y.signing_certificate)[k] == lb[k + 1]);
        }
        assert forall|k: int| #![trigger chain_seq(x.signing_certificate)[k].self_signed]
            0 <= k < rest.len() implies (chain_seq(x.signing_certificate)[k].self_signed <==> (k
            == rest.len() - 1 && tail_self_signed)) by {
            assert(chain_seq(x.signing_certificate)[k] == la[k + 1]);
        }
        assert forall|k: int| #![trigger chain_seq(y.signing_certificate)[k].self_signed]
            0 <= k < rest.len() implies (chain_seq(y.signing_certificate)[k].self_signed <==> (k
            == rest.len() - 1 && tail_self_signed)) by {
            assert(chain_seq(y.signing_certificate)[k] == lb[k + 1]);
        }
        assert(lineage_ok(x.signing_certificate, rest, tail_self_signed, files));
        assert(lineage_ok(y.signing_certificate, rest, tail_self_signed, files));
        lemma_lineage_deterministic(
            x.signing_certificate,
            y.signing_certificate,
            rest,
            tail_self_signed,
            files,
        );
        assert(cert_core_of_file(*x, files[cert_indices(files)[idxs[0]]].path@, files[cert_indices(
            files,
        )[idxs[0]]].contents@));
        assert(same_core(*x, *y));
        assert(x.self_signed == y.self_signed);
        assert(cert_eq(*x, *y));
    }
}

/// Chain construction is a function of the input files alone: any two
/// chain collections that the builder’s contract admits for the same
/// file list are structurally equal, so running the builder twice on
/// identical input produces equal results.
pub proof fn lemma_build_deterministic(files: Seq<SourceFile>, a: Seq<Chain>, b: Seq<Chain>)
    requires
        chains_ok(files, a),
        chains_ok(files, b),
    ensures
        chains_equiv(a, b),
{
    let ki = key_indices(files);
    assert forall|k: int| 0 <= k < a.len() implies chain_equiv(#[trigger] a[k], b[k]) by {
        assert(chain_ok(files, ki[k], a[k]));
        assert(chain_ok(files, ki[k], b[k]));
        let m = key_modulus(files[ki[k]].contents@);
        let mi = matching_cert_indices(files, m);
        assert forall|j: int|
            0 <= j < a[k].certificates@.len() implies cert_eq(
            #[trigger] a[k].certificates@[j],
            b[k].certificates@[j],
        ) by {
            assert(attached_cert_ok(a[k].certificates@[j], files, mi[j]));
            assert(attached_cert_ok(b[k].certificates@[j], files, mi[j]));
            let res = spec_resolve(
                files[mi[j]].contents@,
                cert_signature(files[mi[j]].contents@),
                file_candidates(files),
                Set::empty(),
            );
            lemma_lineage_deterministic(
                a[k].certificates@[j].signing_certificate,
                b[k].certificates@[j].signing_certificate,
                res.0,
                res.1,
                files,
            );
            assert(same_core(a[k].certificates@[j], b[k].certificates@[j]));
        }
    }
}

} // verus!
