//! Issuer resolution: given a certificate and a pool of candidate
//! certificates, find the certificate that issued it, or determine that it
//! is self-signed or that no issuer is known, and chase that relation all
//! the way to a root.  Candidates are scanned in pool order and the first
//! one whose key verifies the signature wins; a visited set guards the
//! walk against mutually-verifying certificate pairs, so resolution
//! terminates even on malformed inputs while behaving identically on
//! acyclic ones.

use vstd::prelude::*;

use vstd::set_lib::{lemma_int_range, lemma_len_subset, set_int_range};

use crate::artifact::{
    bytes_equal, chain_seq, copy_bytes, copy_opt_string, copy_opt_strings, same_core,
    CertificateFile,
};
use crate::pem::{pem_encryption_marked, verifies, verify_signature};

verus! {

/// The index of the first candidate at or after `i` whose public key
/// verifies the signature on the certificate encoded by `pem`.
pub open spec fn first_verifier_from(pem: Seq<char>, pool: Seq<Candidate>, i: int) -> Option<
    int,
>
    decreases pool.len() - i,
    when 0 <= i <= pool.len()
{
    if i == pool.len() {
        None
    } else if verifies(pem, pool[i].pem) {
        Some(i)
    } else {
        first_verifier_from(pem, pool, i + 1)
    }
}

/// The index of the first candidate in the pool whose public key verifies
/// the signature on the certificate encoded by `pem`.
pub open spec fn first_verifier(pem: Seq<char>, pool: Seq<Candidate>) -> Option<int> {
    first_verifier_from(pem, pool, 0)
}

/// The set of valid indices into a pool of the given length.
pub open spec fn pool_indices(n: int) -> Set<int> {
    set_int_range(0, n)
}

/// A candidate issuer as resolution sees it: the text of its certificate
/// file and its raw signature bytes.  Resolution is a function of these
/// views alone, which is what makes chain construction deterministic.
pub struct Candidate {
    pub pem: Seq<char>,
    pub signature: Seq<u8>,
}

/// The candidates that a pool of certificates presents to resolution.
pub open spec fn candidates_of(pool: Seq<CertificateFile>) -> Seq<Candidate> {
    pool.map_values(|c: CertificateFile| Candidate { pem: c.pem@, signature: c.signature@ })
}

/// What the first verifying candidate looks like.
pub proof fn lemma_first_verifier_from(pem: Seq<char>, pool: Seq<Candidate>, i: int)
    requires
        0 <= i <= pool.len(),
    ensures
        match first_verifier_from(pem, pool, i) {
            Some(j) => i <= j < pool.len() && verifies(pem, pool[j].pem) && forall|k: int|
                i <= k < j ==> !verifies(pem, (#[trigger] pool[k]).pem),
            None => forall|k: int| i <= k < pool.len() ==> !verifies(pem, (#[trigger] pool[k]).pem),
        },
    decreases pool.len() - i,
{
    if i < pool.len() && !verifies(pem, pool[i].pem) {
        lemma_first_verifier_from(pem, pool, i + 1);
    }
}

/// The outcome of the issuer walk started at a certificate with the given
/// text and signature: the pool indices of its issuer lineage, nearest
/// issuer first, and whether the last certificate reached (the one
/// started from, when the lineage is empty) is self-signed.  The walk
/// stops at the first candidate whose signature bytes equal the current
/// certificate's (self-signed), when no candidate verifies the current
/// certificate, or when the first verifying candidate was already
/// visited (a cycle).
pub open spec fn spec_resolve(
    pem: Seq<char>,
    signature: Seq<u8>,
    pool: Seq<Candidate>,
    visited: Set<int>,
) -> (Seq<int>, bool)
    decreases pool.len() - visited.len(),
    when visited.finite() && visited.subset_of(pool_indices(pool.len() as int))
    via check_resolve_decreases
{
    match first_verifier(pem, pool) {
        None => (Seq::empty(), false),
        Some(j) => {
            if pool[j].signature == signature {
                (Seq::empty(), true)
            } else if visited.contains(j) {
                (Seq::empty(), false)
            } else {
                let rest = spec_resolve(pool[j].pem, pool[j].signature, pool, visited.insert(j));
                (seq![j] + rest.0, rest.1)
            }
        },
    }
}

#[via_fn]
proof fn check_resolve_decreases(
    pem: Seq<char>,
    signature: Seq<u8>,
    pool: Seq<Candidate>,
    visited: Set<int>,
) {
    lemma_int_range(0, pool.len() as int);
    lemma_len_subset(visited, pool_indices(pool.len() as int));
    lemma_first_verifier_from(pem, pool, 0);
    match first_verifier(pem, pool) {
        None => {},
        Some(j) => {
            if pool[j].signature != signature && !visited.contains(j) {
                assert(pool_indices(pool.len() as int).contains(j));
                lemma_len_subset(visited.insert(j), pool_indices(pool.len() as int));
            }
        },
    }
}

/// The built lineage `chain` matches the walk outcome `(idxs, tail_self_signed)`
/// over the pool: one record per index, carrying that candidate's data,
/// linked in order, with only the last record possibly marked self-signed.
pub open spec fn chain_matches(
    chain: Option<Box<CertificateFile>>,
    idxs: Seq<int>,
    tail_self_signed: bool,
    pool: Seq<CertificateFile>,
) -> bool {
    let l = chain_seq(chain);
    &&& l.len() == idxs.len()
    &&& forall|k: int| #![trigger idxs[k]]
        0 <= k < idxs.len() ==> 0 <= idxs[k] < pool.len() && same_core(l[k], pool[idxs[k]])
    &&& forall|k: int| #![trigger l[k].self_signed]
        0 <= k < idxs.len() ==> (l[k].self_signed <==> (k == idxs.len() - 1 && tail_self_signed))
}

/// The view of the visited indices.
pub open spec fn visited_view(v: Seq<usize>) -> Set<int> {
    v.map_values(|x: usize| x as int).to_set()
}

proof fn lemma_visited_push(v: Seq<usize>, j: usize)
    ensures
        visited_view(v.push(j)) == visited_view(v).insert(j as int),
{
    let m1 = v.push(j).map_values(|x: usize| x as int);
    let m2 = v.map_values(|x: usize| x as int);
    assert(m1 =~= m2.push(j as int));
    assert forall|a: int| m1.contains(a) implies m2.contains(a) || a == j as int by {
        let i = choose|i: int| 0 <= i < m1.len() && m1[i] == a;
        if i < m2.len() {
            assert(m2[i] == a);
        }
    }
    assert forall|a: int| m2.contains(a) implies m1.contains(a) by {
        let i = choose|i: int| 0 <= i < m2.len() && m2[i] == a;
        assert(m1[i] == a);
    }
    assert(m1.contains(j as int)) by {
        assert(m1[m1.len() - 1] == j as int);
    }
    assert(visited_view(v.push(j)) =~= visited_view(v).insert(j as int));
}

proof fn lemma_visited_bounds(v: Seq<usize>, n: int)
    requires
        v.no_duplicates(),
        forall|k: int| 0 <= k < v.len() ==> (#[trigger] v[k]) < n,
    ensures
        visited_view(v).finite(),
        visited_view(v).len() == v.len(),
        visited_view(v).subset_of(pool_indices(n)),
{
    let m = v.map_values(|x: usize| x as int);
    assert(m.no_duplicates()) by {
        assert forall|i: int, j: int|
            0 <= i < m.len() && 0 <= j < m.len() && i != j implies m[i] != m[j] by {
            assert(v[i] != v[j]);
        }
    }
    m.unique_seq_to_set();
    assert forall|a: int| m.to_set().contains(a) implies pool_indices(n).contains(a) by {
        let i = choose|i: int| 0 <= i < m.len() && m[i] == a;
        assert(v[i] < n);
    }
}

/// Whether `j` is among the visited indices.
fn visited_contains(visited: &Vec<usize>, j: usize) -> (r: bool)
    ensures
        r == visited_view(visited@).contains(j as int),
{
    let ghost m = visited@.map_values(|x: usize| x as int);
    let n = visited.len();
    let mut i: usize = 0;
    while i < n
        invariant
            n == visited@.len(),
            i <= n,
            m == visited@.map_values(|x: usize| x as int),
            forall|k: int| 0 <= k < i ==> (#[trigger] visited@[k]) != j,
        decreases n - i,
    {
        if visited[i] == j {
            proof {
                assert(m[i as int] == j as int);
            }
            return true;
        }
        i += 1;
    }
    proof {
        assert forall|k: int| 0 <= k < m.len() implies m[k] != j as int by {
            assert(visited@[k] != j);
        }
        assert(!m.contains(j as int));
    }
    false
}

/// The index of the first candidate in the pool whose public key verifies
/// the signature on the certificate encoded by `pem`.
fn find_first_verifier(pem: &String, pool: &Vec<CertificateFile>) -> (r: Option<usize>)
    requires
        !pem_encryption_marked(pem@),
        forall|k: int|
            0 <= k < pool@.len() ==> !pem_encryption_marked((#[trigger] pool@[k]).pem@),
    ensures
        match r {
            Some(j) => j < pool@.len() && first_verifier(pem@, candidates_of(pool@)) == Some(
                j as int,
            ),
            None => first_verifier(pem@, candidates_of(pool@)) is None,
        },
{
    let ghost cands = candidates_of(pool@);
    let n = pool.len();
    let mut i: usize = 0;
    while i < n
        invariant
            n == pool@.len(),
            i <= n,
            cands == candidates_of(pool@),
            !pem_encryption_marked(pem@),
            forall|k: int|
                0 <= k < pool@.len() ==> !pem_encryption_marked((#[trigger] pool@[k]).pem@),
            first_verifier(pem@, cands) == first_verifier_from(pem@, cands, i as int),
        decreases n - i,
    {
        proof {
            assert(cands[i as int].pem == pool@[i as int].pem@);
            assert(!pem_encryption_marked(pool@[i as int].pem@));
        }
        if verify_signature(pem.as_str(), pool[i].pem.as_str()) {
            proof {
                assert(first_verifier_from(pem@, cands, i as int) == Some(i as int));
            }
            return Some(i);
        }
        proof {
            assert(first_verifier_from(pem@, cands, i as int) == first_verifier_from(
                pem@,
                cands,
                i as int + 1,
            ));
        }
        i += 1;
    }
    proof {
        assert(first_verifier_from(pem@, cands, n as int) is None);
    }
    None
}

/// Runs the issuer walk from a certificate with the given text and
/// signature, and builds the owned issuer lineage it found, together with
/// whether the starting certificate itself is self-signed.
fn resolve_from(
    pem: &String,
    signature: &Vec<u8>,
    pool: &Vec<CertificateFile>,
    visited: Vec<usize>,
) -> (r: (Option<Box<CertificateFile>>, bool))
    requires
        visited@.no_duplicates(),
        forall|k: int| 0 <= k < visited@.len() ==> (#[trigger] visited@[k]) < pool@.len(),
        !pem_encryption_marked(pem@),
        forall|k: int|
            0 <= k < pool@.len() ==> !pem_encryption_marked((#[trigger] pool@[k]).pem@),
    ensures
        ({
            let res = spec_resolve(pem@, signature@, candidates_of(pool@), visited_view(visited@));
            &&& r.1 == (res.0.len() == 0 && res.1)
            &&& chain_matches(r.0, res.0, res.1, pool@)
        }),
    decreases pool@.len() - visited@.len(),
{
    proof {
        lemma_visited_bounds(visited@, pool@.len() as int);
    }
    let ghost cands = candidates_of(pool@);
    let ghost vs = visited_view(visited@);
    match find_first_verifier(pem, pool) {
        None => {
            proof {
                assert(spec_resolve(pem@, signature@, cands, vs) == (Seq::<int>::empty(), false));
            }
            (None, false)
        },
        Some(j) => {
            proof {
                assert(cands[j as int].pem == pool@[j as int].pem@);
                assert(cands[j as int].signature == pool@[j as int].signature@);
            }
            if bytes_equal(&pool[j].signature, signature) {
                proof {
                    assert(spec_resolve(pem@, signature@, cands, vs) == (Seq::<int>::empty(), true));
                }
                (None, true)
            } else if visited_contains(&visited, j) {
                proof {
                    assert(spec_resolve(pem@, signature@, cands, vs) == (
                        Seq::<int>::empty(),
                        false,
                    ));
                }
                (None, false)
            } else {
                let ghost res = spec_resolve(pem@, signature@, cands, vs);
                let ghost pre = visited@;
                let mut visited2 = visited;
                visited2.push(j);
                proof {
                    lemma_visited_push(pre, j);
                    assert forall|k: int| 0 <= k < pre.len() implies (#[trigger] pre[k]) != j by {
                        if pre[k] == j {
                            assert(pre.map_values(|x: usize| x as int)[k] == j as int);
                            assert(visited_view(pre).contains(j as int));
                        }
                    }
                    assert(visited2@ == pre.push(j));
                    assert forall|a: int, b: int|
                        0 <= a < b < visited2@.len() implies visited2@[a] != visited2@[b] by {
                        if b == pre.len() as int {
                            assert(visited2@[a] == pre[a]);
                            assert(visited2@[b] == j);
                        } else {
                            assert(visited2@[a] == pre[a]);
                            assert(visited2@[b] == pre[b]);
                        }
                    }
                    assert(visited2@.no_duplicates());
                    assert forall|k: int|
                        0 <= k < visited2@.len() implies (#[trigger] visited2@[k])
                        < pool@.len() by {
                        if k < pre.len() as int {
                            assert(visited2@[k] == pre[k]);
                        } else {
                            assert(visited2@[k] == j);
                        }
                    }
                    lemma_visited_bounds(visited2@, pool@.len() as int);
                    lemma_int_range(0, pool@.len() as int);
                    lemma_len_subset(visited_view(visited2@), pool_indices(pool@.len() as int));
                }
                let (sub, sub_self_signed) = resolve_from(
                    &pool[j].pem,
                    &pool[j].signature,
                    pool,
                    visited2,
                );
                let ghost sub_res = spec_resolve(
                    pool@[j as int].pem@,
                    pool@[j as int].signature@,
                    cands,
                    vs.insert(j as int),
                );
                proof {
                    assert(res == (seq![j as int] + sub_res.0, sub_res.1));
                }
                let node = CertificateFile {
                    path: pool[j].path.clone(),
                    pem: pool[j].pem.clone(),
                    modulus: copy_bytes(&pool[j].modulus),
                    signature: copy_bytes(&pool[j].signature),
                    subject_common_name: copy_opt_string(&pool[j].subject_common_name),
                    subject_alt_name_entries: copy_opt_strings(&pool[j].subject_alt_name_entries),
                    signing_certificate: sub,
                    self_signed: sub_self_signed,
                };
                let boxed = Box::new(node);
                proof {
                    assert(chain_seq(Some(boxed)) == seq![*boxed] + chain_seq(
                        boxed.signing_certificate,
                    ));
                    assert(same_core(*boxed, pool@[j as int]));
                    assert forall|k: int| #![trigger res.0[k]] 0 <= k < res.0.len() implies 0 <= res.0[k]
                        < pool@.len() && same_core(chain_seq(Some(boxed))[k], pool@[res.0[k]]) by {
                        if k == 0 {
                            assert(chain_seq(Some(boxed))[0] == *boxed);
                            assert(res.0[0] == j as int);
                        } else {
                            assert(chain_seq(Some(boxed))[k] == chain_seq(
                                boxed.signing_certificate,
                            )[k - 1]);
                            assert(res.0[k] == sub_res.0[k - 1]);
                        }
                    }
                    assert forall|k: int| #![trigger chain_seq(Some(boxed))[k].self_signed] 0 <= k
                        < res.0.len() implies (chain_seq(
                        Some(boxed),
                    )[k].self_signed <==> (k == res.0.len() - 1 && res.1)) by {
                        if k == 0 {
                            assert(chain_seq(Some(boxed))[0] == *boxed);
                        } else {
                            assert(chain_seq(Some(boxed))[k] == chain_seq(
                                boxed.signing_certificate,
                            )[k - 1]);
                        }
                    }
                    assert(chain_matches(sub, sub_res.0, sub_res.1, pool@));
                    assert(chain_seq(boxed.signing_certificate) == chain_seq(sub));
                    assert(chain_seq(Some(boxed)).len() == 1 + chain_seq(sub).len());
                    assert(res.0.len() == 1 + sub_res.0.len());
                    assert(chain_seq(Some(boxed)).len() == res.0.len());
                    assert(chain_matches(Some(boxed), res.0, res.1, pool@));
                }
                (Some(boxed), false)
            }
        },
    }
}

/// What resolving a certificate against a pool can conclude.
#[derive(Debug, PartialEq)]
pub enum Outcome {
    SelfSigned,
    IssuedBy(CertificateFile),
    Unknown,
}

/// Resolves the issuer of a certificate against a pool of candidates.
/// The certificate is self-signed when the first candidate whose key
/// verifies its signature carries its very signature bytes; otherwise
/// that candidate is its issuer, handed back with its own lineage
/// resolved the same way; and when no candidate verifies the signature,
/// the issuer is unknown.
pub fn resolve_issuer(certificate: &CertificateFile, pool: &Vec<CertificateFile>) -> (r: Outcome)
    requires
        !pem_encryption_marked(certificate.pem@),
        forall|k: int|
            0 <= k < pool@.len() ==> !pem_encryption_marked((#[trigger] pool@[k]).pem@),
    ensures
        ({
            let res = spec_resolve(
                certificate.pem@,
                certificate.signature@,
                candidates_of(pool@),
                Set::empty(),
            );
            match r {
                Outcome::SelfSigned => res.0.len() == 0 && res.1,
                Outcome::Unknown => res.0.len() == 0 && !res.1,
                Outcome::IssuedBy(c) => {
                    &&& res.0.len() > 0
                    &&& 0 <= res.0[0] < pool@.len()
                    &&& same_core(c, pool@[res.0[0]])
                    &&& (c.self_signed <==> (res.0.len() == 1 && res.1))
                    &&& chain_matches(c.signing_certificate, res.0.skip(1), res.1, pool@)
                },
            }
        }),
{
    let visited: Vec<usize> = Vec::new();
    proof {
        assert(visited_view(visited@) =~= Set::<int>::empty());
    }
    let (chain, self_signed) = resolve_from(&certificate.pem, &certificate.signature, pool, visited);
    let ghost res = spec_resolve(
        certificate.pem@,
        certificate.signature@,
        candidates_of(pool@),
        Set::empty(),
    );
    match chain {
        None => {
            if self_signed {
                Outcome::SelfSigned
            } else {
                Outcome::Unknown
            }
        },
        Some(b) => {
            proof {
                assert(chain_seq(Some(b)) == seq![*b] + chain_seq(b.signing_certificate));
                assert(chain_seq(Some(b))[0] == *b);
                assert forall|k: int| #![trigger res.0.skip(1)[k]]
                    0 <= k < res.0.skip(1).len() implies 0 <= res.0.skip(1)[k] < pool@.len()
                    && same_core(chain_seq(b.signing_certificate)[k], pool@[res.0.skip(1)[k]]) by {
                    assert(res.0.skip(1)[k] == res.0[k + 1]);
                    assert(chain_seq(b.signing_certificate)[k] == chain_seq(Some(b))[k + 1]);
                }
                assert forall|k: int| #![trigger chain_seq(b.signing_certificate)[k].self_signed]
                    0 <= k < res.0.skip(1).len() implies (chain_seq(
                    b.signing_certificate,
                )[k].self_signed <==> (k == res.0.skip(1).len() - 1 && res.1)) by {
                    assert(chain_seq(b.signing_certificate)[k] == chain_seq(Some(b))[k + 1]);
                }
                assert(chain_matches(b.signing_certificate, res.0.skip(1), res.1, pool@));
            }
            Outcome::IssuedBy(*b)
        },
    }
}

/// Resolves and attaches the full issuer lineage of a certificate,
/// marking it self-signed instead when its own signature comes back as
/// the first match.  Everything else about the certificate is left as it
/// was.
pub fn attach_signing_certificate_chain(
    certificate: &mut CertificateFile,
    pool: &Vec<CertificateFile>,
)
    requires
        old(certificate).signing_certificate is None,
        !old(certificate).self_signed,
        !pem_encryption_marked(old(certificate).pem@),
        forall|k: int|
            0 <= k < pool@.len() ==> !pem_encryption_marked((#[trigger] pool@[k]).pem@),
    ensures
        ({
            let res = spec_resolve(
                old(certificate).pem@,
                old(certificate).signature@,
                candidates_of(pool@),
                Set::empty(),
            );
            &&& same_core(*final(certificate), *old(certificate))
            &&& (final(certificate).self_signed <==> (res.0.len() == 0 && res.1))
            &&& chain_matches(final(certificate).signing_certificate, res.0, res.1, pool@)
        }),
{
    let visited: Vec<usize> = Vec::new();
    proof {
        assert(visited_view(visited@) =~= Set::<int>::empty());
    }
    let (chain, self_signed) = resolve_from(&certificate.pem, &certificate.signature, pool, visited);
    certificate.signing_certificate = chain;
    certificate.self_signed = self_signed;
}

/// The first verifying candidate, pinned down from a witness: if `pool[j]`
/// verifies the signature and no earlier candidate does, the scan finds `j`.
pub proof fn lemma_first_verifier_is(pem: Seq<char>, pool: Seq<Candidate>, j: int)
    requires
        0 <= j < pool.len(),
        verifies(pem, pool[j].pem),
        forall|k: int| 0 <= k < j ==> !verifies(pem, (#[trigger] pool[k]).pem),
    ensures
        first_verifier(pem, pool) == Some(j),
{
    lemma_first_verifier_from(pem, pool, 0);
    match first_verifier(pem, pool) {
        None => {
            assert(!verifies(pem, pool[j].pem));
        },
        Some(jj) => {
            if jj < j {
                assert(!verifies(pem, pool[jj].pem));
            }
            if jj > j {
                assert(!verifies(pem, pool[j].pem));
            }
        },
    }
}

/// For a self-signed certificate — one whose first verifying candidate in
/// the pool carries its very signature bytes — resolution reports it
/// self-signed, with no issuer attached, whatever else the pool holds.
pub proof fn lemma_resolve_self_signed(
    pem: Seq<char>,
    signature: Seq<u8>,
    pool: Seq<Candidate>,
    j: int,
)
    requires
        0 <= j < pool.len(),
        verifies(pem, pool[j].pem),
        forall|k: int| 0 <= k < j ==> !verifies(pem, (#[trigger] pool[k]).pem),
        pool[j].signature == signature,
    ensures
        spec_resolve(pem, signature, pool, Set::empty()) == (Seq::<int>::empty(), true),
{
    lemma_first_verifier_is(pem, pool, j);
    assert(Set::<int>::empty().subset_of(pool_indices(pool.len() as int)));
}

/// A certificate whose signature no candidate in the pool verifies — its
/// true issuer is absent — resolves to an unknown issuer: no lineage, and
/// not self-signed.
pub proof fn lemma_resolve_unknown(pem: Seq<char>, signature: Seq<u8>, pool: Seq<Candidate>)
    requires
        forall|k: int| 0 <= k < pool.len() ==> !verifies(pem, (#[trigger] pool[k]).pem),
    ensures
        spec_resolve(pem, signature, pool, Set::empty()) == (Seq::<int>::empty(), false),
{
    lemma_first_verifier_from(pem, pool, 0);
    assert(Set::<int>::empty().subset_of(pool_indices(pool.len() as int)));
    match first_verifier(pem, pool) {
        None => {},
        Some(j) => {
            assert(!verifies(pem, pool[j].pem));
        },
    }
}

/// At the certificate a walk starts from, the issuer lineage is empty
/// exactly when the certificate is self-signed or no candidate verifies
/// its signature: with nothing visited yet, the cycle guard cannot cut
/// the first step short.
pub proof fn lemma_no_issuer_cases(pem: Seq<char>, signature: Seq<u8>, pool: Seq<Candidate>)
    ensures
        ({
            let res = spec_resolve(pem, signature, pool, Set::empty());
            (res.0.len() == 0) <==> match first_verifier(pem, pool) {
                None => true,
                Some(j) => pool[j].signature == signature,
            }
        }),
{
    assert(Set::<int>::empty().subset_of(pool_indices(pool.len() as int)));
    match first_verifier(pem, pool) {
        None => {},
        Some(j) => {
            if pool[j].signature != signature {
                assert(!Set::<int>::empty().contains(j));
            }
        },
    }
}

/// A leaf certificate signed by an intermediate, itself signed by a
/// self-signed root, resolves to exactly the lineage `[intermediate,
/// root]`, in that order, with the root alone marked self-signed.
pub proof fn lemma_resolve_two_level(
    pem: Seq<char>,
    signature: Seq<u8>,
    pool: Seq<Candidate>,
    ji: int,
    jr: int,
    js: int,
)
    requires
        0 <= ji < pool.len(),
        0 <= jr < pool.len(),
        0 <= js < pool.len(),
        first_verifier(pem, pool) == Some(ji),
        pool[ji].signature != signature,
        first_verifier(pool[ji].pem, pool) == Some(jr),
        pool[jr].signature != pool[ji].signature,
        first_verifier(pool[jr].pem, pool) == Some(js),
        pool[js].signature == pool[jr].signature,
    ensures
        spec_resolve(pem, signature, pool, Set::empty()) == (seq![ji, jr], true),
{
    let v0 = Set::<int>::empty();
    let v1 = v0.insert(ji);
    let v2 = v1.insert(jr);
    assert(v0.subset_of(pool_indices(pool.len() as int)));
    assert(pool_indices(pool.len() as int).contains(ji));
    assert(pool_indices(pool.len() as int).contains(jr));
    assert(v1.subset_of(pool_indices(pool.len() as int)));
    assert(v2.subset_of(pool_indices(pool.len() as int)));
    let r3 = spec_resolve(pool[jr].pem, pool[jr].signature, pool, v2);
    assert(r3 == (Seq::<int>::empty(), true));
    assert(jr != ji);
    assert(!v1.contains(jr));
    let r2 = spec_resolve(pool[ji].pem, pool[ji].signature, pool, v1);
    assert(r2 == (seq![jr] + r3.0, r3.1));
    assert(r2.0 =~= seq![jr]);
    assert(!v0.contains(ji));
    let r1 = spec_resolve(pem, signature, pool, v0);
    assert(r1 == (seq![ji] + r2.0, r2.1));
    assert(r1.0 =~= seq![ji, jr]);
    assert(r1 == (seq![ji, jr], true));
}

} // verus!
