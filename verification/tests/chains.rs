use openssl::hash::MessageDigest;
use openssl::nid::Nid;
use openssl::pkey::{PKey, Private, Public};
use openssl::rsa::Rsa;
use openssl::x509::{X509Builder, X509NameBuilder, X509ReqBuilder};

use sslchains::artifact::{classify, Artifact, SourceFile};
use sslchains::chain::build;
use sslchains::pem::{str_to_private_key, str_to_x509, str_to_x509req};
use sslchains::resolve::{resolve_issuer, Outcome};

fn keypair() -> (PKey<Private>, PKey<Public>) {
    let rsa = Rsa::generate(2048).unwrap();
    let public = PKey::public_key_from_pem(&rsa.public_key_to_pem().unwrap()).unwrap();
    (PKey::from_rsa(rsa).unwrap(), public)
}

fn key_pem(key: &PKey<Private>) -> String {
    String::from_utf8(key.rsa().unwrap().private_key_to_pem().unwrap()).unwrap()
}

fn request_pem(cn: &str, key: &PKey<Private>) -> String {
    let mut builder = X509ReqBuilder::new().unwrap();
    let mut name = X509NameBuilder::new().unwrap();
    name.append_entry_by_nid(Nid::COMMONNAME, cn).unwrap();
    let name = name.build();
    builder.set_subject_name(&name).unwrap();
    builder.set_pubkey(key).unwrap();
    builder.sign(key, MessageDigest::sha256()).unwrap();
    String::from_utf8(builder.build().to_pem().unwrap()).unwrap()
}

fn signed_cert(cn: &str, pubkey: &PKey<Public>, issuer_cn: &str, signer: &PKey<Private>) -> String {
    let mut builder = X509Builder::new().unwrap();
    builder.set_version(2).unwrap();
    let serial = openssl::asn1::Asn1Integer::from_bn(
        &openssl::bn::BigNum::from_u32(1).unwrap(),
    )
    .unwrap();
    builder.set_serial_number(&serial).unwrap();
    let mut name = X509NameBuilder::new().unwrap();
    name.append_entry_by_nid(Nid::COMMONNAME, cn).unwrap();
    let name = name.build();
    builder.set_subject_name(&name).unwrap();
    let mut issuer = X509NameBuilder::new().unwrap();
    issuer.append_entry_by_nid(Nid::COMMONNAME, issuer_cn).unwrap();
    let issuer = issuer.build();
    builder.set_issuer_name(&issuer).unwrap();
    builder
        .set_not_before(&openssl::asn1::Asn1Time::days_from_now(0).unwrap())
        .unwrap();
    builder
        .set_not_after(&openssl::asn1::Asn1Time::days_from_now(365).unwrap())
        .unwrap();
    builder.set_pubkey(pubkey).unwrap();
    builder.sign(signer, MessageDigest::sha256()).unwrap();
    String::from_utf8(builder.build().to_pem().unwrap()).unwrap()
}

fn source(path: &str, contents: &str) -> SourceFile {
    SourceFile { path: path.to_string(), contents: contents.to_string() }
}

#[test]
fn parses_generated_private_key() {
    let (key, _) = keypair();
    let pem = key_pem(&key);
    let modulus = str_to_private_key(&pem).unwrap();
    assert_eq!(modulus, key.rsa().unwrap().n().to_vec());
    assert!(str_to_private_key("not a key").is_none());
}

#[test]
fn parses_generated_request() {
    let (key, _) = keypair();
    let pem = request_pem("example.com", &key);
    let parsed = str_to_x509req(&pem).unwrap();
    assert_eq!(parsed.modulus, key.rsa().unwrap().n().to_vec());
    assert_eq!(parsed.subject_common_name, Some("example.com".to_string()));
    assert!(str_to_x509req("not a request").is_none());
}

#[test]
fn parses_generated_certificate() {
    let (key, public) = keypair();
    let pem = signed_cert("example.com", &public, "example.com", &key);
    let parsed = str_to_x509(&pem).unwrap();
    assert_eq!(parsed.modulus, key.rsa().unwrap().n().to_vec());
    assert_eq!(parsed.subject_common_name, Some("example.com".to_string()));
    assert!(parsed.subject_alt_name_entries.is_empty());
    assert!(!parsed.signature.is_empty());
    assert!(str_to_x509("not a certificate").is_none());
}

#[test]
fn accessors_hand_out_parsed_values() {
    let (key, public) = keypair();
    let modulus = key.rsa().unwrap().n().to_vec();

    let req_pem = request_pem("example.com", &key);
    let request = sslchains::artifact::CertificateRequestFile::new(
        "a.csr",
        str_to_x509req(&req_pem).unwrap(),
    );
    assert_eq!(request.to_rsa(), modulus);
    assert_eq!(request.common_name(), Some("example.com".to_string()));

    let cert_pem = signed_cert("example.com", &public, "example.com", &key);
    let certificate = sslchains::artifact::CertificateFile::new(
        "a.crt",
        &cert_pem,
        str_to_x509(&cert_pem).unwrap(),
    );
    assert_eq!(certificate.to_rsa(), modulus);
    assert_eq!(certificate.common_name(), Some("example.com".to_string()));
    assert!(certificate.signing_certificate_chain().is_empty());
    assert_eq!(certificate.duplicate(), certificate);
}

#[test]
fn classifies_each_artifact_kind() {
    let (key, public) = keypair();
    let key_text = key_pem(&key);
    let req_text = request_pem("example.com", &key);
    let cert_text = signed_cert("example.com", &public, "example.com", &key);

    assert!(matches!(classify("a.key", &key_text), Artifact::PrivateKey(_)));
    assert!(matches!(classify("a.csr", &req_text), Artifact::Request(_)));
    assert!(matches!(classify("a.crt", &cert_text), Artifact::Certificate(_)));
    assert!(matches!(classify("a.txt", "irrelevant"), Artifact::Unrecognized));
}

#[test]
fn builds_full_chain_with_intermediate_and_root() {
    let (leaf_key, leaf_public) = keypair();
    let (int_key, int_public) = keypair();
    let (root_key, root_public) = keypair();

    let files = vec![
        source("A.key", &key_pem(&leaf_key)),
        source("A.csr", &request_pem("a.example.com", &leaf_key)),
        source(
            "A.crt",
            &signed_cert("a.example.com", &leaf_public, "int.example.com", &int_key),
        ),
        source(
            "intermediate.crt",
            &signed_cert("int.example.com", &int_public, "root.example.com", &root_key),
        ),
        source(
            "root.crt",
            &signed_cert("root.example.com", &root_public, "root.example.com", &root_key),
        ),
    ];

    let chains = build(files).unwrap();
    assert_eq!(chains.len(), 1);
    let chain = &chains[0];
    assert_eq!(chain.key.as_ref().unwrap().path, "A.key");
    assert_eq!(chain.request.as_ref().unwrap().path, "A.csr");
    assert_eq!(chain.certificates.len(), 1);

    let leaf = &chain.certificates[0];
    assert_eq!(leaf.path, "A.crt");
    assert!(!leaf.self_signed);

    let lineage = leaf.signing_certificate_chain();
    assert_eq!(lineage.len(), 2);
    assert_eq!(lineage[0].path, "intermediate.crt");
    assert!(!lineage[0].self_signed);
    assert_eq!(lineage[1].path, "root.crt");
    assert!(lineage[1].self_signed);
}

#[test]
fn two_unrelated_keys_give_two_empty_chains() {
    let (key_a, _) = keypair();
    let (key_b, _) = keypair();

    let files = vec![
        source("a.key", &key_pem(&key_a)),
        source("b.key", &key_pem(&key_b)),
    ];

    let chains = build(files).unwrap();
    assert_eq!(chains.len(), 2);
    for chain in &chains {
        assert!(chain.key.is_some());
        assert!(chain.request.is_none());
        assert!(chain.certificates.is_empty());
    }
    assert_eq!(chains[0].key.as_ref().unwrap().path, "a.key");
    assert_eq!(chains[1].key.as_ref().unwrap().path, "b.key");
}

#[test]
fn unmatched_request_is_never_attached() {
    let (key_a, _) = keypair();
    let (key_b, _) = keypair();

    let files = vec![
        source("a.key", &key_pem(&key_a)),
        source("b.csr", &request_pem("b.example.com", &key_b)),
    ];

    let chains = build(files).unwrap();
    assert_eq!(chains.len(), 1);
    assert!(chains[0].request.is_none());
}

#[test]
fn build_is_idempotent_on_fixed_input() {
    let (leaf_key, leaf_public) = keypair();
    let (root_key, root_public) = keypair();

    let files = vec![
        source("a.key", &key_pem(&leaf_key)),
        source("a.csr", &request_pem("a.example.com", &leaf_key)),
        source(
            "a.crt",
            &signed_cert("a.example.com", &leaf_public, "root.example.com", &root_key),
        ),
        source(
            "root.crt",
            &signed_cert("root.example.com", &root_public, "root.example.com", &root_key),
        ),
    ];
    let files_again = files
        .iter()
        .map(|f| source(&f.path, &f.contents))
        .collect::<Vec<_>>();

    let first = build(files).unwrap();
    let second = build(files_again).unwrap();
    assert_eq!(first, second);
}

#[test]
fn resolves_self_signed_certificate_in_mixed_pool() {
    let (root_key, root_public) = keypair();
    let (other_key, other_public) = keypair();

    let root_pem = signed_cert("root.example.com", &root_public, "root.example.com", &root_key);
    let other_pem = signed_cert(
        "other.example.com",
        &other_public,
        "elsewhere.example.com",
        &other_key,
    );

    let files = vec![source("other.crt", &other_pem), source("root.crt", &root_pem)];
    let chains_input = files
        .iter()
        .map(|f| source(&f.path, &f.contents))
        .collect::<Vec<_>>();
    let pool: Vec<_> = chains_input
        .iter()
        .map(|f| {
            let parsed = str_to_x509(&f.contents).unwrap();
            sslchains::artifact::CertificateFile::new(&f.path, &f.contents, parsed)
        })
        .collect();

    let root = &pool[1];
    assert!(matches!(resolve_issuer(root, &pool), Outcome::SelfSigned));
}

#[test]
fn resolves_unknown_issuer_when_signer_is_absent() {
    let (leaf_key, leaf_public) = keypair();
    let (int_key, _) = keypair();
    let _ = leaf_key;

    let leaf_pem = signed_cert("a.example.com", &leaf_public, "int.example.com", &int_key);
    let parsed = str_to_x509(&leaf_pem).unwrap();
    let leaf = sslchains::artifact::CertificateFile::new("a.crt", &leaf_pem, parsed);

    let pool = vec![leaf];
    assert!(matches!(resolve_issuer(&pool[0], &pool), Outcome::Unknown));
}

#[test]
fn resolves_issuer_with_its_own_lineage() {
    let (leaf_key, leaf_public) = keypair();
    let (int_key, int_public) = keypair();
    let (root_key, root_public) = keypair();
    let _ = leaf_key;

    let pems = vec![
        ("a.crt".to_string(), signed_cert("a.example.com", &leaf_public, "int.example.com", &int_key)),
        ("int.crt".to_string(), signed_cert("int.example.com", &int_public, "root.example.com", &root_key)),
        ("root.crt".to_string(), signed_cert("root.example.com", &root_public, "root.example.com", &root_key)),
    ];
    let pool: Vec<_> = pems
        .iter()
        .map(|(path, pem)| {
            let parsed = str_to_x509(pem).unwrap();
            sslchains::artifact::CertificateFile::new(path, pem, parsed)
        })
        .collect();

    match resolve_issuer(&pool[0], &pool) {
        Outcome::IssuedBy(issuer) => {
            assert_eq!(issuer.path, "int.crt");
            assert!(!issuer.self_signed);
            let up = issuer.signing_certificate.as_ref().unwrap();
            assert_eq!(up.path, "root.crt");
            assert!(up.self_signed);
            assert!(up.signing_certificate.is_none());
        },
        _ => panic!("expected an issuer"),
    }
}

#[test]
fn encrypted_key_file_contributes_nothing() {
    let (key, _) = keypair();
    let pem = String::from_utf8(
        key.rsa()
            .unwrap()
            .private_key_to_pem_passphrase(openssl::symm::Cipher::aes_256_cbc(), b"secret")
            .unwrap(),
    )
    .unwrap();

    assert!(pem.contains("ENCRYPTED"));
    assert!(matches!(classify("enc.key", &pem), Artifact::Unrecognized));

    let chains = build(vec![source("enc.key", &pem)]).unwrap();
    assert!(chains.is_empty());
}

#[test]
fn unreadable_or_foreign_files_contribute_nothing() {
    let (key_a, _) = keypair();

    let files = vec![
        source("notes.txt", "just some notes"),
        source("a.key", &key_pem(&key_a)),
        source("empty", ""),
    ];

    let chains = build(files).unwrap();
    assert_eq!(chains.len(), 1);
    assert_eq!(chains[0].key.as_ref().unwrap().path, "a.key");
    assert!(chains[0].certificates.is_empty());
}
