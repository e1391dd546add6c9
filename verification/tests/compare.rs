use openssl::hash::MessageDigest;
use openssl::nid::Nid;
use openssl::pkey::{PKey, Private, Public};
use openssl::rsa::Rsa;
use openssl::x509::{X509Builder, X509NameBuilder, X509Req, X509ReqBuilder, X509};

use sslchains::artifact::CertificateFile;
use sslchains::compare::{certificate_to_signing_certificate, private_to_public};
use sslchains::pem::str_to_x509;

fn generate() -> (Rsa<Private>, X509Req, X509) {
    let rsa: Rsa<Private> = Rsa::generate(2048).unwrap();
    let pkey = PKey::from_rsa(rsa.clone()).unwrap();
    let public_key: PKey<Public> =
        PKey::public_key_from_pem(&rsa.public_key_to_pem().unwrap()).unwrap();

    let mut req_builder = X509ReqBuilder::new().unwrap();
    req_builder.set_pubkey(&public_key).unwrap();
    req_builder.sign(&pkey, MessageDigest::sha256()).unwrap();
    let req = req_builder.build();

    let mut cert_builder = X509Builder::new().unwrap();
    cert_builder.set_pubkey(&public_key).unwrap();
    cert_builder.sign(&pkey, MessageDigest::sha256()).unwrap();
    let cert = cert_builder.build();

    (rsa, req, cert)
}

fn signed_cert(cn: &str, pubkey: &PKey<Public>, issuer_cn: &str, signer: &PKey<Private>) -> String {
    let mut builder = X509Builder::new().unwrap();
    builder.set_version(2).unwrap();
    let serial = openssl::asn1::Asn1Integer::from_bn(
        &openssl::bn::BigNum::from_u32(1).unwrap(),
    )
    .unwrap();
    builder.set_serial_number(&serial).unwrap();
    let mut name = X509NameBuilder::new().unwrap();
    name.append_entry_by_nid(Nid::COMMONNAME, cn).unwrap();
    let name = name.build();
    builder.set_subject_name(&name).unwrap();
    let mut issuer = X509NameBuilder::new().unwrap();
    issuer.append_entry_by_nid(Nid::COMMONNAME, issuer_cn).unwrap();
    let issuer = issuer.build();
    builder.set_issuer_name(&issuer).unwrap();
    builder
        .set_not_before(&openssl::asn1::Asn1Time::days_from_now(0).unwrap())
        .unwrap();
    builder
        .set_not_after(&openssl::asn1::Asn1Time::days_from_now(365).unwrap())
        .unwrap();
    builder.set_pubkey(pubkey).unwrap();
    builder.sign(signer, MessageDigest::sha256()).unwrap();
    String::from_utf8(builder.build().to_pem().unwrap()).unwrap()
}

fn keypair() -> (PKey<Private>, PKey<Public>) {
    let rsa = Rsa::generate(2048).unwrap();
    let public = PKey::public_key_from_pem(&rsa.public_key_to_pem().unwrap()).unwrap();
    (PKey::from_rsa(rsa).unwrap(), public)
}

fn cert_file(path: &str, pem: &str) -> CertificateFile {
    let parsed = str_to_x509(pem).unwrap();
    CertificateFile::new(path, pem, parsed)
}

#[test]
fn identifies_private_and_public_matches() {
    let (key, req, cert) = generate();

    let req: Rsa<Public> = req.public_key().unwrap().rsa().unwrap();
    let cert: Rsa<Public> = cert.public_key().unwrap().rsa().unwrap();

    assert!(private_to_public(&key.n().to_vec(), &req.n().to_vec()).is_ok());
    assert!(private_to_public(&key.n().to_vec(), &cert.n().to_vec()).is_ok());
}

#[test]
fn identifies_private_and_public_mismatches() {
    let (key, _, _) = generate();
    let (_, req, cert) = generate();

    let req: Rsa<Public> = req.public_key().unwrap().rsa().unwrap();
    let cert: Rsa<Public> = cert.public_key().unwrap().rsa().unwrap();

    assert!(private_to_public(&key.n().to_vec(), &req.n().to_vec()).is_err());
    assert!(private_to_public(&key.n().to_vec(), &cert.n().to_vec()).is_err());
}

#[test]
fn rejects_single_bit_modulus_difference() {
    let (key, req, _) = generate();
    let modulus = key.n().to_vec();
    let mut flipped = req.public_key().unwrap().rsa().unwrap().n().to_vec();
    flipped[0] ^= 0x01;

    assert!(private_to_public(&modulus, &flipped).is_err());
    assert_eq!(
        private_to_public(&modulus, &flipped),
        Err("Key file mismatch")
    );
}

#[test]
fn matches_self_signed_certificate_to_itself() {
    let (private, public) = keypair();
    let pem = signed_cert("root.example.com", &public, "root.example.com", &private);
    let cert = cert_file("root.crt", &pem);

    assert!(certificate_to_signing_certificate(&cert, &cert).is_ok());
}

#[test]
fn matches_certificate_to_its_signing_certificate() {
    let (ca_private, ca_public) = keypair();
    let (_leaf_private, leaf_public) = keypair();
    let ca_pem = signed_cert("ca.example.com", &ca_public, "ca.example.com", &ca_private);
    let leaf_pem = signed_cert("leaf.example.com", &leaf_public, "ca.example.com", &ca_private);
    let ca = cert_file("ca.crt", &ca_pem);
    let leaf = cert_file("leaf.crt", &leaf_pem);

    assert!(certificate_to_signing_certificate(&leaf, &ca).is_ok());
}

#[test]
fn rejects_certificate_against_unrelated_signer() {
    let (ca_private, ca_public) = keypair();
    let (other_private, other_public) = keypair();
    let ca_pem = signed_cert("ca.example.com", &ca_public, "ca.example.com", &ca_private);
    let other_pem = signed_cert(
        "other.example.com",
        &other_public,
        "other.example.com",
        &other_private,
    );
    let ca = cert_file("ca.crt", &ca_pem);
    let other = cert_file("other.crt", &other_pem);

    assert!(certificate_to_signing_certificate(&ca, &other).is_err());
    assert!(certificate_to_signing_certificate(&other, &ca).is_err());
}
