use openssl::hash::MessageDigest;
use openssl::nid::Nid;
use openssl::pkey::{PKey, Private, Public};
use openssl::rsa::Rsa;
use openssl::x509::extension::SubjectAlternativeName;
use openssl::x509::{X509Builder, X509NameBuilder, X509ReqBuilder};

use sslchains::artifact::CertificateFile;
use sslchains::chain::Chain;
use sslchains::display::{
    get_display_name, get_display_name_from_certificate, get_display_name_from_request,
    last_line_of,
};
use sslchains::pem::{str_to_x509, str_to_x509req};

fn keypair() -> (PKey<Private>, PKey<Public>) {
    let rsa = Rsa::generate(2048).unwrap();
    let public = PKey::public_key_from_pem(&rsa.public_key_to_pem().unwrap()).unwrap();
    (PKey::from_rsa(rsa).unwrap(), public)
}

fn request_pem(cn: &str, key: &PKey<Private>) -> String {
    let mut builder = X509ReqBuilder::new().unwrap();
    let mut name = X509NameBuilder::new().unwrap();
    name.append_entry_by_nid(Nid::COMMONNAME, cn).unwrap();
    let name = name.build();
    builder.set_subject_name(&name).unwrap();
    builder.set_pubkey(key).unwrap();
    builder.sign(key, MessageDigest::sha256()).unwrap();
    String::from_utf8(builder.build().to_pem().unwrap()).unwrap()
}

fn san_cert(cn: &str, sans: &[&str], pubkey: &PKey<Public>, signer: &PKey<Private>) -> String {
    let mut builder = X509Builder::new().unwrap();
    builder.set_version(2).unwrap();
    let serial = openssl::asn1::Asn1Integer::from_bn(
        &openssl::bn::BigNum::from_u32(1).unwrap(),
    )
    .unwrap();
    builder.set_serial_number(&serial).unwrap();
    let mut name = X509NameBuilder::new().unwrap();
    name.append_entry_by_nid(Nid::COMMONNAME, cn).unwrap();
    let name = name.build();
    builder.set_subject_name(&name).unwrap();
    builder.set_issuer_name(&name).unwrap();
    builder
        .set_not_before(&openssl::asn1::Asn1Time::days_from_now(0).unwrap())
        .unwrap();
    builder
        .set_not_after(&openssl::asn1::Asn1Time::days_from_now(365).unwrap())
        .unwrap();
    builder.set_pubkey(pubkey).unwrap();
    if !sans.is_empty() {
        let mut san = SubjectAlternativeName::new();
        for s in sans {
            san.dns(s);
        }
        let ext = san.build(&builder.x509v3_context(None, None)).unwrap();
        builder.append_extension(ext).unwrap();
    }
    builder.sign(signer, MessageDigest::sha256()).unwrap();
    String::from_utf8(builder.build().to_pem().unwrap()).unwrap()
}

fn cert_file(path: &str, pem: &str) -> CertificateFile {
    let parsed = str_to_x509(pem).unwrap();
    CertificateFile::new(path, pem, parsed)
}

#[test]
fn takes_last_line_of_text() {
    assert_eq!(last_line_of("example.com"), Some("example.com".to_string()));
    assert_eq!(last_line_of("first\nsecond"), Some("second".to_string()));
    assert_eq!(last_line_of("trailing\n"), Some("trailing".to_string()));
    assert_eq!(last_line_of("windows\r\n"), Some("windows".to_string()));
    assert_eq!(last_line_of(""), None);
}

#[test]
fn reads_common_name_from_request() {
    let (key, _) = keypair();
    let pem = request_pem("example.com", &key);
    let request =
        sslchains::artifact::CertificateRequestFile::new("a.csr", str_to_x509req(&pem).unwrap());

    assert_eq!(
        get_display_name_from_request(&request),
        Some("example.com".to_string())
    );
}

#[test]
fn prefers_non_www_subject_alternative_name() {
    let (key, public) = keypair();
    let pem = san_cert(
        "cn.example.com",
        &["www.san.example.com", "san.example.com"],
        &public,
        &key,
    );
    let certificate = cert_file("a.crt", &pem);

    assert_eq!(
        get_display_name_from_certificate(&certificate),
        Some("san.example.com".to_string())
    );
}

#[test]
fn falls_back_to_first_subject_alternative_name() {
    let (key, public) = keypair();
    let pem = san_cert("cn.example.com", &["www.san.example.com"], &public, &key);
    let certificate = cert_file("a.crt", &pem);

    assert_eq!(
        get_display_name_from_certificate(&certificate),
        Some("www.san.example.com".to_string())
    );
}

#[test]
fn falls_back_to_common_name_when_first_entry_has_no_dns_form() {
    let (key, public) = keypair();
    let mut builder = X509Builder::new().unwrap();
    builder.set_version(2).unwrap();
    let serial = openssl::asn1::Asn1Integer::from_bn(
        &openssl::bn::BigNum::from_u32(1).unwrap(),
    )
    .unwrap();
    builder.set_serial_number(&serial).unwrap();
    let mut name = X509NameBuilder::new().unwrap();
    name.append_entry_by_nid(Nid::COMMONNAME, "cn.example.com").unwrap();
    let name = name.build();
    builder.set_subject_name(&name).unwrap();
    builder.set_issuer_name(&name).unwrap();
    builder
        .set_not_before(&openssl::asn1::Asn1Time::days_from_now(0).unwrap())
        .unwrap();
    builder
        .set_not_after(&openssl::asn1::Asn1Time::days_from_now(365).unwrap())
        .unwrap();
    builder.set_pubkey(&public).unwrap();
    let mut san = SubjectAlternativeName::new();
    san.ip("203.0.113.7");
    san.dns("www.san.example.com");
    let ext = san.build(&builder.x509v3_context(None, None)).unwrap();
    builder.append_extension(ext).unwrap();
    builder.sign(&key, MessageDigest::sha256()).unwrap();
    let pem = String::from_utf8(builder.build().to_pem().unwrap()).unwrap();

    let certificate = cert_file("a.crt", &pem);
    assert_eq!(
        get_display_name_from_certificate(&certificate),
        Some("cn.example.com".to_string())
    );
}

#[test]
fn falls_back_to_certificate_common_name() {
    let (key, public) = keypair();
    let pem = san_cert("cn.example.com", &[], &public, &key);
    let certificate = cert_file("a.crt", &pem);

    assert_eq!(
        get_display_name_from_certificate(&certificate),
        Some("cn.example.com".to_string())
    );
}

#[test]
fn chain_name_prefers_certificate_over_request() {
    let (key, public) = keypair();
    let cert_pem = san_cert("cn.example.com", &["san.example.com"], &public, &key);
    let req_pem = request_pem("req.example.com", &key);

    let mut chain = Chain::new();
    chain.request = Some(sslchains::artifact::CertificateRequestFile::new(
        "a.csr",
        str_to_x509req(&req_pem).unwrap(),
    ));
    chain.certificates = vec![cert_file("a.crt", &cert_pem)];

    assert_eq!(get_display_name(&chain), "san.example.com".to_string());
}

#[test]
fn chain_name_falls_back_to_request() {
    let (key, _) = keypair();
    let req_pem = request_pem("req.example.com", &key);

    let mut chain = Chain::new();
    chain.request = Some(sslchains::artifact::CertificateRequestFile::new(
        "a.csr",
        str_to_x509req(&req_pem).unwrap(),
    ));

    assert_eq!(get_display_name(&chain), "req.example.com".to_string());
}

#[test]
fn chain_name_defaults_to_unknown() {
    let chain = Chain::new();
    assert_eq!(get_display_name(&chain), "(unknown)".to_string());
}
