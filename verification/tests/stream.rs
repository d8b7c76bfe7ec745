use sic_irc::dcc::{
    acceptor_config, acceptor_config_from, acceptor_config_with, certificate_from,
    certificate_names, fingerprint_of, format_fingerprint, placeholder_name, placeholder_name_from,
    session_certificate, wrap, SessionCertificate, Wrapping,
};

#[test]
fn fingerprint_is_uppercase_colon_separated_sha256() {
    let fingerprint = fingerprint_of(b"");
    // SHA-256 of the empty input, the standard test vector.
    assert!(fingerprint.starts_with("E3:B0:C4:42:98:FC:1C:14"));
    assert_eq!(fingerprint.len(), 32 * 3 - 1);
}

#[test]
fn fingerprint_depends_on_the_certificate() {
    assert_eq!(
        fingerprint_of(b"abc"),
        "BA:78:16:BF:8F:01:CF:EA:41:41:40:DE:5D:AE:22:23:\
         B0:03:61:A3:96:17:7A:9C:B4:10:FF:61:F2:00:15:AD"
    );
}

#[test]
fn digests_are_written_in_hexadecimal() {
    assert_eq!(format_fingerprint(b""), "");
    assert_eq!(format_fingerprint(b"\x0a"), "0A");
    assert_eq!(format_fingerprint(b"\x00\x9f\xff"), "00:9F:FF");
}

#[test]
fn only_secure_sessions_are_wrapped() {
    assert_eq!(wrap(false, true), Wrapping::Plain);
    assert_eq!(wrap(false, false), Wrapping::Plain);
    assert_eq!(wrap(true, true), Wrapping::AcceptTls);
    assert_eq!(wrap(true, false), Wrapping::ConnectTls);
}

#[test]
fn every_session_has_its_own_certificate() {
    let first = session_certificate().unwrap();
    let second = session_certificate().unwrap();
    assert_eq!(first.cert[0], 0x30);
    assert_eq!(first.key[0], 0x30);
    assert_ne!(first.cert, second.cert);
    assert_ne!(first.key, second.key);
    let name = b"dcc.local";
    assert!(first.cert.windows(name.len()).any(|part| part == name));
    assert_eq!(certificate_names(), vec!["dcc.local".to_string()]);
}

#[test]
fn a_certificate_that_cannot_be_made_is_an_error() {
    let made = certificate_from(Ok((vec![1], vec![2]))).unwrap();
    assert_eq!((made.cert, made.key), (vec![1], vec![2]));
    let error = certificate_from(Err("no entropy".to_string())).unwrap_err();
    assert_eq!(error.to_string(), "TLS error: no entropy");
}

#[test]
fn the_placeholder_is_a_name() {
    assert_eq!(placeholder_name().unwrap().to_str(), "dcc.local");
    let error = placeholder_name_from(Err("why".to_string())).unwrap_err();
    assert_eq!(error.to_string(), "TLS error: why");
}

#[test]
fn the_server_side_is_set_up_with_its_certificate() {
    assert!(acceptor_config().is_ok());
    assert!(acceptor_config_with(session_certificate().unwrap()).is_ok());
}

#[test]
fn a_key_that_cannot_be_used_is_an_error() {
    let certificate = session_certificate().unwrap();
    let other = session_certificate().unwrap();
    let mixed = SessionCertificate { cert: certificate.cert, key: other.key };
    let error = acceptor_config_with(mixed).unwrap_err();
    assert!(error.to_string().starts_with("TLS error: "));
    let garbage = SessionCertificate { cert: vec![], key: b"no key".to_vec() };
    assert!(acceptor_config_with(garbage).is_err());
    let error = acceptor_config_from(Err("why".to_string())).unwrap_err();
    assert_eq!(error.to_string(), "TLS error: why");
}
