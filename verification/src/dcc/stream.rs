//! What a secure DCC session decides and shows.
//!
//! Secure DCC has no certificate authorities: peers present self-signed
//! certificates that they make for the session. What can be done is to accept
//! the certificate and show its SHA-256 fingerprint, so that the two users can
//! compare it by other means.
use rustls::pki_types::ServerName;
use rustls::ServerConfig;
use sha2::{Digest, Sha256};

use vstd::prelude::*;

use crate::dcc::{DccError, DccErrorView};
use crate::text;
use crate::text::push_hex;
use crate::tls;
use crate::tls::{build_server_config, parse_server_name};
use crate::views;

verus! {

/// What `Sha256::digest` makes of a byte string.
pub uninterp spec fn sha256_of(data: Seq<u8>) -> Seq<u8>;

/// `Sha256::digest` is the SHA-256 digest of the bytes: 32 bytes that depend on
/// them alone.
#[verifier::external_body]
fn sha256(data: &[u8]) -> (digest: Vec<u8>)
    ensures
        digest@ == sha256_of(data@),
        digest@.len() == 32,
{
    Sha256::digest(data).to_vec()
}

/// Bytes in upper-case hexadecimal, with a colon between each two.
pub open spec fn colon_hex(bytes: Seq<u8>) -> Seq<char>
    decreases bytes.len(),
{
    if bytes.len() == 0 {
        seq![]
    } else if bytes.len() == 1 {
        text::hex_pair(bytes[0])
    } else {
        colon_hex(bytes.drop_last()).push(':') + text::hex_pair(bytes.last())
    }
}

/// Writes a digest in upper-case hexadecimal, with a colon between each two
/// bytes.
pub fn format_fingerprint(digest: &[u8]) -> (fingerprint: String)
    ensures
        fingerprint@ == colon_hex(digest@),
{
    let mut fingerprint = String::new();
    let mut i: usize = 0;
    assert(digest@.take(0) =~= seq![]);
    while i < digest.len()
        invariant
            i <= digest@.len(),
            fingerprint@ == colon_hex(digest@.take(i as int)),
        decreases digest@.len() - i,
    {
        assert(digest@.take(i + 1).drop_last() =~= digest@.take(i as int));
        if i > 0 {
            fingerprint.push(':');
        }
        push_hex(&mut fingerprint, digest[i]);
        i += 1;
        assert(fingerprint@ =~= colon_hex(digest@.take(i as int)));
    }
    assert(digest@.take(i as int) =~= digest@);
    fingerprint
}

/// The fingerprint of a certificate: its SHA-256 digest in upper-case
/// hexadecimal, with a colon between each two bytes.
pub fn fingerprint_of(cert: &[u8]) -> (fingerprint: String)
    ensures
        fingerprint@ == colon_hex(sha256_of(cert@)),
        fingerprint@.len() == 95,
{
    let digest = sha256(cert);
    proof {
        fingerprint_has_three_characters_a_byte(digest@);
    }
    format_fingerprint(digest.as_slice())
}

/// A fingerprint has two digits for each byte and a colon between each two.
pub proof fn fingerprint_has_three_characters_a_byte(digest: Seq<u8>)
    requires
        digest.len() > 0,
    ensures
        colon_hex(digest).len() == 3 * digest.len() - 1,
        forall|i: int|
            0 <= i < digest.len() ==> #[trigger] colon_hex(digest).subrange(3 * i, 3 * i + 2)
                == text::hex_pair(digest[i]),
        forall|i: int| 0 <= i < digest.len() - 1 ==> #[trigger] colon_hex(digest)[3 * i + 2] == ':',
    decreases digest.len(),
{
    if digest.len() == 1 {
        assert(colon_hex(digest).subrange(0, 2) =~= text::hex_pair(digest[0]));
    } else {
        let shorter = digest.drop_last();
        let whole = colon_hex(digest);
        fingerprint_has_three_characters_a_byte(shorter);
        let n = shorter.len() as int;
        assert forall|i: int| 0 <= i < digest.len() implies #[trigger] whole.subrange(
            3 * i,
            3 * i + 2,
        ) == text::hex_pair(digest[i]) by {
            if i < n {
                assert(whole.subrange(3 * i, 3 * i + 2) =~= colon_hex(shorter).subrange(
                    3 * i,
                    3 * i + 2,
                ));
            } else {
                assert(whole.subrange(3 * i, 3 * i + 2) =~= text::hex_pair(digest[i]));
            }
        }
        assert forall|i: int| 0 <= i < digest.len() - 1 implies #[trigger] whole[3 * i + 2]
            == ':' by {
            if i < n - 1 {
                assert(whole[3 * i + 2] == colon_hex(shorter)[3 * i + 2]);
            }
        }
    }
}

/// How the socket of a session is wrapped.
#[derive(Copy, Clone, Debug, PartialEq, Eq, Structural)]
pub enum Wrapping {
    /// Not at all.
    Plain,
    /// In TLS, as the server.
    AcceptTls,
    /// In TLS, as the client.
    ConnectTls,
}

/// How the socket of a session is wrapped: in TLS for a secure session, as the
/// server if the peer connected to us.
pub open spec fn wrapping(secure: bool, incoming: bool) -> Wrapping {
    if !secure {
        Wrapping::Plain
    } else if incoming {
        Wrapping::AcceptTls
    } else {
        Wrapping::ConnectTls
    }
}

/// How to wrap the socket of a session.
pub fn wrap(secure: bool, incoming: bool) -> (how: Wrapping)
    ensures
        how == wrapping(secure, incoming),
{
    if !secure {
        Wrapping::Plain
    } else if incoming {
        Wrapping::AcceptTls
    } else {
        Wrapping::ConnectTls
    }
}

/// A certificate for one session, and the key that it belongs to, both in DER.
#[derive(Debug)]
pub struct SessionCertificate {
    pub cert: Vec<u8>,
    pub key: Vec<u8>,
}

/// Whether `rcgen::generate_simple_self_signed` can answer so when it is asked for
/// a certificate with these names: with a certificate and its key, both in DER,
/// or with a reason that there is none. It can answer the same names in many ways.
pub uninterp spec fn is_self_signed_answer(
    names: Seq<Seq<char>>,
    answer: Result<(Seq<u8>, Seq<u8>), Seq<char>>,
) -> bool;

/// `rcgen::generate_simple_self_signed` makes a key pair and a certificate for
/// it that names the given hosts, both in DER, or says why it cannot. What it
/// makes is random: nothing is claimed but that it is an answer to these names.
#[verifier::external_body]
fn generate_self_signed(names: Vec<String>) -> (made: Result<(Vec<u8>, Vec<u8>), String>)
    ensures
        match made {
            Ok((cert, key)) => is_self_signed_answer(views::views(names@), Ok((cert@, key@))),
            Err(reason) => is_self_signed_answer(views::views(names@), Err(reason@)),
        },
{
    match rcgen::generate_simple_self_signed(names) {
        Ok(certified) => Ok((certified.cert.der().to_vec(), certified.signing_key.serialize_der())),
        Err(e) => Err(e.to_string()),
    }
}

/// A certificate and its key, or the error for the reason that there is none.
pub fn certificate_from(made: Result<(Vec<u8>, Vec<u8>), String>) -> (certificate: Result<
    SessionCertificate,
    DccError,
>)
    ensures
        match (made, certificate) {
            (Ok((cert, key)), Ok(certificate)) => certificate == (SessionCertificate { cert, key }),
            (Err(reason), Err(error)) => error@ == DccErrorView::Tls(reason@),
            _ => false,
        },
{
    match made {
        Ok((cert, key)) => Ok(SessionCertificate { cert, key }),
        Err(reason) => Err(DccError::Tls(reason)),
    }
}

/// The names in the certificate of a session. Nobody compares them.
pub fn certificate_names() -> (names: Vec<String>)
    ensures
        views::views(names@) == seq!["dcc.local"@],
{
    let names = vec!["dcc.local".to_owned()];
    assert(views::views(names@) =~= seq!["dcc.local"@]);
    names
}

/// Makes a fresh self-signed certificate for a session, with
/// [`certificate_names`]. It is what was made for these names, as it was made, or
/// the error for the reason that was given. Nothing more is said: the contents are
/// random, and whether one can be made is not ours to promise.
pub fn session_certificate() -> (certificate: Result<SessionCertificate, DccError>)
    ensures
        match certificate {
            Ok(certificate) => is_self_signed_answer(
                seq!["dcc.local"@],
                Ok((certificate.cert@, certificate.key@)),
            ),
            Err(error) => error@ matches DccErrorView::Tls(reason) && is_self_signed_answer(
                seq!["dcc.local"@],
                Err(reason),
            ),
        },
{
    certificate_from(generate_self_signed(certificate_names()))
}

/// How the server side of a secure session is set up, or the error for the reason
/// that it cannot be.
pub fn acceptor_config_from(built: Result<ServerConfig, String>) -> (config: Result<
    ServerConfig,
    DccError,
>)
    ensures
        match (built, config) {
            (Ok(built), Ok(config)) => config == built,
            (Err(reason), Err(error)) => error@ == DccErrorView::Tls(reason@),
            _ => false,
        },
{
    match built {
        Ok(config) => Ok(config),
        Err(reason) => Err(DccError::Tls(reason)),
    }
}

/// Sets up the server side of a secure session with a certificate, or gives the
/// error for the reason that it could not be set up. Which of the two it is, rustls
/// decides; see [`acceptor_config_from`] for what becomes of either.
pub fn acceptor_config_with(certificate: SessionCertificate) -> (config: Result<
    ServerConfig,
    DccError,
>)
    ensures
        match config {
            Ok(config) => tls::is_server_answer(certificate.cert@, certificate.key@, Ok(config)),
            Err(error) => error@ matches DccErrorView::Tls(reason) && tls::is_server_answer(
                certificate.cert@,
                certificate.key@,
                Err(reason),
            ),
        },
{
    acceptor_config_from(build_server_config(certificate.cert, certificate.key))
}

/// Whether this can come of setting up a server with a certificate that is made for
/// it: the certificate was made for [`certificate_names`], and the server was set up
/// with it or could not be, or no certificate could be made.
pub open spec fn is_acceptor_answer(answer: Result<ServerConfig, Seq<char>>) -> bool {
    ||| exists|cert: Seq<u8>, key: Seq<u8>|
        is_self_signed_answer(seq!["dcc.local"@], Ok((cert, key)))
            && #[trigger] tls::is_server_answer(cert, key, answer)
    ||| answer matches Err(reason) && is_self_signed_answer(seq!["dcc.local"@], Err(reason))
}

/// Sets up the server side of a secure session with a certificate that is made
/// for it, or gives the error for the reason that either could not be done.
pub fn acceptor_config() -> (config: Result<ServerConfig, DccError>)
    ensures
        match config {
            Ok(config) => is_acceptor_answer(Ok(config)),
            Err(error) => error@ matches DccErrorView::Tls(reason) && is_acceptor_answer(
                Err(reason),
            ),
        },
{
    match session_certificate() {
        Ok(certificate) => acceptor_config_with(certificate),
        Err(error) => Err(error),
    }
}

/// The name that the client side of a secure session asks for, where it was read
/// as one, or the error where it was not, for a reason.
pub fn placeholder_name_from(parsed: Result<ServerName<'static>, String>) -> (name: Result<
    ServerName<'static>,
    DccError,
>)
    ensures
        match (parsed, name) {
            (Ok(parsed), Ok(name)) => name == parsed,
            (Err(reason), Err(error)) => error@ == DccErrorView::Tls(reason@),
            _ => false,
        },
{
    match parsed {
        Ok(name) => Ok(name),
        Err(reason) => Err(DccError::Tls(reason)),
    }
}

/// The name that the client side of a secure session asks for. The peer's
/// certificate is self-signed and the names in it mean nothing, so any would do.
pub fn placeholder_name() -> (name: Result<ServerName<'static>, DccError>)
    ensures
        match name {
            Ok(name) => tls::server_name_of("dcc.local"@) == Some(name),
            Err(error) => tls::server_name_of("dcc.local"@) is None && error@ == DccErrorView::Tls(
                "invalid dns name"@,
            ),
        },
{
    placeholder_name_from(parse_server_name("dcc.local".to_owned()))
}

/// A fingerprint shows every byte of a digest, in order, as two upper-case
/// hexadecimal digits, the higher one first; nothing is shown of no bytes.
pub proof fn a_fingerprint_shows_every_byte(digest: Seq<u8>, i: int)
    ensures
        digest.len() == 0 ==> colon_hex(digest).len() == 0,
        digest.len() > 0 ==> colon_hex(digest).len() == 3 * digest.len() - 1,
        0 <= i < digest.len() ==> {
            let (high, low) = (colon_hex(digest)[3 * i], colon_hex(digest)[3 * i + 1]);
            &&& text::hex_value(high) is Some
            &&& text::hex_value(low) is Some
            &&& 16 * text::hex_value(high)->0 + text::hex_value(low)->0 == digest[i]
        },
        0 <= i < digest.len() - 1 ==> colon_hex(digest)[3 * i + 2] == ':',
{
    if 0 <= i < digest.len() {
        fingerprint_has_three_characters_a_byte(digest);
        let pair = colon_hex(digest).subrange(3 * i, 3 * i + 2);
        text::hexadecimal_says_the_byte(digest[i]);
        assert(pair == text::hex_pair(digest[i]));
        assert(pair[0] == colon_hex(digest)[3 * i]);
        assert(pair[1] == colon_hex(digest)[3 * i + 1]);
    } else if digest.len() > 0 {
        fingerprint_has_three_characters_a_byte(digest);
    }
}

/// A secure session is wrapped in TLS, as the server by the side that is connected to
/// and as the client by the side that connects; any other is not wrapped.
pub proof fn a_secure_session_is_wrapped(incoming: bool)
    ensures
        wrapping(false, incoming) == Wrapping::Plain,
        wrapping(true, true) == Wrapping::AcceptTls,
        wrapping(true, false) == Wrapping::ConnectTls,
{
}

/// A server is set up with the certificate and the key that were made for it, for the
/// name of a session and no other, or fails for the reason that either could not be
/// done.
pub proof fn a_server_has_the_certificate_made_for_it(
    cert: Seq<u8>,
    key: Seq<u8>,
    answer: Result<ServerConfig, Seq<char>>,
)
    ensures
        is_self_signed_answer(seq!["dcc.local"@], Ok((cert, key))) && tls::is_server_answer(
            cert,
            key,
            answer,
        ) ==> is_acceptor_answer(answer),
        is_acceptor_answer(answer) && answer is Ok ==> exists|cert: Seq<u8>, key: Seq<u8>|
            is_self_signed_answer(seq!["dcc.local"@], Ok((cert, key)))
                && #[trigger] tls::is_server_answer(cert, key, answer),
        is_acceptor_answer(answer) && (answer matches Err(reason) && !is_self_signed_answer(
            seq!["dcc.local"@],
            Err(reason),
        )) ==> exists|cert: Seq<u8>, key: Seq<u8>|
            is_self_signed_answer(seq!["dcc.local"@], Ok((cert, key)))
                && #[trigger] tls::is_server_answer(cert, key, answer),
{
}

} // verus!
