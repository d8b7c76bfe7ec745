//! What the two sides of a TLS connection are set up with.
use std::sync::Arc;

use rustls::crypto::ring;
use rustls::pki_types::{CertificateDer, PrivateKeyDer, ServerName};
use rustls::{ClientConfig, RootCertStore, ServerConfig};

use vstd::prelude::*;

use crate::error::IrcError;
use crate::views;

verus! {

/// A name that a TLS client expects its server to have.
#[verifier::external_type_specification]
#[verifier::external_body]
pub struct ExServerName<'a>(ServerName<'a>);

/// What `ServerName::try_from` makes of a host: a DNS name or an IP address, or
/// nothing where the host is neither.
pub uninterp spec fn server_name_of(host: Seq<char>) -> Option<ServerName<'static>>;

/// `ServerName::try_from` reads a host as a DNS name or an IP address. The
/// result depends on the host alone; where the host is neither, the error's
/// text is always the same.
#[verifier::external_body]
pub(crate) fn parse_server_name(host: String) -> (name: Result<ServerName<'static>, String>)
    ensures
        match name {
            Ok(name) => server_name_of(host@) == Some(name),
            Err(text) => server_name_of(host@) is None && text@ == "invalid dns name"@,
        },
{
    match ServerName::try_from(host) {
        Ok(name) => Ok(name),
        Err(e) => Err(e.to_string()),
    }
}

/// The name that the server of a host has to show, where the host was read as
/// one, or the error for a host that was not, for a reason.
pub fn server_name_from(host: &String, parsed: Result<ServerName<'static>, String>) -> (name:
    Result<ServerName<'static>, IrcError>)
    ensures
        match (parsed, name) {
            (Ok(parsed), Ok(name)) => name == parsed,
            (Err(reason), Err(IrcError::InvalidHostname(text))) => text@ == host@ + ": "@ + reason@,
            _ => false,
        },
{
    match parsed {
        Ok(name) => Ok(name),
        Err(reason) => Err(
            IrcError::InvalidHostname(host.clone().concat(": ").concat(reason.as_str())),
        ),
    }
}

/// The name that the server of a host has to show, or the error for a host that
/// can have no such name.
pub fn server_name(host: &String) -> (name: Result<ServerName<'static>, IrcError>)
    ensures
        match name {
            Ok(name) => server_name_of(host@) == Some(name),
            Err(IrcError::InvalidHostname(text)) => server_name_of(host@) is None && text@ == host@
                + ": "@ + "invalid dns name"@,
            Err(_) => false,
        },
{
    server_name_from(host, parse_server_name(host.clone()))
}

// ---------------------------------------------------------------------------
// The client side

/// The certificates that a TLS client trusts.
#[verifier::external_type_specification]
#[verifier::external_body]
pub struct ExRootCertStore(RootCertStore);

/// How a TLS client is set up.
#[verifier::external_type_specification]
#[verifier::external_body]
pub struct ExClientConfig(ClientConfig);

/// What `RootCertStore::add` keeps of a certificate in DER: its subject, its
/// public key and its name constraints. Nothing, where it cannot read the
/// certificate.
pub uninterp spec fn anchor_of(der: Seq<u8>) -> Option<(Seq<u8>, Seq<u8>, Option<Seq<u8>>)>;

/// What a store holds, in order.
pub uninterp spec fn anchors(store: RootCertStore) -> Seq<(Seq<u8>, Seq<u8>, Option<Seq<u8>>)>;

/// `RootCertStore::empty` is a store that holds nothing.
#[verifier::external_body]
fn empty_store() -> (store: RootCertStore)
    ensures
        anchors(store).len() == 0,
{
    RootCertStore::empty()
}

/// `RootCertStore::add` appends what it keeps of a certificate to the store, and
/// leaves the store as it is where it cannot read the certificate. Says whether
/// it could.
#[verifier::external_body]
fn add_certificate(store: &mut RootCertStore, der: Vec<u8>) -> (added: bool)
    ensures
        match anchor_of(der@) {
            Some(anchor) => added && anchors(*final(store)) == anchors(*old(store)).push(anchor),
            None => !added && anchors(*final(store)) == anchors(*old(store)),
        },
{
    store.add(CertificateDer::from(der)).is_ok()
}

/// What is kept of those certificates that can be read, in order.
pub open spec fn readable_anchors(certs: Seq<Seq<u8>>) -> Seq<
    (Seq<u8>, Seq<u8>, Option<Seq<u8>>),
>
    decreases certs.len(),
{
    if certs.len() == 0 {
        seq![]
    } else {
        let before = readable_anchors(certs.drop_last());
        match anchor_of(certs.last()) {
            Some(anchor) => before.push(anchor),
            None => before,
        }
    }
}

/// A store of certificates in DER. Those that cannot be read are left out: the
/// system's certificates often have old ones among them.
pub fn trusted_roots(certs: Vec<Vec<u8>>) -> (store: RootCertStore)
    ensures
        anchors(store) == readable_anchors(views::views(certs@)),
{
    let mut store = empty_store();
    let ghost ders = views::views(certs@);
    assert(ders.take(0) =~= seq![]);
    assert(anchors(store) =~= seq![]);
    for der in it: certs
        invariant
            it.seq() == certs@,
            ders == views::views(certs@),
            anchors(store) == readable_anchors(ders.take(it.index() as int)),
    {
        assert(ders.take(it.index() + 1).drop_last() =~= ders.take(it.index() as int));
        add_certificate(&mut store, der);
    }
    assert(ders.take(ders.len() as int) =~= ders);
    store
}

/// Whether rustls can answer so when it is asked to set up a client that trusts
/// these certificates: with a client that is set up, or with a reason that it is
/// not. Each client is set up with a session store of its own, so rustls can answer
/// the same certificates in many ways.
pub uninterp spec fn is_client_answer(
    trusted: Seq<(Seq<u8>, Seq<u8>, Option<Seq<u8>>)>,
    answer: Result<ClientConfig, Seq<char>>,
) -> bool;

/// `ClientConfig::builder_with_provider` sets up a client with the primitives of
/// ring, the default versions of TLS, these certificates to trust and none of its
/// own. It would refuse primitives that do not serve any of these versions; those
/// of ring serve them all, so it always succeeds. Of the client that is set up
/// nothing is claimed but that it is an answer to these certificates.
#[verifier::external_body]
fn build_client_config(trusted: RootCertStore) -> (built: Result<ClientConfig, String>)
    ensures
        match built {
            Ok(config) => is_client_answer(anchors(trusted), Ok(config)),
            Err(_) => false,
        },
{
    match ClientConfig::builder_with_provider(Arc::new(ring::default_provider()))
        .with_safe_default_protocol_versions() {
        Ok(builder) => Ok(builder.with_root_certificates(trusted).with_no_client_auth()),
        Err(e) => Err(e.to_string()),
    }
}

/// How a client is set up, or the error for the reason that it cannot be.
pub fn client_config_from(built: Result<ClientConfig, String>) -> (config: Result<
    ClientConfig,
    IrcError,
>)
    ensures
        match (built, config) {
            (Ok(built), Ok(config)) => config == built,
            (Err(reason), Err(IrcError::Tls(text))) => text == reason,
            _ => false,
        },
{
    match built {
        Ok(config) => Ok(config),
        Err(reason) => Err(IrcError::Tls(reason)),
    }
}

/// Sets up a client that trusts those of these certificates that can be read. This
/// always succeeds; see [`client_config_from`] for what would become of a reason
/// that it did not.
pub fn client_config(certs: Vec<Vec<u8>>) -> (config: Result<ClientConfig, IrcError>)
    ensures
        match config {
            Ok(config) => is_client_answer(readable_anchors(views::views(certs@)), Ok(config)),
            Err(_) => false,
        },
{
    client_config_from(build_client_config(trusted_roots(certs)))
}

// ---------------------------------------------------------------------------
// The server side

/// How a TLS server is set up.
#[verifier::external_type_specification]
#[verifier::external_body]
pub struct ExServerConfig(ServerConfig);

/// Whether rustls can answer so when it is asked to set up a server with this
/// certificate and this key, both in DER: with a server that is set up, or with a
/// reason that it is not. Each server is set up with a session store of its own and
/// draws on the system's randomness, so rustls can answer the same certificate and
/// key in many ways.
pub uninterp spec fn is_server_answer(
    cert: Seq<u8>,
    key: Seq<u8>,
    answer: Result<ServerConfig, Seq<char>>,
) -> bool;

/// `ServerConfig::builder_with_provider` sets up a server with the primitives of
/// ring, the default versions of TLS, this certificate and this key, which asks
/// its clients for no certificate, or says why it cannot: where the key cannot be
/// read, for one, or is not that of the certificate. Nothing is claimed but that it
/// is an answer to this certificate and this key.
#[verifier::external_body]
pub(crate) fn build_server_config(cert: Vec<u8>, key: Vec<u8>) -> (built: Result<
    ServerConfig,
    String,
>)
    ensures
        match built {
            Ok(config) => is_server_answer(cert@, key@, Ok(config)),
            Err(reason) => is_server_answer(cert@, key@, Err(reason@)),
        },
{
    let key = PrivateKeyDer::try_from(key).map_err(|e| e.to_string())?;
    ServerConfig::builder_with_provider(Arc::new(ring::default_provider()))
        .with_safe_default_protocol_versions()
        .map_err(|e| e.to_string())?
        .with_no_client_auth()
        .with_single_cert(vec![CertificateDer::from(cert)], key)
        .map_err(|e| e.to_string())
}

// ---------------------------------------------------------------------------
// Laws

/// Every certificate that can be read is trusted, in order and as often as it is
/// given, and no other is, whatever else is given.
pub proof fn every_readable_certificate_is_trusted(
    first: Seq<Seq<u8>>,
    second: Seq<Seq<u8>>,
    cert: Seq<u8>,
)
    ensures
        readable_anchors(first + second) == readable_anchors(first) + readable_anchors(second),
        readable_anchors(seq![cert]) == (match anchor_of(cert) {
            Some(anchor) => seq![anchor],
            None => seq![],
        }),
        readable_anchors(seq![]).len() == 0,
        first.len() > 0 && (forall|i: int|
            0 <= i < first.len() ==> anchor_of(#[trigger] first[i]) is Some)
            ==> readable_anchors(first).len() == first.len(),
    decreases first.len() + second.len(),
{
    let one = seq![cert];
    assert(one.drop_last() =~= seq![]);
    assert(readable_anchors(one.drop_last()) =~= seq![]);
    assert(readable_anchors(one) =~= match anchor_of(cert) {
        Some(anchor) => seq![anchor],
        None => seq![],
    });
    if second.len() == 0 {
        assert(first + second =~= first);
        assert(readable_anchors(first) + readable_anchors(second) =~= readable_anchors(first));
    } else {
        let shorter = second.drop_last();
        every_readable_certificate_is_trusted(first, shorter, cert);
        assert((first + second).drop_last() =~= first + shorter);
        assert(readable_anchors(first + second) =~= readable_anchors(first) + readable_anchors(
            second,
        ));
    }
    lemma_all_readable(first);
}

proof fn lemma_all_readable(certs: Seq<Seq<u8>>)
    ensures
        (forall|i: int| 0 <= i < certs.len() ==> anchor_of(#[trigger] certs[i]) is Some)
            ==> readable_anchors(certs).len() == certs.len(),
    decreases certs.len(),
{
    if certs.len() > 0 && forall|i: int|
        0 <= i < certs.len() ==> anchor_of(#[trigger] certs[i]) is Some {
        let shorter = certs.drop_last();
        assert forall|i: int| 0 <= i < shorter.len() implies anchor_of(
            #[trigger] shorter[i],
        ) is Some by {
            assert(anchor_of(certs[i]) is Some);
        }
        lemma_all_readable(shorter);
        assert(anchor_of(certs[certs.len() - 1]) is Some);
    }
}

} // verus!
