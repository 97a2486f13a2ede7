//! TLS material for the transports that run over TLS.

use vstd::prelude::*;
use vstd::string::*;

use rustls::crypto::ring::default_provider;
use rustls::pki_types::{
    PrivateKeyDer, PrivatePkcs1KeyDer, PrivatePkcs8KeyDer, PrivateSec1KeyDer,
};
use rustls::{ClientConfig as TlsClient, ServerConfig as TlsServer};

use crate::addr::{ip_parsed, IpAddr};
use crate::error::{fails_as, Error, Failure};
use crate::text::texts;

verus! {

/// Protocol name that both ends offer: `et1`.
pub fn alpn() -> (r: Vec<u8>)
    ensures
        r@ == seq![101u8, 116u8, 49u8],
{
    let r: Vec<u8> = vec![101u8, 116u8, 49u8];
    assert(r@ =~= seq![101u8, 116u8, 49u8]);
    r
}

/// The certificates in a PEM text, or what is wrong with it.
pub uninterp spec fn pem_certs(pem: Seq<char>) -> Result<Seq<Seq<u8>>, Seq<char>>;

/// The first private key in a PEM text, if any: its form (0 for PKCS#1, 1 for
/// PKCS#8, 2 for SEC1) and its bytes; or what is wrong with the text.
pub uninterp spec fn pem_key(pem: Seq<char>) -> Result<Option<(u8, Seq<u8>)>, Seq<char>>;

/// The bytes of each item of a list.
pub open spec fn blobs(v: Seq<Vec<u8>>) -> Seq<Seq<u8>> {
    v.map_values(|b: Vec<u8>| b@)
}

/// The view of what a certificate reader returned.
pub open spec fn certs_view(r: Result<Vec<Vec<u8>>, String>) -> Result<Seq<Seq<u8>>, Seq<char>> {
    match r {
        Ok(v) => Ok(blobs(v@)),
        Err(e) => Err(e@),
    }
}

/// A private key, told apart by its form.
pub enum PrivateKey {
    Pkcs1(Vec<u8>),
    Pkcs8(Vec<u8>),
    Sec1(Vec<u8>),
}

impl View for PrivateKey {
    type V = (u8, Seq<u8>);

    /// Its form (0 for PKCS#1, 1 for PKCS#8, 2 for SEC1) and its bytes.
    open spec fn view(&self) -> (u8, Seq<u8>) {
        match self {
            PrivateKey::Pkcs1(b) => (0, b@),
            PrivateKey::Pkcs8(b) => (1, b@),
            PrivateKey::Sec1(b) => (2, b@),
        }
    }
}

/// The view of what a key reader returned.
pub open spec fn key_view(r: Result<Option<PrivateKey>, String>) -> Result<
    Option<(u8, Seq<u8>)>,
    Seq<char>,
> {
    match r {
        Ok(Some(k)) => Ok(Some(k@)),
        Ok(None) => Ok(None),
        Err(e) => Err(e@),
    }
}

/// Calls `rustls_pemfile::certs`: the certificates, or the text of the error,
/// depend on the text alone.
#[verifier::external_body]
fn read_certs(pem: &str) -> (r: Result<Vec<Vec<u8>>, String>)
    ensures
        certs_view(r) == pem_certs(pem@),
{
    rustls_pemfile::certs(&mut pem.as_bytes()).map(|c| c.map(|c| c.to_vec())).collect::<
        Result<Vec<_>, _>,
    >().map_err(|e| e.to_string())
}

/// Calls `rustls_pemfile::private_key`: the key, or the text of the error, depends
/// on the text alone.
#[verifier::external_body]
fn read_key(pem: &str) -> (r: Result<Option<PrivateKey>, String>)
    ensures
        key_view(r) == pem_key(pem@),
{
    match rustls_pemfile::private_key(&mut pem.as_bytes()) {
        Ok(Some(PrivateKeyDer::Pkcs1(k))) => Ok(
            Some(PrivateKey::Pkcs1(k.secret_pkcs1_der().to_vec())),
        ),
        Ok(Some(PrivateKeyDer::Sec1(k))) => Ok(
            Some(PrivateKey::Sec1(k.secret_sec1_der().to_vec())),
        ),
        Ok(Some(k)) => Ok(Some(PrivateKey::Pkcs8(k.secret_der().to_vec()))),
        Ok(None) => Ok(None),
        Err(e) => Err(e.to_string()),
    }
}

/// What a certificate can be made for.
pub enum SubjectView {
    Name(Seq<char>),
    Address(IpAddr),
}

/// What a text stands for in a certificate: an address if it is one, else a name.
pub open spec fn subject(text: Seq<char>) -> SubjectView {
    match ip_parsed(text) {
        Some(ip) => SubjectView::Address(ip),
        None => SubjectView::Name(text),
    }
}

/// What some texts stand for in a certificate.
pub open spec fn subjects(names: Seq<Seq<char>>) -> Seq<SubjectView> {
    names.map_values(|t: Seq<char>| subject(t))
}

/// The names and addresses that the certificate in a PEM text was made for.
pub uninterp spec fn certified_names(pem: Seq<char>) -> Seq<SubjectView>;

/// Whether a private key is sound, and the key of the first certificate of a chain
/// if it shows which public key it belongs to.
pub uninterp spec fn pair_fits(certs: Seq<Seq<u8>>, key: (u8, Seq<u8>)) -> bool;

/// Whether a PEM text holds one certificate, and another its PKCS#8 key.
pub open spec fn is_pair(cert: Seq<char>, key: Seq<char>) -> bool {
    &&& pem_certs(cert) is Ok
    &&& pem_certs(cert)->Ok_0.len() == 1
    &&& pem_key(key) is Ok
    &&& pem_key(key)->Ok_0 is Some
    &&& pem_key(key)->Ok_0->Some_0.0 == 1
    &&& pair_fits(pem_certs(cert)->Ok_0, pem_key(key)->Ok_0->Some_0)
}

/// Calls `rcgen::generate_simple_self_signed`: a fresh certificate for the names,
/// and its key, each in PEM. The texts are chance; `rustls_pemfile` reads one
/// certificate and one PKCS#8 key from them, and the key is the certificate's. A text
/// that is an address is written as such, any other as a name.
#[verifier::external_body]
fn self_signed(sans: Vec<String>) -> (r: Result<(String, String), String>)
    ensures
        r is Ok ==> is_pair(r->Ok_0.0@, r->Ok_0.1@),
        r is Ok ==> certified_names(r->Ok_0.0@) == subjects(texts(sans@)),
{
    rcgen::generate_simple_self_signed(sans).map(
        |c| (c.cert.pem(), c.key_pair.serialize_pem()),
    ).map_err(|e| e.to_string())
}

/// Generates a self-signed certificate and key for some names.
pub fn generate_self_signed(sans: Vec<String>) -> (r: Result<(String, String), Error>)
    ensures
        match r {
            Ok((cert, key)) => is_pair(cert@, key@) && certified_names(cert@) == subjects(
                texts(sans@),
            ),
            Err(f) => exists|e: Seq<char>|
                f@ == Failure::Crypto(#[trigger] ("rcgen self-signed: "@ + e)),
        },
{
    match self_signed(sans) {
        Ok(p) => Ok(p),
        Err(e) => Err(Error::Crypto("rcgen self-signed: ".to_owned().concat(e.as_str()))),
    }
}

/// The certificate chain of a PEM text, given what a reader made of it.
pub open spec fn chain_of(read: Result<Seq<Seq<u8>>, Seq<char>>) -> Result<
    Seq<Seq<u8>>,
    Failure,
> {
    match read {
        Err(e) => Err(Failure::Crypto("parse cert pem: "@ + e)),
        Ok(certs) => if certs.len() == 0 {
            Err(Failure::Crypto("no certificates in PEM"@))
        } else {
            Ok(certs)
        },
    }
}

/// The certificate chain that a reader found.
pub fn chain_from(read: Result<Vec<Vec<u8>>, String>) -> (r: Result<Vec<Vec<u8>>, Error>)
    ensures
        fails_as(r, chain_of(certs_view(read))),
        r is Ok ==> chain_of(certs_view(read)) == Ok::<Seq<Seq<u8>>, Failure>(blobs(r->Ok_0@)),
{
    match read {
        Err(e) => Err(Error::Crypto("parse cert pem: ".to_owned().concat(e.as_str()))),
        Ok(certs) => if certs.len() == 0 {
            Err(Error::Crypto("no certificates in PEM".to_owned()))
        } else {
            Ok(certs)
        },
    }
}

/// Parses a PEM certificate chain.
pub fn parse_cert_chain(pem: &str) -> (r: Result<Vec<Vec<u8>>, Error>)
    ensures
        fails_as(r, chain_of(pem_certs(pem@))),
        r is Ok ==> chain_of(pem_certs(pem@)) == Ok::<Seq<Seq<u8>>, Failure>(blobs(r->Ok_0@)),
{
    let read = read_certs(pem);
    chain_from(read)
}

/// The private key of a PEM text, given what a reader made of it.
pub open spec fn private_key_of(read: Result<Option<(u8, Seq<u8>)>, Seq<char>>) -> Result<
    (u8, Seq<u8>),
    Failure,
> {
    match read {
        Err(e) => Err(Failure::Crypto("parse key pem: "@ + e)),
        Ok(None) => Err(Failure::Crypto("no private key in PEM"@)),
        Ok(Some(k)) => Ok(k),
    }
}

/// The private key that a reader found.
pub fn private_key_from(read: Result<Option<PrivateKey>, String>) -> (r: Result<
    PrivateKey,
    Error,
>)
    ensures
        fails_as(r, private_key_of(key_view(read))),
        r is Ok ==> private_key_of(key_view(read)) == Ok::<(u8, Seq<u8>), Failure>(r->Ok_0@),
{
    match read {
        Err(e) => Err(Error::Crypto("parse key pem: ".to_owned().concat(e.as_str()))),
        Ok(None) => Err(Error::Crypto("no private key in PEM".to_owned())),
        Ok(Some(k)) => Ok(k),
    }
}

/// Parses a PEM private key (PKCS#8, PKCS#1 or SEC1).
pub fn parse_private_key(pem: &str) -> (r: Result<PrivateKey, Error>)
    ensures
        fails_as(r, private_key_of(pem_key(pem@))),
        r is Ok ==> private_key_of(pem_key(pem@)) == Ok::<(u8, Seq<u8>), Failure>(r->Ok_0@),
{
    let read = read_key(pem);
    private_key_from(read)
}

/// The TLS settings of a server.
pub struct ServerTls {
    pub certs: Vec<Vec<u8>>,
    pub key: PrivateKey,
    /// The protocol name to offer.
    pub alpn: Vec<u8>,
    /// Whether only TLS 1.3 is allowed.
    pub tls13_only: bool,
}

pub struct ServerTlsView {
    pub certs: Seq<Seq<u8>>,
    pub key: (u8, Seq<u8>),
    pub alpn: Seq<u8>,
    pub tls13_only: bool,
}

impl View for ServerTls {
    type V = ServerTlsView;

    open spec fn view(&self) -> ServerTlsView {
        ServerTlsView {
            certs: blobs(self.certs@),
            key: self.key@,
            alpn: self.alpn@,
            tls13_only: self.tls13_only,
        }
    }
}

/// The TLS settings of a server, given what readers made of its PEM texts.
pub open spec fn server_tls(
    certs: Result<Seq<Seq<u8>>, Seq<char>>,
    key: Result<Option<(u8, Seq<u8>)>, Seq<char>>,
    tls13_only: bool,
) -> Result<ServerTlsView, Failure> {
    match chain_of(certs) {
        Err(f) => Err(f),
        Ok(certs) => match private_key_of(key) {
            Err(f) => Err(f),
            Ok(key) => Ok(
                ServerTlsView { certs, key, alpn: seq![101u8, 116u8, 49u8], tls13_only },
            ),
        },
    }
}

/// Whether `r` is `want`.
pub open spec fn is_server_tls(
    r: Result<ServerTls, Error>,
    want: Result<ServerTlsView, Failure>,
) -> bool {
    match want {
        Ok(t) => r is Ok && r->Ok_0@ == t,
        Err(f) => r is Err && r->Err_0@ == f,
    }
}

/// The TLS settings of a server, given what readers made of its PEM texts.
pub fn server_tls_from(
    certs: Result<Vec<Vec<u8>>, String>,
    key: Result<Option<PrivateKey>, String>,
    tls13_only: bool,
) -> (r: Result<ServerTls, Error>)
    ensures
        is_server_tls(r, server_tls(certs_view(certs), key_view(key), tls13_only)),
{
    let certs = match chain_from(certs) {
        Ok(c) => c,
        Err(e) => return Err(e),
    };
    let key = match private_key_from(key) {
        Ok(k) => k,
        Err(e) => return Err(e),
    };
    Ok(ServerTls { certs, key, alpn: alpn(), tls13_only })
}

#[verifier::external_type_specification]
#[verifier::external_body]
pub struct ExTlsServer(TlsServer);

#[verifier::external_type_specification]
#[verifier::external_body]
pub struct ExTlsClient(TlsClient);

#[verifier::external_type_specification]
#[verifier::external_body]
pub struct ExRootCertStore(rustls::RootCertStore);

/// What a server's configuration was made with.
pub uninterp spec fn server_setup(c: TlsServer) -> ServerTlsView;

/// Calls the builder of `rustls::ServerConfig`, with the ring provider and its
/// default protocol versions, up to `with_single_cert`, and sets the protocol names:
/// the configuration is made with just that. It fails if the key is not sound or not
/// that of the certificate. A sound key is loaded with help of the system's random
/// source, so success is not promised, nor which error comes.
#[verifier::external_body]
fn build_server(certs: Vec<Vec<u8>>, key: PrivateKey, alpn: Vec<u8>) -> (r: Result<
    TlsServer,
    String,
>)
    ensures
        r is Ok ==> pair_fits(blobs(certs@), key@),
        r is Ok ==> server_setup(r->Ok_0) == (ServerTlsView {
            certs: blobs(certs@),
            key: key@,
            alpn: alpn@,
            tls13_only: false,
        }),
{
    let key: PrivateKeyDer = match key {
        PrivateKey::Pkcs1(k) => PrivatePkcs1KeyDer::from(k).into(),
        PrivateKey::Pkcs8(k) => PrivatePkcs8KeyDer::from(k).into(),
        PrivateKey::Sec1(k) => PrivateSec1KeyDer::from(k).into(),
    };
    let certs = certs.into_iter().map(|c| c.into()).collect();
    let mut cfg = TlsServer::builder_with_provider(default_provider().into())
        .with_safe_default_protocol_versions()
        .and_then(|b| b.with_no_client_auth().with_single_cert(certs, key))
        .map_err(|e| e.to_string())?;
    cfg.alpn_protocols = vec![alpn];
    Ok(cfg)
}

/// Calls the builder of `rustls::ServerConfig` as [`build_server`] does, but with
/// TLS 1.3 as the only protocol version.
#[verifier::external_body]
fn build_server13(certs: Vec<Vec<u8>>, key: PrivateKey, alpn: Vec<u8>) -> (r: Result<
    TlsServer,
    String,
>)
    ensures
        r is Ok ==> pair_fits(blobs(certs@), key@),
        r is Ok ==> server_setup(r->Ok_0) == (ServerTlsView {
            certs: blobs(certs@),
            key: key@,
            alpn: alpn@,
            tls13_only: true,
        }),
{
    let key: PrivateKeyDer = match key {
        PrivateKey::Pkcs1(k) => PrivatePkcs1KeyDer::from(k).into(),
        PrivateKey::Pkcs8(k) => PrivatePkcs8KeyDer::from(k).into(),
        PrivateKey::Sec1(k) => PrivateSec1KeyDer::from(k).into(),
    };
    let certs = certs.into_iter().map(|c| c.into()).collect();
    let mut cfg = TlsServer::builder_with_provider(default_provider().into())
        .with_protocol_versions(&[&rustls::version::TLS13])
        .and_then(|b| b.with_no_client_auth().with_single_cert(certs, key))
        .map_err(|e| e.to_string())?;
    cfg.alpn_protocols = vec![alpn];
    Ok(cfg)
}

/// Whether `r` is a configuration made with the settings `plan`: it is refused as
/// the settings are, or with `what` and a reason, which there always is if the key
/// does not fit.
pub open spec fn is_server_config(
    r: Result<TlsServer, Error>,
    plan: Result<ServerTlsView, Failure>,
    what: Seq<char>,
) -> bool {
    match plan {
        Err(f) => r is Err && r->Err_0@ == f,
        Ok(t) => match r {
            Ok(c) => pair_fits(t.certs, t.key) && server_setup(c) == t,
            Err(x) => exists|e: Seq<char>| x@ == Failure::Crypto(#[trigger] (what + e)),
        },
    }
}

/// The outcome of building a configuration, with `what` before the reason of a
/// failure.
pub fn server_from(what: &str, built: Result<TlsServer, String>) -> (r: Result<
    TlsServer,
    Error,
>)
    ensures
        match built {
            Ok(c) => r == Ok::<TlsServer, Error>(c),
            Err(e) => r is Err && r->Err_0@ == Failure::Crypto(what@ + e@),
        },
{
    match built {
        Ok(c) => Ok(c),
        Err(e) => Err(Error::Crypto(what.to_owned().concat(e.as_str()))),
    }
}

/// The TLS configuration of a server with a PEM certificate and key.
pub fn server_config(cert_pem: &str, key_pem: &str) -> (r: Result<
    std::sync::Arc<TlsServer>,
    Error,
>)
    ensures
        is_server_config(
            match r {
                Ok(c) => Ok(*c),
                Err(e) => Err(e),
            },
            server_tls(pem_certs(cert_pem@), pem_key(key_pem@), false),
            "server tls config: "@,
        ),
{
    let certs = read_certs(cert_pem);
    let key = read_key(key_pem);
    match server_tls_from(certs, key, false) {
        Err(e) => Err(e),
        Ok(t) => match server_from(
            "server tls config: ",
            build_server(t.certs, t.key, t.alpn),
        ) {
            Ok(c) => Ok(std::sync::Arc::new(c)),
            Err(e) => Err(e),
        },
    }
}

/// The TLS configuration of a QUIC server, which allows TLS 1.3 only.
pub fn quic_server_config(cert_pem: &str, key_pem: &str) -> (r: Result<
    TlsServer,
    Error,
>)
    ensures
        is_server_config(
            r,
            server_tls(pem_certs(cert_pem@), pem_key(key_pem@), true),
            "quic server tls config: "@,
        ),
{
    let certs = read_certs(cert_pem);
    let key = read_key(key_pem);
    match server_tls_from(certs, key, true) {
        Err(e) => Err(e),
        Ok(t) => server_from("quic server tls config: ", build_server13(t.certs, t.key, t.alpn)),
    }
}

/// A certificate and key that were generated for a server make settings that it can
/// use: the key fits the certificate.
pub proof fn law_generated_pair_is_usable(cert: Seq<char>, key: Seq<char>, tls13_only: bool)
    requires
        is_pair(cert, key),
    ensures
        server_tls(pem_certs(cert), pem_key(key), tls13_only) is Ok,
        ({
            let t = server_tls(pem_certs(cert), pem_key(key), tls13_only)->Ok_0;
            pair_fits(t.certs, t.key)
        }),
{
}

/// The trust anchor in a certificate: its subject, its public key and its name
/// constraints, if any; or what is wrong with the certificate.
pub uninterp spec fn anchor(cert: Seq<u8>) -> Result<
    (Seq<u8>, Seq<u8>, Option<Seq<u8>>),
    Seq<char>,
>;

/// The trust anchors in a store, each as [`anchor`] has it.
pub uninterp spec fn roots(s: rustls::RootCertStore) -> Seq<
    (Seq<u8>, Seq<u8>, Option<Seq<u8>>),
>;

/// Trust anchors, and after them those of the public authorities.
pub uninterp spec fn with_public(before: Seq<(Seq<u8>, Seq<u8>, Option<Seq<u8>>)>) -> Seq<
    (Seq<u8>, Seq<u8>, Option<Seq<u8>>),
>;

/// What a client's configuration was made with: the trust anchors, the protocol name
/// and whether only TLS 1.3 is allowed.
pub uninterp spec fn client_setup(c: TlsClient) -> (
    Seq<(Seq<u8>, Seq<u8>, Option<Seq<u8>>)>,
    Seq<u8>,
    bool,
);

/// Calls `rustls::RootCertStore::empty`: a store with nothing in it.
#[verifier::external_body]
fn empty_roots() -> (r: rustls::RootCertStore)
    ensures
        roots(r).len() == 0,
{
    rustls::RootCertStore::empty()
}

/// Calls `rustls::RootCertStore::add`: the certificate's anchor goes to the end, or
/// the text of the error is returned and the store stays as it was. Both depend on the
/// certificate alone.
#[verifier::external_body]
fn add_root(s: &mut rustls::RootCertStore, cert: Vec<u8>) -> (r: Result<(), String>)
    ensures
        match anchor(cert@) {
            Ok(a) => r is Ok && roots(*final(s)) == roots(*old(s)).push(a),
            Err(e) => r is Err && r->Err_0@ == e && roots(*final(s)) == roots(*old(s)),
        },
{
    s.add(cert.into()).map_err(|e| e.to_string())
}

/// Calls `extend` of `rustls::RootCertStore` with the authorities that
/// `webpki_roots::TLS_SERVER_ROOTS` lists: they go to the end.
#[verifier::external_body]
fn add_public(s: &mut rustls::RootCertStore)
    ensures
        roots(*final(s)) == with_public(roots(*old(s))),
{
    s.extend(webpki_roots::TLS_SERVER_ROOTS.iter().cloned());
}

/// Calls the builder of `rustls::ClientConfig`, with the ring provider and its
/// default protocol versions, and sets the protocol names: the configuration is made
/// with just that. The provider has cipher suites of these versions, so that there is
/// no failure.
#[verifier::external_body]
fn build_client(store: rustls::RootCertStore, alpn: Vec<u8>) -> (r: TlsClient)
    ensures
        client_setup(r) == (roots(store), alpn@, false),
{
    let mut cfg = TlsClient::builder_with_provider(default_provider().into())
        .with_safe_default_protocol_versions()
        .unwrap()
        .with_root_certificates(store)
        .with_no_client_auth();
    cfg.alpn_protocols = vec![alpn];
    cfg
}

/// Calls the builder of `rustls::ClientConfig` as [`build_client`] does, but with
/// TLS 1.3 as the only protocol version.
#[verifier::external_body]
fn build_client13(store: rustls::RootCertStore, alpn: Vec<u8>) -> (r: TlsClient)
    ensures
        client_setup(r) == (roots(store), alpn@, true),
{
    let mut cfg = TlsClient::builder_with_provider(default_provider().into())
        .with_protocol_versions(&[&rustls::version::TLS13])
        .unwrap()
        .with_root_certificates(store)
        .with_no_client_auth();
    cfg.alpn_protocols = vec![alpn];
    cfg
}

/// The trust anchors in some certificates, in order, or what is wrong with the first
/// certificate that has none.
pub open spec fn anchors(certs: Seq<Seq<u8>>) -> Result<
    Seq<(Seq<u8>, Seq<u8>, Option<Seq<u8>>)>,
    Seq<char>,
>
    decreases certs.len(),
{
    if certs.len() == 0 {
        Ok(Seq::empty())
    } else {
        match anchors(certs.drop_last()) {
            Err(e) => Err(e),
            Ok(before) => match anchor(certs.last()) {
                Err(e) => Err(e),
                Ok(a) => Ok(before.push(a)),
            },
        }
    }
}

/// What comes before the first certificate without an anchor decides.
proof fn lemma_anchors_fail_early(certs: Seq<Seq<u8>>, n: int)
    requires
        0 <= n <= certs.len(),
        anchors(certs.take(n)) is Err,
    ensures
        anchors(certs) == anchors(certs.take(n)),
    decreases certs.len(),
{
    if n < certs.len() {
        assert(certs.drop_last().take(n) =~= certs.take(n));
        lemma_anchors_fail_early(certs.drop_last(), n);
    } else {
        assert(certs.take(n) =~= certs);
    }
}

/// Whom a client trusts that checks certificates, given what a reader made of the
/// pinned one.
pub open spec fn trust_of(pinned: Option<Result<Seq<Seq<u8>>, Seq<char>>>) -> Result<
    Seq<(Seq<u8>, Seq<u8>, Option<Seq<u8>>)>,
    Failure,
> {
    match pinned {
        None => Ok(with_public(Seq::empty())),
        Some(read) => match chain_of(read) {
            Err(f) => Err(f),
            Ok(certs) => match anchors(certs) {
                Err(e) => Err(Failure::Crypto("add pinned cert: "@ + e)),
                Ok(a) => Ok(a),
            },
        },
    }
}

/// What the pinned certificate's text reads as.
pub open spec fn pinned_read(pem: Option<&str>) -> Option<Result<Seq<Seq<u8>>, Seq<char>>> {
    match pem {
        Some(p) => Some(pem_certs(p@)),
        None => None,
    }
}

/// The failure to trust a pinned certificate, with its reason.
pub fn pin_failure(e: String) -> (r: Error)
    ensures
        r@ == Failure::Crypto("add pinned cert: "@ + e@),
{
    Error::Crypto("add pinned cert: ".to_owned().concat(e.as_str()))
}

/// A store of just the trust anchors in some certificates.
pub fn pinned_roots(certs: Vec<Vec<u8>>) -> (r: Result<rustls::RootCertStore, Error>)
    ensures
        match anchors(blobs(certs@)) {
            Ok(a) => r is Ok && roots(r->Ok_0) == a,
            Err(e) => r is Err && r->Err_0@ == Failure::Crypto("add pinned cert: "@ + e),
        },
{
    let ghost all = blobs(certs@);
    let mut store = empty_roots();
    let mut i: usize = 0;
    assert(all.take(0) =~= Seq::<Seq<u8>>::empty());
    assert(roots(store) =~= Seq::empty());
    while i < certs.len()
        invariant
            i <= certs.len(),
            all == blobs(certs@),
            anchors(all.take(i as int)) == Ok::<_, Seq<char>>(roots(store)),
        decreases certs.len() - i,
    {
        let cert = certs[i].clone();
        assert(cert@ == all[i as int]);
        assert(all.take(i + 1).drop_last() =~= all.take(i as int));
        assert(all.take(i + 1).last() == cert@);
        match add_root(&mut store, cert) {
            Ok(_) => {},
            Err(e) => {
                proof {
                    lemma_anchors_fail_early(all, i + 1);
                }
                return Err(pin_failure(e));
            },
        }
        i += 1;
    }
    assert(all.take(i as int) =~= all);
    Ok(store)
}

/// Whom a client trusts that checks certificates: only a pinned certificate, else
/// whoever the public authorities vouch for.
pub fn client_roots(pinned_pem: Option<&str>) -> (r: Result<rustls::RootCertStore, Error>)
    ensures
        match trust_of(pinned_read(pinned_pem)) {
            Ok(t) => r is Ok && roots(r->Ok_0) == t,
            Err(f) => r is Err && r->Err_0@ == f,
        },
{
    match pinned_pem {
        Some(pem) => match parse_cert_chain(pem) {
            Ok(certs) => pinned_roots(certs),
            Err(e) => Err(e),
        },
        None => {
            let mut store = empty_roots();
            assert(roots(store) =~= Seq::empty());
            add_public(&mut store);
            Ok(store)
        },
    }
}

/// The TLS configuration of a client.
pub enum ClientTls {
    /// It checks the server's certificate.
    Checked(TlsClient),
    /// It accepts any certificate.
    Unchecked {
        /// The protocol name to offer.
        alpn: Vec<u8>,
        /// Whether only TLS 1.3 is allowed.
        tls13_only: bool,
    },
}

/// Whether `r` is the TLS configuration of a client that skips verification or, if
/// not, trusts as `want` says.
pub open spec fn is_client_tls(
    r: Result<ClientTls, Error>,
    skip_verify: bool,
    want: Result<Seq<(Seq<u8>, Seq<u8>, Option<Seq<u8>>)>, Failure>,
    only13: bool,
) -> bool {
    let name = seq![101u8, 116u8, 49u8];
    if skip_verify {
        r matches Ok(ClientTls::Unchecked { alpn, tls13_only }) && alpn@ == name && tls13_only
            == only13
    } else {
        match want {
            Ok(t) => r matches Ok(ClientTls::Checked(c)) && client_setup(c) == (t, name, only13),
            Err(f) => r is Err && r->Err_0@ == f,
        }
    }
}

/// The TLS configuration of a client.
pub fn client_config(skip_verify: bool, pinned_pem: Option<&str>) -> (r: Result<ClientTls, Error>)
    ensures
        is_client_tls(r, skip_verify, trust_of(pinned_read(pinned_pem)), false),
{
    if skip_verify {
        return Ok(ClientTls::Unchecked { alpn: alpn(), tls13_only: false });
    }
    match client_roots(pinned_pem) {
        Err(e) => Err(e),
        Ok(store) => Ok(ClientTls::Checked(build_client(store, alpn()))),
    }
}

/// The TLS configuration of a QUIC client, which allows TLS 1.3 only.
pub fn quic_client_config(skip_verify: bool, pinned_pem: Option<&str>) -> (r: Result<
    ClientTls,
    Error,
>)
    ensures
        is_client_tls(r, skip_verify, trust_of(pinned_read(pinned_pem)), true),
{
    if skip_verify {
        return Ok(ClientTls::Unchecked { alpn: alpn(), tls13_only: true });
    }
    match client_roots(pinned_pem) {
        Err(e) => Err(e),
        Ok(store) => Ok(ClientTls::Checked(build_client13(store, alpn()))),
    }
}

/// A certificate file gives all its certificates in their order; an empty one is an error.
pub proof fn law_certificate_chains(certs: Seq<Seq<u8>>, e: Seq<char>)
    ensures
        certs.len() > 0 ==> chain_of(Ok(certs)) == Ok::<Seq<Seq<u8>>, Failure>(certs),
        certs.len() == 0 ==> chain_of(Ok(certs)) == Err::<Seq<Seq<u8>>, Failure>(
            Failure::Crypto("no certificates in PEM"@),
        ),
        chain_of(Err(e)) == Err::<Seq<Seq<u8>>, Failure>(
            Failure::Crypto("parse cert pem: "@ + e),
        ),
{
}

/// A key file gives its key; one without a key is an error.
pub proof fn law_private_keys(k: (u8, Seq<u8>), e: Seq<char>)
    ensures
        private_key_of(Ok(Some(k))) == Ok::<(u8, Seq<u8>), Failure>(k),
        private_key_of(Ok(None)) == Err::<(u8, Seq<u8>), Failure>(
            Failure::Crypto("no private key in PEM"@),
        ),
        private_key_of(Err(e)) == Err::<(u8, Seq<u8>), Failure>(
            Failure::Crypto("parse key pem: "@ + e),
        ),
{
}

/// A server presents its whole chain with its key and speaks `et1`.
pub proof fn law_server_tls(certs: Seq<Seq<u8>>, key: (u8, Seq<u8>), tls13_only: bool)
    requires
        certs.len() > 0,
    ensures
        ({
            let r = server_tls(Ok(certs), Ok(Some(key)), tls13_only);
            &&& r is Ok
            &&& r->Ok_0.certs == certs
            &&& r->Ok_0.key == key
            &&& r->Ok_0.alpn == seq![101u8, 116, 49]
            &&& r->Ok_0.tls13_only == tls13_only
        }),
{
}

/// A client without a pinned certificate trusts the public authorities. One with a pinned
/// certificate trusts that alone, and nothing if it cannot be read.
pub proof fn law_trust(certs: Seq<Seq<u8>>, e: Seq<char>)
    ensures
        trust_of(None) == Ok::<Seq<(Seq<u8>, Seq<u8>, Option<Seq<u8>>)>, Failure>(
            with_public(Seq::empty()),
        ),
        certs.len() > 0 && anchors(certs) is Ok ==> trust_of(Some(Ok(certs))) == Ok::<
            Seq<(Seq<u8>, Seq<u8>, Option<Seq<u8>>)>,
            Failure,
        >(anchors(certs)->Ok_0),
        certs.len() > 0 && anchors(certs) is Err ==> trust_of(Some(Ok(certs))) == Err::<
            Seq<(Seq<u8>, Seq<u8>, Option<Seq<u8>>)>,
            Failure,
        >(Failure::Crypto("add pinned cert: "@ + anchors(certs)->Err_0)),
        certs.len() == 0 ==> trust_of(Some(Ok(certs))) == Err::<
            Seq<(Seq<u8>, Seq<u8>, Option<Seq<u8>>)>,
            Failure,
        >(Failure::Crypto("no certificates in PEM"@)),
        trust_of(Some(Err(e))) == Err::<Seq<(Seq<u8>, Seq<u8>, Option<Seq<u8>>)>, Failure>(
            Failure::Crypto("parse cert pem: "@ + e),
        ),
{
}

/// Pinned certificates are trusted one for one, in their order; one that is none spoils
/// them all.
pub proof fn law_anchors(certs: Seq<Seq<u8>>, i: int)
    requires
        0 <= i < certs.len(),
    ensures
        anchors(certs) is Ok ==> anchors(certs)->Ok_0.len() == certs.len(),
        anchors(certs) is Ok ==> anchor(certs[i]) is Ok && anchors(certs)->Ok_0[i] == anchor(
            certs[i],
        )->Ok_0,
        anchor(certs[i]) is Err ==> anchors(certs) is Err,
    decreases certs.len(),
{
    let rest = certs.drop_last();
    if rest.len() > 0 {
        law_anchors(
            rest,
            if i < rest.len() {
                i
            } else {
                0
            },
        );
    } else {
        assert(anchors(rest)->Ok_0.len() == 0);
    }
    if i < rest.len() {
        assert(rest[i] == certs[i]);
    }
}

/// A client checks the server's certificate against what it trusts unless it was told to
/// skip that, and speaks `et1` either way.
pub proof fn law_client_tls(
    r: Result<ClientTls, Error>,
    skip_verify: bool,
    want: Result<Seq<(Seq<u8>, Seq<u8>, Option<Seq<u8>>)>, Failure>,
    only13: bool,
)
    requires
        is_client_tls(r, skip_verify, want, only13),
    ensures
        !skip_verify && want is Ok ==> r is Ok && r->Ok_0 is Checked && client_setup(
            r->Ok_0->Checked_0,
        ) == (want->Ok_0, seq![101u8, 116u8, 49u8], only13),
        !skip_verify && want is Err ==> r is Err && r->Err_0@ == want->Err_0,
        skip_verify ==> r is Ok && r->Ok_0 is Unchecked,
        skip_verify ==> r->Ok_0->alpn@ == seq![101u8, 116u8, 49u8],
        skip_verify ==> r->Ok_0->tls13_only == only13,
{
}

}
