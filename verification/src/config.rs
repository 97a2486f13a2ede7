//! Configuration shared by both ends of a link, and key material.

use vstd::prelude::*;
use vstd::string::*;

use crate::error::{fails_as, Error, Failure};
use crate::text::{decimal, decimal_text, lemma_trimmed_fixed, trim, trimmed};

verus! {

/// Which transport a link uses.
#[derive(Clone, Copy, Debug, PartialEq, Eq, Structural)]
pub enum TransportKind {
    /// Raw TCP, encrypted with Noise.
    Tcp,
    /// WebSocket over TLS.
    Ws,
    /// QUIC.
    Quic,
}

impl TransportKind {
    /// The name of the transport.
    pub open spec fn name(self) -> Seq<char> {
        match self {
            TransportKind::Tcp => "tcp"@,
            TransportKind::Ws => "ws"@,
            TransportKind::Quic => "quic"@,
        }
    }

    /// The name of the transport.
    pub fn to_text(&self) -> (r: String)
        ensures
            r@ == self.name(),
    {
        match self {
            TransportKind::Tcp => "tcp".to_owned(),
            TransportKind::Ws => "ws".to_owned(),
            TransportKind::Quic => "quic".to_owned(),
        }
    }
}

/// What the client asks the server to do for a session.
#[derive(Clone, Copy, Debug, PartialEq, Eq, Structural)]
pub enum SessionMode {
    /// Capture all traffic and send it out through the server.
    GlobalProxy,
    /// Point the system proxy at the local listener.
    SystemProxy,
    /// Proxy only what is sent to the local listener.
    HttpProxy,
    /// Virtual LAN: reach other peers on the same server by address.
    Vpn,
}

/// The mode that the server sees.
pub open spec fn on_the_wire(m: SessionMode) -> SessionMode {
    if m == SessionMode::SystemProxy {
        SessionMode::HttpProxy
    } else {
        m
    }
}

/// Whether a mode carries proxy streams rather than raw packets.
pub open spec fn carries_streams(m: SessionMode) -> bool {
    m == SessionMode::HttpProxy || m == SessionMode::SystemProxy
}

impl SessionMode {
    /// The mode that the server sees. `SystemProxy` concerns the client alone: on
    /// the link it is `HttpProxy`.
    pub fn wire(self) -> (r: SessionMode)
        ensures
            r == on_the_wire(self),
    {
        match self {
            SessionMode::SystemProxy => SessionMode::HttpProxy,
            other => other,
        }
    }

    /// Whether the mode carries proxy streams rather than raw packets.
    pub fn is_stream(self) -> (r: bool)
        ensures
            r == carries_streams(self),
    {
        matches!(self, SessionMode::HttpProxy | SessionMode::SystemProxy)
    }

    /// The name of the mode.
    pub open spec fn name(self) -> Seq<char> {
        match self {
            SessionMode::GlobalProxy => "global_proxy"@,
            SessionMode::SystemProxy => "system_proxy"@,
            SessionMode::HttpProxy => "http_proxy"@,
            SessionMode::Vpn => "vpn"@,
        }
    }

    /// The name of the mode.
    pub fn to_text(&self) -> (r: String)
        ensures
            r@ == self.name(),
    {
        match self {
            SessionMode::GlobalProxy => "global_proxy".to_owned(),
            SessionMode::SystemProxy => "system_proxy".to_owned(),
            SessionMode::HttpProxy => "http_proxy".to_owned(),
            SessionMode::Vpn => "vpn".to_owned(),
        }
    }
}

/// The server never sees `SystemProxy`, sending a mode twice changes nothing
/// more, and whether a mode carries streams is the same on both ends.
pub proof fn law_wire_mode(m: SessionMode)
    ensures
        on_the_wire(m) != SessionMode::SystemProxy,
        on_the_wire(on_the_wire(m)) == on_the_wire(m),
        carries_streams(on_the_wire(m)) == carries_streams(m),
{
}

/// The standard base64 text of some bytes.
pub uninterp spec fn base64_text(b: Seq<u8>) -> Seq<char>;

/// The bytes that a standard base64 text writes, or what is wrong with it.
pub uninterp spec fn base64_bytes(s: Seq<char>) -> Result<Seq<u8>, Seq<char>>;

/// Whether `c` may stand in standard base64 text.
pub open spec fn is_base64(c: char) -> bool {
    ('A' <= c <= 'Z') || ('a' <= c <= 'z') || ('0' <= c <= '9') || c == '+' || c == '/' || c == '='
}

/// Calls `encode` of `base64::engine::general_purpose::STANDARD`: the text
/// depends on the bytes alone, is made of the base64 alphabet and padding, and
/// `decode` of the same engine gives the bytes back. The bound keeps the text
/// within what one allocation can hold.
#[verifier::external_body]
pub(crate) fn base64_encode(b: &[u8]) -> (r: String)
    requires
        fits_base64(b@),
    ensures
        r@ == base64_text(b@),
        base64_bytes(r@) is Ok && base64_bytes(r@)->Ok_0 == b@,
        forall|i: int| 0 <= i < r@.len() ==> is_base64(#[trigger] r@[i]),
{
    base64::Engine::encode(&base64::engine::general_purpose::STANDARD, b)
}

/// Base64 text in the URL-safe alphabet: `-` and `_` stand for `+` and `/`.
pub open spec fn url_safe(s: Seq<char>) -> Seq<char> {
    s.map_values(
        |c: char|
            if c == '+' {
                '-'
            } else if c == '/' {
                '_'
            } else {
                c
            },
    )
}

/// Base64 text without the padding at its end.
pub open spec fn unpadded(s: Seq<char>) -> Seq<char>
    decreases s.len(),
{
    if s.len() > 0 && s.last() == '=' {
        unpadded(s.drop_last())
    } else {
        s
    }
}

/// Whether `b` is short enough to be written as base64 text.
pub open spec fn fits_base64(b: Seq<u8>) -> bool {
    b.len() <= isize::MAX / 4 * 3
}

/// Calls `decode` of `base64::engine::general_purpose::STANDARD`: its bytes, or
/// the text of its error, depend on the text alone. It reads nothing that is not
/// padded or not in its alphabet, so a text in the URL-safe alphabet, padded or not,
/// reads as what it stands for if it reads at all.
#[verifier::external_body]
pub(crate) fn base64_decode(s: &str) -> (r: Result<Vec<u8>, String>)
    ensures
        forall|b: Seq<u8>|
            fits_base64(b) && s@ == #[trigger] base64_text(b) ==> r is Ok && r->Ok_0@ == b,
        forall|b: Seq<u8>|
            fits_base64(b) && (s@ == url_safe(#[trigger] base64_text(b)) || s@ == unpadded(
                url_safe(base64_text(b)),
            )) && r is Ok ==> r->Ok_0@ == b,
        match base64_bytes(s@) {
            Ok(b) => r is Ok && r->Ok_0@ == b,
            Err(e) => r is Err && r->Err_0@ == e,
        },
{
    base64::Engine::decode(&base64::engine::general_purpose::STANDARD, s).map_err(|e| e.to_string())
}

/// Calls `rand::thread_rng().fill_bytes`: 32 bytes of chance.
#[verifier::external_body]
fn random_key() -> [u8; 32] {
    let mut key = [0u8; 32];
    rand::RngCore::fill_bytes(&mut rand::thread_rng(), &mut key);
    key
}

/// Whether `c` is a digit of a lower-case hexadecimal number.
pub open spec fn is_hex(c: char) -> bool {
    ('0' <= c <= '9') || ('a' <= c <= 'f')
}

/// Whether `s` has the form of a random UUID: 32 lower-case hexadecimal digits
/// in groups of 8, 4, 4, 4 and 12 with hyphens between, the third group
/// starting with a 4 and the fourth with an 8, 9, a or b.
pub open spec fn is_uuid_text(s: Seq<char>) -> bool {
    &&& s.len() == 36
    &&& s[14] == '4'
    &&& s[19] == '8' || s[19] == '9' || s[19] == 'a' || s[19] == 'b'
    &&& forall|i: int| 0 <= i < 36 ==> if i == 8 || i == 13 || i == 18 || i == 23 {
        #[trigger] s[i] == '-'
    } else {
        is_hex(s[i])
    }
}

/// Calls `to_string` of `uuid::Uuid::new_v4()`: a text of chance in the form of
/// a random UUID.
#[verifier::external_body]
fn random_uuid_text() -> (r: String)
    ensures
        is_uuid_text(r@),
{
    uuid::Uuid::new_v4().to_string()
}

/// Calls `as_u128` of `uuid::Uuid::new_v4()`: a number of chance.
#[verifier::external_body]
pub(crate) fn random_session_id() -> u128 {
    uuid::Uuid::new_v4().as_u128()
}

/// The key that decoded key text stands for, or why there is none.
pub open spec fn key_of(decoded: Result<Seq<u8>, Seq<char>>) -> Result<Seq<u8>, Failure> {
    match decoded {
        Err(e) => Err(Failure::Config("invalid psk base64: "@ + e)),
        Ok(b) => if b.len() != 32 {
            Err(Failure::Config("psk must be 32 bytes, got "@ + decimal(b.len())))
        } else {
            Ok(b)
        },
    }
}

/// The key that a key text stands for: 32 bytes in base64, with white space
/// around it ignored.
pub open spec fn psk_of(s: Seq<char>) -> Result<Seq<u8>, Failure> {
    key_of(base64_bytes(trimmed(s)))
}

/// The view of what a decoder returned.
pub open spec fn decoded_view(d: Result<Vec<u8>, String>) -> Result<Seq<u8>, Seq<char>> {
    match d {
        Ok(b) => Ok(b@),
        Err(e) => Err(e@),
    }
}

/// Whether a text is the base64 text of 32 bytes.
pub open spec fn is_psk_text(s: Seq<char>) -> bool {
    exists|k: Seq<u8>| k.len() == 32 && s == #[trigger] base64_text(k)
}

/// A key as text. `parse_psk` gives the key back.
pub fn psk_text(key: &[u8; 32]) -> (r: String)
    ensures
        r@ == base64_text(key@),
        psk_of(r@) == Ok::<Seq<u8>, Failure>(key@),
{
    let r = base64_encode(key.as_slice());
    proof {
        if r@.len() > 0 {
            assert(is_base64(r@[0]));
            assert(is_base64(r@[r@.len() - 1]));
        }
        lemma_trimmed_fixed(r@);
    }
    r
}

/// A fresh base64 key of 32 random bytes. It is always one that `parse_psk`
/// accepts.
pub fn generate_psk() -> (r: String)
    ensures
        is_psk_text(r@),
        psk_of(r@) is Ok,
{
    let key = random_key();
    let r = psk_text(&key);
    assert(key@.len() == 32);
    r
}

/// The key that decoded key text stands for.
pub fn key_from_decoded(decoded: Result<Vec<u8>, String>) -> (r: Result<[u8; 32], Error>)
    ensures
        fails_as(r, key_of(decoded_view(decoded))),
        r is Ok ==> key_of(decoded_view(decoded)) == Ok::<Seq<u8>, Failure>(r->Ok_0@),
{
    let bytes = match decoded {
        Ok(b) => b,
        Err(e) => return Err(
            Error::Config("invalid psk base64: ".to_owned().concat(e.as_str())),
        ),
    };
    if bytes.len() != 32 {
        let n = decimal_text(bytes.len() as u64);
        return Err(Error::Config("psk must be 32 bytes, got ".to_owned().concat(n.as_str())));
    }
    let mut key: [u8; 32] = [0u8;32];
    for i in 0..32
        invariant
            bytes@.len() == 32,
            key@.len() == 32,
            forall|j: int| 0 <= j < i ==> key@[j] == bytes@[j],
    {
        key[i] = bytes[i];
    }
    assert(key@ =~= bytes@);
    Ok(key)
}

/// Decodes a base64 key into its 32 bytes.
pub fn parse_psk(s: &str) -> (r: Result<[u8; 32], Error>)
    ensures
        fails_as(r, psk_of(s@)),
        r is Ok ==> psk_of(s@) == Ok::<Seq<u8>, Failure>(r->Ok_0@),
{
    let t = trim(s);
    let decoded = base64_decode(t.as_str());
    key_from_decoded(decoded)
}

/// A random client token, used as the pre-shared identity.
pub fn generate_token() -> (r: String)
    ensures
        is_uuid_text(r@),
{
    random_uuid_text()
}

/// How the server sees a mode: as it is, but for the system proxy, which is an HTTP proxy
/// to it. Both of those carry streams; the others carry packets.
pub proof fn law_modes()
    ensures
        on_the_wire(SessionMode::GlobalProxy) == SessionMode::GlobalProxy,
        on_the_wire(SessionMode::SystemProxy) == SessionMode::HttpProxy,
        on_the_wire(SessionMode::HttpProxy) == SessionMode::HttpProxy,
        on_the_wire(SessionMode::Vpn) == SessionMode::Vpn,
        carries_streams(SessionMode::HttpProxy),
        carries_streams(SessionMode::SystemProxy),
        !carries_streams(SessionMode::GlobalProxy),
        !carries_streams(SessionMode::Vpn),
{
}

/// The names of the modes and the transports.
pub proof fn law_names()
    ensures
        SessionMode::GlobalProxy.name() == "global_proxy"@,
        SessionMode::SystemProxy.name() == "system_proxy"@,
        SessionMode::HttpProxy.name() == "http_proxy"@,
        SessionMode::Vpn.name() == "vpn"@,
        TransportKind::Tcp.name() == "tcp"@,
        TransportKind::Ws.name() == "ws"@,
        TransportKind::Quic.name() == "quic"@,
{
}

/// A token is a random identifier in its usual form: 36 characters, hyphens at four places,
/// lower-case hexadecimal digits elsewhere, the version 4.
pub proof fn law_tokens(s: Seq<char>, i: int)
    requires
        is_uuid_text(s),
    ensures
        s.len() == 36,
        s[8] == '-' && s[13] == '-' && s[18] == '-' && s[23] == '-',
        s[14] == '4',
        0 <= i < 36 && i != 8 && i != 13 && i != 18 && i != 23 ==> '0' <= s[i] <= '9' || 'a'
            <= s[i] <= 'f',
{
    assert(s[8] == '-');
    assert(s[13] == '-');
    assert(s[18] == '-');
    assert(s[23] == '-');
    if 0 <= i < 36 && i != 8 && i != 13 && i != 18 && i != 23 {
        assert(is_hex(s[i]));
    }
}

}
