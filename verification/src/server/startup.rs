//! What the server settles before it listens.

use vstd::prelude::*;
use vstd::string::*;

use super::config::{prefix_of, tls_material, tls_source, ServerConfig, TlsSource};
use crate::addr::ipv4_net_parsed;
use crate::config::{parse_psk, psk_of};
use crate::crypto::tls::{certified_names, generate_self_signed, is_pair, subjects};
use crate::error::{Error, Failure};

verus! {

/// What a configuration comes to.
pub struct Prepared {
    /// Prefix length of the virtual subnet.
    pub prefix: u8,
    /// Key of the Noise channel.
    pub noise_psk: [u8; 32],
}

/// Why a configuration is refused.
pub enum Refused {
    Subnet(Error),
    NoisePsk(Error),
}

/// Checks a configuration: the subnet first, then the key.
pub fn prepare(cfg: &ServerConfig) -> (r: Result<Prepared, Refused>)
    ensures
        match prefix_of(cfg.network.subnet@, ipv4_net_parsed(cfg.network.subnet@)) {
            Err(f) => r is Err && r->Err_0 is Subnet && r->Err_0->Subnet_0@ == f,
            Ok(prefix) => match psk_of(cfg.security.noise_psk@) {
                Err(f) => r is Err && r->Err_0 is NoisePsk && r->Err_0->NoisePsk_0@ == f,
                Ok(psk) => {
                    &&& r is Ok
                    &&& r->Ok_0.prefix == prefix
                    &&& r->Ok_0.noise_psk@ == psk
                },
            },
        },
{
    let prefix: u8 = match cfg.prefix_len() {
        Ok(p) => p,
        Err(e) => return Err(Refused::Subnet(e)),
    };
    match parse_psk(cfg.security.noise_psk.as_str()) {
        Ok(noise_psk) => Ok(Prepared { prefix, noise_psk }),
        Err(e) => Err(Refused::NoisePsk(e)),
    }
}

/// The names that a self-signed certificate is made for.
pub open spec fn own_names() -> Seq<Seq<char>> {
    Seq::empty().push("entrotunnel"@).push("localhost"@)
}

/// The names that a self-signed certificate is made for.
pub fn self_signed_names() -> (r: Vec<String>)
    ensures
        crate::text::texts(r@) == own_names(),
{
    let r = vec!["entrotunnel".to_owned(), "localhost".to_owned()];
    assert(crate::text::texts(r@) =~= own_names());
    r
}

/// A server's certificate and key.
pub enum TlsPair {
    /// What the configured files hold.
    InFiles,
    /// None is needed.
    Unused,
    /// These, from an earlier start.
    Kept(String, String),
    /// These, which are new and have to be saved.
    Made(String, String),
}

/// A server's certificate and key; `saved` are those from an earlier start, if there
/// are any. What an earlier start saved is used unchanged.
pub fn tls_pair(cfg: &ServerConfig, saved: Option<(String, String)>) -> (r: Result<TlsPair, Error>)
    ensures
        match tls_source(
            cfg.security.tls_cert_path,
            cfg.security.tls_key_path,
            cfg.listeners@,
            saved is Some,
        ) {
            TlsSource::Files => r == Ok::<TlsPair, Error>(TlsPair::InFiles),
            TlsSource::NotNeeded => r == Ok::<TlsPair, Error>(TlsPair::Unused),
            TlsSource::Saved => r == Ok::<TlsPair, Error>(
                TlsPair::Kept(saved->Some_0.0, saved->Some_0.1),
            ),
            TlsSource::SelfSigned => match r {
                Ok(TlsPair::Made(cert, key)) => is_pair(cert@, key@) && certified_names(cert@)
                    == subjects(own_names()),
                Ok(_) => false,
                Err(f) => exists|e: Seq<char>|
                    f@ == Failure::Crypto(#[trigger] ("rcgen self-signed: "@ + e)),
            },
        },
{
    match tls_material(cfg, saved.is_some()) {
        TlsSource::Files => Ok(TlsPair::InFiles),
        TlsSource::NotNeeded => Ok(TlsPair::Unused),
        TlsSource::Saved => match saved {
            Some((cert, key)) => Ok(TlsPair::Kept(cert, key)),
            None => Ok(TlsPair::Unused),
        },
        TlsSource::SelfSigned => match generate_self_signed(self_signed_names()) {
            Ok((cert, key)) => Ok(TlsPair::Made(cert, key)),
            Err(e) => Err(e),
        },
    }
}

}
