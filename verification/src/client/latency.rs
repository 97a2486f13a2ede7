//! Measuring how far away a server is. A probe never says hello, so it opens no
//! session and disturbs none.

use vstd::prelude::*;
use vstd::string::*;

use super::chain::{dials, endpoint_of, secures, security_of};
use super::config::ServerEntry;
use crate::config::{psk_of, TransportKind};
use crate::error::{Error, Failure};
use crate::transport::{ClientSecurity, Endpoint};

verus! {

/// What to time.
pub enum Probe {
    /// Connecting to a TCP port.
    Tcp { host: String, port: u16 },
    /// The handshake of a QUIC connection.
    Quic { endpoint: Endpoint, security: ClientSecurity },
}

/// What to time for a server: connecting to its port where it has a TCP port, the
/// handshake where it has none. Only the latter needs the key.
pub fn probe_of(server: &ServerEntry) -> (r: Result<Probe, Error>)
    ensures
        is_probe(*server, r),
        match server.transport {
            TransportKind::Quic => match psk_of(server.noise_psk@) {
                Ok(psk) => {
                    &&& r is Ok
                    &&& r->Ok_0 is Quic
                    &&& dials(r->Ok_0->endpoint, *server)
                    &&& secures(r->Ok_0->security, *server, psk)
                },
                Err(f) => r is Err && r->Err_0@ == f,
            },
            _ => {
                &&& r is Ok
                &&& r->Ok_0 is Tcp
                &&& r->Ok_0->host@ == server.host@
                &&& r->Ok_0->port == server.port
            },
        },
{
    match server.transport {
        TransportKind::Quic => match security_of(server) {
            Ok(security) => Ok(Probe::Quic { endpoint: endpoint_of(server), security }),
            Err(e) => Err(e),
        },
        _ => Ok(Probe::Tcp { host: server.host.clone(), port: server.port }),
    }
}

/// How a probe ended.
pub enum Probed {
    /// Connected, after so many milliseconds.
    Up(u64),
    TimedOut,
    /// The TCP connection was refused or failed.
    Refused(String),
    /// The QUIC handshake failed.
    Failed(Error),
}

/// The latency that a probe found.
pub fn measure_latency(p: Probed) -> (r: Result<u64, Error>)
    ensures
        measures(p, r),
        match p {
            Probed::Up(ms) => r == Ok::<u64, Error>(ms),
            Probed::TimedOut => r is Err && r->Err_0@ == Failure::Transport(
                "latency probe timed out"@,
            ),
            Probed::Refused(e) => r is Err && r->Err_0@ == Failure::Transport("connect: "@ + e@),
            Probed::Failed(e) => r == Err::<u64, Error>(e),
        },
{
    match p {
        Probed::Up(ms) => Ok(ms),
        Probed::TimedOut => Err(Error::Transport("latency probe timed out".to_owned())),
        Probed::Refused(e) => Err(Error::Transport("connect: ".to_owned().concat(e.as_str()))),
        Probed::Failed(e) => Err(e),
    }
}

/// The smallest of the latencies that were found.
pub open spec fn least(v: Seq<Option<u64>>) -> Option<u64>
    decreases v.len(),
{
    if v.len() == 0 {
        None
    } else {
        match (least(v.drop_last()), v.last()) {
            (Some(a), Some(b)) => if b < a {
                Some(b)
            } else {
                Some(a)
            },
            (None, b) => b,
            (a, None) => a,
        }
    }
}

/// The smallest of the latencies that were found; None if no server answered.
pub fn fastest(v: &Vec<Option<u64>>) -> (r: Option<u64>)
    ensures
        r == least(v@),
{
    let n: usize = v.len();
    let mut best: Option<u64> = None;
    assert(v@.take(0) =~= Seq::<Option<u64>>::empty());
    for i in 0..n
        invariant
            n == v@.len(),
            best == least(v@.take(i as int)),
    {
        assert(v@.take(i + 1).drop_last() =~= v@.take(i as int));
        match (best, v[i]) {
            (Some(a), Some(b)) => {
                if b < a {
                    best = Some(b);
                }
            },
            (None, b) => {
                best = b;
            },
            _ => {},
        }
    }
    assert(v@.take(n as int) =~= v@);
    best
}

/// The fastest server is one that answered, and none that answered was faster.
pub proof fn law_fastest(v: Seq<Option<u64>>)
    ensures
        match least(v) {
            Some(ms) => v.contains(Some(ms)) && forall|i: int|
                0 <= i < v.len() && (#[trigger] v[i]) is Some ==> ms <= v[i]->Some_0,
            None => forall|i: int| 0 <= i < v.len() ==> (#[trigger] v[i]) is None,
        },
    decreases v.len(),
{
    if v.len() > 0 {
        let w = v.drop_last();
        law_fastest(w);
        assert forall|i: int| 0 <= i < v.len() - 1 implies v[i] == #[trigger] w[i] by {}
        if least(v) is Some {
            let ms = least(v)->Some_0;
            if v.last() == Some(ms) {
                assert(v[v.len() - 1] == Some(ms));
            } else {
                assert(w.contains(Some(ms)));
                let k = choose|k: int| 0 <= k < w.len() && w[k] == Some(ms);
                assert(v[k] == Some(ms));
            }
            assert forall|i: int| 0 <= i < v.len() && (#[trigger] v[i]) is Some implies ms
                <= v[i]->Some_0 by {
                if i < v.len() - 1 {
                    assert(w[i] == v[i]);
                }
            }
        } else {
            assert forall|i: int| 0 <= i < v.len() implies (#[trigger] v[i]) is None by {
                if i < v.len() - 1 {
                    assert(w[i] == v[i]);
                }
            }
        }
    }
}

/// How a server is probed.
pub open spec fn is_probe(server: ServerEntry, r: Result<Probe, Error>) -> bool {
    match server.transport {
        TransportKind::Quic => match psk_of(server.noise_psk@) {
            Ok(psk) => {
                &&& r is Ok
                &&& r->Ok_0 is Quic
                &&& dials(r->Ok_0->endpoint, server)
                &&& secures(r->Ok_0->security, server, psk)
            },
            Err(f) => r is Err && r->Err_0@ == f,
        },
        _ => {
            &&& r is Ok
            &&& r->Ok_0 is Tcp
            &&& r->Ok_0->host@ == server.host@
            &&& r->Ok_0->port == server.port
        },
    }
}

/// What a probe comes to.
pub open spec fn measures(p: Probed, r: Result<u64, Error>) -> bool {
    match p {
        Probed::Up(ms) => r == Ok::<u64, Error>(ms),
        Probed::TimedOut => r is Err && r->Err_0@ == Failure::Transport(
            "latency probe timed out"@,
        ),
        Probed::Refused(e) => r is Err && r->Err_0@ == Failure::Transport("connect: "@ + e@),
        Probed::Failed(e) => r == Err::<u64, Error>(e),
    }
}

/// A server is probed by connecting to its port, and one on QUIC by a handshake at its
/// endpoint.
pub proof fn law_probes(server: ServerEntry, r: Result<Probe, Error>)
    requires
        is_probe(server, r),
    ensures
        server.transport == TransportKind::Tcp || server.transport == TransportKind::Ws ==> r is Ok
            && r->Ok_0 is Tcp && r->Ok_0->host@ == server.host@ && r->Ok_0->port == server.port,
        server.transport == TransportKind::Quic && psk_of(server.noise_psk@) is Ok ==> r is Ok
            && r->Ok_0 is Quic && dials(r->Ok_0->endpoint, server) && secures(
            r->Ok_0->security,
            server,
            psk_of(server.noise_psk@)->Ok_0,
        ),
        server.transport == TransportKind::Quic && psk_of(server.noise_psk@) is Err ==> r is Err
            && r->Err_0@ == psk_of(server.noise_psk@)->Err_0,
{
}

/// The latency is the time that the probe took; a server that did not answer has none.
pub proof fn law_latency(p: Probed, r: Result<u64, Error>)
    requires
        measures(p, r),
    ensures
        p is Up ==> r == Ok::<u64, Error>(p->Up_0),
        p is TimedOut ==> r is Err && r->Err_0@ == Failure::Transport("latency probe timed out"@),
        p is Refused ==> r is Err && r->Err_0@ == Failure::Transport(
            "connect: "@ + p->Refused_0@,
        ),
        p is Failed ==> r == Err::<u64, Error>(p->Failed_0),
{
}

}
