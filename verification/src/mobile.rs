//! What the Android app decides: two-phase connecting, and bridging the device that
//! the system's VPN service hands over.

use vstd::prelude::*;
use vstd::string::*;

use crate::addr::{dotted, Ipv4Addr};
use crate::client::config::{
    active_of, is_flat_server, law_active_server, ClientConfig, ServerEntry,
};
use crate::client::engine::{chain_of, DownAction, Engine, LiveStatus, SessionPlan, UpAction};
use crate::config::SessionMode;
use crate::error::{Error, Failure};
use crate::protocol::control::{opt_view, views};
use crate::protocol::frame::FrameView;
use crate::protocol::{Frame, Welcome};
use crate::text::texts;

verus! {

/// The servers to relay through: those of the chain if at least two are known,
/// otherwise the active one alone.
pub fn hops_of(cfg: &ClientConfig) -> (r: Result<Vec<ServerEntry>, Error>)
    ensures
        are_hops(*cfg, r),
        if chain_of(*cfg).len() >= 2 && cfg.chain@.len() >= 2 {
            r is Ok && r->Ok_0@ == chain_of(*cfg)
        } else if cfg.servers@.len() > 0 {
            r is Ok && r->Ok_0@ == seq![active_of(cfg.servers@, opt_view(cfg.selected_server))]
        } else if cfg.server_host@.len() == 0 {
            r is Err && r->Err_0@ == Failure::Config("no servers configured"@)
        } else {
            r is Ok && r->Ok_0@.len() == 1 && is_flat_server(r->Ok_0@[0], *cfg)
        },
{
    proof {
        lemma_hops_bound(texts(cfg.chain@), cfg.servers@);
    }
    match Engine::plan(cfg) {
        Ok(SessionPlan::Chain(hops)) => Ok(hops),
        Ok(SessionPlan::Single(s)) => {
            let v = vec![s];
            assert(v@ =~= seq![s]);
            Ok(v)
        },
        Err(e) => Err(e),
    }
}

proof fn lemma_hops_bound(chain: Seq<Seq<char>>, servers: Seq<ServerEntry>)
    ensures
        crate::client::chain::hops_of(chain, servers).len() <= chain.len(),
    decreases chain.len(),
{
    if chain.len() > 0 {
        lemma_hops_bound(chain.drop_last(), servers);
    }
}

/// What the system's VPN service needs to know to build the device.
pub struct NetConfig {
    pub mode: String,
    pub assigned_ip: String,
    pub prefix_len: u8,
    pub gateway: String,
    pub mtu: u16,
    pub dns: Vec<String>,
}

/// What the system's VPN service needs to know.
pub fn net_config(w: &Welcome, mode: SessionMode) -> (r: NetConfig)
    ensures
        r.mode@ == mode.name(),
        r.assigned_ip@ == dotted(w.assigned_ip.bits),
        r.prefix_len == w.prefix_len,
        r.gateway@ == dotted(w.gateway.bits),
        r.mtu == w.mtu,
        texts(r.dns@) == w.dns@.map_values(|a: Ipv4Addr| dotted(a.bits)),
{
    let n: usize = w.dns.len();
    let mut dns: Vec<String> = Vec::new();
    let ghost want = w.dns@.map_values(|a: Ipv4Addr| dotted(a.bits));
    assert(texts(dns@) =~= want.take(0));
    for i in 0..n
        invariant
            n == w.dns@.len(),
            want == w.dns@.map_values(|a: Ipv4Addr| dotted(a.bits)),
            texts(dns@) == want.take(i as int),
    {
        let ghost before = texts(dns@);
        let t = w.dns[i].to_text();
        dns.push(t);
        assert(texts(dns@) =~= before.push(t@));
        assert(before.push(t@) =~= want.take(i + 1));
    }
    assert(want.take(n as int) =~= want);
    NetConfig {
        mode: mode.to_text(),
        assigned_ip: w.assigned_ip.to_text(),
        prefix_len: w.prefix_len,
        gateway: w.gateway.to_text(),
        mtu: w.mtu,
        dns,
    }
}

/// What follows once the network configuration was reported.
#[derive(Clone, Copy, Debug, PartialEq, Eq, Structural)]
pub enum Phase {
    /// Wait for the device, then bridge it.
    AwaitDevice,
    /// Run the local proxy at once.
    RunProxy,
}

/// What follows once the network configuration was reported.
pub fn phase_of(mode: SessionMode) -> (r: Phase)
    ensures
        r == if crate::config::carries_streams(mode) {
            Phase::RunProxy
        } else {
            Phase::AwaitDevice
        },
{
    if mode.is_stream() {
        Phase::RunProxy
    } else {
        Phase::AwaitDevice
    }
}

/// Checks the device that was handed over, and says how many bytes to read at once.
pub fn open_bridge(fd: i32, mtu: u16) -> (r: Result<usize, Error>)
    ensures
        if fd < 0 {
            r is Err && r->Err_0@ == Failure::Config(
                "no VpnService fd provided for packet mode"@,
            )
        } else {
            r is Ok && r->Ok_0 == if mtu > 2048 {
                mtu as int
            } else {
                2048
            }
        },
{
    if fd < 0 {
        return Err(Error::Config("no VpnService fd provided for packet mode".to_owned()));
    }
    if mtu > 2048 {
        Ok(mtu as usize)
    } else {
        Ok(2048)
    }
}

/// What to do with what the device produced: send a packet, unless it is empty.
pub fn on_read(read: Option<Vec<u8>>) -> (r: UpAction)
    ensures
        goes_up(read, r),
        match read {
            Some(p) => if p@.len() > 0 {
                r is Send && r->Send_0@ == FrameView::Packet(p@)
            } else {
                r is Nothing
            },
            None => r is Stop,
        },
{
    match read {
        Some(p) => if p.len() > 0 {
            UpAction::Send(Frame::Packet(p))
        } else {
            UpAction::Nothing
        },
        None => UpAction::Stop,
    }
}

/// Handles a frame from the server while bridging. Traffic is not counted here.
pub fn on_frame(status: &mut LiveStatus, frame: Frame) -> (r: DownAction)
    ensures
        comes_down(*old(status), frame@, *final(status), r),
        match frame@ {
            FrameView::Packet(p) => r is ToTun && r->ToTun_0@ == p && *final(status) == *old(status),
            FrameView::PeerList { peers } => {
                &&& r is Nothing
                &&& views(final(status).peers@) == peers
                &&& final(status).assigned_ip == old(status).assigned_ip
                &&& final(status).up_bytes == old(status).up_bytes
                &&& final(status).down_bytes == old(status).down_bytes
            },
            FrameView::Ping => r is Reply && r->Reply_0@ == FrameView::Pong && *final(status)
                == *old(status),
            _ => r is Nothing && *final(status) == *old(status),
        },
{
    match frame {
        Frame::Packet(p) => DownAction::ToTun(p),
        Frame::PeerList { peers } => {
            status.peers = peers;
            DownAction::Nothing
        },
        Frame::Ping => DownAction::Reply(Frame::Pong),
        _ => DownAction::Nothing,
    }
}

/// The state of the app's engine.
pub struct MobileState {
    /// There is an engine.
    pub engine: bool,
    /// The engine waits for the device.
    pub awaits_device: bool,
    pub running: bool,
    pub last_error: Option<String>,
}

/// How the first phase ended.
pub enum Handshake {
    Config(NetConfig),
    Failed(String),
    /// There was no answer in [`CONNECT_SECS`].
    TimedOut,
}

/// How long the first phase may take.
pub const CONNECT_SECS: u64 = 20;

impl MobileState {
    /// Without an engine nothing runs.
    pub open spec fn wf(&self) -> bool {
        self.running || self.awaits_device ==> self.engine
    }

    /// No engine yet.
    pub fn new() -> (r: MobileState)
        ensures
            r.wf(),
            !r.engine,
            r.last_error is None,
    {
        MobileState { engine: false, awaits_device: false, running: false, last_error: None }
    }

    /// Ends the session, if there is one. Returns whether an engine is to be
    /// cancelled.
    pub fn stop_impl(&mut self) -> (r: bool)
        requires
            old(self).wf(),
        ensures
            r == old(self).engine,
            final(self).wf(),
            !final(self).engine,
            !final(self).running,
            !final(self).awaits_device,
            final(self).last_error == old(self).last_error,
    {
        let had = self.engine;
        self.awaits_device = false;
        self.engine = false;
        self.running = false;
        had
    }

    /// Starts a session in place of the one before. Returns whether an engine is to
    /// be cancelled first.
    pub fn begin(&mut self) -> (r: bool)
        requires
            old(self).wf(),
        ensures
            r == old(self).engine,
            final(self).wf(),
            final(self).engine,
            final(self).running,
            final(self).awaits_device,
            final(self).last_error is None,
    {
        let had = self.stop_impl();
        self.engine = true;
        self.running = true;
        self.awaits_device = true;
        self.last_error = None;
        had
    }

    /// Takes note how the first phase ended. On a failure the session is over, and
    /// an engine is to be cancelled.
    pub fn connect_impl(&mut self, h: Handshake) -> (r: Result<NetConfig, String>)
        requires
            old(self).wf(),
        ensures
            final(self).wf(),
            final(self).last_error == old(self).last_error,
            match h {
                Handshake::Config(c) => r == Ok::<NetConfig, String>(c) && *final(self) == *old(self),
                Handshake::Failed(e) => r == Err::<NetConfig, String>(e) && !final(self).engine,
                Handshake::TimedOut => r is Err && r->Err_0@ == "timed out connecting"@ && !final(self).engine,
            },
    {
        match h {
            Handshake::Config(c) => Ok(c),
            Handshake::Failed(e) => {
                let _ = self.stop_impl();
                Err(e)
            },
            Handshake::TimedOut => {
                let _ = self.stop_impl();
                Err("timed out connecting".to_owned())
            },
        }
    }

    /// Hands the device over; `taken` says whether the engine still waited for it.
    /// A device can be handed over once.
    pub fn start_bridge_impl(&mut self, taken: bool) -> (r: Result<(), String>)
        requires
            old(self).wf(),
        ensures
            final(self).wf(),
            !final(self).awaits_device,
            final(self).engine == old(self).engine,
            final(self).running == old(self).running,
            final(self).last_error == old(self).last_error,
            if !old(self).awaits_device {
                r is Err && r->Err_0@ == "no pending connection"@
            } else if !taken {
                r is Err && r->Err_0@ == "engine is not awaiting a fd"@
            } else {
                r is Ok
            },
    {
        if !self.awaits_device {
            return Err("no pending connection".to_owned());
        }
        self.awaits_device = false;
        if taken {
            Ok(())
        } else {
            Err("engine is not awaiting a fd".to_owned())
        }
    }

    /// Takes note that the engine ended.
    pub fn ended(&mut self, error: Option<Error>)
        requires
            old(self).wf(),
        ensures
            final(self).wf(),
            !final(self).running,
            final(self).engine == old(self).engine,
            final(self).awaits_device == old(self).awaits_device,
            match error {
                Some(e) => final(self).last_error is Some && final(self).last_error->Some_0@
                    == crate::error::failure_text(e@),
                None => final(self).last_error == old(self).last_error,
            },
    {
        self.running = false;
        if let Some(e) = error {
            self.last_error = Some(e.to_text());
        }
    }
}

/// What is done about a read from the device.
pub open spec fn goes_up(read: Option<Vec<u8>>, r: UpAction) -> bool {
    match read {
        Some(p) => if p@.len() > 0 {
            r is Send && r->Send_0@ == FrameView::Packet(p@)
        } else {
            r is Nothing
        },
        None => r is Stop,
    }
}

/// What is done about a frame of the server.
pub open spec fn comes_down(
    pre: LiveStatus,
    f: FrameView,
    post: LiveStatus,
    r: DownAction,
) -> bool {
    match f {
        FrameView::Packet(p) => r is ToTun && r->ToTun_0@ == p && post == pre,
        FrameView::PeerList { peers } => {
            &&& r is Nothing
            &&& views(post.peers@) == peers
            &&& post.assigned_ip == pre.assigned_ip
            &&& post.up_bytes == pre.up_bytes
            &&& post.down_bytes == pre.down_bytes
        },
        FrameView::Ping => r is Reply && r->Reply_0@ == FrameView::Pong && post == pre,
        _ => r is Nothing && post == pre,
    }
}

/// Over which servers a session runs.
pub open spec fn are_hops(cfg: ClientConfig, r: Result<Vec<ServerEntry>, Error>) -> bool {
    if chain_of(cfg).len() >= 2 && cfg.chain@.len() >= 2 {
        r is Ok && r->Ok_0@ == chain_of(cfg)
    } else if cfg.servers@.len() > 0 {
        r is Ok && r->Ok_0@ == seq![active_of(cfg.servers@, opt_view(cfg.selected_server))]
    } else if cfg.server_host@.len() == 0 {
        r is Err && r->Err_0@ == Failure::Config("no servers configured"@)
    } else {
        r is Ok && r->Ok_0@.len() == 1 && is_flat_server(r->Ok_0@[0], cfg)
    }
}

/// Every packet read from the device is sent whole; an empty read is nothing, and the end
/// of the device stops the bridge.
pub proof fn law_device_reads(read: Option<Vec<u8>>, r: UpAction)
    requires
        goes_up(read, r),
    ensures
        read is Some && read->Some_0@.len() > 0 ==> r is Send && r->Send_0@ == FrameView::Packet(
            read->Some_0@,
        ),
        read is Some && read->Some_0@.len() == 0 ==> r is Nothing,
        read is None ==> r is Stop,
{
}

/// Every packet of the server is written to the device whole, a ping is answered, and a
/// peer list is noted as it came.
pub proof fn law_device_writes(pre: LiveStatus, f: FrameView, post: LiveStatus, r: DownAction)
    requires
        comes_down(pre, f, post, r),
    ensures
        f is Packet ==> r is ToTun && r->ToTun_0@ == f->Packet_0,
        f == FrameView::Ping ==> r is Reply && r->Reply_0@ == FrameView::Pong,
        f is PeerList ==> r is Nothing && views(post.peers@) == f->peers,
        !(f is PeerList) ==> post == pre,
        !(f is Packet) && !(f is Ping) ==> r is Nothing,
{
}

/// A chain of two or more known servers is used whole; without one, a session runs on one
/// server: the selected one, the first one, or the one in the flat fields.
pub proof fn law_hops(cfg: ClientConfig, r: Result<Vec<ServerEntry>, Error>)
    requires
        are_hops(cfg, r),
    ensures
        cfg.chain@.len() >= 2 && chain_of(cfg).len() >= 2 ==> r is Ok && r->Ok_0@ == chain_of(cfg),
        cfg.chain@.len() == 0 && cfg.servers@.len() > 0 ==> r is Ok && r->Ok_0@.len() == 1
            && cfg.servers@.contains(r->Ok_0@[0]),
        cfg.chain@.len() == 0 && cfg.servers@.len() > 0 && cfg.selected_server is None ==> r is Ok
            && r->Ok_0@[0] == cfg.servers@[0],
        cfg.chain@.len() == 0 && cfg.servers@.len() == 0 && cfg.server_host@.len() > 0 ==> r is Ok
            && r->Ok_0@.len() == 1 && r->Ok_0@[0].host@ == cfg.server_host@ && r->Ok_0@[0].port
            == cfg.server_port,
        cfg.chain@.len() == 0 && cfg.servers@.len() == 0 && cfg.server_host@.len() == 0 ==> r is Err,
{
    if cfg.servers@.len() > 0 {
        law_active_server(cfg.servers@, opt_view(cfg.selected_server));
    }
}

}
