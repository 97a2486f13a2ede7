//! The local HTTP proxy: each local connection becomes a stream on the one
//! encrypted link to the server. Its SOCKS side is in [`super::socks`].

use std::collections::HashSet;
use vstd::prelude::*;
use vstd::std_specs::hash::*;
use vstd::string::*;

use super::engine::LiveStatus;
use crate::bytes::put_bytes;
use crate::error::{Error, Failure};
use crate::protocol::control::{views, TargetView};
use crate::protocol::frame::FrameView;
use crate::protocol::{Frame, TargetAddr};
use crate::text::{
    around_last, eq_ignore_ascii_case, lines, lines_of, lossy, lossy_text, number, occurs_at,
    parse_number, parts, quote, quoted, rsplit_once, same_letters, split, split_whitespace, strip_prefix, texts,
    trim, trimmed, without_prefix, words_of,
};

verus! {

broadcast use vstd::std_specs::hash::group_hash_axioms;

/// Longest request head that is waited for.
pub const MAX_HEAD: usize = 0x1_0000;

/// The first place where `needle` stands in `hay`.
pub open spec fn is_first_place(hay: Seq<u8>, needle: Seq<u8>, i: int) -> bool {
    occurs_at(hay, needle, i) && forall|j: int| 0 <= j < i ==> !#[trigger] occurs_at(hay, needle, j)
}

/// The first place where `needle` stands in `hay`.
pub fn find_sub(hay: &[u8], needle: &[u8]) -> (r: Option<usize>)
    requires
        needle@.len() > 0,
    ensures
        match r {
            Some(i) => is_first_place(hay@, needle@, i as int),
            None => forall|j: int| !#[trigger] occurs_at(hay@, needle@, j),
        },
{
    let n: usize = hay.len();
    let m: usize = needle.len();
    if m > n {
        return None;
    }
    let mut i: usize = 0;
    while i <= n - m
        invariant
            n == hay@.len(),
            m == needle@.len(),
            0 < m <= n,
            i <= n - m + 1,
            forall|j: int| 0 <= j < i ==> !#[trigger] occurs_at(hay@, needle@, j),
        decreases n - i,
    {
        if matches_at(hay, needle, i) {
            return Some(i);
        }
        i = i + 1;
    }
    None
}

fn matches_at(hay: &[u8], needle: &[u8], i: usize) -> (r: bool)
    requires
        i + needle@.len() <= hay@.len(),
    ensures
        r == occurs_at(hay@, needle@, i as int),
{
    let m: usize = needle.len();
    let n: usize = hay.len();
    for k in 0..m
        invariant
            m == needle@.len(),
            n == hay@.len(),
            i + m <= n,
            forall|j: int| 0 <= j < k ==> hay@[i + j] == needle@[j],
    {
        if hay[i + k] != needle[k] {
            assert(hay@.subrange(i as int, i + needle@.len())[k as int] != needle@[k as int]);
            return false;
        }
    }
    assert(hay@.subrange(i as int, i + needle@.len()) =~= needle@);
    true
}

/// Host and port of `host:port`; the default port if there is none that is a
/// number.
pub open spec fn host_and_port(s: Seq<char>, default: u16) -> (Seq<char>, u16) {
    match around_last(s, ':') {
        Some((h, p)) => match number(p, 65535) {
            Some(port) => (h, port as u16),
            None => (s, default),
        },
        None => (s, default),
    }
}

/// Host and port of `host:port`; the default port if there is none that is a
/// number.
pub fn split_host_port(s: &str, default: u16) -> (r: (String, u16))
    ensures
        (r.0@, r.1) == host_and_port(s@, default),
{
    if let Some((h, p)) = rsplit_once(s, ':') {
        if let Some(port) = parse_number(p.as_str(), 65535) {
            return (h, port as u16);
        }
    }
    (s.to_owned(), default)
}

/// The `i`-th of some texts, or nothing.
pub open spec fn nth(s: Seq<Seq<char>>, i: int) -> Seq<char> {
    if 0 <= i < s.len() {
        s[i]
    } else {
        Seq::empty()
    }
}

/// The value of the first `Host:` header among some lines, or nothing.
pub open spec fn host_header(lines: Seq<Seq<char>>) -> Seq<char>
    decreases lines.len(),
{
    if lines.len() == 0 {
        Seq::empty()
    } else {
        let l = trimmed(lines[0]);
        match without_prefix(l, "Host:"@) {
            Some(h) => trimmed(h),
            None => match without_prefix(l, "host:"@) {
                Some(h) => trimmed(h),
                None => host_header(lines.skip(1)),
            },
        }
    }
}

fn find_host(lines: &Vec<String>) -> (r: String)
    ensures
        r@ == host_header(texts(lines@)),
{
    let n: usize = lines.len();
    let ghost all = texts(lines@);
    assert(all.skip(0) =~= all);
    for i in 0..n
        invariant
            n == lines@.len(),
            all == texts(lines@),
            host_header(all) == host_header(all.skip(i as int)),
    {
        assert(all.skip(i as int)[0] == lines@[i as int]@);
        let l = trim(lines[i].as_str());
        if let Some(h) = strip_prefix(l.as_str(), "Host:") {
            return trim(h.as_str());
        }
        if let Some(h) = strip_prefix(l.as_str(), "host:") {
            return trim(h.as_str());
        }
        assert(all.skip(i as int).skip(1) =~= all.skip(i + 1));
    }
    String::new()
}

/// What a request asks for, given the text of its head and the text that quotes
/// its first line: where to connect, and whether to tunnel (`CONNECT`) or to
/// forward. A tunnel goes to the named host, by default at port 443; a plain
/// request to the host in its address or in its `Host` header, by default at port
/// 80.
pub open spec fn request_target(text: Seq<char>, quoted_first: Seq<char>) -> Result<
    (TargetView, bool),
    Failure,
> {
    let first = nth(lines_of(text), 0);
    let method = nth(words_of(first), 0);
    let uri = nth(words_of(first), 1);
    if same_letters(method, "CONNECT"@) {
        let (h, p) = host_and_port(uri, 443);
        Ok((TargetView::Domain(h, p), true))
    } else {
        let host_port = match without_prefix(uri, "http://"@) {
            Some(rest) => nth(parts(rest, '/'), 0),
            None => host_header(lines_of(text)),
        };
        if host_port.len() == 0 {
            Err(Failure::Protocol("cannot parse proxy target: "@ + quoted_first))
        } else {
            let (h, p) = host_and_port(host_port, 80);
            Ok((TargetView::Domain(h, p), false))
        }
    }
}

/// Whether `r` is `want`.
pub open spec fn is_target(
    r: Result<(TargetAddr, bool), Error>,
    want: Result<(TargetView, bool), Failure>,
) -> bool {
    match want {
        Ok((t, c)) => r is Ok && r->Ok_0.0@ == t && r->Ok_0.1 == c,
        Err(f) => r is Err && r->Err_0@ == f,
    }
}

/// The first line of a request head.
pub fn first_line(text: &str) -> (r: String)
    ensures
        r@ == nth(lines_of(text@), 0),
{
    let ls = lines(text);
    assert(texts(ls@).len() == ls@.len());
    if ls.len() > 0 {
        assert(texts(ls@)[0] == ls@[0]@);
        ls[0].clone()
    } else {
        let r = String::new();
        assert(r@ =~= Seq::<char>::empty());
        r
    }
}

/// What a request asks for, given the text of its head and the text that quotes
/// its first line.
pub fn parse_request_text(text: &str, quoted_first: &str) -> (r: Result<(TargetAddr, bool), Error>)
    ensures
        is_target(r, request_target(text@, quoted_first@)),
{
    let first = first_line(text);
    let words = split_whitespace(first.as_str());
    assert(texts(words@).len() == words@.len());
    let method = if words.len() > 0 {
        assert(texts(words@)[0] == words@[0]@);
        words[0].clone()
    } else {
        String::new()
    };
    let uri = if words.len() > 1 {
        assert(texts(words@)[1] == words@[1]@);
        words[1].clone()
    } else {
        String::new()
    };
    assert(method@ =~= nth(words_of(first@), 0));
    assert(uri@ =~= nth(words_of(first@), 1));
    if eq_ignore_ascii_case(method.as_str(), "CONNECT") {
        let (h, p) = split_host_port(uri.as_str(), 443);
        return Ok((TargetAddr::Domain(h, p), true));
    }
    let host_port = match strip_prefix(uri.as_str(), "http://") {
        Some(rest) => {
            let ps = split(rest.as_str(), '/');
            assert(texts(ps@).len() == ps@.len());
            if ps.len() > 0 {
                assert(texts(ps@)[0] == ps@[0]@);
                ps[0].clone()
            } else {
                let e = String::new();
                assert(e@ =~= Seq::<char>::empty());
                e
            }
        },
        None => {
            let ls = lines(text);
            find_host(&ls)
        },
    };
    if host_port.as_str().unicode_len() == 0 {
        return Err(
            Error::Protocol("cannot parse proxy target: ".to_owned().concat(quoted_first)),
        );
    }
    let (h, p) = split_host_port(host_port.as_str(), 80);
    Ok((TargetAddr::Domain(h, p), false))
}

/// What a request head asks for.
pub open spec fn target_in(head: Seq<u8>) -> Result<(TargetView, bool), Failure> {
    request_target(lossy_text(head), quoted(nth(lines_of(lossy_text(head)), 0)))
}

/// What a request head asks for.
pub fn parse_request_line(head: &[u8]) -> (r: Result<(TargetAddr, bool), Error>)
    ensures
        is_target(r, target_in(head@)),
{
    let text = lossy(head);
    let first = first_line(text.as_str());
    let q = quote(first.as_str());
    parse_request_text(text.as_str(), q.as_str())
}

/// The proxy never resolves names itself: whatever an HTTP request asks for is handed to
/// the server as a name.
pub proof fn law_names_go_to_the_server(head: Seq<u8>)
    ensures
        target_in(head) is Ok ==> target_in(head)->Ok_0.0 is Domain,
{
}

/// The blank line that ends a request head.
pub open spec fn blank_line() -> Seq<u8> {
    seq![13u8, 10u8, 13u8, 10u8]
}

/// A request that has arrived: where to connect, whether to tunnel, and the bytes
/// to forward.
pub struct Request {
    pub target: TargetAddr,
    pub is_connect: bool,
    pub forward: Vec<u8>,
}

/// Collects a local connection's request head.
pub struct HeadReader {
    pub buf: Vec<u8>,
}

/// Whether `r` is what the bytes `buf` of a request come to: the request once its
/// head is complete, nothing before that, and a failure if the head is too long
/// or asks for nothing. For a tunnel the head is dropped; a plain request is
/// forwarded with everything that arrived.
pub open spec fn head_read(buf: Seq<u8>, r: Result<Option<Request>, Error>) -> bool {
    if exists|i: int| #[trigger] occurs_at(buf, blank_line(), i) {
        exists|i: int| #[trigger]
            is_first_place(buf, blank_line(), i) && match target_in(buf.subrange(0, i + 4)) {
                Ok((t, c)) => {
                    &&& r is Ok && r->Ok_0 is Some
                    &&& r->Ok_0->Some_0.target@ == t
                    &&& r->Ok_0->Some_0.is_connect == c
                    &&& r->Ok_0->Some_0.forward@ == if c {
                        Seq::empty()
                    } else {
                        buf
                    }
                },
                Err(f) => r is Err && r->Err_0@ == f,
            }
    } else if buf.len() > MAX_HEAD {
        r is Err && r->Err_0@ == Failure::Protocol("request head too large"@)
    } else {
        r is Ok && r->Ok_0 is None
    }
}

impl HeadReader {
    /// A reader that has seen nothing.
    pub fn new() -> (r: HeadReader)
        ensures
            r.buf@ == Seq::<u8>::empty(),
    {
        HeadReader { buf: Vec::new() }
    }

    /// Takes bytes that arrived; none means the end of the connection.
    pub fn parse_http_head(&mut self, bytes: &[u8]) -> (r: Result<Option<Request>, Error>)
        ensures
            final(self).buf@ == old(self).buf@ + bytes@,
            if bytes@.len() == 0 {
                r is Err && r->Err_0@ == Failure::Protocol("eof before request head"@)
            } else {
                head_read(final(self).buf@, r)
            },
    {
        if bytes.len() == 0 {
            assert(self.buf@ =~= old(self).buf@ + bytes@);
            return Err(Error::Protocol("eof before request head".to_owned()));
        }
        put_bytes(&mut self.buf, bytes);
        let end: Vec<u8> = vec![13u8, 10u8, 13u8, 10u8];
        assert(end@ =~= blank_line());
        match find_sub(self.buf.as_slice(), end.as_slice()) {
            Some(pos) => {
                assert(occurs_at(self.buf@, blank_line(), pos as int));
                let total: usize = self.buf.len();
                let head = crate::bytes::slice_of(self.buf.as_slice(), 0, pos + 4);
                match parse_request_line(head.as_slice()) {
                    Ok((target, is_connect)) => {
                        let forward = if is_connect {
                            Vec::new()
                        } else {
                            let all = crate::bytes::slice_of(self.buf.as_slice(), 0, total);
                            assert(all@ =~= self.buf@);
                            all
                        };
                        assert(is_connect ==> forward@ =~= Seq::<u8>::empty());
                        Ok(Some(Request { target, is_connect, forward }))
                    },
                    Err(e) => Err(e),
                }
            },
            None => if self.buf.len() > MAX_HEAD {
                Err(Error::Protocol("request head too large".to_owned()))
            } else {
                Ok(None)
            },
        }
    }
}

/// The text that tells a local client that its tunnel is open.
pub const TUNNEL_OPEN: &'static str = "HTTP/1.1 200 Connection Established\r\n\r\n";

/// What opening a stream for a request takes: the frames to send, and whether the
/// local client is told that its tunnel is open after the first of them.
pub struct Opened {
    pub frames: Vec<Frame>,
    pub tell: bool,
}

/// What happens on a local connection once its stream is open.
pub enum LocalEvent {
    Data(Vec<u8>),
    Ended,
}

/// The frame for what happens on a local connection.
pub fn local_frame(id: u32, e: LocalEvent) -> (r: Frame)
    ensures
        r@ == frame_for(id, e),
        r@ == match e {
            LocalEvent::Data(d) => FrameView::StreamData { id, data: d@ },
            LocalEvent::Ended => FrameView::StreamClose { id, error: None },
        },
{
    match e {
        LocalEvent::Data(data) => Frame::StreamData { id, data },
        LocalEvent::Ended => Frame::StreamClose { id, error: None },
    }
}

/// What a frame from the server makes the proxy do.
pub enum ProxyAction {
    /// Hand bytes to a local connection.
    ToLocal { id: u32, data: Vec<u8> },
    /// End a local connection.
    CloseLocal { id: u32 },
    /// Send a frame to the server.
    Reply(Frame),
    /// Write a packet to the TUN device of the peer LAN.
    ToTun(Vec<u8>),
    Nothing,
}

/// The proxy's side of the link: which streams are open.
pub struct HttpMode {
    /// The number of the next stream.
    pub next_id: u32,
    pub streams: HashSet<u32>,
    /// Whether the session joined the peer LAN and has a TUN device for it.
    pub lan: bool,
}

impl HttpMode {
    /// A proxy without streams.
    pub fn run_http_mode(lan: bool) -> (r: HttpMode)
        ensures
            r.next_id == 1,
            r.streams@ == Set::<u32>::empty(),
            r.lan == lan,
    {
        HttpMode { next_id: 1, streams: HashSet::new(), lan }
    }

    /// The number for a new local connection. Numbers are used again once all are
    /// used up.
    pub fn accept(&mut self) -> (id: u32)
        ensures
            id == old(self).next_id,
            final(self).next_id == old(self).next_id.wrapping_add(1),
            final(self).streams@ == old(self).streams@,
            final(self).lan == old(self).lan,
    {
        let id: u32 = self.next_id;
        self.next_id = self.next_id.wrapping_add(1);
        id
    }

    /// Opens the stream of a local connection for its request.
    pub fn handle_local(&mut self, id: u32, request: Request) -> (r: Opened)
        ensures
            final(self).streams@ == old(self).streams@.insert(id),
            final(self).next_id == old(self).next_id,
            final(self).lan == old(self).lan,
            r.tell == request.is_connect,
            opens_stream(
                r.frames@,
                id,
                request.target@,
                if request.is_connect {
                    Seq::empty()
                } else {
                    request.forward@
                },
            ),
            r.frames@.len() == if !request.is_connect && request.forward@.len() > 0 {
                2int
            } else {
                1int
            },
            r.frames@[0]@ == (FrameView::StreamOpen { id, target: request.target@ }),
            r.frames@.len() == 2 ==> r.frames@[1]@ == (FrameView::StreamData {
                id,
                data: request.forward@,
            }),
    {
        self.streams.insert(id);
        let mut frames: Vec<Frame> = Vec::new();
        frames.push(Frame::StreamOpen { id, target: request.target });
        if !request.is_connect && request.forward.len() > 0 {
            frames.push(Frame::StreamData { id, data: request.forward });
        }
        Opened { frames, tell: request.is_connect }
    }

    /// Opens the stream of a local connection for a SOCKS request, and forwards what
    /// came after the request.
    pub fn handle_socks(&mut self, id: u32, target: TargetAddr, rest: Vec<u8>) -> (r: Opened)
        ensures
            final(self).streams@ == old(self).streams@.insert(id),
            final(self).next_id == old(self).next_id,
            final(self).lan == old(self).lan,
            r.tell,
            opens_stream(r.frames@, id, target@, rest@),
            r.frames@.len() == if rest@.len() > 0 {
                2int
            } else {
                1int
            },
            r.frames@[0]@ == (FrameView::StreamOpen { id, target: target@ }),
            r.frames@.len() == 2 ==> r.frames@[1]@ == (FrameView::StreamData { id, data: rest@ }),
    {
        self.streams.insert(id);
        let mut frames: Vec<Frame> = Vec::new();
        frames.push(Frame::StreamOpen { id, target });
        if rest.len() > 0 {
            frames.push(Frame::StreamData { id, data: rest });
        }
        Opened { frames, tell: true }
    }

    /// Forgets the stream of a local connection that is over.
    pub fn local_done(&mut self, id: u32)
        ensures
            final(self).streams@ == old(self).streams@.remove(id),
            final(self).next_id == old(self).next_id,
            final(self).lan == old(self).lan,
    {
        self.streams.remove(&id);
    }

    /// Whether a frame from the server leads to `post`, `status2` and `r`.
    pub open spec fn reacts(
        &self,
        status: LiveStatus,
        f: FrameView,
        post: HttpMode,
        status2: LiveStatus,
        r: ProxyAction,
    ) -> bool {
        &&& post.next_id == self.next_id
        &&& post.lan == self.lan
        &&& match f {
            FrameView::StreamData { id, data } => {
                &&& post.streams@ == self.streams@
                &&& status.counted(0, data.len(), status2)
                &&& if self.streams@.contains(id) {
                    r is ToLocal && r->ToLocal_id == id && r->data@ == data
                } else {
                    r is Nothing
                }
            },
            FrameView::StreamClose { id, error } => {
                &&& post.streams@ == self.streams@.remove(id)
                &&& status2 == status
                &&& if self.streams@.contains(id) {
                    r is CloseLocal && r->CloseLocal_id == id
                } else {
                    r is Nothing
                }
            },
            FrameView::Ping => post.streams@ == self.streams@ && status2 == status && r is Reply
                && r->Reply_0@ == FrameView::Pong,
            FrameView::Packet(p) => {
                &&& post.streams@ == self.streams@
                &&& status.counted(0, p.len(), status2)
                &&& if self.lan {
                    r is ToTun && r->ToTun_0@ == p
                } else {
                    r is Nothing
                }
            },
            FrameView::PeerList { peers } => {
                &&& post.streams@ == self.streams@
                &&& r is Nothing
                &&& views(status2.peers@) == peers
                &&& status2.assigned_ip == status.assigned_ip
                &&& status2.up_bytes == status.up_bytes
                &&& status2.down_bytes == status.down_bytes
            },
            _ => post.streams@ == self.streams@ && status2 == status && r is Nothing,
        }
    }

    /// Handles a frame from the server.
    pub fn on_frame(&mut self, status: &mut LiveStatus, frame: Frame) -> (r: ProxyAction)
        ensures
            old(self).reacts(*old(status), frame@, *final(self), *final(status), r),
    {
        match frame {
            Frame::StreamData { id, data } => {
                status.add_traffic_down(data.len());
                if self.streams.contains(&id) {
                    ProxyAction::ToLocal { id, data }
                } else {
                    ProxyAction::Nothing
                }
            },
            Frame::StreamClose { id, .. } => {
                if self.streams.contains(&id) {
                    self.streams.remove(&id);
                    ProxyAction::CloseLocal { id }
                } else {
                    assert(self.streams@ =~= self.streams@.remove(id));
                    ProxyAction::Nothing
                }
            },
            Frame::Ping => ProxyAction::Reply(Frame::Pong),
            Frame::Packet(p) => {
                status.add_traffic_down(p.len());
                if self.lan {
                    ProxyAction::ToTun(p)
                } else {
                    ProxyAction::Nothing
                }
            },
            Frame::PeerList { peers } => {
                status.peers = peers;
                ProxyAction::Nothing
            },
            _ => ProxyAction::Nothing,
        }
    }
}

/// The error of a local proxy that cannot listen.
pub fn bind_failed(listen: &str, why: &str) -> (r: Error)
    ensures
        r@ == Failure::Config("bind "@ + listen@ + ": "@ + why@),
{
    Error::Config("bind ".to_owned().concat(listen).concat(": ").concat(why))
}

/// What the server is told of an event on a local connection.
pub open spec fn frame_for(id: u32, e: LocalEvent) -> FrameView {
    match e {
        LocalEvent::Data(d) => FrameView::StreamData { id, data: d@ },
        LocalEvent::Ended => FrameView::StreamClose { id, error: None },
    }
}

/// Whether frames open a stream to a target and send it its first bytes, if any.
pub open spec fn opens_stream(
    frames: Seq<Frame>,
    id: u32,
    target: TargetView,
    data: Seq<u8>,
) -> bool {
    &&& frames.len() == if data.len() > 0 {
        2int
    } else {
        1int
    }
    &&& frames[0]@ == (FrameView::StreamOpen { id, target })
    &&& data.len() > 0 ==> frames[1]@ == (FrameView::StreamData { id, data })
}

}
