//! The SOCKS5 side of the local proxy: a greeting, which is answered, and a request to
//! connect, for which a stream is opened. No authentication is asked for, and nothing
//! but `CONNECT` is served.

use vstd::prelude::*;

use crate::addr::{IpAddr, Ipv4Addr, Ipv6Addr, SocketAddr};
use crate::bytes::{
    be128, be128_at, be16, be16_at, be32, be32_at, get_be128, get_be16, get_be32, lemma_be128,
    lemma_be16, lemma_be32, put_bytes, slice_of,
};
use crate::error::{Error, Failure};
use crate::protocol::control::TargetView;
use crate::protocol::TargetAddr;
use crate::text::{lossy, lossy_text};

verus! {

/// The version that a SOCKS5 message begins with. No HTTP request begins with it.
pub const SOCKS_VERSION: u8 = 5;

/// The answer to a request that is granted.
pub const GRANTED: u8 = 0;

/// The answer to a request that makes no sense.
pub const GENERAL_FAILURE: u8 = 1;

/// The answer to a command other than `CONNECT`.
pub const COMMAND_NOT_SUPPORTED: u8 = 7;

/// The answer to an unknown kind of address.
pub const ADDRESS_NOT_SUPPORTED: u8 = 8;

/// Whether a connection that begins with these bytes is a SOCKS client's.
pub open spec fn is_socks(bytes: Seq<u8>) -> bool {
    bytes.len() > 0 && bytes[0] == SOCKS_VERSION
}

/// Whether a connection that begins with these bytes is a SOCKS client's.
pub fn greets_in_socks(bytes: &[u8]) -> (r: bool)
    ensures
        r == is_socks(bytes@),
{
    bytes.len() > 0 && bytes[0] == SOCKS_VERSION
}

/// The answer to a request: the code, and an address that says nothing.
pub open spec fn answer_of(code: u8) -> Seq<u8> {
    seq![SOCKS_VERSION, code, 0u8, 1u8, 0u8, 0u8, 0u8, 0u8, 0u8, 0u8]
}

/// The answer to a request: the code, and an address that says nothing.
pub fn socks_answer(code: u8) -> (r: Vec<u8>)
    ensures
        r@ == answer_of(code),
{
    let r = vec![SOCKS_VERSION, code, 0u8, 1u8, 0u8, 0u8, 0u8, 0u8, 0u8, 0u8];
    assert(r@ =~= answer_of(code));
    r
}

/// What a request asks for: where to connect and how many bytes the request has, the
/// code that refuses it, or nothing while it is not all there.
pub open spec fn asked(s: Seq<u8>) -> Option<Result<(TargetView, int), u8>> {
    if s.len() < 4 {
        None
    } else if s[0] != SOCKS_VERSION {
        Some(Err(GENERAL_FAILURE))
    } else if s[1] != 1 {
        Some(Err(COMMAND_NOT_SUPPORTED))
    } else if s[3] == 1 {
        if s.len() < 10 {
            None
        } else {
            let ip = IpAddr::V4(Ipv4Addr { bits: be32_at(s, 4) });
            Some(Ok((TargetView::Ip(SocketAddr { ip, port: be16_at(s, 8) }), 10)))
        }
    } else if s[3] == 3 {
        if s.len() < 5 || s.len() < 7 + s[4] {
            None
        } else {
            let n = s[4] as int;
            Some(
                Ok(
                    (
                        TargetView::Domain(lossy_text(s.subrange(5, 5 + n)), be16_at(s, 5 + n)),
                        7 + n,
                    ),
                ),
            )
        }
    } else if s[3] == 4 {
        if s.len() < 22 {
            None
        } else {
            let ip = IpAddr::V6(Ipv6Addr { bits: be128_at(s, 4) });
            Some(Ok((TargetView::Ip(SocketAddr { ip, port: be16_at(s, 20) }), 22)))
        }
    } else {
        Some(Err(ADDRESS_NOT_SUPPORTED))
    }
}

/// Whether `r` is `want`.
pub open spec fn is_asked(
    r: Option<Result<(TargetAddr, usize), u8>>,
    want: Option<Result<(TargetView, int), u8>>,
) -> bool {
    match want {
        None => r is None,
        Some(Err(code)) => r == Some(Err::<(TargetAddr, usize), u8>(code)),
        Some(Ok((t, n))) => {
            &&& r is Some && r->Some_0 is Ok
            &&& r->Some_0->Ok_0.0@ == t
            &&& r->Some_0->Ok_0.1 == n
        },
    }
}

/// Reads a request.
pub fn parse_socks_request(s: &[u8]) -> (r: Option<Result<(TargetAddr, usize), u8>>)
    ensures
        is_asked(r, asked(s@)),
{
    if s.len() < 4 {
        return None;
    }
    if s[0] != SOCKS_VERSION {
        return Some(Err(GENERAL_FAILURE));
    }
    if s[1] != 1 {
        return Some(Err(COMMAND_NOT_SUPPORTED));
    }
    if s[3] == 1 {
        if s.len() < 10 {
            return None;
        }
        let ip = IpAddr::V4(Ipv4Addr { bits: get_be32(s, 4) });
        return Some(Ok((TargetAddr::Ip(SocketAddr { ip, port: get_be16(s, 8) }), 10)));
    }
    if s[3] == 3 {
        if s.len() < 5 || s.len() < 7 + s[4] as usize {
            return None;
        }
        let n: usize = s[4] as usize;
        let name = slice_of(s, 5, 5 + n);
        return Some(
            Ok((TargetAddr::Domain(lossy(name.as_slice()), get_be16(s, 5 + n)), 7 + n)),
        );
    }
    if s[3] == 4 {
        if s.len() < 22 {
            return None;
        }
        let ip = IpAddr::V6(Ipv6Addr { bits: get_be128(s, 4) });
        return Some(Ok((TargetAddr::Ip(SocketAddr { ip, port: get_be16(s, 20) }), 22)));
    }
    Some(Err(ADDRESS_NOT_SUPPORTED))
}

/// What to do for a SOCKS client.
pub enum SocksStep {
    /// Wait for more bytes.
    More,
    /// Send an answer and go on.
    Answer(Vec<u8>),
    /// Send an answer and end the connection.
    Refuse(Vec<u8>),
    /// Open a stream, and forward the bytes that came after the request.
    Open { target: TargetAddr, rest: Vec<u8> },
}

/// What to do for a SOCKS client.
pub enum SocksView {
    More,
    Answer(Seq<u8>),
    Refuse(Seq<u8>),
    Open { target: TargetView, rest: Seq<u8> },
}

impl View for SocksStep {
    type V = SocksView;

    open spec fn view(&self) -> SocksView {
        match self {
            SocksStep::More => SocksView::More,
            SocksStep::Answer(a) => SocksView::Answer(a@),
            SocksStep::Refuse(a) => SocksView::Refuse(a@),
            SocksStep::Open { target, rest } => SocksView::Open { target: target@, rest: rest@ },
        }
    }
}

/// Collects what a SOCKS client says.
pub struct SocksReader {
    pub buf: Vec<u8>,
    /// Whether the greeting has been answered.
    pub greeted: bool,
}

/// Whether a greeting offers to go without authentication.
pub open spec fn offers_none(s: Seq<u8>) -> bool {
    exists|i: int| 2 <= i < 2 + s[1] && #[trigger] s[i] == 0
}

fn offers(s: &[u8], n: usize) -> (r: bool)
    requires
        s@.len() >= 2 + n,
        n == s@[1],
    ensures
        r == offers_none(s@),
{
    for i in 2..2 + n
        invariant
            s@.len() >= 2 + n,
            n == s@[1],
            forall|j: int| 2 <= j < i ==> #[trigger] s@[j] != 0,
    {
        if s[i] == 0 {
            return true;
        }
    }
    false
}

/// What to do when `buf` is there, whether the greeting has been answered after it,
/// and the bytes that are left.
pub open spec fn next_of(greeted: bool, buf: Seq<u8>) -> (SocksView, bool, Seq<u8>) {
    if greeted {
        match asked(buf) {
            None => (SocksView::More, true, buf),
            Some(Err(code)) => (SocksView::Refuse(answer_of(code)), true, buf),
            Some(Ok((target, n))) => (
                SocksView::Open { target, rest: buf.skip(n) },
                true,
                Seq::empty(),
            ),
        }
    } else if buf.len() < 2 || buf.len() < 2 + buf[1] {
        (SocksView::More, false, buf)
    } else if is_socks(buf) && offers_none(buf) {
        (SocksView::Answer(seq![SOCKS_VERSION, 0u8]), true, buf.skip(2 + buf[1]))
    } else {
        (SocksView::Refuse(seq![SOCKS_VERSION, 255u8]), false, buf)
    }
}

impl SocksReader {
    /// A reader that has seen nothing.
    pub fn new() -> (r: SocksReader)
        ensures
            r.buf@ == Seq::<u8>::empty(),
            !r.greeted,
    {
        SocksReader { buf: Vec::new(), greeted: false }
    }

    /// Takes bytes that arrived; none means the end of the connection.
    pub fn feed(&mut self, bytes: &[u8]) -> (r: Result<(), Error>)
        ensures
            final(self).buf@ == old(self).buf@ + bytes@,
            final(self).greeted == old(self).greeted,
            match r {
                Ok(_) => bytes@.len() > 0,
                Err(e) => bytes@.len() == 0 && e@ == Failure::Protocol(
                    "eof before request head"@,
                ),
            },
    {
        put_bytes(&mut self.buf, bytes);
        if bytes.len() == 0 {
            return Err(Error::Protocol("eof before request head".to_owned()));
        }
        Ok(())
    }

    /// What to do now.
    pub fn next(&mut self) -> (r: SocksStep)
        ensures
            (r@, final(self).greeted, final(self).buf@) == next_of(
                old(self).greeted,
                old(self).buf@,
            ),
    {
        let len: usize = self.buf.len();
        if self.greeted {
            return match parse_socks_request(self.buf.as_slice()) {
                None => SocksStep::More,
                Some(Err(code)) => SocksStep::Refuse(socks_answer(code)),
                Some(Ok((target, n))) => {
                    let rest = slice_of(self.buf.as_slice(), n, len);
                    assert(rest@ =~= self.buf@.skip(n as int));
                    self.buf = Vec::new();
                    assert(self.buf@ =~= Seq::<u8>::empty());
                    SocksStep::Open { target, rest }
                },
            };
        }
        if len < 2 {
            return SocksStep::More;
        }
        let n: usize = self.buf[1] as usize;
        if len < 2 + n {
            return SocksStep::More;
        }
        if greets_in_socks(self.buf.as_slice()) && offers(self.buf.as_slice(), n) {
            let rest = slice_of(self.buf.as_slice(), 2 + n, len);
            assert(rest@ =~= self.buf@.skip(2 + n));
            self.buf = rest;
            self.greeted = true;
            let a = vec![SOCKS_VERSION, 0u8];
            assert(a@ =~= seq![SOCKS_VERSION, 0u8]);
            SocksStep::Answer(a)
        } else {
            let a = vec![SOCKS_VERSION, 255u8];
            assert(a@ =~= seq![SOCKS_VERSION, 255u8]);
            SocksStep::Refuse(a)
        }
    }
}

/// A greeting: the version and a list of methods.
pub open spec fn greeting(methods: Seq<u8>) -> Seq<u8> {
    seq![SOCKS_VERSION, methods.len() as u8] + methods
}

/// A request to connect to a name.
pub open spec fn connect_to_name(name: Seq<u8>, port: u16) -> Seq<u8> {
    seq![SOCKS_VERSION, 1u8, 0u8, 3u8, name.len() as u8] + name + be16(port)
}

/// A request to connect to an address.
pub open spec fn connect_to_address(a: SocketAddr) -> Seq<u8> {
    match a.ip {
        IpAddr::V4(ip) => seq![SOCKS_VERSION, 1u8, 0u8, 1u8] + be32(ip.bits) + be16(a.port),
        IpAddr::V6(ip) => seq![SOCKS_VERSION, 1u8, 0u8, 4u8] + be128(ip.bits) + be16(a.port),
    }
}

/// A greeting that offers to go without authentication is answered so, and one that
/// does not is refused, whatever follows it.
pub proof fn law_socks_greeting_is_answered(methods: Seq<u8>, rest: Seq<u8>)
    requires
        methods.len() <= 255,
    ensures
        is_socks(greeting(methods) + rest),
        next_of(false, greeting(methods) + rest) == if methods.contains(0) {
            (SocksView::Answer(seq![SOCKS_VERSION, 0u8]), true, rest)
        } else {
            (SocksView::Refuse(seq![SOCKS_VERSION, 255u8]), false, greeting(methods) + rest)
        },
{
    let s = greeting(methods) + rest;
    assert(s.skip(2 + methods.len() as int) =~= rest);
    assert forall|i: int| 2 <= i < 2 + methods.len() implies s[i] == #[trigger] methods[i - 2] by {}
    if methods.contains(0) {
        let k = choose|k: int| 0 <= k < methods.len() && methods[k] == 0;
        assert(s[k + 2] == methods[k + 2 - 2]);
        assert(offers_none(s));
    } else if offers_none(s) {
        let i = choose|i: int| 2 <= i < 2 + s[1] && #[trigger] s[i] == 0;
        assert(methods[i - 2] == 0);
    }
}

/// A request to connect opens a stream to just the name or the address that it holds,
/// and what follows it is forwarded.
pub proof fn law_socks_request_opens_a_stream(
    name: Seq<u8>,
    port: u16,
    a: SocketAddr,
    rest: Seq<u8>,
)
    requires
        name.len() <= 255,
    ensures
        next_of(true, connect_to_name(name, port) + rest) == (
            (SocksView::Open { target: TargetView::Domain(lossy_text(name), port), rest }),
            true,
            Seq::<u8>::empty(),
        ),
        next_of(true, connect_to_address(a) + rest) == (
            (SocksView::Open { target: TargetView::Ip(a), rest }),
            true,
            Seq::<u8>::empty(),
        ),
{
    let n = name.len() as int;
    let s = connect_to_name(name, port) + rest;
    assert(s.subrange(5, 5 + n) =~= name);
    assert(s.subrange(5 + n, 7 + n) =~= be16(port));
    lemma_be16(port, s, 5 + n);
    assert(s.skip(7 + n) =~= rest);
    let t = connect_to_address(a) + rest;
    match a.ip {
        IpAddr::V4(ip) => {
            assert(t.subrange(4, 8) =~= be32(ip.bits));
            assert(t.subrange(8, 10) =~= be16(a.port));
            lemma_be32(ip.bits, t, 4);
            lemma_be16(a.port, t, 8);
            assert(t.skip(10) =~= rest);
        },
        IpAddr::V6(ip) => {
            assert(t.subrange(4, 20) =~= be128(ip.bits));
            assert(t.subrange(20, 22) =~= be16(a.port));
            lemma_be128(ip.bits, t, 4);
            lemma_be16(a.port, t, 20);
            assert(t.skip(22) =~= rest);
        },
    }
}

/// While a greeting or a request is not all there, the proxy waits for the rest.
pub proof fn law_socks_waits_for_the_rest(
    methods: Seq<u8>,
    name: Seq<u8>,
    port: u16,
    a: SocketAddr,
    k: int,
)
    requires
        methods.len() <= 255,
        name.len() <= 255,
        0 <= k,
    ensures
        k < greeting(methods).len() ==> next_of(false, greeting(methods).take(k)) == (
            SocksView::More,
            false,
            greeting(methods).take(k),
        ),
        k < connect_to_name(name, port).len() ==> next_of(
            true,
            connect_to_name(name, port).take(k),
        ) == (SocksView::More, true, connect_to_name(name, port).take(k)),
        k < connect_to_address(a).len() ==> next_of(true, connect_to_address(a).take(k)) == (
            SocksView::More,
            true,
            connect_to_address(a).take(k),
        ),
{
}

/// The bytes of the protocol: version 5, the answer's ten bytes, and what a greeting and a
/// request look like.
pub proof fn law_socks_bytes(code: u8, methods: Seq<u8>, name: Seq<u8>, a: SocketAddr, port: u16)
    requires
        methods.len() <= 255,
        name.len() <= 255,
    ensures
        answer_of(code) == seq![5u8, code, 0, 1, 0, 0, 0, 0, 0, 0],
        greeting(methods) == seq![5u8, methods.len() as u8] + methods,
        connect_to_name(name, port) == seq![5u8, 1, 0, 3, name.len() as u8] + name + seq![
            (port / 0x100) as u8,
            (port % 0x100) as u8,
        ],
        a.ip is V4 ==> connect_to_address(a) == seq![5u8, 1, 0, 1] + be32(a.ip->V4_0.bits) + seq![
            (a.port / 0x100) as u8,
            (a.port % 0x100) as u8,
        ],
        a.ip is V6 ==> connect_to_address(a) == seq![5u8, 1, 0, 4] + be128(a.ip->V6_0.bits) + seq![
            (a.port / 0x100) as u8,
            (a.port % 0x100) as u8,
        ],
{
}

/// A connection speaks SOCKS just if its first byte is 5.
pub proof fn law_socks_is_recognized(b: u8, rest: Seq<u8>)
    ensures
        is_socks(seq![b] + rest) <==> b == 5,
        !is_socks(Seq::empty()),
{
    assert((seq![b] + rest)[0] == b);
}

/// A greeting that offers to go without authentication is answered so; any other, and one
/// of another version, is refused.
pub proof fn law_socks_methods(methods: Seq<u8>, rest: Seq<u8>, buf: Seq<u8>, i: int)
    requires
        methods.len() <= 255,
    ensures
        0 <= i < methods.len() && methods[i] == 0 ==> next_of(false, greeting(methods) + rest) == (
            SocksView::Answer(seq![5u8, 0]),
            true,
            rest,
        ),
        (forall|j: int| 0 <= j < methods.len() ==> #[trigger] methods[j] != 0) ==> next_of(
            false,
            greeting(methods) + rest,
        ).0 == SocksView::Refuse(seq![5u8, 255]),
        buf.len() >= 2 && buf.len() >= 2 + buf[1] && buf[0] != 5 ==> next_of(false, buf).0
            == SocksView::Refuse(seq![5u8, 255]),
{
    let s = greeting(methods) + rest;
    assert(s[1] == methods.len());
    assert(s.skip(2 + methods.len() as int) =~= rest);
    assert forall|j: int| 0 <= j < methods.len() implies s[j + 2] == #[trigger] methods[j] by {}
    if 0 <= i < methods.len() && methods[i] == 0 {
        assert(s[i + 2] == methods[i]);
        assert(offers_none(s));
    }
    if forall|j: int| 0 <= j < methods.len() ==> #[trigger] methods[j] != 0 {
        if offers_none(s) {
            let k = choose|k: int| 2 <= k < 2 + s[1] && #[trigger] s[k] == 0;
            assert(methods[k - 2] != 0);
            assert(s[k - 2 + 2] == methods[k - 2]);
        }
    }
}

/// A request in another version fails, one for anything but a connection is not supported,
/// and neither is an address of another kind: with the codes 1, 7 and 8.
pub proof fn law_socks_refusals(s: Seq<u8>)
    requires
        s.len() >= 4,
    ensures
        s[0] != 5 ==> next_of(true, s).0 == SocksView::Refuse(
            seq![5u8, 1, 0, 1, 0, 0, 0, 0, 0, 0],
        ),
        s[0] == 5 && s[1] != 1 ==> next_of(true, s).0 == SocksView::Refuse(
            seq![5u8, 7, 0, 1, 0, 0, 0, 0, 0, 0],
        ),
        s[0] == 5 && s[1] == 1 && s[3] != 1 && s[3] != 3 && s[3] != 4 ==> next_of(true, s).0
            == SocksView::Refuse(seq![5u8, 8, 0, 1, 0, 0, 0, 0, 0, 0]),
{
}

}
