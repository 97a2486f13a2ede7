//! Nothing but an encoding is read as a frame.

use vstd::prelude::*;
use vstd::string::*;
use vstd::utf8::decode_utf8_encode_utf8;

use super::codec::{
    dec_all, dec_body, dec_bytes, dec_head, dec_hello, dec_id, dec_list, dec_opt, dec_tail, decoded,
    enc_all, enc_bytes, enc_head, enc_list, enc_opt, enc_tail, frame_body, frame_index, head_of,
    tail_of, Wire,
};
use super::frame::FrameView;
use super::{Frame, Hello, PeerInfo, TargetAddr, Welcome};
use crate::addr::{Ipv4Addr, Ipv6Addr, SocketAddr};
use crate::bytes::{
    be128, le32, lemma_back16, lemma_back2, lemma_back4, lemma_back8, lemma_le32,
};
use crate::config::SessionMode;
use crate::error::Failure;
use crate::text::decimal;

verus! {

/// A type whose values are read from their encodings alone.
pub trait Exact: Wire {
    /// What was read is what the bytes begin with.
    proof fn lemma_exact(s: Seq<u8>)
        ensures
            Self::dec(s) is Ok ==> s == Self::enc(Self::dec(s)->Ok_0.0) + Self::dec(s)->Ok_0.1,
    ;
}

proof fn lemma_join(a: Seq<u8>, b: Seq<u8>, rest: Seq<u8>)
    ensures
        a + (b + rest) == (a + b) + rest,
{
    assert(a + (b + rest) =~= (a + b) + rest);
}

impl Exact for u8 {
    proof fn lemma_exact(s: Seq<u8>) {
        if s.len() >= 1 {
            assert(s =~= seq![s[0]] + s.skip(1));
        }
    }
}

impl Exact for bool {
    proof fn lemma_exact(s: Seq<u8>) {
        if s.len() >= 1 {
            assert(s =~= seq![s[0]] + s.skip(1));
        }
    }
}

impl Exact for u16 {
    proof fn lemma_exact(s: Seq<u8>) {
        if s.len() >= 2 {
            lemma_back2(s, 0);
            assert(s =~= s.subrange(0, 2) + s.skip(2));
        }
    }
}

impl Exact for u32 {
    proof fn lemma_exact(s: Seq<u8>) {
        if s.len() >= 4 {
            lemma_back4(s, 0);
            assert(s =~= s.subrange(0, 4) + s.skip(4));
        }
    }
}

impl Exact for u64 {
    proof fn lemma_exact(s: Seq<u8>) {
        if s.len() >= 8 {
            lemma_back8(s, 0);
            assert(s =~= s.subrange(0, 8) + s.skip(8));
        }
    }
}

proof fn lemma_bytes_exact(s: Seq<u8>)
    ensures
        dec_bytes(s) is Ok ==> s == enc_bytes(dec_bytes(s)->Ok_0.0) + dec_bytes(s)->Ok_0.1,
{
    if dec_bytes(s) is Ok {
        lemma_back8(s, 0);
        let (b, rest) = dec_bytes(s)->Ok_0;
        assert(s =~= s.subrange(0, 8) + b + rest);
    }
}

impl Exact for String {
    proof fn lemma_exact(s: Seq<u8>) {
        lemma_bytes_exact(s);
        if String::dec(s) is Ok {
            decode_utf8_encode_utf8(dec_bytes(s)->Ok_0.0);
        }
    }
}

impl Exact for Ipv4Addr {
    proof fn lemma_exact(s: Seq<u8>) {
        if s.len() >= 4 {
            lemma_back4(s, 0);
            assert(s =~= s.subrange(0, 4) + s.skip(4));
        }
    }
}

impl Exact for Ipv6Addr {
    proof fn lemma_exact(s: Seq<u8>) {
        if s.len() >= 16 {
            lemma_back16(s, 0);
            assert(s =~= s.subrange(0, 16) + s.skip(16));
        }
    }
}

proof fn lemma_opt_exact<T: Exact>(s: Seq<u8>)
    ensures
        dec_opt::<T>(s) is Ok ==> s == enc_opt::<T>(dec_opt::<T>(s)->Ok_0.0) + dec_opt::<T>(
            s,
        )->Ok_0.1,
{
    if s.len() >= 1 {
        assert(s =~= seq![s[0]] + s.skip(1));
        if s[0] == 1 {
            T::lemma_exact(s.skip(1));
            if T::dec(s.skip(1)) is Ok {
                let (x, rest) = T::dec(s.skip(1))->Ok_0;
                lemma_join(seq![1u8], T::enc(x), rest);
            }
        }
    }
}

proof fn lemma_all_exact<T: Exact>(n: nat, s: Seq<u8>)
    ensures
        dec_all::<T>(n, s) is Ok ==> {
            let (v, rest) = dec_all::<T>(n, s)->Ok_0;
            v.len() == n && s == enc_all::<T>(v) + rest
        },
    decreases n,
{
    if n == 0 {
        assert(s =~= Seq::<u8>::empty() + s);
    } else if T::dec(s) is Ok {
        let (x, rest) = T::dec(s)->Ok_0;
        T::lemma_exact(s);
        lemma_all_exact::<T>((n - 1) as nat, rest);
        if dec_all::<T>((n - 1) as nat, rest) is Ok {
            let (xs, rest2) = dec_all::<T>((n - 1) as nat, rest)->Ok_0;
            lemma_join(T::enc(x), enc_all::<T>(xs), rest2);
            assert((seq![x] + xs).skip(1) =~= xs);
        }
    }
}

proof fn lemma_list_exact<T: Exact>(s: Seq<u8>)
    ensures
        dec_list::<T>(s) is Ok ==> s == enc_list::<T>(dec_list::<T>(s)->Ok_0.0) + dec_list::<T>(
            s,
        )->Ok_0.1,
{
    u64::lemma_exact(s);
    if u64::dec(s) is Ok {
        let (n, rest) = u64::dec(s)->Ok_0;
        lemma_all_exact::<T>(n as nat, rest);
        if dec_all::<T>(n as nat, rest) is Ok {
            let (v, rest2) = dec_all::<T>(n as nat, rest)->Ok_0;
            lemma_join(u64::enc(n), enc_all::<T>(v), rest2);
        }
    }
}

impl Exact for SessionMode {
    proof fn lemma_exact(s: Seq<u8>) {
        u32::lemma_exact(s);
    }
}

impl Exact for PeerInfo {
    #[verifier::rlimit(50)]
    proof fn lemma_exact(s: Seq<u8>) {
        if PeerInfo::dec(s) is Ok {
            let (ip, s1) = Ipv4Addr::dec(s)->Ok_0;
            let (name, s2) = String::dec(s1)->Ok_0;
            let (ip6, s3) = dec_opt::<Ipv6Addr>(s2)->Ok_0;
            Ipv4Addr::lemma_exact(s);
            String::lemma_exact(s1);
            lemma_opt_exact::<Ipv6Addr>(s2);
            lemma_join(Ipv4Addr::enc(ip), String::enc(name), s2);
            lemma_join(Ipv4Addr::enc(ip) + String::enc(name), enc_opt::<Ipv6Addr>(ip6), s3);
        }
    }
}

/// The fields of a greeting are read one after the other.
proof fn lemma_hello_read(s: Seq<u8>) -> (r: (Seq<u8>, Seq<u8>, Seq<u8>, Seq<u8>, Seq<u8>))
    requires
        dec_hello(s) is Ok,
    ensures
        ({
            let (v, s6) = dec_hello(s)->Ok_0;
            &&& u16::dec(s) == Ok::<_, Seq<char>>((v.version, r.0))
            &&& String::dec(r.0) == Ok::<_, Seq<char>>((v.token, r.1))
            &&& SessionMode::dec(r.1) == Ok::<_, Seq<char>>((v.mode, r.2))
            &&& dec_opt::<Ipv4Addr>(r.2) == Ok::<_, Seq<char>>((v.requested_ip, r.3))
            &&& dec_opt::<String>(r.3) == Ok::<_, Seq<char>>((v.client_name, r.4))
            &&& bool::dec(r.4) == Ok::<_, Seq<char>>((v.join_vpn, s6))
        }),
{
    reveal(dec_hello);
    let s1 = u16::dec(s)->Ok_0.1;
    let s2 = String::dec(s1)->Ok_0.1;
    let s3 = SessionMode::dec(s2)->Ok_0.1;
    let s4 = dec_opt::<Ipv4Addr>(s3)->Ok_0.1;
    let s5 = dec_opt::<String>(s4)->Ok_0.1;
    (s1, s2, s3, s4, s5)
}

impl Exact for Hello {
    #[verifier::rlimit(50)]
    proof fn lemma_exact(s: Seq<u8>) {
        if Hello::dec(s) is Ok {
            let v = Hello::dec(s)->Ok_0.0;
            let s6 = Hello::dec(s)->Ok_0.1;
            let (s1, s2, s3, s4, s5) = lemma_hello_read(s);
            let e2 = String::enc(v.token);
            let e3 = SessionMode::enc(v.mode);
            let e4 = enc_opt::<Ipv4Addr>(v.requested_ip);
            let e5 = enc_opt::<String>(v.client_name);
            let e6 = bool::enc(v.join_vpn);
            assert(s == u16::enc(v.version) + s1) by {
                u16::lemma_exact(s);
            }
            assert(s1 == e2 + s2) by {
                String::lemma_exact(s1);
            }
            assert(s2 == e3 + s3) by {
                SessionMode::lemma_exact(s2);
            }
            assert(s3 == e4 + s4) by {
                lemma_opt_exact::<Ipv4Addr>(s3);
            }
            assert(s4 == e5 + s5) by {
                lemma_opt_exact::<String>(s4);
            }
            assert(s5 == e6 + s6) by {
                bool::lemma_exact(s5);
            }
            lemma_six(u16::enc(v.version), e2, e3, e4, e5, e6, s6);
        }
    }
}

proof fn lemma_four_parts(a: Seq<u8>, b: Seq<u8>, c: Seq<u8>, d: Seq<u8>, rest: Seq<u8>)
    ensures
        a + (b + (c + (d + rest))) == a + b + c + d + rest,
{
    assert(a + (b + (c + (d + rest))) =~= a + b + c + d + rest);
}

proof fn lemma_six(
    a: Seq<u8>,
    b: Seq<u8>,
    c: Seq<u8>,
    d: Seq<u8>,
    e: Seq<u8>,
    f: Seq<u8>,
    rest: Seq<u8>,
)
    ensures
        a + (b + (c + (d + (e + (f + rest))))) == a + b + c + d + e + f + rest,
{
    lemma_four_parts(a, b, c, d, e + (f + rest));
    lemma_join(a + b + c + d, e, f + rest);
    lemma_join(a + b + c + d + e, f, rest);
}

proof fn lemma_id_exact(s: Seq<u8>)
    ensures
        dec_id(s) is Ok ==> s == enc_bytes(be128(dec_id(s)->Ok_0.0)) + dec_id(s)->Ok_0.1,
{
    if dec_id(s) is Ok {
        lemma_bytes_exact(s);
        let b = dec_bytes(s)->Ok_0.0;
        lemma_back16(b, 0);
        assert(b.subrange(0, 16) =~= b);
    }
}

/// The first fields of a welcome are read one after the other.
proof fn lemma_head_read(s: Seq<u8>) -> (r: (Seq<u8>, Seq<u8>, Seq<u8>, Seq<u8>, Seq<u8>))
    requires
        dec_head(s) is Ok,
    ensures
        ({
            let (v, s6) = dec_head(s)->Ok_0;
            &&& dec_id(s) == Ok::<_, Seq<char>>((v.session_id, r.0))
            &&& Ipv4Addr::dec(r.0) == Ok::<_, Seq<char>>((v.assigned_ip, r.1))
            &&& u8::dec(r.1) == Ok::<_, Seq<char>>((v.prefix_len, r.2))
            &&& Ipv4Addr::dec(r.2) == Ok::<_, Seq<char>>((v.gateway, r.3))
            &&& u16::dec(r.3) == Ok::<_, Seq<char>>((v.mtu, r.4))
            &&& dec_list::<Ipv4Addr>(r.4) == Ok::<_, Seq<char>>((v.dns, s6))
        }),
{
    reveal(dec_head);
    let s1 = dec_id(s)->Ok_0.1;
    let s2 = Ipv4Addr::dec(s1)->Ok_0.1;
    let s3 = u8::dec(s2)->Ok_0.1;
    let s4 = Ipv4Addr::dec(s3)->Ok_0.1;
    let s5 = u16::dec(s4)->Ok_0.1;
    (s1, s2, s3, s4, s5)
}

#[verifier::rlimit(50)]
proof fn lemma_head_exact(s: Seq<u8>)
    ensures
        dec_head(s) is Ok ==> s == enc_head(dec_head(s)->Ok_0.0) + dec_head(s)->Ok_0.1,
{
    if dec_head(s) is Ok {
        let v = dec_head(s)->Ok_0.0;
        let s6 = dec_head(s)->Ok_0.1;
        let (s1, s2, s3, s4, s5) = lemma_head_read(s);
        let e1 = enc_bytes(be128(v.session_id));
        let e2 = Ipv4Addr::enc(v.assigned_ip);
        let e3 = u8::enc(v.prefix_len);
        let e4 = Ipv4Addr::enc(v.gateway);
        let e5 = u16::enc(v.mtu);
        let e6 = enc_list::<Ipv4Addr>(v.dns);
        assert(s == e1 + s1) by {
            lemma_id_exact(s);
        }
        assert(s1 == e2 + s2) by {
            Ipv4Addr::lemma_exact(s1);
        }
        assert(s2 == e3 + s3) by {
            u8::lemma_exact(s2);
        }
        assert(s3 == e4 + s4) by {
            Ipv4Addr::lemma_exact(s3);
        }
        assert(s4 == e5 + s5) by {
            u16::lemma_exact(s4);
        }
        assert(s5 == e6 + s6) by {
            lemma_list_exact::<Ipv4Addr>(s5);
        }
        lemma_six(e1, e2, e3, e4, e5, e6, s6);
    }
}

/// The last fields of a welcome are read one after the other.
proof fn lemma_tail_read(s: Seq<u8>) -> (r: (Seq<u8>, Seq<u8>, Seq<u8>))
    requires
        dec_tail(s) is Ok,
    ensures
        ({
            let (v, s4) = dec_tail(s)->Ok_0;
            &&& dec_opt::<Ipv6Addr>(s) == Ok::<_, Seq<char>>((v.assigned_ip6, r.0))
            &&& u8::dec(r.0) == Ok::<_, Seq<char>>((v.prefix6, r.1))
            &&& dec_opt::<Ipv6Addr>(r.1) == Ok::<_, Seq<char>>((v.gateway6, r.2))
            &&& dec_list::<Ipv6Addr>(r.2) == Ok::<_, Seq<char>>((v.dns6, s4))
        }),
{
    reveal(dec_tail);
    let s1 = dec_opt::<Ipv6Addr>(s)->Ok_0.1;
    let s2 = u8::dec(s1)->Ok_0.1;
    let s3 = dec_opt::<Ipv6Addr>(s2)->Ok_0.1;
    (s1, s2, s3)
}

#[verifier::rlimit(50)]
proof fn lemma_tail_exact(s: Seq<u8>)
    ensures
        dec_tail(s) is Ok ==> s == enc_tail(dec_tail(s)->Ok_0.0) + dec_tail(s)->Ok_0.1,
{
    if dec_tail(s) is Ok {
        let v = dec_tail(s)->Ok_0.0;
        let s4 = dec_tail(s)->Ok_0.1;
        let (s1, s2, s3) = lemma_tail_read(s);
        let e1 = enc_opt::<Ipv6Addr>(v.assigned_ip6);
        let e2 = u8::enc(v.prefix6);
        let e3 = enc_opt::<Ipv6Addr>(v.gateway6);
        let e4 = enc_list::<Ipv6Addr>(v.dns6);
        assert(s == e1 + s1) by {
            lemma_opt_exact::<Ipv6Addr>(s);
        }
        assert(s1 == e2 + s2) by {
            u8::lemma_exact(s1);
        }
        assert(s2 == e3 + s3) by {
            lemma_opt_exact::<Ipv6Addr>(s2);
        }
        assert(s3 == e4 + s4) by {
            lemma_list_exact::<Ipv6Addr>(s3);
        }
        lemma_four_parts(e1, e2, e3, e4, s4);
    }
}

impl Exact for Welcome {
    #[verifier::rlimit(50)]
    proof fn lemma_exact(s: Seq<u8>) {
        if Welcome::dec(s) is Ok {
            let (h, s1) = dec_head(s)->Ok_0;
            let (t, s2) = dec_tail(s1)->Ok_0;
            lemma_head_exact(s);
            lemma_tail_exact(s1);
            lemma_join(enc_head(h), enc_tail(t), s2);
            let w = Welcome::dec(s)->Ok_0.0;
            assert(head_of(w) == h);
            assert(tail_of(w) == t);
        }
    }
}

impl Exact for SocketAddr {
    #[verifier::rlimit(50)]
    proof fn lemma_exact(s: Seq<u8>) {
        u32::lemma_exact(s);
        if SocketAddr::dec(s) is Ok {
            let (i, s1) = u32::dec(s)->Ok_0;
            if i == 0 {
                let (a, s2) = Ipv4Addr::dec(s1)->Ok_0;
                let (port, s3) = u16::dec(s2)->Ok_0;
                Ipv4Addr::lemma_exact(s1);
                u16::lemma_exact(s2);
                lemma_join(le32(0), Ipv4Addr::enc(a), s2);
                lemma_join(le32(0) + Ipv4Addr::enc(a), u16::enc(port), s3);
            } else {
                let (a, s2) = Ipv6Addr::dec(s1)->Ok_0;
                let (port, s3) = u16::dec(s2)->Ok_0;
                Ipv6Addr::lemma_exact(s1);
                u16::lemma_exact(s2);
                lemma_join(le32(1), Ipv6Addr::enc(a), s2);
                lemma_join(le32(1) + Ipv6Addr::enc(a), u16::enc(port), s3);
            }
        }
    }
}

impl Exact for TargetAddr {
    #[verifier::rlimit(50)]
    proof fn lemma_exact(s: Seq<u8>) {
        u32::lemma_exact(s);
        if TargetAddr::dec(s) is Ok {
            let (i, s1) = u32::dec(s)->Ok_0;
            if i == 0 {
                let (a, s2) = SocketAddr::dec(s1)->Ok_0;
                SocketAddr::lemma_exact(s1);
                lemma_join(le32(0), SocketAddr::enc(a), s2);
            } else {
                let (host, s2) = String::dec(s1)->Ok_0;
                let (port, s3) = u16::dec(s2)->Ok_0;
                String::lemma_exact(s1);
                u16::lemma_exact(s2);
                lemma_join(le32(1), String::enc(host), s2);
                lemma_join(le32(1) + String::enc(host), u16::enc(port), s3);
            }
        }
    }
}

#[verifier::rlimit(50)]
proof fn lemma_plain_body_exact(i: u32, s: Seq<u8>)
    requires
        !(6 <= i <= 8),
    ensures
        dec_body(i, s) is Ok ==> {
            let (f, rest) = dec_body(i, s)->Ok_0;
            frame_index(f) == i && s == frame_body(f) + rest
        },
{
    if i == 0 {
        Hello::lemma_exact(s);
    } else if i == 1 {
        Welcome::lemma_exact(s);
    } else if i == 2 {
        String::lemma_exact(s);
    } else if i == 5 {
        lemma_bytes_exact(s);
    } else if i == 10 {
        lemma_list_exact::<PeerInfo>(s);
    } else {
        assert(s =~= Seq::<u8>::empty() + s);
    }
}

proof fn lemma_open_parts(s: Seq<u8>, id: u32, s1: Seq<u8>, e: Seq<u8>, rest: Seq<u8>)
    requires
        u32::dec(s) == Ok::<_, Seq<char>>((id, s1)),
        s1 == e + rest,
    ensures
        s == le32(id) + e + rest,
{
    u32::lemma_exact(s);
    lemma_join(le32(id), e, rest);
}

#[verifier::spinoff_prover]
#[verifier::rlimit(60)]
proof fn lemma_open_body_exact(s: Seq<u8>)
    ensures
        dec_body(6, s) is Ok ==> {
            let (f, rest) = dec_body(6, s)->Ok_0;
            frame_index(f) == 6 && s == frame_body(f) + rest
        },
{
    if dec_body(6, s) is Ok {
        let (id, s1) = u32::dec(s)->Ok_0;
        let (target, rest) = TargetAddr::dec(s1)->Ok_0;
        TargetAddr::lemma_exact(s1);
        lemma_open_parts(s, id, s1, TargetAddr::enc(target), rest);
    }
}

#[verifier::rlimit(50)]
proof fn lemma_data_body_exact(s: Seq<u8>)
    ensures
        dec_body(7, s) is Ok ==> {
            let (f, rest) = dec_body(7, s)->Ok_0;
            frame_index(f) == 7 && s == frame_body(f) + rest
        },
{
    if dec_body(7, s) is Ok {
        let (id, s1) = u32::dec(s)->Ok_0;
        let (data, rest) = dec_bytes(s1)->Ok_0;
        assert(s == le32(id) + s1) by {
            u32::lemma_exact(s);
        }
        assert(s1 == enc_bytes(data) + rest) by {
            lemma_bytes_exact(s1);
        }
        lemma_join(le32(id), enc_bytes(data), rest);
    }
}

#[verifier::rlimit(50)]
proof fn lemma_close_body_exact(s: Seq<u8>)
    ensures
        dec_body(8, s) is Ok ==> {
            let (f, rest) = dec_body(8, s)->Ok_0;
            frame_index(f) == 8 && s == frame_body(f) + rest
        },
{
    if dec_body(8, s) is Ok {
        let (id, s1) = u32::dec(s)->Ok_0;
        let (error, rest) = dec_opt::<String>(s1)->Ok_0;
        assert(s == le32(id) + s1) by {
            u32::lemma_exact(s);
        }
        assert(s1 == enc_opt::<String>(error) + rest) by {
            lemma_opt_exact::<String>(s1);
        }
        lemma_join(le32(id), enc_opt::<String>(error), rest);
    }
}

impl Exact for Frame {
    #[verifier::rlimit(50)]
    proof fn lemma_exact(s: Seq<u8>) {
        u32::lemma_exact(s);
        if Frame::dec(s) is Ok {
            let (i, s1) = u32::dec(s)->Ok_0;
            if i == 6 {
                lemma_open_body_exact(s1);
            } else if i == 7 {
                lemma_data_body_exact(s1);
            } else if i == 8 {
                lemma_close_body_exact(s1);
            } else {
                lemma_plain_body_exact(i, s1);
            }
            let (f, rest) = dec_body(i, s1)->Ok_0;
            lemma_join(le32(i), frame_body(f), rest);
        }
    }
}

/// A message is read as a frame only if it begins with that frame's encoding.
pub proof fn law_frames_are_read_exactly(msg: Seq<u8>)
    requires
        decoded(msg) is Ok,
    ensures
        Frame::enc(decoded(msg)->Ok_0).len() <= msg.len(),
        msg.take(Frame::enc(decoded(msg)->Ok_0).len() as int) == Frame::enc(decoded(msg)->Ok_0),
{
    Frame::lemma_exact(msg);
    let e = Frame::enc(decoded(msg)->Ok_0);
    assert(msg.take(e.len() as int) =~= e);
}

/// A message of a kind that there is none of is refused, and so is one too short to tell
/// its kind.
pub proof fn law_unknown_kinds(i: u32, rest: Seq<u8>, short: Seq<u8>)
    requires
        i > 10,
        short.len() < 4,
    ensures
        decoded(le32(i) + rest) == Err::<FrameView, Failure>(
            Failure::Codec(
                "invalid value: integer `"@ + decimal(i as nat) + "`, expected "@
                    + "variant index 0 <= i < 11"@,
            ),
        ),
        decoded(short) is Err,
{
    let s = le32(i) + rest;
    assert(s.subrange(0, 4) =~= le32(i));
    lemma_le32(i, s, 0);
}

}
