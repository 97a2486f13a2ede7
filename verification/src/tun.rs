//! The virtual network device: what is asked of the system, and how raw packets
//! are wrapped where the system wants them wrapped.

use vstd::prelude::*;
use vstd::string::*;
use vstd::utf8::encode_utf8;

use crate::addr::Ipv4Addr;
use crate::bytes::{be32, put_be32, put_bytes, slice_of};
use crate::error::{Error, Failure};
use crate::text::{decimal, decimal_text, lossy, lossy_text};

verus! {

/// Parameters of a TUN device.
#[derive(Debug)]
pub struct TunConfig {
    /// Requested name; ignored where the system picks it.
    pub name: String,
    pub ip: Ipv4Addr,
    pub prefix_len: u8,
    pub mtu: u16,
}

/// The request that names a Linux device: sixteen bytes for the name, of which the
/// last stays zero, then the two bytes of the flags, then zeros.
pub open spec fn ifreq_of(name: Seq<u8>, f0: u8, f1: u8) -> Seq<u8> {
    Seq::new(
        40,
        |i: int|
            if i < 15 && i < name.len() {
                name[i]
            } else if i == 16 {
                f0
            } else if i == 17 {
                f1
            } else {
                0
            },
    )
}

/// The request that names a Linux device; `f0` and `f1` are the bytes of the
/// flags in the machine's order.
pub fn ifreq(name: &str, f0: u8, f1: u8) -> (r: Vec<u8>)
    ensures
        r@ == ifreq_of(encode_utf8(name@), f0, f1),
{
    let nb = name.as_bytes();
    let n: usize = nb.len();
    let mut r: Vec<u8> = Vec::new();
    for i in 0..40usize
        invariant
            n == nb@.len(),
            r@ == ifreq_of(nb@, f0, f1).take(i as int),
    {
        let b: u8 = if i < 15 && i < n {
            nb[i]
        } else if i == 16 {
            f0
        } else if i == 17 {
            f1
        } else {
            0
        };
        r.push(b);
        assert(r@ =~= ifreq_of(nb@, f0, f1).take(i + 1));
    }
    assert(r@ =~= ifreq_of(nb@, f0, f1));
    r
}

/// The position of the first zero byte of `s[i..end]`, or `end`.
pub open spec fn first_zero(s: Seq<u8>, i: int, end: int) -> int
    decreases end - i,
{
    if i >= end || s[i] == 0 {
        i
    } else {
        first_zero(s, i + 1, end)
    }
}

/// The name in a field of `max` bytes that ends at the first zero byte.
pub open spec fn field_name(s: Seq<u8>, max: int) -> Seq<char> {
    lossy_text(s.subrange(0, first_zero(s, 0, max)))
}

/// The name in a field of `max` bytes that ends at the first zero byte.
pub fn device_name(s: &[u8], max: usize) -> (r: String)
    requires
        max <= s@.len(),
    ensures
        r@ == field_name(s@, max as int),
{
    let mut i: usize = 0;
    while i < max && s[i] != 0
        invariant
            i <= max <= s@.len(),
            first_zero(s@, 0, max as int) == first_zero(s@, i as int, max as int),
        decreases max - i,
    {
        i = i + 1;
    }
    let name = slice_of(s, 0, i);
    lossy(name.as_slice())
}

/// The name in the field that macOS fills for a utun device: what stands before the
/// first zero byte, and nothing if there is none.
pub open spec fn utun_field_name(s: Seq<u8>) -> Seq<char> {
    let end = first_zero(s, 0, s.len() as int);
    lossy_text(
        s.subrange(
            0,
            if end < s.len() {
                end
            } else {
                0
            },
        ),
    )
}

/// The name in the field that macOS fills for a utun device.
pub fn utun_name(s: &[u8]) -> (r: String)
    ensures
        r@ == utun_field_name(s@),
{
    let n: usize = s.len();
    let mut i: usize = 0;
    while i < n && s[i] != 0
        invariant
            i <= n == s@.len(),
            first_zero(s@, 0, n as int) == first_zero(s@, i as int, n as int),
        decreases n - i,
    {
        i = i + 1;
    }
    let name = slice_of(
        s,
        0,
        if i < n {
            i
        } else {
            0
        },
    );
    lossy(name.as_slice())
}

/// A packet as macOS wants it: after the four-byte number of its address family,
/// which is `inet6` for a version-6 packet and `inet` otherwise. Nothing for an
/// empty packet.
pub open spec fn utun_framed(pkt: Seq<u8>, inet: u32, inet6: u32) -> Seq<u8> {
    if pkt.len() == 0 {
        Seq::empty()
    } else if pkt[0] / 16 == 6 {
        be32(inet6) + pkt
    } else {
        be32(inet) + pkt
    }
}

/// A packet as macOS wants it.
pub fn utun_frame(pkt: &[u8], inet: u32, inet6: u32) -> (r: Vec<u8>)
    ensures
        r@ == utun_framed(pkt@, inet, inet6),
{
    let mut out: Vec<u8> = Vec::new();
    if pkt.len() == 0 {
        return out;
    }
    let af: u32 = if pkt[0] / 16 == 6 {
        inet6
    } else {
        inet
    };
    put_be32(&mut out, af);
    put_bytes(&mut out, pkt);
    assert(out@ =~= be32(af) + pkt@);
    out
}

/// The packet in what macOS delivers: without the four-byte header. Empty if there
/// is not even that.
pub open spec fn utun_payload(raw: Seq<u8>) -> Seq<u8> {
    if raw.len() < 4 {
        Seq::empty()
    } else {
        raw.skip(4)
    }
}

/// The packet in what macOS delivers.
pub fn utun_packet(raw: &[u8]) -> (r: Vec<u8>)
    ensures
        r@ == utun_payload(raw@),
{
    let n: usize = raw.len();
    if n < 4 {
        return Vec::new();
    }
    let r = slice_of(raw, 4, n);
    assert(r@ =~= raw@.skip(4));
    r
}

/// A packet comes out of its macOS form unchanged.
pub proof fn law_utun_round_trip(pkt: Seq<u8>, inet: u32, inet6: u32)
    ensures
        utun_payload(utun_framed(pkt, inet, inet6)) == pkt,
{
    assert(utun_payload(utun_framed(pkt, inet, inet6)) =~= pkt);
}

/// The name of a Windows adapter: `et0` unless another is set.
pub fn adapter_name(name: &str) -> (r: String)
    ensures
        r@ == if name@.len() == 0 {
            "et0"@
        } else {
            name@
        },
{
    if name.unicode_len() == 0 {
        "et0".to_owned()
    } else {
        name.to_owned()
    }
}

/// Whether a received packet fits into a buffer.
pub fn check_fits(packet: usize, buffer: usize) -> (r: Result<(), Error>)
    ensures
        match r {
            Ok(_) => packet <= buffer,
            Err(e) => packet > buffer && e@ == Failure::Transport(
                "tun recv: packet "@ + decimal(packet as nat) + " bytes exceeds buffer "@ + decimal(
                    buffer as nat,
                ),
            ),
        },
{
    if packet > buffer {
        return Err(
            Error::Transport(
                "tun recv: packet ".to_owned().concat(decimal_text(packet as u64).as_str()).concat(
                    " bytes exceeds buffer ",
                ).concat(decimal_text(buffer as u64).as_str()),
            ),
        );
    }
    Ok(())
}

/// The size of a packet for a Windows adapter, which takes at most 65535 bytes.
pub fn adapter_len(packet: usize) -> (r: Result<u16, Error>)
    ensures
        match r {
            Ok(n) => n == packet,
            Err(e) => packet > 0xffff && e@ == Failure::Transport(
                "wintun send: packet "@ + decimal(packet as nat) + " bytes exceeds 65535"@,
            ),
        },
{
    if packet > 0xffff {
        return Err(
            Error::Transport(
                "wintun send: packet ".to_owned().concat(
                    decimal_text(packet as u64).as_str(),
                ).concat(" bytes exceeds 65535"),
            ),
        );
    }
    Ok(packet as u16)
}

/// An interface request is 40 bytes: the name, cut to 15 bytes and ended by a zero, the two
/// flag bytes behind it, and zeros.
pub proof fn law_ifreq(name: Seq<u8>, f0: u8, f1: u8, i: int)
    ensures
        ifreq_of(name, f0, f1).len() == 40,
        0 <= i < name.len() && i < 15 ==> ifreq_of(name, f0, f1)[i] == name[i],
        name.len() <= i < 16 ==> ifreq_of(name, f0, f1)[i] == 0,
        ifreq_of(name, f0, f1)[15] == 0,
        ifreq_of(name, f0, f1)[16] == f0,
        ifreq_of(name, f0, f1)[17] == f1,
        18 <= i < 40 ==> ifreq_of(name, f0, f1)[i] == 0,
{
}

proof fn lemma_first_zero(s: Seq<u8>, i: int, end: int, at: int)
    requires
        0 <= i <= at < end <= s.len(),
        s[at] == 0,
        forall|j: int| i <= j < at ==> #[trigger] s[j] != 0,
    ensures
        first_zero(s, i, end) == at,
    decreases end - i,
{
    if i < at {
        assert(s[i] != 0);
        lemma_first_zero(s, i + 1, end, at);
    }
}

/// The name in a field is what stands before its first zero.
pub proof fn law_device_names(name: Seq<u8>, rest: Seq<u8>, max: int)
    requires
        forall|j: int| 0 <= j < name.len() ==> #[trigger] name[j] != 0,
        name.len() < max <= name.len() + 1 + rest.len(),
    ensures
        field_name(name + seq![0u8] + rest, max) == lossy_text(name),
        utun_field_name(name + seq![0u8] + rest) == lossy_text(name),
{
    let s = name + seq![0u8] + rest;
    assert forall|j: int| 0 <= j < name.len() implies #[trigger] s[j] != 0 by {
        assert(s[j] == name[j]);
    }
    lemma_first_zero(s, 0, max, name.len() as int);
    lemma_first_zero(s, 0, s.len() as int, name.len() as int);
    assert(s.subrange(0, name.len() as int) =~= name);
}

/// A packet on a utun device has its protocol before it, highest byte first: the one for
/// IPv6 if its version is 6, and the one for IPv4 otherwise.
pub proof fn law_utun_header(pkt: Seq<u8>, inet: u32, inet6: u32)
    requires
        pkt.len() > 0,
    ensures
        ({
            let f = utun_framed(pkt, inet, inet6);
            &&& f.len() == pkt.len() + 4
            &&& f.skip(4) == pkt
            &&& pkt[0] / 16 == 6 ==> f[0] * 0x100_0000 + f[1] * 0x1_0000 + f[2] * 0x100 + f[3]
                == inet6
            &&& pkt[0] / 16 != 6 ==> f[0] * 0x100_0000 + f[1] * 0x1_0000 + f[2] * 0x100 + f[3]
                == inet
        }),
{
    assert(utun_framed(pkt, inet, inet6).skip(4) =~= pkt);
}

}
