//! Internet addresses as plain values, their text, and network prefixes.

use vstd::arithmetic::div_mod::lemma_fundamental_div_mod_converse;
use vstd::prelude::*;
use vstd::string::*;

use crate::text::{
    decimal, decimal_text, law_decimal, law_parts, number, parse_number, parts, same, split, texts,
};

verus! {

/// An IPv4 address.
#[derive(Clone, Copy, Debug, PartialEq, Eq, Structural)]
pub struct Ipv4Addr {
    /// The address as a number, first octet in the highest byte.
    pub bits: u32,
}

/// An IPv6 address.
#[derive(Clone, Copy, Debug, PartialEq, Eq, Structural)]
pub struct Ipv6Addr {
    /// The address as a number, first octet in the highest byte.
    pub bits: u128,
}

/// An address of either family.
#[derive(Clone, Copy, Debug, PartialEq, Eq, Structural)]
pub enum IpAddr {
    V4(Ipv4Addr),
    V6(Ipv6Addr),
}

/// An address and a port.
#[derive(Clone, Copy, Debug, PartialEq, Eq, Structural)]
pub struct SocketAddr {
    pub ip: IpAddr,
    pub port: u16,
}

/// The address with octets `a.b.c.d`, as a number.
pub open spec fn quad(a: u8, b: u8, c: u8, d: u8) -> u32 {
    (a * 0x100_0000 + b * 0x1_0000 + c * 0x100 + d) as u32
}

/// The text `a.b.c.d` of an address.
pub open spec fn dotted(bits: u32) -> Seq<char> {
    decimal((bits / 0x100_0000) as nat) + "."@ + decimal((bits / 0x1_0000 % 0x100) as nat) + "."@
        + decimal((bits / 0x100 % 0x100) as nat) + "."@ + decimal((bits % 0x100) as nat)
}

/// The number that `t` writes as one octet of a dotted address: in base ten,
/// without sign or leading zeros, at most 255.
pub open spec fn octet(t: Seq<char>) -> Option<nat> {
    match number(t, 255) {
        Some(n) => if decimal(n) == t {
            Some(n)
        } else {
            None
        },
        None => None,
    }
}

/// The address that a dotted text writes: four octets between dots.
pub open spec fn undotted(s: Seq<char>) -> Option<u32> {
    let p = parts(s, '.');
    if p.len() == 4 && octet(p[0]) is Some && octet(p[1]) is Some && octet(p[2]) is Some && octet(
        p[3],
    ) is Some {
        Some(
            quad(
                octet(p[0])->Some_0 as u8,
                octet(p[1])->Some_0 as u8,
                octet(p[2])->Some_0 as u8,
                octet(p[3])->Some_0 as u8,
            ),
        )
    } else {
        None
    }
}

fn parse_octet(t: &str) -> (r: Option<u8>)
    ensures
        match octet(t@) {
            Some(n) => r is Some && r->Some_0 == n,
            None => r is None,
        },
{
    match parse_number(t, 255) {
        Some(n) => {
            let back = decimal_text(n as u64);
            if same(back.as_str(), t) {
                Some(n as u8)
            } else {
                None
            }
        },
        None => None,
    }
}

impl Ipv4Addr {
    /// The address `a.b.c.d`.
    pub fn new(a: u8, b: u8, c: u8, d: u8) -> (r: Ipv4Addr)
        ensures
            r.bits == quad(a, b, c, d),
    {
        Ipv4Addr {
            bits: a as u32 * 0x100_0000 + b as u32 * 0x1_0000 + c as u32 * 0x100 + d as u32,
        }
    }

    /// The dotted text of the address.
    pub fn to_text(&self) -> (r: String)
        ensures
            r@ == dotted(self.bits),
    {
        let a = decimal_text((self.bits / 0x100_0000) as u64);
        let b = decimal_text((self.bits / 0x1_0000 % 0x100) as u64);
        let c = decimal_text((self.bits / 0x100 % 0x100) as u64);
        let d = decimal_text((self.bits % 0x100) as u64);
        a.concat(".").concat(b.as_str()).concat(".").concat(c.as_str()).concat(".").concat(
            d.as_str(),
        )
    }

    /// The address that a dotted text writes.
    pub fn parse(s: &str) -> (r: Option<Ipv4Addr>)
        ensures
            match undotted(s@) {
                Some(b) => r is Some && r->Some_0.bits == b,
                None => r is None,
            },
    {
        let p = split(s, '.');
        assert(texts(p@).len() == p@.len());
        if p.len() != 4 {
            return None;
        }
        assert(texts(p@)[0] == p@[0]@);
        assert(texts(p@)[1] == p@[1]@);
        assert(texts(p@)[2] == p@[2]@);
        assert(texts(p@)[3] == p@[3]@);
        match (
            parse_octet(p[0].as_str()),
            parse_octet(p[1].as_str()),
            parse_octet(p[2].as_str()),
            parse_octet(p[3].as_str()),
        ) {
            (Some(a), Some(b), Some(c), Some(d)) => Some(Ipv4Addr::new(a, b, c, d)),
            _ => None,
        }
    }
}

/// The text of an IPv6 address, as the standard library writes it.
pub uninterp spec fn ipv6_text(bits: u128) -> Seq<char>;

/// The IPv6 address that a text writes, as the standard library reads it.
pub uninterp spec fn ipv6_parsed(s: Seq<char>) -> Option<u128>;

/// Calls `Display` of the address in an `ipnet::Ipv6Net`: the text depends on
/// the address alone. Its form (compressed groups) is left unsaid.
#[verifier::external_body]
fn ipv6_to_text(bits: u128) -> (r: String)
    ensures
        r@ == ipv6_text(bits),
{
    ipnet::Ipv6Net::new(bits.into(), 128).map(|n| n.addr().to_string()).unwrap_or_default()
}

/// Calls `FromStr` of the address type in an `ipnet::Ipv6Net`: which texts it
/// reads and as what depends on the text alone, and is left unsaid.
#[verifier::external_body]
fn ipv6_from_text(s: &str) -> (r: Option<u128>)
    ensures
        r == ipv6_parsed(s@),
{
    let addr = s.parse().ok();
    let net = addr.and_then(|a| ipnet::Ipv6Net::new(a, 128).ok());
    net.map(|n| u128::from(n.addr()))
}

impl Ipv6Addr {
    /// The text of the address.
    pub fn to_text(&self) -> (r: String)
        ensures
            r@ == ipv6_text(self.bits),
    {
        ipv6_to_text(self.bits)
    }

    /// The address that a text writes.
    pub fn parse(s: &str) -> (r: Option<Ipv6Addr>)
        ensures
            match ipv6_parsed(s@) {
                Some(b) => r is Some && r->Some_0.bits == b,
                None => r is None,
            },
    {
        match ipv6_from_text(s) {
            Some(bits) => Some(Ipv6Addr { bits }),
            None => None,
        }
    }
}

/// The text of an address.
pub open spec fn ip_text(ip: IpAddr) -> Seq<char> {
    match ip {
        IpAddr::V4(a) => dotted(a.bits),
        IpAddr::V6(a) => ipv6_text(a.bits),
    }
}

/// The address of either family that `s` writes, given what the IPv6 reader
/// makes of it.
pub open spec fn ip_of(s: Seq<char>, v6: Option<u128>) -> Option<IpAddr> {
    match undotted(s) {
        Some(bits) => Some(IpAddr::V4(Ipv4Addr { bits })),
        None => match v6 {
            Some(bits) => Some(IpAddr::V6(Ipv6Addr { bits })),
            None => None,
        },
    }
}

/// The address of either family that `s` writes.
pub open spec fn ip_parsed(s: Seq<char>) -> Option<IpAddr> {
    ip_of(s, ipv6_parsed(s))
}

impl IpAddr {
    /// The text of the address.
    pub fn to_text(&self) -> (r: String)
        ensures
            r@ == ip_text(*self),
    {
        match self {
            IpAddr::V4(a) => a.to_text(),
            IpAddr::V6(a) => a.to_text(),
        }
    }

    /// The address that a text writes, given what the IPv6 reader makes of it.
    pub fn parse_with(s: &str, v6: Option<Ipv6Addr>) -> (r: Option<IpAddr>)
        ensures
            r == ip_of(
                s@,
                match v6 {
                    Some(a) => Some(a.bits),
                    None => None,
                },
            ),
    {
        match Ipv4Addr::parse(s) {
            Some(a) => Some(IpAddr::V4(a)),
            None => match v6 {
                Some(a) => Some(IpAddr::V6(a)),
                None => None,
            },
        }
    }

    /// The address that a text writes.
    pub fn parse(s: &str) -> (r: Option<IpAddr>)
        ensures
            r == ip_parsed(s@),
    {
        let v6 = Ipv6Addr::parse(s);
        IpAddr::parse_with(s, v6)
    }
}

/// The text of an address and a port: `a.b.c.d:port`, or `[v6]:port`.
pub open spec fn socket_text(a: SocketAddr) -> Seq<char> {
    match a.ip {
        IpAddr::V4(ip) => dotted(ip.bits) + ":"@ + decimal(a.port as nat),
        IpAddr::V6(ip) => "["@ + ipv6_text(ip.bits) + "]:"@ + decimal(a.port as nat),
    }
}

impl SocketAddr {
    /// The text of the address and the port.
    pub fn to_text(&self) -> (r: String)
        ensures
            r@ == socket_text(*self),
    {
        let port = decimal_text(self.port as u64);
        match &self.ip {
            IpAddr::V4(ip) => ip.to_text().concat(":").concat(port.as_str()),
            IpAddr::V6(ip) => "[".to_owned().concat(ip.to_text().as_str()).concat("]:").concat(
                port.as_str(),
            ),
        }
    }
}

/// How many addresses share the first `len` bits with a given one.
pub open spec fn span4(len: u8) -> nat {
    vstd::arithmetic::power2::pow2((32 - len) as nat)
}

/// How many addresses share the first `len` bits with a given one.
pub open spec fn span6(len: u8) -> nat {
    vstd::arithmetic::power2::pow2((128 - len) as nat)
}

/// An IPv4 network: an address and how many of its leading bits name the
/// network.
#[derive(Clone, Copy, Debug, PartialEq, Eq, Structural)]
pub struct Ipv4Net {
    pub addr: Ipv4Addr,
    pub prefix_len: u8,
}

/// An IPv6 network: an address and how many of its leading bits name the
/// network.
#[derive(Clone, Copy, Debug, PartialEq, Eq, Structural)]
pub struct Ipv6Net {
    pub addr: Ipv6Addr,
    pub prefix_len: u8,
}

/// The network that a text in CIDR notation writes: address and prefix length.
pub uninterp spec fn ipv4_net_parsed(s: Seq<char>) -> Option<(u32, u8)>;

/// The network that a text in CIDR notation writes: address and prefix length.
pub uninterp spec fn ipv6_net_parsed(s: Seq<char>) -> Option<(u128, u8)>;

/// Calls `FromStr` of `ipnet::Ipv4Net`: which texts it reads depends on the text
/// alone, a prefix length it reads is at most 32, and its only error says
/// "invalid IP address syntax".
#[verifier::external_body]
fn read_ipv4_net(s: &str) -> (r: Result<(u32, u8), String>)
    ensures
        match ipv4_net_parsed(s@) {
            Some(n) => r == Ok::<(u32, u8), String>(n) && n.1 <= 32,
            None => r is Err && r->Err_0@ == "invalid IP address syntax"@,
        },
{
    s.parse::<ipnet::Ipv4Net>().map(|n| (u32::from(n.addr()), n.prefix_len())).map_err(
        |e| e.to_string(),
    )
}

/// Calls `FromStr` of `ipnet::Ipv6Net`: which texts it reads depends on the text
/// alone, and a prefix length it reads is at most 128.
#[verifier::external_body]
fn read_ipv6_net(s: &str) -> (r: Option<(u128, u8)>)
    ensures
        r == ipv6_net_parsed(s@),
        r is Some ==> r->Some_0.1 <= 128,
{
    s.parse::<ipnet::Ipv6Net>().ok().map(|n| (u128::from(n.addr()), n.prefix_len()))
}

proof fn lemma_span(k: nat, max: nat)
    requires
        k <= max,
        max <= 128,
    ensures
        0 < vstd::arithmetic::power2::pow2(k) <= vstd::arithmetic::power2::pow2(max),
{
    vstd::arithmetic::power2::lemma_pow2_pos(k);
    if k < max {
        vstd::arithmetic::power2::lemma_pow2_strictly_increases(k, max);
    }
}

impl Ipv4Net {
    /// Whether the prefix length is one that an IPv4 network can have.
    pub open spec fn wf(&self) -> bool {
        self.prefix_len <= 32
    }

    /// The network that a text writes, or what is wrong with the text.
    pub fn parse(s: &str) -> (r: Result<Ipv4Net, String>)
        ensures
            match ipv4_net_parsed(s@) {
                Some((bits, len)) => r is Ok && r->Ok_0.wf() && r->Ok_0.addr.bits == bits
                    && r->Ok_0.prefix_len == len,
                None => r is Err && r->Err_0@ == "invalid IP address syntax"@,
            },
    {
        match read_ipv4_net(s) {
            Ok((bits, prefix_len)) => Ok(Ipv4Net { addr: Ipv4Addr { bits }, prefix_len }),
            Err(e) => Err(e),
        }
    }

    /// Whether the network holds the address `bits`: their leading bits agree.
    pub open spec fn holds(&self, bits: u32) -> bool {
        bits as nat / span4(self.prefix_len) == self.addr.bits as nat / span4(self.prefix_len)
    }

    /// Whether the network holds an address.
    pub fn contains(&self, a: Ipv4Addr) -> (r: bool)
        requires
            self.wf(),
        ensures
            r == self.holds(a.bits),
    {
        let span: u64 = power_of_two((32 - self.prefix_len) as u32);
        proof {
            lemma_span((32 - self.prefix_len) as nat, 32);
        }
        a.bits as u64 / span == self.addr.bits as u64 / span
    }

    /// The text of the network: address, slash, prefix length.
    pub open spec fn text(&self) -> Seq<char> {
        dotted(self.addr.bits) + "/"@ + decimal(self.prefix_len as nat)
    }

    /// The text of the network.
    pub fn to_text(&self) -> (r: String)
        ensures
            r@ == self.text(),
    {
        self.addr.to_text().concat("/").concat(decimal_text(self.prefix_len as u64).as_str())
    }

    /// The lowest address of the network.
    pub open spec fn base(&self) -> nat {
        (self.addr.bits as nat - self.addr.bits as nat % span4(self.prefix_len)) as nat
    }

    /// The lowest address of the network.
    pub fn network(&self) -> (r: Ipv4Addr)
        requires
            self.wf(),
        ensures
            r.bits == self.base(),
    {
        let span: u64 = power_of_two((32 - self.prefix_len) as u32);
        proof {
            lemma_span((32 - self.prefix_len) as nat, 32);
            vstd::arithmetic::div_mod::lemma_mod_decreases(self.addr.bits as nat, span as nat);
        }
        Ipv4Addr { bits: (self.addr.bits as u64 - self.addr.bits as u64 % span) as u32 }
    }

    /// The mask of the network: as many leading ones as the prefix is long.
    pub open spec fn mask(&self) -> nat {
        (0x1_0000_0000 - span4(self.prefix_len)) as nat
    }

    /// The mask of the network, as an address.
    pub fn netmask(&self) -> (r: Ipv4Addr)
        requires
            self.wf(),
        ensures
            r.bits == self.mask(),
    {
        let span: u64 = power_of_two((32 - self.prefix_len) as u32);
        proof {
            lemma_span((32 - self.prefix_len) as nat, 32);
            vstd::arithmetic::power2::lemma2_to64();
        }
        Ipv4Addr { bits: (0x1_0000_0000 - span) as u32 }
    }
}

/// Two to the power `k`.
fn power_of_two(k: u32) -> (r: u64)
    requires
        k < 64,
    ensures
        r == vstd::arithmetic::power2::pow2(k as nat),
{
    let mut r: u64 = 1;
    proof {
        vstd::arithmetic::power2::lemma2_to64();
    }
    for i in 0..k
        invariant
            k < 64,
            r == vstd::arithmetic::power2::pow2(i as nat),
    {
        proof {
            vstd::arithmetic::power2::lemma_pow2_unfold((i + 1) as nat);
            vstd::arithmetic::power2::lemma2_to64();
            vstd::arithmetic::power2::lemma2_to64_rest();
            if i < 62 {
                vstd::arithmetic::power2::lemma_pow2_strictly_increases((i + 1) as nat, 63);
            }
        }
        r = r * 2;
    }
    r
}

/// Two to the power `k`.
fn wide_power_of_two(k: u32) -> (r: u128)
    requires
        k < 128,
    ensures
        r == vstd::arithmetic::power2::pow2(k as nat),
{
    let low: u64 = power_of_two(if k < 64 {
        k
    } else {
        0
    });
    if k < 64 {
        return low as u128;
    }
    let a: u64 = power_of_two(k - 64);
    proof {
        vstd::arithmetic::power2::lemma_pow2_adds((k - 64) as nat, 64);
        vstd::arithmetic::power2::lemma2_to64();
        vstd::arithmetic::power2::lemma2_to64_rest();
        assert(a * 0x1_0000_0000_0000_0000 <= 0xffff_ffff_ffff_ffff * 0x1_0000_0000_0000_0000);
    }
    a as u128 * 0x1_0000_0000_0000_0000
}

impl Ipv6Net {
    /// Whether the prefix length is one that an IPv6 network can have.
    pub open spec fn wf(&self) -> bool {
        self.prefix_len <= 128
    }

    /// The network that a text writes, if it is one.
    pub fn parse(s: &str) -> (r: Option<Ipv6Net>)
        ensures
            match ipv6_net_parsed(s@) {
                Some((bits, len)) => r is Some && r->Some_0.wf() && r->Some_0.addr.bits == bits
                    && r->Some_0.prefix_len == len,
                None => r is None,
            },
    {
        match read_ipv6_net(s) {
            Some((bits, prefix_len)) => Some(Ipv6Net { addr: Ipv6Addr { bits }, prefix_len }),
            None => None,
        }
    }

    /// The lowest address of the network.
    pub open spec fn base(&self) -> nat {
        (self.addr.bits as nat - self.addr.bits as nat % span6(self.prefix_len)) as nat
    }

    /// The lowest address of the network.
    pub fn network(&self) -> (r: Ipv6Addr)
        requires
            self.wf(),
        ensures
            r.bits == self.base(),
    {
        proof {
            lemma_span((128 - self.prefix_len) as nat, 128);
        }
        if self.prefix_len == 0 {
            proof {
                vstd::arithmetic::power2::lemma_pow2_adds(64, 64);
                vstd::arithmetic::power2::lemma2_to64_rest();
                vstd::arithmetic::div_mod::lemma_small_mod(self.addr.bits as nat, span6(0));
            }
            return Ipv6Addr { bits: 0 };
        }
        let span: u128 = wide_power_of_two((128 - self.prefix_len) as u32);
        proof {
            vstd::arithmetic::div_mod::lemma_mod_decreases(self.addr.bits as nat, span as nat);
        }
        Ipv6Addr { bits: self.addr.bits - self.addr.bits % span }
    }

    /// Whether the network holds the address `bits`: their leading bits agree.
    pub open spec fn holds(&self, bits: u128) -> bool {
        bits as nat / span6(self.prefix_len) == self.addr.bits as nat / span6(self.prefix_len)
    }

    /// Whether the network holds an address.
    pub fn contains(&self, a: Ipv6Addr) -> (r: bool)
        requires
            self.wf(),
        ensures
            r == self.holds(a.bits),
    {
        proof {
            lemma_span((128 - self.prefix_len) as nat, 128);
        }
        if self.prefix_len == 0 {
            proof {
                vstd::arithmetic::power2::lemma_pow2_adds(64, 64);
                vstd::arithmetic::power2::lemma2_to64_rest();
                vstd::arithmetic::div_mod::lemma_basic_div(self.addr.bits as int, span6(0) as int);
                vstd::arithmetic::div_mod::lemma_basic_div(a.bits as int, span6(0) as int);
            }
            return true;
        }
        let span: u128 = wide_power_of_two((128 - self.prefix_len) as u32);
        a.bits / span == self.addr.bits / span
    }
}

proof fn lemma_quad(a: u8, b: u8, c: u8, d: u8)
    ensures
        quad(a, b, c, d) == a * 0x100_0000 + b * 0x1_0000 + c * 0x100 + d,
        quad(a, b, c, d) / 0x100_0000 == a,
        quad(a, b, c, d) / 0x1_0000 % 0x100 == b,
        quad(a, b, c, d) / 0x100 % 0x100 == c,
        quad(a, b, c, d) % 0x100 == d,
{
    let (a, b, c, d) = (a as int, b as int, c as int, d as int);
    let q: int = a * 0x100_0000 + b * 0x1_0000 + c * 0x100 + d;
    lemma_fundamental_div_mod_converse(q, 0x100_0000, a, b * 0x1_0000 + c * 0x100 + d);
    lemma_fundamental_div_mod_converse(q, 0x1_0000, a * 0x100 + b, c * 0x100 + d);
    lemma_fundamental_div_mod_converse(a * 0x100 + b, 0x100, a, b);
    lemma_fundamental_div_mod_converse(q, 0x100, a * 0x1_0000 + b * 0x100 + c, d);
    lemma_fundamental_div_mod_converse(a * 0x1_0000 + b * 0x100 + c, 0x100, a * 0x100 + b, c);
}

proof fn lemma_four_parts(a: Seq<char>, b: Seq<char>, c: Seq<char>, d: Seq<char>)
    requires
        forall|i: int| 0 <= i < a.len() ==> #[trigger] a[i] != '.',
        forall|i: int| 0 <= i < b.len() ==> #[trigger] b[i] != '.',
        forall|i: int| 0 <= i < c.len() ==> #[trigger] c[i] != '.',
        forall|i: int| 0 <= i < d.len() ==> #[trigger] d[i] != '.',
    ensures
        parts(a + seq!['.'] + b + seq!['.'] + c + seq!['.'] + d, '.') == seq![a, b, c, d],
{
    let s3 = c + seq!['.'] + d;
    let s2 = b + seq!['.'] + s3;
    let s1 = a + seq!['.'] + s2;
    assert(a + seq!['.'] + b + seq!['.'] + c + seq!['.'] + d =~= s1);
    law_parts(a, '.', s2);
    law_parts(b, '.', s3);
    law_parts(c, '.', d);
    law_parts(d, '.', d);
    assert(seq![a] + (seq![b] + (seq![c] + seq![d])) =~= seq![a, b, c, d]);
}

/// An IPv4 address is its four numbers in base ten with dots between them, and such a text
/// reads back as the address. The first number is the highest byte.
pub proof fn law_dotted(a: u8, b: u8, c: u8, d: u8)
    ensures
        quad(a, b, c, d) == a * 0x100_0000 + b * 0x1_0000 + c * 0x100 + d,
        dotted(quad(a, b, c, d)) == decimal(a as nat) + seq!['.'] + decimal(b as nat) + seq!['.']
            + decimal(c as nat) + seq!['.'] + decimal(d as nat),
        undotted(dotted(quad(a, b, c, d))) == Some(quad(a, b, c, d)),
{
    lemma_quad(a, b, c, d);
    reveal_strlit(".");
    assert("."@ =~= seq!['.']);
    law_octets(Seq::empty(), a as nat);
    law_octets(Seq::empty(), b as nat);
    law_octets(Seq::empty(), c as nat);
    law_octets(Seq::empty(), d as nat);
    lemma_no_dot(a as nat);
    lemma_no_dot(b as nat);
    lemma_no_dot(c as nat);
    lemma_no_dot(d as nat);
    lemma_four_parts(
        decimal(a as nat),
        decimal(b as nat),
        decimal(c as nat),
        decimal(d as nat),
    );
}

proof fn lemma_no_dot(n: nat)
    ensures
        forall|i: int| 0 <= i < decimal(n).len() ==> #[trigger] decimal(n)[i] != '.',
{
    law_decimal(n, n);
    assert forall|i: int| 0 <= i < decimal(n).len() implies #[trigger] decimal(n)[i] != '.' by {
        assert('0' <= decimal(n)[i] <= '9');
    }
}

/// A part of an address is a number below 256 written without leading zeros.
pub proof fn law_octets(t: Seq<char>, n: nat)
    ensures
        n <= 255 ==> octet(decimal(n)) == Some(n),
        n > 255 ==> octet(decimal(n)) is None,
        octet(t) is Some ==> octet(t)->Some_0 <= 255 && t == decimal(octet(t)->Some_0),
{
    law_decimal(n, 255);
}

/// A text with other than four parts is no IPv4 address, nor is one with a part that is
/// no number below 256.
pub proof fn law_undotted(s: Seq<char>, i: int)
    ensures
        parts(s, '.').len() != 4 ==> undotted(s) is None,
        0 <= i < parts(s, '.').len() && octet(parts(s, '.')[i]) is None ==> undotted(s) is None,
        undotted(s) is Some ==> {
            let p = parts(s, '.');
            undotted(s)->Some_0 == octet(p[0])->Some_0 * 0x100_0000 + octet(p[1])->Some_0
                * 0x1_0000 + octet(p[2])->Some_0 * 0x100 + octet(p[3])->Some_0
        },
{
    let p = parts(s, '.');
    if undotted(s) is Some {
        law_octets(p[0], 0);
        law_octets(p[1], 0);
        law_octets(p[2], 0);
        law_octets(p[3], 0);
    }
}

/// A text that is an IPv4 address is that address; else it is the IPv6 address that it is,
/// if it is one.
pub proof fn law_addresses(s: Seq<char>, v6: Option<u128>)
    ensures
        undotted(s) is Some ==> ip_of(s, v6) == Some(
            IpAddr::V4(Ipv4Addr { bits: undotted(s)->Some_0 }),
        ),
        undotted(s) is None && v6 is Some ==> ip_of(s, v6) == Some(
            IpAddr::V6(Ipv6Addr { bits: v6->Some_0 }),
        ),
        undotted(s) is None && v6 is None ==> ip_of(s, v6) is None,
{
}

/// An address with a port is written with a colon between them, an IPv6 address in square
/// brackets.
pub proof fn law_socket_text(ip: IpAddr, port: u16)
    ensures
        ip is V4 ==> socket_text(SocketAddr { ip, port }) == dotted(ip->V4_0.bits) + seq![':']
            + decimal(port as nat),
        ip is V6 ==> socket_text(SocketAddr { ip, port }) == seq!['['] + ipv6_text(ip->V6_0.bits)
            + seq![']', ':'] + decimal(port as nat),
        ip is V4 ==> ip_text(ip) == dotted(ip->V4_0.bits),
        ip is V6 ==> ip_text(ip) == ipv6_text(ip->V6_0.bits),
{
    reveal_strlit(":");
    reveal_strlit("[");
    reveal_strlit("]:");
    assert(":"@ =~= seq![':']);
    assert("["@ =~= seq!['[']);
    assert("]:"@ =~= seq![']', ':']);
}

proof fn lemma_same_block(x: nat, a: nat, s: nat)
    requires
        s > 0,
    ensures
        x / s == a / s <==> a - a % s <= x && x < a - a % s + s,
{
    vstd::arithmetic::div_mod::lemma_fundamental_div_mod(x as int, s as int);
    vstd::arithmetic::div_mod::lemma_fundamental_div_mod(a as int, s as int);
    let (p, q) = (x / s, a / s);
    assert(x == s * p + x % s);
    assert(a == s * q + a % s);
    assert(x % s < s);
    assert(a % s < s);
    if p == q {
        assert(s * p == s * q);
    } else if p < q {
        assert(s * p + s <= s * q) by (nonlinear_arith)
            requires
                p + 1 <= q,
                s > 0,
        ;
    } else {
        assert(s * q + s <= s * p) by (nonlinear_arith)
            requires
                q + 1 <= p,
                s > 0,
        ;
    }
}

/// A network holds the addresses from its base on, as many as its prefix leaves free: all
/// of them for a prefix of 0, and the one address alone for a prefix of 32.
pub proof fn law_net_holds(n: Ipv4Net, x: u32)
    requires
        n.prefix_len <= 32,
    ensures
        n.holds(x) <==> n.base() <= x && x < n.base() + vstd::arithmetic::power2::pow2(
            (32 - n.prefix_len) as nat,
        ),
        n.base() <= n.addr.bits,
        n.holds(n.addr.bits),
        n.prefix_len == 0 ==> n.holds(x),
        n.prefix_len == 32 ==> (n.holds(x) <==> x == n.addr.bits),
        n.mask() + vstd::arithmetic::power2::pow2((32 - n.prefix_len) as nat) == 0x1_0000_0000,
{
    let s = span4(n.prefix_len);
    vstd::arithmetic::power2::lemma_pow2_pos((32 - n.prefix_len) as nat);
    lemma_same_block(x as nat, n.addr.bits as nat, s);
    vstd::arithmetic::power2::lemma2_to64();
    vstd::arithmetic::div_mod::lemma_fundamental_div_mod(n.addr.bits as int, s as int);
    vstd::arithmetic::power2::lemma_pow2_pos(32);
    if n.prefix_len > 0 {
        vstd::arithmetic::power2::lemma_pow2_strictly_increases((32 - n.prefix_len) as nat, 32);
    }
    assert(n.addr.bits as nat % s <= n.addr.bits) by {
        vstd::arithmetic::div_mod::lemma_mod_decreases(n.addr.bits as nat, s);
    }
    if n.prefix_len == 0 {
        vstd::arithmetic::div_mod::lemma_small_mod(n.addr.bits as nat, s);
    }
    if n.prefix_len == 32 {
        assert(s == 1);
        assert(n.addr.bits as nat % 1 == 0);
    }
}

/// An IPv6 network holds the addresses from its base on, as many as its prefix leaves free.
pub proof fn law_net6_holds(n: Ipv6Net, x: u128)
    requires
        n.prefix_len <= 128,
    ensures
        n.holds(x) <==> n.base() <= x && x < n.base() + vstd::arithmetic::power2::pow2(
            (128 - n.prefix_len) as nat,
        ),
        n.base() <= n.addr.bits,
        n.holds(n.addr.bits),
{
    let s = span6(n.prefix_len);
    vstd::arithmetic::power2::lemma_pow2_pos((128 - n.prefix_len) as nat);
    lemma_same_block(x as nat, n.addr.bits as nat, s);
    vstd::arithmetic::div_mod::lemma_mod_decreases(n.addr.bits as nat, s);
}

/// A network is written with its address and prefix length, a slash between them.
pub proof fn law_net_text(n: Ipv4Net)
    ensures
        n.text() == dotted(n.addr.bits) + seq!['/'] + decimal(n.prefix_len as nat),
{
    reveal_strlit("/");
    assert("/"@ =~= seq!['/']);
}

}
