//! The encoding of frames: fixed-width little-endian integers, lengths as 64-bit
//! counts, a tag byte before an optional value, and a 32-bit index before the
//! fields of a variant.

use vstd::prelude::*;
use vstd::slice::slice_subrange;
use vstd::string::*;
use vstd::utf8::{
    decode_utf8, encode_utf8, encode_utf8_decode_utf8, encode_utf8_valid_utf8, valid_utf8,
};

use super::control::{
    opt_view, views, Hello, HelloView, PeerInfo, PeerInfoView, TargetAddr, TargetView, Welcome,
    WelcomeView,
};
use super::frame::{Frame, FrameView};
use crate::addr::{IpAddr, Ipv4Addr, Ipv6Addr, SocketAddr};
use crate::bytes::{
    be128, be128_at, be32, be32_at, get_be128, get_be32, le16, le16_at, le32, le32_at, le64,
    le64_at, lemma_be128, lemma_be32, lemma_le16, lemma_le32, lemma_le64, put_be128, put_be32,
    put_bytes,
};
use crate::config::SessionMode;
use crate::error::{Error, Failure};
use crate::text::{decimal, decimal_text};

verus! {

/// Calls `bincode::serialize` on a `u16`: two bytes, low byte first.
#[verifier::external_body]
fn bincode_u16(x: u16) -> (r: Vec<u8>)
    ensures
        r@ == le16(x),
{
    bincode::serialize(&x).unwrap_or_default()
}

/// Calls `bincode::serialize` on a `u32`: four bytes, low byte first.
#[verifier::external_body]
fn bincode_u32(x: u32) -> (r: Vec<u8>)
    ensures
        r@ == le32(x),
{
    bincode::serialize(&x).unwrap_or_default()
}

/// Calls `bincode::serialize` on a `u64`: eight bytes, low byte first.
#[verifier::external_body]
fn bincode_u64(x: u64) -> (r: Vec<u8>)
    ensures
        r@ == le64(x),
{
    bincode::serialize(&x).unwrap_or_default()
}

/// Calls `bincode::serialize` on a string: the length of its UTF-8 form as a
/// `u64`, then that form.
#[verifier::external_body]
fn bincode_str(s: &str) -> (r: Vec<u8>)
    ensures
        r@ == enc_text(s@),
{
    bincode::serialize(s).unwrap_or_default()
}

/// Calls `bincode::serialize` on a byte list: its length as a `u64`, then the
/// bytes.
#[verifier::external_body]
fn bincode_bytes(b: &[u8]) -> (r: Vec<u8>)
    ensures
        r@ == enc_bytes(b@),
{
    bincode::serialize(b).unwrap_or_default()
}

/// Calls `bincode::serialize` on a `uuid::Uuid`: its sixteen bytes, high byte first,
/// as a byte list.
#[verifier::external_body]
fn bincode_uuid(id: u128) -> (r: Vec<u8>)
    ensures
        r@ == enc_bytes(be128(id)),
{
    bincode::serialize(&uuid::Uuid::from_u128(id)).unwrap_or_default()
}

/// What `bincode` says of bytes that are too few for a number.
pub uninterp spec fn number_flaw(s: Seq<u8>) -> Seq<char>;

/// What `bincode` says of bytes that do not start with a truth value.
pub uninterp spec fn bool_flaw(s: Seq<u8>) -> Seq<char>;

/// What `bincode` says of bytes that do not start with the tag of an optional value.
pub uninterp spec fn tag_flaw(s: Seq<u8>) -> Seq<char>;

/// What `bincode` says of bytes that do not start with a text, on a machine where
/// `longest` is the greatest length.
pub uninterp spec fn text_flaw(s: Seq<u8>, longest: nat) -> Seq<char>;

/// What `bincode` says of bytes that do not start with a byte list, on a machine where
/// `longest` is the greatest length.
pub uninterp spec fn bytes_flaw(s: Seq<u8>, longest: nat) -> Seq<char>;

/// What `bincode` says of bytes that do not start with a UUID, on a machine where
/// `longest` is the greatest length.
pub uninterp spec fn uuid_flaw(s: Seq<u8>, longest: nat) -> Seq<char>;

/// The view of what a reader returned.
pub open spec fn read_view<T>(r: Result<T, String>) -> Result<T, Seq<char>> {
    match r {
        Ok(x) => Ok(x),
        Err(e) => Err(e@),
    }
}

/// Calls `bincode::deserialize` for a `u8`: reads one byte and fails only
/// when there are fewer. The text of its error depends on the bytes alone.
#[verifier::external_body]
fn bincode_read_u8(s: &[u8]) -> (r: Result<u8, String>)
    ensures
        read_view(r) == (if s@.len() >= 1 {
            Ok(s@[0])
        } else {
            Err(number_flaw(s@))
        }),
{
    bincode::deserialize(s).map_err(|e| e.to_string())
}

/// Calls `bincode::deserialize` for a `u16`: reads two bytes, low byte first, and fails only
/// when there are fewer. The text of its error depends on the bytes alone.
#[verifier::external_body]
fn bincode_read_u16(s: &[u8]) -> (r: Result<u16, String>)
    ensures
        read_view(r) == (if s@.len() >= 2 {
            Ok(le16_at(s@, 0))
        } else {
            Err(number_flaw(s@))
        }),
{
    bincode::deserialize(s).map_err(|e| e.to_string())
}

/// Calls `bincode::deserialize` for a `u32`: reads four bytes, low byte first, and fails only
/// when there are fewer. The text of its error depends on the bytes alone.
#[verifier::external_body]
fn bincode_read_u32(s: &[u8]) -> (r: Result<u32, String>)
    ensures
        read_view(r) == (if s@.len() >= 4 {
            Ok(le32_at(s@, 0))
        } else {
            Err(number_flaw(s@))
        }),
{
    bincode::deserialize(s).map_err(|e| e.to_string())
}

/// Calls `bincode::deserialize` for a `u64`: reads eight bytes, low byte first, and fails only
/// when there are fewer. The text of its error depends on the bytes alone.
#[verifier::external_body]
fn bincode_read_u64(s: &[u8]) -> (r: Result<u64, String>)
    ensures
        read_view(r) == (if s@.len() >= 8 {
            Ok(le64_at(s@, 0))
        } else {
            Err(number_flaw(s@))
        }),
{
    bincode::deserialize(s).map_err(|e| e.to_string())
}

/// Calls `bincode::deserialize` for a `bool`: reads one byte, and fails when there is
/// none or it is neither 0 nor 1. The text of its error depends on the bytes alone.
#[verifier::external_body]
fn bincode_read_bool(s: &[u8]) -> (r: Result<bool, String>)
    ensures
        read_view(r) == (if s@.len() >= 1 && s@[0] <= 1 {
            Ok(s@[0] == 1)
        } else {
            Err(bool_flaw(s@))
        }),
{
    bincode::deserialize(s).map_err(|e| e.to_string())
}

/// Calls `bincode::deserialize` for an optional unit value: reads one byte, and fails
/// when there is none or it is neither 0 (no value) nor 1. The text of its error
/// depends on the bytes alone.
#[verifier::external_body]
fn bincode_read_tag(s: &[u8]) -> (r: Result<bool, String>)
    ensures
        read_view(r) == (if s@.len() >= 1 && s@[0] <= 1 {
            Ok(s@[0] == 1)
        } else {
            Err(tag_flaw(s@))
        }),
{
    bincode::deserialize::<Option<()>>(s).map(|o| o.is_some()).map_err(|e| e.to_string())
}

/// Calls `bincode::deserialize` for a `String`: reads a `u64` length and as many
/// bytes, and fails when there are fewer or they are not UTF-8. The text of its error
/// depends on the bytes and on how long a list can be alone.
#[verifier::external_body]
fn bincode_read_string(s: &[u8]) -> (r: Result<String, String>)
    ensures
        match dec_text(s@) {
            Ok((t, _)) => r is Ok && r->Ok_0@ == t,
            Err(_) => r is Err,
        },
        r is Err ==> r->Err_0@ == text_flaw(s@, usize::MAX as nat),
{
    bincode::deserialize(s).map_err(|e| e.to_string())
}

/// Calls `bincode::deserialize` for a `Vec<u8>`: reads a `u64` length and as many
/// bytes, and fails only when there are fewer. The text of its error depends on the
/// bytes and on how long a list can be alone.
#[verifier::external_body]
fn bincode_read_bytes(s: &[u8]) -> (r: Result<Vec<u8>, String>)
    ensures
        match dec_bytes(s@) {
            Ok((b, _)) => r is Ok && r->Ok_0@ == b,
            Err(_) => r is Err,
        },
        r is Err ==> r->Err_0@ == bytes_flaw(s@, usize::MAX as nat),
{
    bincode::deserialize(s).map_err(|e| e.to_string())
}

/// Calls `bincode::deserialize` for a `uuid::Uuid`: reads a byte list, and fails when
/// it cannot or the list is not sixteen bytes long. The text of its error depends on
/// the bytes and on how long a list can be alone.
#[verifier::external_body]
fn bincode_read_uuid(s: &[u8]) -> (r: Result<u128, String>)
    ensures
        match dec_id(s@) {
            Ok((id, _)) => r is Ok && r->Ok_0 == id,
            Err(_) => r is Err,
        },
        r is Err ==> r->Err_0@ == uuid_flaw(s@, usize::MAX as nat),
{
    bincode::deserialize::<uuid::Uuid>(s).map(|u| u.as_u128()).map_err(|e| e.to_string())
}

/// What is said of a variant's index that is none, where `expected` is one.
pub open spec fn bad_index(i: u32, expected: Seq<char>) -> Seq<char> {
    "invalid value: integer `"@ + decimal(i as nat) + "`, expected "@ + expected
}

fn index_flaw(i: u32, expected: &str) -> (r: String)
    ensures
        r@ == bad_index(i, expected@),
{
    "invalid value: integer `".to_owned().concat(decimal_text(i as u64).as_str()).concat(
        "`, expected ",
    ).concat(expected)
}

/// The encoding of a text.
pub open spec fn enc_text(s: Seq<char>) -> Seq<u8> {
    enc_bytes(encode_utf8(s))
}

/// The encoding of a byte list.
pub open spec fn enc_bytes(b: Seq<u8>) -> Seq<u8> {
    le64(b.len() as u64) + b
}

/// The byte list at the start of `s`, and what follows it.
pub open spec fn dec_bytes(s: Seq<u8>) -> Result<(Seq<u8>, Seq<u8>), Seq<char>> {
    if s.len() >= 8 && le64_at(s, 0) <= s.len() - 8 {
        Ok((s.subrange(8, 8 + le64_at(s, 0)), s.skip(8 + le64_at(s, 0))))
    } else {
        Err(bytes_flaw(s, usize::MAX as nat))
    }
}

/// The text at the start of `s`, and what follows it.
pub open spec fn dec_text(s: Seq<u8>) -> Result<(Seq<char>, Seq<u8>), Seq<char>> {
    match dec_bytes(s) {
        Ok((b, rest)) => if valid_utf8(b) {
            Ok((decode_utf8(b), rest))
        } else {
            Err(text_flaw(s, usize::MAX as nat))
        },
        Err(_) => Err(text_flaw(s, usize::MAX as nat)),
    }
}

/// What a channel carries: how a value is encoded, how it is read back from the
/// start of some bytes, and that the two agree.
pub trait Wire: View + Sized {
    /// The encoding of a value.
    spec fn enc(v: Self::V) -> Seq<u8>;

    /// The value at the start of `s`, and what follows it.
    spec fn dec(s: Seq<u8>) -> Result<(Self::V, Seq<u8>), Seq<char>>;

    /// Whether the lengths in the value fit their 64-bit counts.
    spec fn fits(v: Self::V) -> bool;

    /// A value reads back as itself, whatever follows it.
    proof fn lemma_round_trip(v: Self::V, rest: Seq<u8>)
        requires
            Self::fits(v),
        ensures
            Self::dec(Self::enc(v) + rest) == Ok::<_, Seq<char>>((v, rest)),
    ;

    /// Appends the encoding.
    fn put(&self, out: &mut Vec<u8>)
        ensures
            final(out)@ == old(out)@ + Self::enc(self@),
    ;

    /// Reads a value from `buf[pos..]`; also returns where it ends.
    fn get(buf: &[u8], pos: usize) -> (r: Result<(Self, usize), String>)
        requires
            pos <= buf@.len(),
        ensures
            reads_as(r, Self::dec(buf@.skip(pos as int)), buf@),
    ;
}

/// Whether `r` holds a value and an end position in `buf` exactly when `want`
/// holds its view and the bytes after that position.
pub open spec fn reads_as<T: View>(
    r: Result<(T, usize), String>,
    want: Result<(T::V, Seq<u8>), Seq<char>>,
    buf: Seq<u8>,
) -> bool {
    match want {
        Ok((v, rest)) => {
            &&& r is Ok
            &&& r->Ok_0.0@ == v
            &&& r->Ok_0.1 <= buf.len()
            &&& buf.skip(r->Ok_0.1 as int) == rest
        },
        Err(e) => r is Err && r->Err_0@ == e,
    }
}

proof fn lemma_assoc(a: Seq<u8>, b: Seq<u8>, c: Seq<u8>)
    ensures
        (a + b) + c == a + (b + c),
{
    assert((a + b) + c =~= a + (b + c));
}

proof fn lemma_skip_skip(s: Seq<u8>, a: int, b: int)
    requires
        0 <= a,
        0 <= b,
        a + b <= s.len(),
    ensures
        s.skip(a).skip(b) == s.skip(a + b),
{
    assert(s.skip(a).skip(b) =~= s.skip(a + b));
}

impl Wire for u8 {
    open spec fn enc(v: u8) -> Seq<u8> {
        seq![v]
    }

    open spec fn dec(s: Seq<u8>) -> Result<(u8, Seq<u8>), Seq<char>> {
        if s.len() >= 1 {
            Ok((s[0], s.skip(1)))
        } else {
            Err(number_flaw(s))
        }
    }

    open spec fn fits(v: u8) -> bool {
        true
    }

    proof fn lemma_round_trip(v: u8, rest: Seq<u8>) {
        assert((Self::enc(v) + rest).skip(1) =~= rest);
    }

    fn put(&self, out: &mut Vec<u8>) {
        out.push(*self);
        assert(out@ =~= old(out)@ + seq![*self]);
    }

    fn get(buf: &[u8], pos: usize) -> (r: Result<(u8, usize), String>) {
        let s = slice_subrange(buf, pos, buf.len());
        assert(s@ =~= buf@.skip(pos as int));
        match bincode_read_u8(s) {
            Ok(x) => {
                proof {
                    lemma_skip_skip(buf@, pos as int, 1);
                }
                Ok((x, pos + 1))
            },
            Err(e) => Err(e),
        }
    }
}

impl Wire for bool {
    open spec fn enc(v: bool) -> Seq<u8> {
        seq![
            if v {
                1u8
            } else {
                0u8
            },
        ]
    }

    open spec fn dec(s: Seq<u8>) -> Result<(bool, Seq<u8>), Seq<char>> {
        if s.len() >= 1 && s[0] <= 1 {
            Ok((s[0] == 1, s.skip(1)))
        } else {
            Err(bool_flaw(s))
        }
    }

    open spec fn fits(v: bool) -> bool {
        true
    }

    proof fn lemma_round_trip(v: bool, rest: Seq<u8>) {
        assert((Self::enc(v) + rest).skip(1) =~= rest);
    }

    fn put(&self, out: &mut Vec<u8>) {
        let b: u8 = if *self {
            1
        } else {
            0
        };
        out.push(b);
        assert(out@ =~= old(out)@ + Self::enc(*self));
    }

    fn get(buf: &[u8], pos: usize) -> (r: Result<(bool, usize), String>) {
        let s = slice_subrange(buf, pos, buf.len());
        assert(s@ =~= buf@.skip(pos as int));
        match bincode_read_bool(s) {
            Ok(x) => {
                proof {
                    lemma_skip_skip(buf@, pos as int, 1);
                }
                Ok((x, pos + 1))
            },
            Err(e) => Err(e),
        }
    }
}

impl Wire for u16 {
    open spec fn enc(v: u16) -> Seq<u8> {
        le16(v)
    }

    open spec fn dec(s: Seq<u8>) -> Result<(u16, Seq<u8>), Seq<char>> {
        if s.len() >= 2 {
            Ok((le16_at(s, 0), s.skip(2)))
        } else {
            Err(number_flaw(s))
        }
    }

    open spec fn fits(v: u16) -> bool {
        true
    }

    proof fn lemma_round_trip(v: u16, rest: Seq<u8>) {
        let s = le16(v) + rest;
        assert(s.subrange(0, 2) =~= le16(v));
        lemma_le16(v, s, 0);
        assert(s.skip(2) =~= rest);
    }

    fn put(&self, out: &mut Vec<u8>) {
        let b = bincode_u16(*self);
        put_bytes(out, b.as_slice());
    }

    fn get(buf: &[u8], pos: usize) -> (r: Result<(u16, usize), String>) {
        let s = slice_subrange(buf, pos, buf.len());
        assert(s@ =~= buf@.skip(pos as int));
        match bincode_read_u16(s) {
            Ok(x) => {
                proof {
                    lemma_skip_skip(buf@, pos as int, 2);
                }
                Ok((x, pos + 2))
            },
            Err(e) => Err(e),
        }
    }
}

impl Wire for u32 {
    open spec fn enc(v: u32) -> Seq<u8> {
        le32(v)
    }

    open spec fn dec(s: Seq<u8>) -> Result<(u32, Seq<u8>), Seq<char>> {
        if s.len() >= 4 {
            Ok((le32_at(s, 0), s.skip(4)))
        } else {
            Err(number_flaw(s))
        }
    }

    open spec fn fits(v: u32) -> bool {
        true
    }

    proof fn lemma_round_trip(v: u32, rest: Seq<u8>) {
        let s = le32(v) + rest;
        assert(s.subrange(0, 4) =~= le32(v));
        lemma_le32(v, s, 0);
        assert(s.skip(4) =~= rest);
    }

    fn put(&self, out: &mut Vec<u8>) {
        let b = bincode_u32(*self);
        put_bytes(out, b.as_slice());
    }

    fn get(buf: &[u8], pos: usize) -> (r: Result<(u32, usize), String>) {
        let s = slice_subrange(buf, pos, buf.len());
        assert(s@ =~= buf@.skip(pos as int));
        match bincode_read_u32(s) {
            Ok(x) => {
                proof {
                    lemma_skip_skip(buf@, pos as int, 4);
                }
                Ok((x, pos + 4))
            },
            Err(e) => Err(e),
        }
    }
}

impl Wire for u64 {
    open spec fn enc(v: u64) -> Seq<u8> {
        le64(v)
    }

    open spec fn dec(s: Seq<u8>) -> Result<(u64, Seq<u8>), Seq<char>> {
        if s.len() >= 8 {
            Ok((le64_at(s, 0), s.skip(8)))
        } else {
            Err(number_flaw(s))
        }
    }

    open spec fn fits(v: u64) -> bool {
        true
    }

    proof fn lemma_round_trip(v: u64, rest: Seq<u8>) {
        let s = le64(v) + rest;
        assert(s.subrange(0, 8) =~= le64(v));
        lemma_le64(v, s, 0);
        assert(s.skip(8) =~= rest);
    }

    fn put(&self, out: &mut Vec<u8>) {
        let b = bincode_u64(*self);
        put_bytes(out, b.as_slice());
    }

    fn get(buf: &[u8], pos: usize) -> (r: Result<(u64, usize), String>) {
        let s = slice_subrange(buf, pos, buf.len());
        assert(s@ =~= buf@.skip(pos as int));
        match bincode_read_u64(s) {
            Ok(x) => {
                proof {
                    lemma_skip_skip(buf@, pos as int, 8);
                }
                Ok((x, pos + 8))
            },
            Err(e) => Err(e),
        }
    }
}

proof fn lemma_bytes_round_trip(b: Seq<u8>, rest: Seq<u8>)
    requires
        b.len() <= u64::MAX,
    ensures
        dec_bytes(enc_bytes(b) + rest) == Ok::<_, Seq<char>>((b, rest)),
{
    let s = enc_bytes(b) + rest;
    let n = b.len() as u64;
    assert(s.subrange(0, 8) =~= le64(n));
    lemma_le64(n, s, 0);
    assert(s.subrange(8, 8 + n) =~= b);
    assert(s.skip(8 + n) =~= rest);
}

impl Wire for String {
    open spec fn enc(v: Seq<char>) -> Seq<u8> {
        enc_text(v)
    }

    open spec fn dec(s: Seq<u8>) -> Result<(Seq<char>, Seq<u8>), Seq<char>> {
        dec_text(s)
    }

    open spec fn fits(v: Seq<char>) -> bool {
        encode_utf8(v).len() <= u64::MAX
    }

    proof fn lemma_round_trip(v: Seq<char>, rest: Seq<u8>) {
        lemma_bytes_round_trip(encode_utf8(v), rest);
        encode_utf8_valid_utf8(v);
        encode_utf8_decode_utf8(v);
    }

    fn put(&self, out: &mut Vec<u8>) {
        let b = bincode_str(self.as_str());
        put_bytes(out, b.as_slice());
    }

    fn get(buf: &[u8], pos: usize) -> (r: Result<(String, usize), String>) {
        let s = slice_subrange(buf, pos, buf.len());
        assert(s@ =~= buf@.skip(pos as int));
        match bincode_read_string(s) {
            Ok(t) => match bincode_read_u64(s) {
                Ok(n) => {
                    proof {
                        lemma_skip_skip(buf@, pos as int, 8 + n);
                    }
                    Ok((t, pos + 8 + n as usize))
                },
                Err(e) => Err(e),
            },
            Err(e) => Err(e),
        }
    }
}

/// Reads a byte list from `buf[pos..]`; also returns where it ends.
fn get_bytes(buf: &[u8], pos: usize) -> (r: Result<(Vec<u8>, usize), String>)
    requires
        pos <= buf@.len(),
    ensures
        reads_as(r, dec_bytes(buf@.skip(pos as int)), buf@),
{
    let s = slice_subrange(buf, pos, buf.len());
    assert(s@ =~= buf@.skip(pos as int));
    match bincode_read_bytes(s) {
        Ok(b) => match bincode_read_u64(s) {
            Ok(n) => {
                proof {
                    lemma_skip_skip(buf@, pos as int, 8 + n);
                }
                Ok((b, pos + 8 + n as usize))
            },
            Err(e) => Err(e),
        },
        Err(e) => Err(e),
    }
}

/// What is said when the bytes run out in the middle of an address, which is read byte
/// by byte.
fn nothing_left(buf: &[u8]) -> (r: String)
    ensures
        r@ == number_flaw(Seq::empty()),
{
    let s = slice_subrange(buf, buf.len(), buf.len());
    assert(s@ =~= Seq::<u8>::empty());
    match bincode_read_u8(s) {
        Ok(_) => String::new(),
        Err(e) => e,
    }
}

impl Wire for Ipv4Addr {
    open spec fn enc(v: Ipv4Addr) -> Seq<u8> {
        be32(v.bits)
    }

    open spec fn dec(s: Seq<u8>) -> Result<(Ipv4Addr, Seq<u8>), Seq<char>> {
        if s.len() >= 4 {
            Ok((Ipv4Addr { bits: be32_at(s, 0) }, s.skip(4)))
        } else {
            Err(number_flaw(Seq::empty()))
        }
    }

    open spec fn fits(v: Ipv4Addr) -> bool {
        true
    }

    proof fn lemma_round_trip(v: Ipv4Addr, rest: Seq<u8>) {
        let s = be32(v.bits) + rest;
        assert(s.subrange(0, 4) =~= be32(v.bits));
        lemma_be32(v.bits, s, 0);
        assert(s.skip(4) =~= rest);
    }

    fn put(&self, out: &mut Vec<u8>) {
        put_be32(out, self.bits);
    }

    fn get(buf: &[u8], pos: usize) -> (r: Result<(Ipv4Addr, usize), String>) {
        if buf.len() - pos >= 4 {
            proof {
                lemma_skip_skip(buf@, pos as int, 4);
            }
            Ok((Ipv4Addr { bits: get_be32(buf, pos) }, pos + 4))
        } else {
            Err(nothing_left(buf))
        }
    }
}

impl Wire for Ipv6Addr {
    open spec fn enc(v: Ipv6Addr) -> Seq<u8> {
        be128(v.bits)
    }

    open spec fn dec(s: Seq<u8>) -> Result<(Ipv6Addr, Seq<u8>), Seq<char>> {
        if s.len() >= 16 {
            Ok((Ipv6Addr { bits: be128_at(s, 0) }, s.skip(16)))
        } else {
            Err(number_flaw(Seq::empty()))
        }
    }

    open spec fn fits(v: Ipv6Addr) -> bool {
        true
    }

    proof fn lemma_round_trip(v: Ipv6Addr, rest: Seq<u8>) {
        let s = be128(v.bits) + rest;
        assert(s.subrange(0, 16) =~= be128(v.bits));
        lemma_be128(v.bits, s, 0);
        assert(s.skip(16) =~= rest);
    }

    fn put(&self, out: &mut Vec<u8>) {
        put_be128(out, self.bits);
    }

    fn get(buf: &[u8], pos: usize) -> (r: Result<(Ipv6Addr, usize), String>) {
        if buf.len() - pos >= 16 {
            proof {
                lemma_skip_skip(buf@, pos as int, 16);
            }
            Ok((Ipv6Addr { bits: get_be128(buf, pos) }, pos + 16))
        } else {
            Err(nothing_left(buf))
        }
    }
}

/// The encoding of an optional value: a tag byte, then the value if there is one.
pub open spec fn enc_opt<T: Wire>(v: Option<T::V>) -> Seq<u8> {
    match v {
        Some(x) => seq![1u8] + T::enc(x),
        None => seq![0u8],
    }
}

/// The optional value at the start of `s`, and what follows it.
pub open spec fn dec_opt<T: Wire>(s: Seq<u8>) -> Result<(Option<T::V>, Seq<u8>), Seq<char>> {
    if s.len() >= 1 && s[0] == 0 {
        Ok((None, s.skip(1)))
    } else if s.len() >= 1 && s[0] == 1 {
        match T::dec(s.skip(1)) {
            Ok((x, rest)) => Ok((Some(x), rest)),
            Err(e) => Err(e),
        }
    } else {
        Err(tag_flaw(s))
    }
}

/// Whether an optional value's lengths fit their counts.
pub open spec fn fits_opt<T: Wire>(v: Option<T::V>) -> bool {
    v is Some ==> T::fits(v->Some_0)
}

proof fn lemma_opt_round_trip<T: Wire>(v: Option<T::V>, rest: Seq<u8>)
    requires
        fits_opt::<T>(v),
    ensures
        dec_opt::<T>(enc_opt::<T>(v) + rest) == Ok::<_, Seq<char>>((v, rest)),
{
    match v {
        Some(x) => {
            T::lemma_round_trip(x, rest);
            assert((enc_opt::<T>(v) + rest).skip(1) =~= T::enc(x) + rest);
        },
        None => {
            assert((enc_opt::<T>(v) + rest).skip(1) =~= rest);
        },
    }
}

fn put_opt<T: Wire>(v: &Option<T>, out: &mut Vec<u8>)
    ensures
        final(out)@ == old(out)@ + enc_opt::<T>(opt_view(*v)),
{
    match v {
        Some(x) => {
            out.push(1);
            x.put(out);
            assert(out@ =~= old(out)@ + enc_opt::<T>(opt_view(*v)));
        },
        None => {
            out.push(0);
            assert(out@ =~= old(out)@ + enc_opt::<T>(opt_view(*v)));
        },
    }
}

/// Whether `r` holds an optional value and an end position in `buf` exactly when
/// `want` holds its view and the bytes after that position.
pub open spec fn reads_opt_as<T: View>(
    r: Result<(Option<T>, usize), String>,
    want: Result<(Option<T::V>, Seq<u8>), Seq<char>>,
    buf: Seq<u8>,
) -> bool {
    match want {
        Ok((v, rest)) => {
            &&& r is Ok
            &&& opt_view(r->Ok_0.0) == v
            &&& r->Ok_0.1 <= buf.len()
            &&& buf.skip(r->Ok_0.1 as int) == rest
        },
        Err(e) => r is Err && r->Err_0@ == e,
    }
}

fn get_opt<T: Wire>(buf: &[u8], pos: usize) -> (r: Result<(Option<T>, usize), String>)
    requires
        pos <= buf@.len(),
    ensures
        reads_opt_as(r, dec_opt::<T>(buf@.skip(pos as int)), buf@),
{
    let s = slice_subrange(buf, pos, buf.len());
    assert(s@ =~= buf@.skip(pos as int));
    match bincode_read_tag(s) {
        Ok(there) => {
            proof {
                lemma_skip_skip(buf@, pos as int, 1);
            }
            if there {
                match T::get(buf, pos + 1) {
                    Ok((x, end)) => Ok((Some(x), end)),
                    Err(e) => Err(e),
                }
            } else {
                Ok((None, pos + 1))
            }
        },
        Err(e) => Err(e),
    }
}

/// The encodings of some values, one after the other.
pub open spec fn enc_all<T: Wire>(v: Seq<T::V>) -> Seq<u8>
    decreases v.len(),
{
    if v.len() == 0 {
        Seq::empty()
    } else {
        T::enc(v[0]) + enc_all::<T>(v.skip(1))
    }
}

/// The `n` values at the start of `s`, and what follows them.
pub open spec fn dec_all<T: Wire>(n: nat, s: Seq<u8>) -> Result<(Seq<T::V>, Seq<u8>), Seq<char>>
    decreases n,
{
    if n == 0 {
        Ok((Seq::empty(), s))
    } else {
        match T::dec(s) {
            Ok((x, rest)) => match dec_all::<T>((n - 1) as nat, rest) {
                Ok((xs, rest2)) => Ok((seq![x] + xs, rest2)),
                Err(e) => Err(e),
            },
            Err(e) => Err(e),
        }
    }
}

/// The encoding of a list: its length, then its items.
pub open spec fn enc_list<T: Wire>(v: Seq<T::V>) -> Seq<u8> {
    le64(v.len() as u64) + enc_all::<T>(v)
}

/// The list at the start of `s`, and what follows it.
pub open spec fn dec_list<T: Wire>(s: Seq<u8>) -> Result<(Seq<T::V>, Seq<u8>), Seq<char>> {
    match u64::dec(s) {
        Ok((n, rest)) => dec_all::<T>(n as nat, rest),
        Err(e) => Err(e),
    }
}

/// Whether a list's lengths fit their counts.
pub open spec fn fits_list<T: Wire>(v: Seq<T::V>) -> bool {
    v.len() <= u64::MAX && forall|i: int| 0 <= i < v.len() ==> T::fits(#[trigger] v[i])
}

proof fn lemma_all_round_trip<T: Wire>(v: Seq<T::V>, rest: Seq<u8>)
    requires
        forall|i: int| 0 <= i < v.len() ==> T::fits(#[trigger] v[i]),
    ensures
        dec_all::<T>(v.len(), enc_all::<T>(v) + rest) == Ok::<_, Seq<char>>((v, rest)),
    decreases v.len(),
{
    if v.len() == 0 {
        assert(enc_all::<T>(v) + rest =~= rest);
        assert(v =~= Seq::<T::V>::empty());
    } else {
        let tail = v.skip(1);
        lemma_all_round_trip::<T>(tail, rest);
        T::lemma_round_trip(v[0], enc_all::<T>(tail) + rest);
        assert(enc_all::<T>(v) + rest =~= T::enc(v[0]) + (enc_all::<T>(tail) + rest));
        assert(seq![v[0]] + tail =~= v);
    }
}

proof fn lemma_list_round_trip<T: Wire>(v: Seq<T::V>, rest: Seq<u8>)
    requires
        fits_list::<T>(v),
    ensures
        dec_list::<T>(enc_list::<T>(v) + rest) == Ok::<_, Seq<char>>((v, rest)),
{
    lemma_all_round_trip::<T>(v, rest);
    u64::lemma_round_trip(v.len() as u64, enc_all::<T>(v) + rest);
    assert(enc_list::<T>(v) + rest =~= le64(v.len() as u64) + (enc_all::<T>(v) + rest));
}

proof fn lemma_enc_all_push<T: Wire>(v: Seq<T::V>, x: T::V)
    ensures
        enc_all::<T>(v.push(x)) == enc_all::<T>(v) + T::enc(x),
    decreases v.len(),
{
    if v.len() == 0 {
        assert(v.push(x).skip(1) =~= Seq::<T::V>::empty());
        assert(enc_all::<T>(v.push(x).skip(1)) =~= Seq::<u8>::empty());
        assert(enc_all::<T>(v.push(x)) =~= enc_all::<T>(v) + T::enc(x));
    } else {
        lemma_enc_all_push::<T>(v.skip(1), x);
        assert(v.push(x).skip(1) =~= v.skip(1).push(x));
        assert(enc_all::<T>(v.push(x)) =~= enc_all::<T>(v) + T::enc(x));
    }
}

fn put_list<T: Wire>(v: &Vec<T>, out: &mut Vec<u8>)
    ensures
        final(out)@ == old(out)@ + enc_list::<T>(views(v@)),
{
    let n: usize = v.len();
    (n as u64).put(out);
    let ghost head = out@;
    assert(views(v@).take(0) =~= Seq::<T::V>::empty());
    assert(head + enc_all::<T>(views(v@).take(0)) =~= head);
    for i in 0..n
        invariant
            n == v@.len(),
            out@ == head + enc_all::<T>(views(v@).take(i as int)),
    {
        v[i].put(out);
        proof {
            let ghost xs = views(v@);
            lemma_enc_all_push::<T>(xs.take(i as int), xs[i as int]);
            assert(xs.take(i as int).push(xs[i as int]) =~= xs.take(i + 1));
            assert(out@ =~= head + enc_all::<T>(xs.take(i + 1)));
        }
    }
    assert(views(v@).take(n as int) =~= views(v@));
    assert(out@ =~= old(out)@ + enc_list::<T>(views(v@)));
}

/// Whether `r` holds a list and an end position in `buf` exactly when `want`
/// holds its view and the bytes after that position.
pub open spec fn reads_list_as<T: View>(
    r: Result<(Vec<T>, usize), String>,
    want: Result<(Seq<T::V>, Seq<u8>), Seq<char>>,
    buf: Seq<u8>,
) -> bool {
    match want {
        Ok((v, rest)) => {
            &&& r is Ok
            &&& views(r->Ok_0.0@) == v
            &&& r->Ok_0.1 <= buf.len()
            &&& buf.skip(r->Ok_0.1 as int) == rest
        },
        Err(e) => r is Err && r->Err_0@ == e,
    }
}

fn get_list<T: Wire>(buf: &[u8], pos: usize) -> (r: Result<(Vec<T>, usize), String>)
    requires
        pos <= buf@.len(),
    ensures
        reads_list_as(r, dec_list::<T>(buf@.skip(pos as int)), buf@),
{
    let (n, start) = match u64::get(buf, pos) {
        Ok(x) => x,
        Err(e) => return Err(e),
    };
    let mut out: Vec<T> = Vec::new();
    let mut at: usize = start;
    let mut i: u64 = 0;
    let ghost want = dec_all::<T>(n as nat, buf@.skip(start as int));
    assert(views(out@) =~= Seq::<T::V>::empty());
    proof {
        match want {
            Ok((xs, rest)) => {
                assert(views(out@) + xs =~= xs);
            },
            Err(_) => {},
        }
    }
    while i < n
        invariant
            i <= n,
            at <= buf@.len(),
            start <= buf@.len(),
            want == dec_list::<T>(buf@.skip(pos as int)),
            want == (match dec_all::<T>((n - i) as nat, buf@.skip(at as int)) {
                Ok((xs, rest)) => Ok((views(out@) + xs, rest)),
                Err(e) => Err(e),
            }),
        decreases n - i,
    {
        match T::get(buf, at) {
            Ok((x, end)) => {
                let ghost before = views(out@);
                let ghost later = dec_all::<T>((n - i - 1) as nat, buf@.skip(end as int));
                out.push(x);
                proof {
                    assert(views(out@) =~= before.push(x@));
                    match later {
                        Ok((xs, rest)) => {
                            assert(before + (seq![x@] + xs) =~= views(out@) + xs);
                        },
                        Err(_) => {},
                    }
                }
                at = end;
                i = i + 1;
            },
            Err(e) => return Err(e),
        }
    }
    assert(views(out@) + Seq::<T::V>::empty() =~= views(out@));
    Ok((out, at))
}

/// The position of a mode among the modes.
pub open spec fn mode_index(m: SessionMode) -> u32 {
    match m {
        SessionMode::GlobalProxy => 0,
        SessionMode::SystemProxy => 1,
        SessionMode::HttpProxy => 2,
        SessionMode::Vpn => 3,
    }
}

impl View for SessionMode {
    type V = SessionMode;

    open spec fn view(&self) -> SessionMode {
        *self
    }
}

impl Wire for SessionMode {
    open spec fn enc(v: SessionMode) -> Seq<u8> {
        le32(mode_index(v))
    }

    open spec fn dec(s: Seq<u8>) -> Result<(SessionMode, Seq<u8>), Seq<char>> {
        match u32::dec(s) {
            Ok((i, rest)) => if i == 0 {
                Ok((SessionMode::GlobalProxy, rest))
            } else if i == 1 {
                Ok((SessionMode::SystemProxy, rest))
            } else if i == 2 {
                Ok((SessionMode::HttpProxy, rest))
            } else if i == 3 {
                Ok((SessionMode::Vpn, rest))
            } else {
                Err(bad_index(i, "variant index 0 <= i < 4"@))
            },
            Err(e) => Err(e),
        }
    }

    open spec fn fits(v: SessionMode) -> bool {
        true
    }

    proof fn lemma_round_trip(v: SessionMode, rest: Seq<u8>) {
        u32::lemma_round_trip(mode_index(v), rest);
    }

    fn put(&self, out: &mut Vec<u8>) {
        let i: u32 = match self {
            SessionMode::GlobalProxy => 0,
            SessionMode::SystemProxy => 1,
            SessionMode::HttpProxy => 2,
            SessionMode::Vpn => 3,
        };
        i.put(out);
    }

    fn get(buf: &[u8], pos: usize) -> (r: Result<(SessionMode, usize), String>) {
        match u32::get(buf, pos) {
            Ok((0, end)) => Ok((SessionMode::GlobalProxy, end)),
            Ok((1, end)) => Ok((SessionMode::SystemProxy, end)),
            Ok((2, end)) => Ok((SessionMode::HttpProxy, end)),
            Ok((3, end)) => Ok((SessionMode::Vpn, end)),
            Ok((i, _)) => Err(index_flaw(i, "variant index 0 <= i < 4")),
            Err(e) => Err(e),
        }
    }
}


/// The session identifier at the start of `s`, written as a list of sixteen
/// bytes, and what follows it.
pub open spec fn dec_id(s: Seq<u8>) -> Result<(u128, Seq<u8>), Seq<char>> {
    match dec_bytes(s) {
        Ok((b, rest)) => if b.len() == 16 {
            Ok((be128_at(b, 0), rest))
        } else {
            Err(uuid_flaw(s, usize::MAX as nat))
        },
        Err(_) => Err(uuid_flaw(s, usize::MAX as nat)),
    }
}

proof fn lemma_id_round_trip(id: u128, rest: Seq<u8>)
    ensures
        dec_id(enc_bytes(be128(id)) + rest) == Ok::<_, Seq<char>>((id, rest)),
{
    lemma_bytes_round_trip(be128(id), rest);
    assert(be128(id).subrange(0, 16) =~= be128(id));
    lemma_be128(id, be128(id), 0);
}

fn put_id(id: u128, out: &mut Vec<u8>)
    ensures
        final(out)@ == old(out)@ + enc_bytes(be128(id)),
{
    let b = bincode_uuid(id);
    put_bytes(out, b.as_slice());
}

fn get_id(buf: &[u8], pos: usize) -> (r: Result<(u128, usize), String>)
    requires
        pos <= buf@.len(),
    ensures
        match dec_id(buf@.skip(pos as int)) {
            Ok((id, rest)) => {
                &&& r is Ok
                &&& r->Ok_0.0 == id
                &&& r->Ok_0.1 <= buf@.len()
                &&& buf@.skip(r->Ok_0.1 as int) == rest
            },
            Err(e) => r is Err && r->Err_0@ == e,
        },
{
    let s = slice_subrange(buf, pos, buf.len());
    assert(s@ =~= buf@.skip(pos as int));
    match bincode_read_uuid(s) {
        Ok(id) => {
            proof {
                lemma_skip_skip(buf@, pos as int, 24);
            }
            Ok((id, pos + 24))
        },
        Err(e) => Err(e),
    }
}

impl Wire for PeerInfo {
    open spec fn enc(v: PeerInfoView) -> Seq<u8> {
        Ipv4Addr::enc(v.ip) + String::enc(v.name) + enc_opt::<Ipv6Addr>(v.ip6)
    }

    open spec fn dec(s: Seq<u8>) -> Result<(PeerInfoView, Seq<u8>), Seq<char>> {
        match Ipv4Addr::dec(s) {
            Err(e) => Err(e),
            Ok((ip, s1)) => match String::dec(s1) {
                Err(e) => Err(e),
                Ok((name, s2)) => match dec_opt::<Ipv6Addr>(s2) {
                    Err(e) => Err(e),
                    Ok((ip6, s3)) => Ok((PeerInfoView { ip, name, ip6 }, s3)),
                },
            },
        }
    }

    open spec fn fits(v: PeerInfoView) -> bool {
        &&& Ipv4Addr::fits(v.ip)
        &&& String::fits(v.name)
        &&& fits_opt::<Ipv6Addr>(v.ip6)
    }

    proof fn lemma_round_trip(v: PeerInfoView, rest: Seq<u8>) {
        let r2 = enc_opt::<Ipv6Addr>(v.ip6) + rest;
        lemma_opt_round_trip::<Ipv6Addr>(v.ip6, rest);
        let r1 = String::enc(v.name) + r2;
        String::lemma_round_trip(v.name, r2);
        let r0 = Ipv4Addr::enc(v.ip) + r1;
        Ipv4Addr::lemma_round_trip(v.ip, r1);
        let e0 = Ipv4Addr::enc(v.ip);
        let e1 = e0 + String::enc(v.name);
        let e2 = e1 + enc_opt::<Ipv6Addr>(v.ip6);
        lemma_assoc(e1, enc_opt::<Ipv6Addr>(v.ip6), rest);
        lemma_assoc(e0, String::enc(v.name), r2);
    }

    fn put(&self, out: &mut Vec<u8>) {
        self.ip.put(out);
        self.name.put(out);
        put_opt::<Ipv6Addr>(&self.ip6, out);
        proof {
            let e0 = Ipv4Addr::enc(self@.ip);
            let e1 = e0 + String::enc(self@.name);
            lemma_assoc(old(out)@, e0, String::enc(self@.name));
            let e2 = e1 + enc_opt::<Ipv6Addr>(self@.ip6);
            lemma_assoc(old(out)@, e1, enc_opt::<Ipv6Addr>(self@.ip6));
        }
    }

    fn get(buf: &[u8], pos: usize) -> (r: Result<(PeerInfo, usize), String>) {
        let (ip, p1) = match Ipv4Addr::get(buf, pos) {
            Ok(x) => x,
            Err(e) => return Err(e),
        };
        let (name, p2) = match String::get(buf, p1) {
            Ok(x) => x,
            Err(e) => return Err(e),
        };
        let (ip6, p3) = match get_opt::<Ipv6Addr>(buf, p2) {
            Ok(x) => x,
            Err(e) => return Err(e),
        };
        assert(opt_view(ip6) == ip6);
        Ok((PeerInfo { ip, name, ip6 }, p3))
    }
}

/// The greeting at the start of `s`, and what follows it.
#[verifier::opaque]
pub open spec fn dec_hello(s: Seq<u8>) -> Result<(HelloView, Seq<u8>), Seq<char>> {
    match u16::dec(s) {
        Err(e) => Err(e),
        Ok((version, s1)) => match String::dec(s1) {
            Err(e) => Err(e),
            Ok((token, s2)) => match SessionMode::dec(s2) {
                Err(e) => Err(e),
                Ok((mode, s3)) => match dec_opt::<Ipv4Addr>(s3) {
                    Err(e) => Err(e),
                    Ok((requested_ip, s4)) => match dec_opt::<String>(s4) {
                        Err(e) => Err(e),
                        Ok((client_name, s5)) => match bool::dec(s5) {
                            Err(e) => Err(e),
                            Ok((join_vpn, s6)) => Ok(
                                (
                                    HelloView {
                                        version,
                                        token,
                                        mode,
                                        requested_ip,
                                        client_name,
                                        join_vpn,
                                    },
                                    s6,
                                ),
                            ),
                        },
                    },
                },
            },
        },
    }
}

/// The fields of a greeting are read one after the other.
proof fn lemma_hello_steps(
    v: HelloView,
    s: Seq<u8>,
    s1: Seq<u8>,
    s2: Seq<u8>,
    s3: Seq<u8>,
    s4: Seq<u8>,
    s5: Seq<u8>,
    s6: Seq<u8>,
)
    requires
        u16::dec(s) == Ok::<_, Seq<char>>((v.version, s1)),
        String::dec(s1) == Ok::<_, Seq<char>>((v.token, s2)),
        SessionMode::dec(s2) == Ok::<_, Seq<char>>((v.mode, s3)),
        dec_opt::<Ipv4Addr>(s3) == Ok::<_, Seq<char>>((v.requested_ip, s4)),
        dec_opt::<String>(s4) == Ok::<_, Seq<char>>((v.client_name, s5)),
        bool::dec(s5) == Ok::<_, Seq<char>>((v.join_vpn, s6)),
    ensures
        dec_hello(s) == Ok::<_, Seq<char>>((v, s6)),
{
    reveal(dec_hello);
}

impl Wire for Hello {
    open spec fn enc(v: HelloView) -> Seq<u8> {
        u16::enc(v.version) + String::enc(v.token) + SessionMode::enc(v.mode) + enc_opt::<Ipv4Addr>(
            v.requested_ip,
        ) + enc_opt::<String>(v.client_name) + bool::enc(v.join_vpn)
    }

    open spec fn dec(s: Seq<u8>) -> Result<(HelloView, Seq<u8>), Seq<char>> {
        dec_hello(s)
    }

    open spec fn fits(v: HelloView) -> bool {
        &&& u16::fits(v.version)
        &&& String::fits(v.token)
        &&& SessionMode::fits(v.mode)
        &&& fits_opt::<Ipv4Addr>(v.requested_ip)
        &&& fits_opt::<String>(v.client_name)
        &&& bool::fits(v.join_vpn)
    }

    proof fn lemma_round_trip(v: HelloView, rest: Seq<u8>) {
        let r5 = bool::enc(v.join_vpn) + rest;
        bool::lemma_round_trip(v.join_vpn, rest);
        let r4 = enc_opt::<String>(v.client_name) + r5;
        lemma_opt_round_trip::<String>(v.client_name, r5);
        let r3 = enc_opt::<Ipv4Addr>(v.requested_ip) + r4;
        lemma_opt_round_trip::<Ipv4Addr>(v.requested_ip, r4);
        let r2 = SessionMode::enc(v.mode) + r3;
        SessionMode::lemma_round_trip(v.mode, r3);
        let r1 = String::enc(v.token) + r2;
        String::lemma_round_trip(v.token, r2);
        let r0 = u16::enc(v.version) + r1;
        u16::lemma_round_trip(v.version, r1);
        lemma_hello_steps(v, r0, r1, r2, r3, r4, r5, rest);
        assert(Hello::enc(v) + rest == r0) by {
            let e0 = u16::enc(v.version);
            let e1 = e0 + String::enc(v.token);
            let e2 = e1 + SessionMode::enc(v.mode);
            let e3 = e2 + enc_opt::<Ipv4Addr>(v.requested_ip);
            let e4 = e3 + enc_opt::<String>(v.client_name);
            lemma_assoc(e4, bool::enc(v.join_vpn), rest);
            lemma_assoc(e3, enc_opt::<String>(v.client_name), r5);
            lemma_assoc(e2, enc_opt::<Ipv4Addr>(v.requested_ip), r4);
            lemma_assoc(e1, SessionMode::enc(v.mode), r3);
            lemma_assoc(e0, String::enc(v.token), r2);
        }
    }

    fn put(&self, out: &mut Vec<u8>) {
        self.version.put(out);
        self.token.put(out);
        self.mode.put(out);
        put_opt::<Ipv4Addr>(&self.requested_ip, out);
        put_opt::<String>(&self.client_name, out);
        self.join_vpn.put(out);
        proof {
            let e0 = u16::enc(self@.version);
            let e1 = e0 + String::enc(self@.token);
            lemma_assoc(old(out)@, e0, String::enc(self@.token));
            let e2 = e1 + SessionMode::enc(self@.mode);
            lemma_assoc(old(out)@, e1, SessionMode::enc(self@.mode));
            let e3 = e2 + enc_opt::<Ipv4Addr>(self@.requested_ip);
            lemma_assoc(old(out)@, e2, enc_opt::<Ipv4Addr>(self@.requested_ip));
            let e4 = e3 + enc_opt::<String>(self@.client_name);
            lemma_assoc(old(out)@, e3, enc_opt::<String>(self@.client_name));
            let e5 = e4 + bool::enc(self@.join_vpn);
            lemma_assoc(old(out)@, e4, bool::enc(self@.join_vpn));
        }
    }

    fn get(buf: &[u8], pos: usize) -> (r: Result<(Hello, usize), String>) {
        proof {
            reveal(dec_hello);
        }
        let (version, p1) = match u16::get(buf, pos) {
            Ok(x) => x,
            Err(e) => return Err(e),
        };
        let (token, p2) = match String::get(buf, p1) {
            Ok(x) => x,
            Err(e) => return Err(e),
        };
        let (mode, p3) = match SessionMode::get(buf, p2) {
            Ok(x) => x,
            Err(e) => return Err(e),
        };
        let (requested_ip, p4) = match get_opt::<Ipv4Addr>(buf, p3) {
            Ok(x) => x,
            Err(e) => return Err(e),
        };
        let (client_name, p5) = match get_opt::<String>(buf, p4) {
            Ok(x) => x,
            Err(e) => return Err(e),
        };
        let (join_vpn, p6) = match bool::get(buf, p5) {
            Ok(x) => x,
            Err(e) => return Err(e),
        };
        assert(opt_view(requested_ip) == requested_ip);
        Ok((Hello { version, token, mode, requested_ip, client_name, join_vpn }, p6))
    }
}

/// The first fields of a welcome: the session, its IPv4 addresses and resolvers.
pub struct WelcomeHead {
    pub session_id: u128,
    pub assigned_ip: Ipv4Addr,
    pub prefix_len: u8,
    pub gateway: Ipv4Addr,
    pub mtu: u16,
    pub dns: Seq<Ipv4Addr>,
}

/// The encoding of the first fields of a welcome.
pub open spec fn enc_head(v: WelcomeHead) -> Seq<u8> {
    enc_bytes(be128(v.session_id)) + Ipv4Addr::enc(v.assigned_ip) + u8::enc(v.prefix_len)
        + Ipv4Addr::enc(v.gateway) + u16::enc(v.mtu) + enc_list::<Ipv4Addr>(v.dns)
}

/// The first fields of a welcome at the start of `s`, and what follows them.
#[verifier::opaque]
pub open spec fn dec_head(s: Seq<u8>) -> Result<(WelcomeHead, Seq<u8>), Seq<char>> {
    match dec_id(s) {
        Err(e) => Err(e),
        Ok((session_id, s1)) => match Ipv4Addr::dec(s1) {
            Err(e) => Err(e),
            Ok((assigned_ip, s2)) => match u8::dec(s2) {
                Err(e) => Err(e),
                Ok((prefix_len, s3)) => match Ipv4Addr::dec(s3) {
                    Err(e) => Err(e),
                    Ok((gateway, s4)) => match u16::dec(s4) {
                        Err(e) => Err(e),
                        Ok((mtu, s5)) => match dec_list::<Ipv4Addr>(s5) {
                            Err(e) => Err(e),
                            Ok((dns, s6)) => Ok(
                                (
                                    WelcomeHead {
                                        session_id,
                                        assigned_ip,
                                        prefix_len,
                                        gateway,
                                        mtu,
                                        dns,
                                    },
                                    s6,
                                ),
                            ),
                        },
                    },
                },
            },
        },
    }
}

/// The first fields of a welcome are read one after the other.
proof fn lemma_head_steps(
    v: WelcomeHead,
    s: Seq<u8>,
    s1: Seq<u8>,
    s2: Seq<u8>,
    s3: Seq<u8>,
    s4: Seq<u8>,
    s5: Seq<u8>,
    s6: Seq<u8>,
)
    requires
        dec_id(s) == Ok::<_, Seq<char>>((v.session_id, s1)),
        Ipv4Addr::dec(s1) == Ok::<_, Seq<char>>((v.assigned_ip, s2)),
        u8::dec(s2) == Ok::<_, Seq<char>>((v.prefix_len, s3)),
        Ipv4Addr::dec(s3) == Ok::<_, Seq<char>>((v.gateway, s4)),
        u16::dec(s4) == Ok::<_, Seq<char>>((v.mtu, s5)),
        dec_list::<Ipv4Addr>(s5) == Ok::<_, Seq<char>>((v.dns, s6)),
    ensures
        dec_head(s) == Ok::<_, Seq<char>>((v, s6)),
{
    reveal(dec_head);
}

proof fn lemma_head_round_trip(v: WelcomeHead, rest: Seq<u8>)
    requires
        fits_list::<Ipv4Addr>(v.dns),
    ensures
        dec_head(enc_head(v) + rest) == Ok::<_, Seq<char>>((v, rest)),
{
    let r5 = enc_list::<Ipv4Addr>(v.dns) + rest;
    lemma_list_round_trip::<Ipv4Addr>(v.dns, rest);
    let r4 = u16::enc(v.mtu) + r5;
    u16::lemma_round_trip(v.mtu, r5);
    let r3 = Ipv4Addr::enc(v.gateway) + r4;
    Ipv4Addr::lemma_round_trip(v.gateway, r4);
    let r2 = u8::enc(v.prefix_len) + r3;
    u8::lemma_round_trip(v.prefix_len, r3);
    let r1 = Ipv4Addr::enc(v.assigned_ip) + r2;
    Ipv4Addr::lemma_round_trip(v.assigned_ip, r2);
    let r0 = enc_bytes(be128(v.session_id)) + r1;
    lemma_id_round_trip(v.session_id, r1);
    lemma_head_steps(v, r0, r1, r2, r3, r4, r5, rest);
    assert(enc_head(v) + rest == r0) by {
        let e0 = enc_bytes(be128(v.session_id));
        let e1 = e0 + Ipv4Addr::enc(v.assigned_ip);
        let e2 = e1 + u8::enc(v.prefix_len);
        let e3 = e2 + Ipv4Addr::enc(v.gateway);
        let e4 = e3 + u16::enc(v.mtu);
        lemma_assoc(e4, enc_list::<Ipv4Addr>(v.dns), rest);
        lemma_assoc(e3, u16::enc(v.mtu), r5);
        lemma_assoc(e2, Ipv4Addr::enc(v.gateway), r4);
        lemma_assoc(e1, u8::enc(v.prefix_len), r3);
        lemma_assoc(e0, Ipv4Addr::enc(v.assigned_ip), r2);
    }
}

/// The last fields of a welcome: IPv6 address, prefix length, gateway and resolvers.
pub struct WelcomeTail {
    pub assigned_ip6: Option<Ipv6Addr>,
    pub prefix6: u8,
    pub gateway6: Option<Ipv6Addr>,
    pub dns6: Seq<Ipv6Addr>,
}

/// The encoding of the last fields of a welcome.
pub open spec fn enc_tail(v: WelcomeTail) -> Seq<u8> {
    enc_opt::<Ipv6Addr>(v.assigned_ip6) + u8::enc(v.prefix6) + enc_opt::<Ipv6Addr>(v.gateway6)
        + enc_list::<Ipv6Addr>(v.dns6)
}

/// The last fields of a welcome at the start of `s`, and what follows them.
#[verifier::opaque]
pub open spec fn dec_tail(s: Seq<u8>) -> Result<(WelcomeTail, Seq<u8>), Seq<char>> {
    match dec_opt::<Ipv6Addr>(s) {
        Err(e) => Err(e),
        Ok((assigned_ip6, s1)) => match u8::dec(s1) {
            Err(e) => Err(e),
            Ok((prefix6, s2)) => match dec_opt::<Ipv6Addr>(s2) {
                Err(e) => Err(e),
                Ok((gateway6, s3)) => match dec_list::<Ipv6Addr>(s3) {
                    Err(e) => Err(e),
                    Ok((dns6, s4)) => Ok(
                        (WelcomeTail { assigned_ip6, prefix6, gateway6, dns6 }, s4),
                    ),
                },
            },
        },
    }
}

/// The last fields of a welcome are read one after the other.
proof fn lemma_tail_steps(
    v: WelcomeTail,
    s: Seq<u8>,
    s1: Seq<u8>,
    s2: Seq<u8>,
    s3: Seq<u8>,
    s4: Seq<u8>,
)
    requires
        dec_opt::<Ipv6Addr>(s) == Ok::<_, Seq<char>>((v.assigned_ip6, s1)),
        u8::dec(s1) == Ok::<_, Seq<char>>((v.prefix6, s2)),
        dec_opt::<Ipv6Addr>(s2) == Ok::<_, Seq<char>>((v.gateway6, s3)),
        dec_list::<Ipv6Addr>(s3) == Ok::<_, Seq<char>>((v.dns6, s4)),
    ensures
        dec_tail(s) == Ok::<_, Seq<char>>((v, s4)),
{
    reveal(dec_tail);
}

proof fn lemma_tail_round_trip(v: WelcomeTail, rest: Seq<u8>)
    requires
        fits_opt::<Ipv6Addr>(v.assigned_ip6),
        fits_opt::<Ipv6Addr>(v.gateway6),
        fits_list::<Ipv6Addr>(v.dns6),
    ensures
        dec_tail(enc_tail(v) + rest) == Ok::<_, Seq<char>>((v, rest)),
{
    let r3 = enc_list::<Ipv6Addr>(v.dns6) + rest;
    lemma_list_round_trip::<Ipv6Addr>(v.dns6, rest);
    let r2 = enc_opt::<Ipv6Addr>(v.gateway6) + r3;
    lemma_opt_round_trip::<Ipv6Addr>(v.gateway6, r3);
    let r1 = u8::enc(v.prefix6) + r2;
    u8::lemma_round_trip(v.prefix6, r2);
    let r0 = enc_opt::<Ipv6Addr>(v.assigned_ip6) + r1;
    lemma_opt_round_trip::<Ipv6Addr>(v.assigned_ip6, r1);
    lemma_tail_steps(v, r0, r1, r2, r3, rest);
    assert(enc_tail(v) + rest == r0) by {
        let e0 = enc_opt::<Ipv6Addr>(v.assigned_ip6);
        let e1 = e0 + u8::enc(v.prefix6);
        let e2 = e1 + enc_opt::<Ipv6Addr>(v.gateway6);
        lemma_assoc(e2, enc_list::<Ipv6Addr>(v.dns6), rest);
        lemma_assoc(e1, enc_opt::<Ipv6Addr>(v.gateway6), r3);
        lemma_assoc(e0, u8::enc(v.prefix6), r2);
    }
}

/// The first fields of a welcome.
pub open spec fn head_of(v: WelcomeView) -> WelcomeHead {
    WelcomeHead {
        session_id: v.session_id,
        assigned_ip: v.assigned_ip,
        prefix_len: v.prefix_len,
        gateway: v.gateway,
        mtu: v.mtu,
        dns: v.dns,
    }
}

/// The last fields of a welcome.
pub open spec fn tail_of(v: WelcomeView) -> WelcomeTail {
    WelcomeTail {
        assigned_ip6: v.assigned_ip6,
        prefix6: v.prefix6,
        gateway6: v.gateway6,
        dns6: v.dns6,
    }
}

impl Wire for Welcome {
    open spec fn enc(v: WelcomeView) -> Seq<u8> {
        enc_head(head_of(v)) + enc_tail(tail_of(v))
    }

    open spec fn dec(s: Seq<u8>) -> Result<(WelcomeView, Seq<u8>), Seq<char>> {
        match dec_head(s) {
            Err(e) => Err(e),
            Ok((h, s1)) => match dec_tail(s1) {
                Err(e) => Err(e),
                Ok((t, s2)) => Ok(
                    (
                        WelcomeView {
                            session_id: h.session_id,
                            assigned_ip: h.assigned_ip,
                            prefix_len: h.prefix_len,
                            gateway: h.gateway,
                            mtu: h.mtu,
                            dns: h.dns,
                            assigned_ip6: t.assigned_ip6,
                            prefix6: t.prefix6,
                            gateway6: t.gateway6,
                            dns6: t.dns6,
                        },
                        s2,
                    ),
                ),
            },
        }
    }

    open spec fn fits(v: WelcomeView) -> bool {
        &&& Ipv4Addr::fits(v.assigned_ip)
        &&& u8::fits(v.prefix_len)
        &&& Ipv4Addr::fits(v.gateway)
        &&& u16::fits(v.mtu)
        &&& fits_list::<Ipv4Addr>(v.dns)
        &&& fits_opt::<Ipv6Addr>(v.assigned_ip6)
        &&& u8::fits(v.prefix6)
        &&& fits_opt::<Ipv6Addr>(v.gateway6)
        &&& fits_list::<Ipv6Addr>(v.dns6)
    }

    proof fn lemma_round_trip(v: WelcomeView, rest: Seq<u8>) {
        lemma_tail_round_trip(tail_of(v), rest);
        lemma_head_round_trip(head_of(v), enc_tail(tail_of(v)) + rest);
        lemma_assoc(enc_head(head_of(v)), enc_tail(tail_of(v)), rest);
    }

    fn put(&self, out: &mut Vec<u8>) {
        put_id(self.session_id, out);
        self.assigned_ip.put(out);
        self.prefix_len.put(out);
        self.gateway.put(out);
        self.mtu.put(out);
        put_list::<Ipv4Addr>(&self.dns, out);
        put_opt::<Ipv6Addr>(&self.assigned_ip6, out);
        self.prefix6.put(out);
        put_opt::<Ipv6Addr>(&self.gateway6, out);
        put_list::<Ipv6Addr>(&self.dns6, out);
        proof {
            let before = old(out)@;
            assert(views(self.dns@) =~= self.dns@);
            assert(views(self.dns6@) =~= self.dns6@);
            let h = enc_head(head_of(self@));
            let e0 = enc_bytes(be128(self@.session_id));
            let e1 = e0 + Ipv4Addr::enc(self@.assigned_ip);
            lemma_assoc(before, e0, Ipv4Addr::enc(self@.assigned_ip));
            let e2 = e1 + u8::enc(self@.prefix_len);
            lemma_assoc(before, e1, u8::enc(self@.prefix_len));
            let e3 = e2 + Ipv4Addr::enc(self@.gateway);
            lemma_assoc(before, e2, Ipv4Addr::enc(self@.gateway));
            let e4 = e3 + u16::enc(self@.mtu);
            lemma_assoc(before, e3, u16::enc(self@.mtu));
            lemma_assoc(before, e4, enc_list::<Ipv4Addr>(self@.dns));
            let t0 = enc_opt::<Ipv6Addr>(self@.assigned_ip6);
            let t1 = t0 + u8::enc(self@.prefix6);
            let t2 = t1 + enc_opt::<Ipv6Addr>(self@.gateway6);
            lemma_assoc(before + h, t0, u8::enc(self@.prefix6));
            lemma_assoc(before + h, t1, enc_opt::<Ipv6Addr>(self@.gateway6));
            lemma_assoc(before + h, t2, enc_list::<Ipv6Addr>(self@.dns6));
            lemma_assoc(before, h, enc_tail(tail_of(self@)));
        }
    }

    fn get(buf: &[u8], pos: usize) -> (r: Result<(Welcome, usize), String>) {
        proof {
            reveal(dec_head);
            reveal(dec_tail);
        }
        let (session_id, p1) = match get_id(buf, pos) {
            Ok(x) => x,
            Err(e) => return Err(e),
        };
        let (assigned_ip, p2) = match Ipv4Addr::get(buf, p1) {
            Ok(x) => x,
            Err(e) => return Err(e),
        };
        let (prefix_len, p3) = match u8::get(buf, p2) {
            Ok(x) => x,
            Err(e) => return Err(e),
        };
        let (gateway, p4) = match Ipv4Addr::get(buf, p3) {
            Ok(x) => x,
            Err(e) => return Err(e),
        };
        let (mtu, p5) = match u16::get(buf, p4) {
            Ok(x) => x,
            Err(e) => return Err(e),
        };
        let (dns, p6) = match get_list::<Ipv4Addr>(buf, p5) {
            Ok(x) => x,
            Err(e) => return Err(e),
        };
        let (assigned_ip6, p7) = match get_opt::<Ipv6Addr>(buf, p6) {
            Ok(x) => x,
            Err(e) => return Err(e),
        };
        let (prefix6, p8) = match u8::get(buf, p7) {
            Ok(x) => x,
            Err(e) => return Err(e),
        };
        let (gateway6, p9) = match get_opt::<Ipv6Addr>(buf, p8) {
            Ok(x) => x,
            Err(e) => return Err(e),
        };
        let (dns6, p10) = match get_list::<Ipv6Addr>(buf, p9) {
            Ok(x) => x,
            Err(e) => return Err(e),
        };
        assert(views(dns@) =~= dns@);
        assert(opt_view(assigned_ip6) == assigned_ip6);
        assert(opt_view(gateway6) == gateway6);
        assert(views(dns6@) =~= dns6@);
        let w = Welcome {
            session_id,
            assigned_ip,
            prefix_len,
            gateway,
            mtu,
            dns,
            assigned_ip6,
            prefix6,
            gateway6,
            dns6,
        };
        Ok((w, p10))
    }
}


impl View for SocketAddr {
    type V = SocketAddr;

    open spec fn view(&self) -> SocketAddr {
        *self
    }
}

impl Wire for SocketAddr {
    open spec fn enc(v: SocketAddr) -> Seq<u8> {
        match v.ip {
            IpAddr::V4(a) => le32(0) + Ipv4Addr::enc(a) + le16(v.port),
            IpAddr::V6(a) => le32(1) + Ipv6Addr::enc(a) + le16(v.port),
        }
    }

    open spec fn dec(s: Seq<u8>) -> Result<(SocketAddr, Seq<u8>), Seq<char>> {
        match u32::dec(s) {
            Ok((i, s1)) => if i == 0 {
                match Ipv4Addr::dec(s1) {
                    Ok((a, s2)) => match u16::dec(s2) {
                        Ok((port, s3)) => Ok((SocketAddr { ip: IpAddr::V4(a), port }, s3)),
                        Err(e) => Err(e),
                    },
                    Err(e) => Err(e),
                }
            } else if i == 1 {
                match Ipv6Addr::dec(s1) {
                    Ok((a, s2)) => match u16::dec(s2) {
                        Ok((port, s3)) => Ok((SocketAddr { ip: IpAddr::V6(a), port }, s3)),
                        Err(e) => Err(e),
                    },
                    Err(e) => Err(e),
                }
            } else {
                Err(bad_index(i, "`V4` or `V6`"@))
            },
            Err(e) => Err(e),
        }
    }

    open spec fn fits(v: SocketAddr) -> bool {
        true
    }

    proof fn lemma_round_trip(v: SocketAddr, rest: Seq<u8>) {
        let r2 = le16(v.port) + rest;
        u16::lemma_round_trip(v.port, rest);
        match v.ip {
            IpAddr::V4(a) => {
                Ipv4Addr::lemma_round_trip(a, r2);
                u32::lemma_round_trip(0, Ipv4Addr::enc(a) + r2);
                lemma_assoc(le32(0) + Ipv4Addr::enc(a), le16(v.port), rest);
                lemma_assoc(le32(0), Ipv4Addr::enc(a), r2);
            },
            IpAddr::V6(a) => {
                Ipv6Addr::lemma_round_trip(a, r2);
                u32::lemma_round_trip(1, Ipv6Addr::enc(a) + r2);
                lemma_assoc(le32(1) + Ipv6Addr::enc(a), le16(v.port), rest);
                lemma_assoc(le32(1), Ipv6Addr::enc(a), r2);
            },
        }
    }

    fn put(&self, out: &mut Vec<u8>) {
        match &self.ip {
            IpAddr::V4(a) => {
                0u32.put(out);
                a.put(out);
                self.port.put(out);
                proof {
                    lemma_assoc(old(out)@, le32(0), Ipv4Addr::enc(*a));
                    lemma_assoc(old(out)@, le32(0) + Ipv4Addr::enc(*a), le16(self.port));
                }
            },
            IpAddr::V6(a) => {
                1u32.put(out);
                a.put(out);
                self.port.put(out);
                proof {
                    lemma_assoc(old(out)@, le32(1), Ipv6Addr::enc(*a));
                    lemma_assoc(old(out)@, le32(1) + Ipv6Addr::enc(*a), le16(self.port));
                }
            },
        }
    }

    fn get(buf: &[u8], pos: usize) -> (r: Result<(SocketAddr, usize), String>) {
        match u32::get(buf, pos) {
            Ok((0, p1)) => match Ipv4Addr::get(buf, p1) {
                Ok((a, p2)) => match u16::get(buf, p2) {
                    Ok((port, p3)) => Ok((SocketAddr { ip: IpAddr::V4(a), port }, p3)),
                    Err(e) => Err(e),
                },
                Err(e) => Err(e),
            },
            Ok((1, p1)) => match Ipv6Addr::get(buf, p1) {
                Ok((a, p2)) => match u16::get(buf, p2) {
                    Ok((port, p3)) => Ok((SocketAddr { ip: IpAddr::V6(a), port }, p3)),
                    Err(e) => Err(e),
                },
                Err(e) => Err(e),
            },
            Ok((i, _)) => Err(index_flaw(i, "`V4` or `V6`")),
            Err(e) => Err(e),
        }
    }
}

impl Wire for TargetAddr {
    open spec fn enc(v: TargetView) -> Seq<u8> {
        match v {
            TargetView::Ip(a) => le32(0) + SocketAddr::enc(a),
            TargetView::Domain(h, p) => le32(1) + String::enc(h) + le16(p),
        }
    }

    open spec fn dec(s: Seq<u8>) -> Result<(TargetView, Seq<u8>), Seq<char>> {
        match u32::dec(s) {
            Ok((i, s1)) => if i == 0 {
                match SocketAddr::dec(s1) {
                    Ok((a, s2)) => Ok((TargetView::Ip(a), s2)),
                    Err(e) => Err(e),
                }
            } else if i == 1 {
                match String::dec(s1) {
                    Ok((h, s2)) => match u16::dec(s2) {
                        Ok((p, s3)) => Ok((TargetView::Domain(h, p), s3)),
                        Err(e) => Err(e),
                    },
                    Err(e) => Err(e),
                }
            } else {
                Err(bad_index(i, "variant index 0 <= i < 2"@))
            },
            Err(e) => Err(e),
        }
    }

    open spec fn fits(v: TargetView) -> bool {
        match v {
            TargetView::Ip(a) => true,
            TargetView::Domain(h, p) => String::fits(h),
        }
    }

    proof fn lemma_round_trip(v: TargetView, rest: Seq<u8>) {
        match v {
            TargetView::Ip(a) => {
                SocketAddr::lemma_round_trip(a, rest);
                u32::lemma_round_trip(0, SocketAddr::enc(a) + rest);
                lemma_assoc(le32(0), SocketAddr::enc(a), rest);
            },
            TargetView::Domain(h, p) => {
                let r2 = le16(p) + rest;
                u16::lemma_round_trip(p, rest);
                String::lemma_round_trip(h, r2);
                u32::lemma_round_trip(1, String::enc(h) + r2);
                lemma_assoc(le32(1) + String::enc(h), le16(p), rest);
                lemma_assoc(le32(1), String::enc(h), r2);
            },
        }
    }

    fn put(&self, out: &mut Vec<u8>) {
        match self {
            TargetAddr::Ip(a) => {
                0u32.put(out);
                a.put(out);
                proof {
                    lemma_assoc(old(out)@, le32(0), SocketAddr::enc(*a));
                }
            },
            TargetAddr::Domain(h, p) => {
                1u32.put(out);
                h.put(out);
                p.put(out);
                proof {
                    lemma_assoc(old(out)@, le32(1), String::enc(h@));
                    lemma_assoc(old(out)@, le32(1) + String::enc(h@), le16(*p));
                }
            },
        }
    }

    fn get(buf: &[u8], pos: usize) -> (r: Result<(TargetAddr, usize), String>) {
        match u32::get(buf, pos) {
            Ok((0, p1)) => match SocketAddr::get(buf, p1) {
                Ok((a, p2)) => Ok((TargetAddr::Ip(a), p2)),
                Err(e) => Err(e),
            },
            Ok((1, p1)) => match String::get(buf, p1) {
                Ok((h, p2)) => match u16::get(buf, p2) {
                    Ok((p, p3)) => Ok((TargetAddr::Domain(h, p), p3)),
                    Err(e) => Err(e),
                },
                Err(e) => Err(e),
            },
            Ok((i, _)) => Err(index_flaw(i, "variant index 0 <= i < 2")),
            Err(e) => Err(e),
        }
    }
}

/// The position of a frame's variant among the variants.
pub open spec fn frame_index(v: FrameView) -> u32 {
    match v {
        FrameView::Hello(_) => 0,
        FrameView::Welcome(_) => 1,
        FrameView::Reject { .. } => 2,
        FrameView::Ping => 3,
        FrameView::Pong => 4,
        FrameView::Packet(_) => 5,
        FrameView::StreamOpen { .. } => 6,
        FrameView::StreamData { .. } => 7,
        FrameView::StreamClose { .. } => 8,
        FrameView::GetPeers => 9,
        FrameView::PeerList { .. } => 10,
    }
}

/// The encoding of a frame's fields.
pub open spec fn frame_body(v: FrameView) -> Seq<u8> {
    match v {
        FrameView::Hello(h) => Hello::enc(h),
        FrameView::Welcome(w) => Welcome::enc(w),
        FrameView::Reject { reason } => String::enc(reason),
        FrameView::Ping => Seq::empty(),
        FrameView::Pong => Seq::empty(),
        FrameView::Packet(p) => enc_bytes(p),
        FrameView::StreamOpen { id, target } => le32(id) + TargetAddr::enc(target),
        FrameView::StreamData { id, data } => le32(id) + enc_bytes(data),
        FrameView::StreamClose { id, error } => le32(id) + enc_opt::<String>(error),
        FrameView::GetPeers => Seq::empty(),
        FrameView::PeerList { peers } => enc_list::<PeerInfo>(peers),
    }
}

/// The frame whose variant has position `i` and whose fields stand at the start
/// of `s`, and what follows it.
pub open spec fn dec_body(i: u32, s: Seq<u8>) -> Result<(FrameView, Seq<u8>), Seq<char>> {
    if i == 0 {
        match Hello::dec(s) {
            Ok((h, t)) => Ok((FrameView::Hello(h), t)),
            Err(e) => Err(e),
        }
    } else if i == 1 {
        match Welcome::dec(s) {
            Ok((w, t)) => Ok((FrameView::Welcome(w), t)),
            Err(e) => Err(e),
        }
    } else if i == 2 {
        match String::dec(s) {
            Ok((reason, t)) => Ok((FrameView::Reject { reason }, t)),
            Err(e) => Err(e),
        }
    } else if i == 3 {
        Ok((FrameView::Ping, s))
    } else if i == 4 {
        Ok((FrameView::Pong, s))
    } else if i == 5 {
        match dec_bytes(s) {
            Ok((p, t)) => Ok((FrameView::Packet(p), t)),
            Err(e) => Err(e),
        }
    } else if i == 6 {
        match u32::dec(s) {
            Ok((id, s1)) => match TargetAddr::dec(s1) {
                Ok((target, t)) => Ok((FrameView::StreamOpen { id, target }, t)),
                Err(e) => Err(e),
            },
            Err(e) => Err(e),
        }
    } else if i == 7 {
        match u32::dec(s) {
            Ok((id, s1)) => match dec_bytes(s1) {
                Ok((data, t)) => Ok((FrameView::StreamData { id, data }, t)),
                Err(e) => Err(e),
            },
            Err(e) => Err(e),
        }
    } else if i == 8 {
        match u32::dec(s) {
            Ok((id, s1)) => match dec_opt::<String>(s1) {
                Ok((error, t)) => Ok((FrameView::StreamClose { id, error }, t)),
                Err(e) => Err(e),
            },
            Err(e) => Err(e),
        }
    } else if i == 9 {
        Ok((FrameView::GetPeers, s))
    } else if i == 10 {
        match dec_list::<PeerInfo>(s) {
            Ok((peers, t)) => Ok((FrameView::PeerList { peers }, t)),
            Err(e) => Err(e),
        }
    } else {
        Err(bad_index(i, "variant index 0 <= i < 11"@))
    }
}

proof fn lemma_body_round_trip(v: FrameView, rest: Seq<u8>)
    requires
        Frame::fits(v),
    ensures
        dec_body(frame_index(v), frame_body(v) + rest) == Ok::<_, Seq<char>>((v, rest)),
{
    match v {
        FrameView::Hello(h) => {
            Hello::lemma_round_trip(h, rest);
        },
        FrameView::Welcome(w) => {
            Welcome::lemma_round_trip(w, rest);
        },
        FrameView::Reject { reason } => {
            String::lemma_round_trip(reason, rest);
        },
        FrameView::Packet(p) => {
            lemma_bytes_round_trip(p, rest);
        },
        FrameView::StreamOpen { id, target } => {
            TargetAddr::lemma_round_trip(target, rest);
            u32::lemma_round_trip(id, TargetAddr::enc(target) + rest);
            lemma_assoc(le32(id), TargetAddr::enc(target), rest);
        },
        FrameView::StreamData { id, data } => {
            lemma_bytes_round_trip(data, rest);
            u32::lemma_round_trip(id, enc_bytes(data) + rest);
            lemma_assoc(le32(id), enc_bytes(data), rest);
        },
        FrameView::StreamClose { id, error } => {
            lemma_opt_round_trip::<String>(error, rest);
            u32::lemma_round_trip(id, enc_opt::<String>(error) + rest);
            lemma_assoc(le32(id), enc_opt::<String>(error), rest);
        },
        FrameView::PeerList { peers } => {
            lemma_list_round_trip::<PeerInfo>(peers, rest);
        },
        _ => {
            assert(Seq::<u8>::empty() + rest =~= rest);
        },
    }
}

impl Wire for Frame {
    open spec fn enc(v: FrameView) -> Seq<u8> {
        le32(frame_index(v)) + frame_body(v)
    }

    open spec fn dec(s: Seq<u8>) -> Result<(FrameView, Seq<u8>), Seq<char>> {
        match u32::dec(s) {
            Ok((i, s1)) => dec_body(i, s1),
            Err(e) => Err(e),
        }
    }

    open spec fn fits(v: FrameView) -> bool {
        match v {
            FrameView::Hello(h) => Hello::fits(h),
            FrameView::Welcome(w) => Welcome::fits(w),
            FrameView::Reject { reason } => String::fits(reason),
            FrameView::Packet(p) => p.len() <= u64::MAX,
            FrameView::StreamOpen { id, target } => TargetAddr::fits(target),
            FrameView::StreamData { id, data } => data.len() <= u64::MAX,
            FrameView::StreamClose { id, error } => fits_opt::<String>(error),
            FrameView::PeerList { peers } => fits_list::<PeerInfo>(peers),
            _ => true,
        }
    }

    proof fn lemma_round_trip(v: FrameView, rest: Seq<u8>) {
        lemma_body_round_trip(v, rest);
        u32::lemma_round_trip(frame_index(v), frame_body(v) + rest);
        lemma_assoc(le32(frame_index(v)), frame_body(v), rest);
    }

    fn put(&self, out: &mut Vec<u8>) {
        let ghost head = old(out)@ + le32(frame_index(self@));
        match self {
            Frame::Hello(h) => {
                0u32.put(out);
                h.put(out);
            },
            Frame::Welcome(w) => {
                1u32.put(out);
                w.put(out);
            },
            Frame::Reject { reason } => {
                2u32.put(out);
                reason.put(out);
            },
            Frame::Ping => {
                3u32.put(out);
                assert(out@ =~= head + Seq::<u8>::empty());
            },
            Frame::Pong => {
                4u32.put(out);
                assert(out@ =~= head + Seq::<u8>::empty());
            },
            Frame::Packet(p) => {
                5u32.put(out);
                let b = bincode_bytes(p.as_slice());
                put_bytes(out, b.as_slice());
            },
            Frame::StreamOpen { id, target } => {
                6u32.put(out);
                id.put(out);
                target.put(out);
                proof {
                    lemma_assoc(head, le32(*id), TargetAddr::enc(target@));
                }
            },
            Frame::StreamData { id, data } => {
                7u32.put(out);
                id.put(out);
                let b = bincode_bytes(data.as_slice());
                put_bytes(out, b.as_slice());
                proof {
                    lemma_assoc(head, le32(*id), enc_bytes(data@));
                }
            },
            Frame::StreamClose { id, error } => {
                8u32.put(out);
                id.put(out);
                put_opt::<String>(error, out);
                proof {
                    lemma_assoc(head, le32(*id), enc_opt::<String>(opt_view(*error)));
                }
            },
            Frame::GetPeers => {
                9u32.put(out);
                assert(out@ =~= head + Seq::<u8>::empty());
            },
            Frame::PeerList { peers } => {
                10u32.put(out);
                put_list::<PeerInfo>(peers, out);
            },
        }
        proof {
            lemma_assoc(old(out)@, le32(frame_index(self@)), frame_body(self@));
        }
    }

    fn get(buf: &[u8], pos: usize) -> (r: Result<(Frame, usize), String>) {
        match u32::get(buf, pos) {
            Ok((i, p1)) => if i <= 4 {
                get_control(i, buf, p1)
            } else if i <= 8 {
                get_data(i, buf, p1)
            } else {
                get_peers(i, buf, p1)
            },
            Err(e) => Err(e),
        }
    }
}

fn get_control(i: u32, buf: &[u8], pos: usize) -> (r: Result<(Frame, usize), String>)
    requires
        i <= 4,
        pos <= buf@.len(),
    ensures
        reads_as(r, dec_body(i, buf@.skip(pos as int)), buf@),
{
    match i {
        0 => match Hello::get(buf, pos) {
            Ok((h, end)) => Ok((Frame::Hello(h), end)),
            Err(e) => Err(e),
        },
        1 => match Welcome::get(buf, pos) {
            Ok((w, end)) => Ok((Frame::Welcome(w), end)),
            Err(e) => Err(e),
        },
        2 => match String::get(buf, pos) {
            Ok((reason, end)) => Ok((Frame::Reject { reason }, end)),
            Err(e) => Err(e),
        },
        3 => Ok((Frame::Ping, pos)),
        _ => Ok((Frame::Pong, pos)),
    }
}

fn get_data(i: u32, buf: &[u8], pos: usize) -> (r: Result<(Frame, usize), String>)
    requires
        5 <= i <= 8,
        pos <= buf@.len(),
    ensures
        reads_as(r, dec_body(i, buf@.skip(pos as int)), buf@),
{
    if i == 5 {
        return match get_bytes(buf, pos) {
            Ok((p, end)) => Ok((Frame::Packet(p), end)),
            Err(e) => Err(e),
        };
    }
    let (id, p2) = match u32::get(buf, pos) {
        Ok(x) => x,
        Err(e) => return Err(e),
    };
    match i {
        6 => match TargetAddr::get(buf, p2) {
            Ok((target, end)) => Ok((Frame::StreamOpen { id, target }, end)),
            Err(e) => Err(e),
        },
        7 => match get_bytes(buf, p2) {
            Ok((data, end)) => Ok((Frame::StreamData { id, data }, end)),
            Err(e) => Err(e),
        },
        _ => match get_opt::<String>(buf, p2) {
            Ok((error, end)) => Ok((Frame::StreamClose { id, error }, end)),
            Err(e) => Err(e),
        },
    }
}

fn get_peers(i: u32, buf: &[u8], pos: usize) -> (r: Result<(Frame, usize), String>)
    requires
        9 <= i,
        pos <= buf@.len(),
    ensures
        reads_as(r, dec_body(i, buf@.skip(pos as int)), buf@),
{
    match i {
        9 => Ok((Frame::GetPeers, pos)),
        10 => match get_list::<PeerInfo>(buf, pos) {
            Ok((peers, end)) => Ok((Frame::PeerList { peers }, end)),
            Err(e) => Err(e),
        },
        _ => Err(index_flaw(i, "variant index 0 <= i < 11")),
    }
}

/// The frame that a channel message carries, or what is wrong with it. What follows
/// the frame in the message is ignored.
pub open spec fn decoded(msg: Seq<u8>) -> Result<FrameView, Failure> {
    match Frame::dec(msg) {
        Ok((f, _)) => Ok(f),
        Err(e) => Err(Failure::Codec(e)),
    }
}

/// The channel message that carries a frame.
pub fn encode_frame(frame: &Frame) -> (r: Vec<u8>)
    ensures
        r@ == Frame::enc(frame@),
{
    let mut out: Vec<u8> = Vec::new();
    frame.put(&mut out);
    assert(out@ =~= Frame::enc(frame@));
    out
}

/// The frame that a channel message carries.
pub fn decode_frame(msg: &[u8]) -> (r: Result<Frame, Error>)
    ensures
        match decoded(msg@) {
            Ok(f) => r is Ok && r->Ok_0@ == f,
            Err(e) => r is Err && r->Err_0@ == e,
        },
{
    assert(msg@.skip(0) =~= msg@);
    match Frame::get(msg, 0) {
        Ok((f, _)) => Ok(f),
        Err(e) => Err(Error::Codec(e)),
    }
}

/// Every frame reads back from its own message.
pub proof fn law_frame_round_trip(f: FrameView)
    requires
        Frame::fits(f),
    ensures
        decoded(Frame::enc(f)) == Ok::<FrameView, Failure>(f),
{
    Frame::lemma_round_trip(f, Seq::empty());
    assert(Frame::enc(f) + Seq::<u8>::empty() =~= Frame::enc(f));
}

/// Two frames with the same message are the same frame.
pub proof fn law_frame_encoding_injective(f: FrameView, g: FrameView)
    requires
        Frame::fits(f),
        Frame::fits(g),
        Frame::enc(f) == Frame::enc(g),
    ensures
        f == g,
{
    law_frame_round_trip(f);
    law_frame_round_trip(g);
}

}
