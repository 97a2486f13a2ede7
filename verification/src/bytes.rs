//! Integers as bytes, in both byte orders.

use vstd::arithmetic::div_mod::lemma_fundamental_div_mod_converse;
use vstd::prelude::*;

verus! {

/// The two bytes of `x`, high byte first.
pub open spec fn be16(x: u16) -> Seq<u8> {
    seq![(x / 0x100) as u8, (x % 0x100) as u8]
}

/// The four bytes of `x`, high byte first.
pub open spec fn be32(x: u32) -> Seq<u8> {
    seq![
        (x / 0x100_0000) as u8,
        (x / 0x1_0000 % 0x100) as u8,
        (x / 0x100 % 0x100) as u8,
        (x % 0x100) as u8,
    ]
}

/// The eight bytes of `x`, high byte first.
pub open spec fn be64(x: u64) -> Seq<u8> {
    be32((x / 0x1_0000_0000) as u32) + be32((x % 0x1_0000_0000) as u32)
}

/// The sixteen bytes of `x`, high byte first.
pub open spec fn be128(x: u128) -> Seq<u8> {
    be64((x / 0x1_0000_0000_0000_0000) as u64) + be64((x % 0x1_0000_0000_0000_0000) as u64)
}

/// The two bytes of `x`, low byte first.
pub open spec fn le16(x: u16) -> Seq<u8> {
    seq![(x % 0x100) as u8, (x / 0x100) as u8]
}

/// The four bytes of `x`, low byte first.
pub open spec fn le32(x: u32) -> Seq<u8> {
    seq![
        (x % 0x100) as u8,
        (x / 0x100 % 0x100) as u8,
        (x / 0x1_0000 % 0x100) as u8,
        (x / 0x100_0000) as u8,
    ]
}

/// The eight bytes of `x`, low byte first.
pub open spec fn le64(x: u64) -> Seq<u8> {
    le32((x % 0x1_0000_0000) as u32) + le32((x / 0x1_0000_0000) as u32)
}

/// The number whose bytes are `s[i..i + 2]`, high byte first.
pub open spec fn be16_at(s: Seq<u8>, i: int) -> u16 {
    (s[i] * 0x100 + s[i + 1]) as u16
}

/// The number whose bytes are `s[i..i + 4]`, high byte first.
pub open spec fn be32_at(s: Seq<u8>, i: int) -> u32 {
    (s[i] * 0x100_0000 + s[i + 1] * 0x1_0000 + s[i + 2] * 0x100 + s[i + 3]) as u32
}

/// The number whose bytes are `s[i..i + 8]`, high byte first.
pub open spec fn be64_at(s: Seq<u8>, i: int) -> u64 {
    (be32_at(s, i) * 0x1_0000_0000 + be32_at(s, i + 4)) as u64
}

/// The number whose bytes are `s[i..i + 16]`, high byte first.
pub open spec fn be128_at(s: Seq<u8>, i: int) -> u128 {
    (be64_at(s, i) * 0x1_0000_0000_0000_0000 + be64_at(s, i + 8)) as u128
}

/// The number whose bytes are `s[i..i + 2]`, low byte first.
pub open spec fn le16_at(s: Seq<u8>, i: int) -> u16 {
    (s[i] + s[i + 1] * 0x100) as u16
}

/// The number whose bytes are `s[i..i + 4]`, low byte first.
pub open spec fn le32_at(s: Seq<u8>, i: int) -> u32 {
    (s[i] + s[i + 1] * 0x100 + s[i + 2] * 0x1_0000 + s[i + 3] * 0x100_0000) as u32
}

/// The number whose bytes are `s[i..i + 8]`, low byte first.
pub open spec fn le64_at(s: Seq<u8>, i: int) -> u64 {
    (le32_at(s, i) + le32_at(s, i + 4) * 0x1_0000_0000) as u64
}

/// Bytes written high byte first read back as the number they were written from.
pub proof fn lemma_be16(x: u16, s: Seq<u8>, i: int)
    requires
        0 <= i,
        i + 2 <= s.len(),
        s.subrange(i, i + 2) == be16(x),
    ensures
        be16_at(s, i) == x,
{
    assert(s.subrange(i, i + 2)[0] == s[i]);
    assert(s.subrange(i, i + 2)[1] == s[i + 1]);
}

/// Bytes written high byte first read back as the number they were written from.
pub proof fn lemma_be32(x: u32, s: Seq<u8>, i: int)
    requires
        0 <= i,
        i + 4 <= s.len(),
        s.subrange(i, i + 4) == be32(x),
    ensures
        be32_at(s, i) == x,
{
    let t = s.subrange(i, i + 4);
    assert(t[0] == s[i]);
    assert(t[1] == s[i + 1]);
    assert(t[2] == s[i + 2]);
    assert(t[3] == s[i + 3]);
}

/// Bytes written high byte first read back as the number they were written from.
pub proof fn lemma_be128(x: u128, s: Seq<u8>, i: int)
    requires
        0 <= i,
        i + 16 <= s.len(),
        s.subrange(i, i + 16) == be128(x),
    ensures
        be128_at(s, i) == x,
{
    let t = s.subrange(i, i + 16);
    let hi = (x / 0x1_0000_0000_0000_0000) as u64;
    let lo = (x % 0x1_0000_0000_0000_0000) as u64;
    assert(t.subrange(0, 8) =~= be64(hi));
    assert(t.subrange(8, 16) =~= be64(lo));
    assert(s.subrange(i, i + 8) =~= t.subrange(0, 8));
    assert(s.subrange(i + 8, i + 16) =~= t.subrange(8, 16));
    lemma_be64(hi, s, i);
    lemma_be64(lo, s, i + 8);
}

/// Bytes written high byte first read back as the number they were written from.
pub proof fn lemma_be64(x: u64, s: Seq<u8>, i: int)
    requires
        0 <= i,
        i + 8 <= s.len(),
        s.subrange(i, i + 8) == be64(x),
    ensures
        be64_at(s, i) == x,
{
    let t = s.subrange(i, i + 8);
    let hi = (x / 0x1_0000_0000) as u32;
    let lo = (x % 0x1_0000_0000) as u32;
    assert(t.subrange(0, 4) =~= be32(hi));
    assert(t.subrange(4, 8) =~= be32(lo));
    assert(s.subrange(i, i + 4) =~= t.subrange(0, 4));
    assert(s.subrange(i + 4, i + 8) =~= t.subrange(4, 8));
    lemma_be32(hi, s, i);
    lemma_be32(lo, s, i + 4);
}

/// Bytes written low byte first read back as the number they were written from.
pub proof fn lemma_le16(x: u16, s: Seq<u8>, i: int)
    requires
        0 <= i,
        i + 2 <= s.len(),
        s.subrange(i, i + 2) == le16(x),
    ensures
        le16_at(s, i) == x,
{
    assert(s.subrange(i, i + 2)[0] == s[i]);
    assert(s.subrange(i, i + 2)[1] == s[i + 1]);
}

/// Bytes written low byte first read back as the number they were written from.
pub proof fn lemma_le32(x: u32, s: Seq<u8>, i: int)
    requires
        0 <= i,
        i + 4 <= s.len(),
        s.subrange(i, i + 4) == le32(x),
    ensures
        le32_at(s, i) == x,
{
    let t = s.subrange(i, i + 4);
    assert(t[0] == s[i]);
    assert(t[1] == s[i + 1]);
    assert(t[2] == s[i + 2]);
    assert(t[3] == s[i + 3]);
}

/// Bytes written low byte first read back as the number they were written from.
pub proof fn lemma_le64(x: u64, s: Seq<u8>, i: int)
    requires
        0 <= i,
        i + 8 <= s.len(),
        s.subrange(i, i + 8) == le64(x),
    ensures
        le64_at(s, i) == x,
{
    let t = s.subrange(i, i + 8);
    let hi = (x / 0x1_0000_0000) as u32;
    let lo = (x % 0x1_0000_0000) as u32;
    assert(t.subrange(0, 4) =~= le32(lo));
    assert(t.subrange(4, 8) =~= le32(hi));
    assert(s.subrange(i, i + 4) =~= t.subrange(0, 4));
    assert(s.subrange(i + 4, i + 8) =~= t.subrange(4, 8));
    lemma_le32(lo, s, i);
    lemma_le32(hi, s, i + 4);
}

/// Appends the two bytes of `x`, high byte first.
pub fn put_be16(out: &mut Vec<u8>, x: u16)
    ensures
        final(out)@ == old(out)@ + be16(x),
{
    out.push((x / 0x100) as u8);
    out.push((x % 0x100) as u8);
    assert(out@ =~= old(out)@ + be16(x));
}

/// Appends the four bytes of `x`, high byte first.
pub fn put_be32(out: &mut Vec<u8>, x: u32)
    ensures
        final(out)@ == old(out)@ + be32(x),
{
    out.push((x / 0x100_0000) as u8);
    out.push((x / 0x1_0000 % 0x100) as u8);
    out.push((x / 0x100 % 0x100) as u8);
    out.push((x % 0x100) as u8);
    assert(out@ =~= old(out)@ + be32(x));
}

/// Appends the eight bytes of `x`, high byte first.
pub fn put_be64(out: &mut Vec<u8>, x: u64)
    ensures
        final(out)@ == old(out)@ + be64(x),
{
    put_be32(out, (x / 0x1_0000_0000) as u32);
    put_be32(out, (x % 0x1_0000_0000) as u32);
    assert(out@ =~= old(out)@ + be64(x));
}

/// Appends the sixteen bytes of `x`, high byte first.
pub fn put_be128(out: &mut Vec<u8>, x: u128)
    ensures
        final(out)@ == old(out)@ + be128(x),
{
    put_be64(out, (x / 0x1_0000_0000_0000_0000) as u64);
    put_be64(out, (x % 0x1_0000_0000_0000_0000) as u64);
    assert(out@ =~= old(out)@ + be128(x));
}

/// The number whose bytes are `s[i..i + 2]`, high byte first.
pub fn get_be16(s: &[u8], i: usize) -> (x: u16)
    requires
        i + 2 <= s@.len(),
    ensures
        x == be16_at(s@, i as int),
{
    let total: usize = s.len();
    s[i] as u16 * 0x100 + s[i + 1] as u16
}

/// The number whose bytes are `s[i..i + 4]`, high byte first.
pub fn get_be32(s: &[u8], i: usize) -> (x: u32)
    requires
        i + 4 <= s@.len(),
    ensures
        x == be32_at(s@, i as int),
{
    let total: usize = s.len();
    s[i] as u32 * 0x100_0000 + s[i + 1] as u32 * 0x1_0000 + s[i + 2] as u32 * 0x100 + s[i
        + 3] as u32
}

/// The number whose bytes are `s[i..i + 16]`, high byte first.
pub fn get_be128(s: &[u8], i: usize) -> (x: u128)
    requires
        i + 16 <= s@.len(),
    ensures
        x == be128_at(s@, i as int),
{
    let total: usize = s.len();
    let a: u128 = get_be32(s, i) as u128;
    let b: u128 = get_be32(s, i + 4) as u128;
    let c: u128 = get_be32(s, i + 8) as u128;
    let d: u128 = get_be32(s, i + 12) as u128;
    (a * 0x1_0000_0000 + b) * 0x1_0000_0000_0000_0000 + (c * 0x1_0000_0000 + d)
}

/// The bytes `s[from..to]`.
pub fn slice_of(s: &[u8], from: usize, to: usize) -> (r: Vec<u8>)
    requires
        from <= to <= s@.len(),
    ensures
        r@ == s@.subrange(from as int, to as int),
{
    let mut r: Vec<u8> = Vec::new();
    for i in from..to
        invariant
            from <= i <= to <= s@.len(),
            r@ == s@.subrange(from as int, i as int),
    {
        r.push(s[i]);
        assert(r@ =~= s@.subrange(from as int, i + 1));
    }
    r
}

/// Appends the bytes `s`.
pub fn put_bytes(out: &mut Vec<u8>, s: &[u8])
    ensures
        final(out)@ == old(out)@ + s@,
{
    let n: usize = s.len();
    assert(out@ =~= old(out)@ + s@.take(0));
    for i in 0..n
        invariant
            n == s@.len(),
            out@ == old(out)@ + s@.take(i as int),
    {
        out.push(s[i]);
        assert(out@ =~= old(out)@ + s@.take(i + 1));
    }
    assert(s@.take(n as int) =~= s@);
}

/// A number of two or four bytes is written with the highest byte first, and reads back as
/// itself.
pub proof fn law_highest_byte_first(x: u16, y: u32)
    ensures
        be16(x).len() == 2,
        x == be16(x)[0] * 0x100 + be16(x)[1],
        be16_at(be16(x), 0) == x,
        be32(y).len() == 4,
        y == be32(y)[0] * 0x100_0000 + be32(y)[1] * 0x1_0000 + be32(y)[2] * 0x100 + be32(y)[3],
        be32_at(be32(y), 0) == y,
{
    assert(be16(x).subrange(0, 2) =~= be16(x));
    lemma_be16(x, be16(x), 0);
    assert(be32(y).subrange(0, 4) =~= be32(y));
    lemma_be32(y, be32(y), 0);
}

/// A longer number is written as its higher half and its lower half, and reads back as
/// itself.
pub proof fn law_higher_half_first(z: u64, w: u128)
    ensures
        be64(z).len() == 8,
        be64_at(be64(z), 0) == z,
        be64(z).take(4) == be32((z / 0x1_0000_0000) as u32),
        be64(z).skip(4) == be32((z % 0x1_0000_0000) as u32),
        be128(w).len() == 16,
        be128_at(be128(w), 0) == w,
        be128(w).take(8) == be64((w / 0x1_0000_0000_0000_0000) as u64),
        be128(w).skip(8) == be64((w % 0x1_0000_0000_0000_0000) as u64),
{
    assert(be64(z).subrange(0, 8) =~= be64(z));
    lemma_be64(z, be64(z), 0);
    assert(be64(z).take(4) =~= be32((z / 0x1_0000_0000) as u32));
    assert(be64(z).skip(4) =~= be32((z % 0x1_0000_0000) as u32));
    assert(be128(w).subrange(0, 16) =~= be128(w));
    lemma_be128(w, be128(w), 0);
    assert(be128(w).take(8) =~= be64((w / 0x1_0000_0000_0000_0000) as u64));
    assert(be128(w).skip(8) =~= be64((w % 0x1_0000_0000_0000_0000) as u64));
}

/// The other way round, numbers are written with the lowest byte first.
pub proof fn law_lowest_byte_first(x: u16, y: u32, z: u64)
    ensures
        le16(x).len() == 2,
        x == le16(x)[0] + le16(x)[1] * 0x100,
        le16_at(le16(x), 0) == x,
        le32(y).len() == 4,
        y == le32(y)[0] + le32(y)[1] * 0x100 + le32(y)[2] * 0x1_0000 + le32(y)[3] * 0x100_0000,
        le32_at(le32(y), 0) == y,
        le64(z).len() == 8,
        le64_at(le64(z), 0) == z,
        le64(z).take(4) == le32((z % 0x1_0000_0000) as u32),
        le64(z).skip(4) == le32((z / 0x1_0000_0000) as u32),
{
    assert(le16(x).subrange(0, 2) =~= le16(x));
    lemma_le16(x, le16(x), 0);
    assert(le32(y).subrange(0, 4) =~= le32(y));
    lemma_le32(y, le32(y), 0);
    assert(le64(z).subrange(0, 8) =~= le64(z));
    lemma_le64(z, le64(z), 0);
    assert(le64(z).take(4) =~= le32((z % 0x1_0000_0000) as u32));
    assert(le64(z).skip(4) =~= le32((z / 0x1_0000_0000) as u32));
}

/// Four bytes can be told from the number that they make.
pub proof fn lemma_four(a: u8, b: u8, c: u8, d: u8)
    ensures
        ({
            let q = a * 0x100_0000 + b * 0x1_0000 + c * 0x100 + d;
            &&& 0 <= q <= u32::MAX
            &&& q / 0x100_0000 == a
            &&& q / 0x1_0000 % 0x100 == b
            &&& q / 0x100 % 0x100 == c
            &&& q % 0x100 == d
        }),
{
    let (a, b, c, d) = (a as int, b as int, c as int, d as int);
    let q: int = a * 0x100_0000 + b * 0x1_0000 + c * 0x100 + d;
    lemma_fundamental_div_mod_converse(q, 0x100_0000, a, b * 0x1_0000 + c * 0x100 + d);
    lemma_fundamental_div_mod_converse(q, 0x1_0000, a * 0x100 + b, c * 0x100 + d);
    lemma_fundamental_div_mod_converse(a * 0x100 + b, 0x100, a, b);
    lemma_fundamental_div_mod_converse(q, 0x100, a * 0x1_0000 + b * 0x100 + c, d);
    lemma_fundamental_div_mod_converse(a * 0x1_0000 + b * 0x100 + c, 0x100, a * 0x100 + b, c);
}

/// The bytes that a number was read from are the bytes that it is written with.
pub proof fn law_numbers_are_read_exactly(s: Seq<u8>, i: int)
    requires
        0 <= i,
        i + 16 <= s.len(),
    ensures
        le16(le16_at(s, i)) == s.subrange(i, i + 2),
        le32(le32_at(s, i)) == s.subrange(i, i + 4),
        be32(be32_at(s, i)) == s.subrange(i, i + 4),
        le64(le64_at(s, i)) == s.subrange(i, i + 8),
        be64(be64_at(s, i)) == s.subrange(i, i + 8),
        be128(be128_at(s, i)) == s.subrange(i, i + 16),
{
    lemma_back2(s, i);
    lemma_back4(s, i);
    lemma_back8(s, i);
    lemma_back16(s, i);
}

/// Two bytes that were read are the bytes that are written.
pub proof fn lemma_back2(s: Seq<u8>, i: int)
    requires
        0 <= i,
        i + 2 <= s.len(),
    ensures
        le16(le16_at(s, i)) == s.subrange(i, i + 2),
{
    lemma_fundamental_div_mod_converse(
        s[i] + s[i + 1] * 0x100,
        0x100,
        s[i + 1] as int,
        s[i] as int,
    );
    assert(le16(le16_at(s, i)) =~= s.subrange(i, i + 2));
}

/// Sixteen bytes that were read are the bytes that are written.
pub proof fn lemma_back16(s: Seq<u8>, i: int)
    requires
        0 <= i,
        i + 16 <= s.len(),
    ensures
        be128(be128_at(s, i)) == s.subrange(i, i + 16),
{
    lemma_back8(s, i);
    lemma_back8(s, i + 8);
    lemma_two_halves(s, i, be64_at(s, i), be64_at(s, i + 8), be128_at(s, i));
}

proof fn lemma_two_halves(s: Seq<u8>, i: int, h: u64, l: u64, w: u128)
    requires
        0 <= i,
        i + 16 <= s.len(),
        be64(h) == s.subrange(i, i + 8),
        be64(l) == s.subrange(i + 8, i + 16),
        w == (h * 0x1_0000_0000_0000_0000 + l) as u128,
    ensures
        be128(w) == s.subrange(i, i + 16),
{
    lemma_halves(h, l);
    assert(s.subrange(i, i + 8) + s.subrange(i + 8, i + 16) =~= s.subrange(i, i + 16));
}

proof fn lemma_halves(h: u64, l: u64)
    ensures
        ({
            let q = (h * 0x1_0000_0000_0000_0000 + l) as u128;
            q / 0x1_0000_0000_0000_0000 == h && q % 0x1_0000_0000_0000_0000 == l
        }),
{
    lemma_fundamental_div_mod_converse(
        h * 0x1_0000_0000_0000_0000 + l,
        0x1_0000_0000_0000_0000,
        h as int,
        l as int,
    );
}

/// Four bytes that were read are the bytes that are written.
pub proof fn lemma_back4(s: Seq<u8>, i: int)
    requires
        0 <= i,
        i + 4 <= s.len(),
    ensures
        le32(le32_at(s, i)) == s.subrange(i, i + 4),
        be32(be32_at(s, i)) == s.subrange(i, i + 4),
{
    lemma_four(s[i + 3], s[i + 2], s[i + 1], s[i]);
    lemma_four(s[i], s[i + 1], s[i + 2], s[i + 3]);
    assert(le32(le32_at(s, i)) =~= s.subrange(i, i + 4));
    assert(be32(be32_at(s, i)) =~= s.subrange(i, i + 4));
}

/// Eight bytes that were read are the bytes that are written.
pub proof fn lemma_back8(s: Seq<u8>, i: int)
    requires
        0 <= i,
        i + 8 <= s.len(),
    ensures
        le64(le64_at(s, i)) == s.subrange(i, i + 8),
        be64(be64_at(s, i)) == s.subrange(i, i + 8),
{
    lemma_back4(s, i);
    lemma_back4(s, i + 4);
    let (a, b) = (le32_at(s, i), le32_at(s, i + 4));
    lemma_fundamental_div_mod_converse(a + b * 0x1_0000_0000, 0x1_0000_0000, b as int, a as int);
    assert(le64(le64_at(s, i)) =~= s.subrange(i, i + 8));
    let (h, l) = (be32_at(s, i), be32_at(s, i + 4));
    lemma_fundamental_div_mod_converse(h * 0x1_0000_0000 + l, 0x1_0000_0000, h as int, l as int);
    assert(be64(be64_at(s, i)) =~= s.subrange(i, i + 8));
}

}
