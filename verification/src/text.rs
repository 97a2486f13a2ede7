//! Text: the string operations the rest of the crate is written with.

use vstd::prelude::*;
use vstd::string::*;
use vstd::utf8::*;

verus! {

/// The decimal digit `d`.
pub open spec fn digit(d: nat) -> char {
    (48 + d) as char
}

/// The decimal text of `n`, without leading zeros.
pub open spec fn decimal(n: nat) -> Seq<char>
    decreases n,
{
    if n < 10 {
        seq![digit(n)]
    } else {
        decimal(n / 10).push(digit(n % 10))
    }
}

/// `String::push` appends one character.
pub assume_specification[ String::push ](s: &mut String, c: char)
    ensures
        final(s)@ == old(s)@.push(c),
;

/// The decimal text of `n`.
pub fn decimal_text(n: u64) -> (r: String)
    ensures
        r@ == decimal(n as nat),
    decreases n,
{
    if n < 10 {
        let mut r = String::new();
        r.push((48 + n as u8) as char);
        r
    } else {
        let mut r = decimal_text(n / 10);
        r.push((48 + (n % 10) as u8) as char);
        r
    }
}

/// Whether two strings hold the same characters.
pub fn same(a: &str, b: &str) -> (r: bool)
    ensures
        r == (a@ == b@),
{
    let x = a.as_bytes();
    let y = b.as_bytes();
    let r = same_bytes(x, y);
    proof {
        encode_utf8_decode_utf8(a@);
        encode_utf8_decode_utf8(b@);
    }
    r
}

/// Whether two byte strings are equal.
pub fn same_bytes(a: &[u8], b: &[u8]) -> (r: bool)
    ensures
        r == (a@ == b@),
{
    if a.len() != b.len() {
        return false;
    }
    let n: usize = a.len();
    for i in 0..n
        invariant
            n == a@.len(),
            n == b@.len(),
            forall|j: int| 0 <= j < i ==> a@[j] == b@[j],
    {
        if a[i] != b[i] {
            return false;
        }
    }
    assert(a@ =~= b@);
    true
}

/// The characters of a string.
pub fn chars_of(s: &str) -> (r: Vec<char>)
    ensures
        r@ == s@,
{
    let mut r: Vec<char> = Vec::new();
    for c in it: s.chars()
        invariant
            r@ == it.seq().take(it.index() as int),
            it.seq() == s@,
    {
        r.push(c);
    }
    assert(r@ =~= s@);
    r
}


/// The text made of the characters `cs[from..to]`.
pub fn text_between(cs: &Vec<char>, from: usize, to: usize) -> (r: String)
    requires
        from <= to <= cs@.len(),
    ensures
        r@ == cs@.subrange(from as int, to as int),
{
    let mut r = String::new();
    assert(r@ =~= cs@.subrange(from as int, from as int));
    for i in from..to
        invariant
            from <= i <= to <= cs@.len(),
            r@ == cs@.subrange(from as int, i as int),
    {
        r.push(cs[i]);
        assert(r@ =~= cs@.subrange(from as int, i + 1));
    }
    r
}

/// The characters of each text in a list.
pub open spec fn texts(v: Seq<String>) -> Seq<Seq<char>> {
    v.map_values(|s: String| s@)
}

/// Appending a text to a list appends its characters to the list's texts.
pub proof fn lemma_texts_push(v: Seq<String>, s: String)
    ensures
        texts(v.push(s)) == texts(v).push(s@),
{
    assert(texts(v.push(s)) =~= texts(v).push(s@));
}

/// Whether `p` stands in `s` at position `i`.
pub open spec fn occurs_at<T>(s: Seq<T>, p: Seq<T>, i: int) -> bool {
    0 <= i && i + p.len() <= s.len() && s.subrange(i, i + p.len()) == p
}

/// Whether `p` stands somewhere in `s`.
pub open spec fn occurs<T>(s: Seq<T>, p: Seq<T>) -> bool {
    exists|i: int| #[trigger] occurs_at(s, p, i)
}

/// Whether `p` stands in `s` at position `i`.
pub fn occurs_at_chars(s: &Vec<char>, p: &Vec<char>, i: usize) -> (r: bool)
    ensures
        r == occurs_at(s@, p@, i as int),
{
    if i > s.len() || p.len() > s.len() - i {
        return false;
    }
    let n: usize = p.len();
    let total: usize = s.len();
    for k in 0..n
        invariant
            n == p@.len(),
            total == s@.len(),
            i + n <= total,
            forall|j: int| 0 <= j < k ==> s@[i + j] == p@[j],
    {
        if s[i + k] != p[k] {
            assert(s@.subrange(i as int, i + p@.len())[k as int] != p@[k as int]);
            return false;
        }
    }
    assert(s@.subrange(i as int, i + p@.len()) =~= p@);
    true
}

/// Whether `p` stands somewhere in `s`.
pub fn contains(s: &str, p: &str) -> (r: bool)
    ensures
        r == occurs(s@, p@),
{
    let cs = chars_of(s);
    let ps = chars_of(p);
    if ps.len() > cs.len() {
        return false;
    }
    let last: usize = cs.len() - ps.len();
    let mut i: usize = 0;
    loop
        invariant
            cs@ == s@,
            ps@ == p@,
            last == cs@.len() - ps@.len(),
            i <= last,
            forall|j: int| 0 <= j < i ==> !#[trigger] occurs_at(s@, p@, j),
        decreases last - i,
    {
        if occurs_at_chars(&cs, &ps, i) {
            return true;
        }
        if i == last {
            return false;
        }
        i = i + 1;
    }
}

/// `s` without the prefix `p`, if it starts with it.
pub open spec fn without_prefix(s: Seq<char>, p: Seq<char>) -> Option<Seq<char>> {
    if occurs_at(s, p, 0) {
        Some(s.skip(p.len() as int))
    } else {
        None
    }
}

/// `s` without the prefix `p`, if it starts with it.
pub fn strip_prefix(s: &str, p: &str) -> (r: Option<String>)
    ensures
        match without_prefix(s@, p@) {
            Some(t) => r is Some && r->Some_0@ == t,
            None => r is None,
        },
{
    let cs = chars_of(s);
    let ps = chars_of(p);
    if occurs_at_chars(&cs, &ps, 0) {
        assert(s@.skip(p@.len() as int) =~= s@.subrange(p@.len() as int, s@.len() as int));
        Some(text_between(&cs, ps.len(), cs.len()))
    } else {
        None
    }
}

/// Whether `c` is white space: the characters with the Unicode property
/// `White_Space`.
pub open spec fn is_white(c: char) -> bool {
    let n = c as u32;
    ||| 0x9 <= n <= 0xd
    ||| n == 0x20
    ||| n == 0x85
    ||| n == 0xa0
    ||| n == 0x1680
    ||| 0x2000 <= n <= 0x200a
    ||| n == 0x2028
    ||| n == 0x2029
    ||| n == 0x202f
    ||| n == 0x205f
    ||| n == 0x3000
}

/// Whether `c` is white space.
pub fn is_space(c: char) -> (r: bool)
    ensures
        r == is_white(c),
{
    let n: u32 = c as u32;
    (0x9 <= n && n <= 0xd) || n == 0x20 || n == 0x85 || n == 0xa0 || n == 0x1680 || (0x2000 <= n
        && n <= 0x200a) || n == 0x2028 || n == 0x2029 || n == 0x202f || n == 0x205f || n == 0x3000
}

/// `s` without its leading white space.
pub open spec fn trimmed_start(s: Seq<char>) -> Seq<char>
    decreases s.len(),
{
    if s.len() > 0 && is_white(s[0]) {
        trimmed_start(s.skip(1))
    } else {
        s
    }
}

/// `s` without its trailing white space.
pub open spec fn trimmed_end(s: Seq<char>) -> Seq<char>
    decreases s.len(),
{
    if s.len() > 0 && is_white(s.last()) {
        trimmed_end(s.drop_last())
    } else {
        s
    }
}

/// `s` without leading and trailing white space.
pub open spec fn trimmed(s: Seq<char>) -> Seq<char> {
    trimmed_end(trimmed_start(s))
}

/// Text that neither starts nor ends in white space is its own trimmed form.
pub proof fn lemma_trimmed_fixed(s: Seq<char>)
    requires
        s.len() > 0 ==> !is_white(s[0]) && !is_white(s.last()),
    ensures
        trimmed(s) == s,
{
}

/// White space before a text is trimmed off with the text's own.
proof fn lemma_trimmed_start_padded(w: Seq<char>, s: Seq<char>)
    requires
        forall|i: int| 0 <= i < w.len() ==> is_white(#[trigger] w[i]),
    ensures
        trimmed_start(w + s) == trimmed_start(s),
    decreases w.len(),
{
    if w.len() == 0 {
        assert(w + s =~= s);
    } else {
        assert((w + s)[0] == w[0]);
        assert((w + s).skip(1) =~= w.skip(1) + s);
        assert forall|i: int| 0 <= i < w.skip(1).len() implies is_white(
            #[trigger] w.skip(1)[i],
        ) by {
            assert(w.skip(1)[i] == w[i + 1]);
        }
        lemma_trimmed_start_padded(w.skip(1), s);
    }
}

/// White space after a text is trimmed off with the text's own.
proof fn lemma_trimmed_end_padded(s: Seq<char>, w: Seq<char>)
    requires
        forall|i: int| 0 <= i < w.len() ==> is_white(#[trigger] w[i]),
    ensures
        trimmed_end(s + w) == trimmed_end(s),
    decreases w.len(),
{
    if w.len() == 0 {
        assert(s + w =~= s);
    } else {
        assert((s + w).last() == w[w.len() - 1]);
        assert((s + w).drop_last() =~= s + w.drop_last());
        assert forall|i: int| 0 <= i < w.drop_last().len() implies is_white(
            #[trigger] w.drop_last()[i],
        ) by {
            assert(w.drop_last()[i] == w[i]);
        }
        lemma_trimmed_end_padded(s, w.drop_last());
    }
}

/// White space after a text keeps what is trimmed off before it.
proof fn lemma_trimmed_start_before(s: Seq<char>, w: Seq<char>)
    requires
        forall|i: int| 0 <= i < w.len() ==> is_white(#[trigger] w[i]),
    ensures
        trimmed_start(s).len() > 0 ==> trimmed_start(s + w) == trimmed_start(s) + w,
        trimmed_start(s).len() == 0 ==> trimmed_start(s + w).len() == 0,
    decreases s.len(),
{
    if s.len() == 0 {
        lemma_trimmed_start_padded(w, s);
        assert(s + w =~= w + s);
    } else if is_white(s[0]) {
        assert((s + w)[0] == s[0]);
        assert((s + w).skip(1) =~= s.skip(1) + w);
        lemma_trimmed_start_before(s.skip(1), w);
    } else {
        assert((s + w)[0] == s[0]);
    }
}

/// White space around a text does not show in its trimmed form.
pub proof fn lemma_trimmed_padded(before: Seq<char>, s: Seq<char>, after: Seq<char>)
    requires
        forall|i: int| 0 <= i < before.len() ==> is_white(#[trigger] before[i]),
        forall|i: int| 0 <= i < after.len() ==> is_white(#[trigger] after[i]),
    ensures
        trimmed(before + s + after) == trimmed(s),
{
    assert(before + s + after =~= before + (s + after));
    lemma_trimmed_start_padded(before, s + after);
    lemma_trimmed_start_before(s, after);
    if trimmed_start(s).len() > 0 {
        lemma_trimmed_end_padded(trimmed_start(s), after);
    } else {
        assert(trimmed_start(s + after) =~= trimmed_start(s));
    }
}

/// `s` without its trailing white space.
pub fn trim_end(s: &str) -> (r: String)
    ensures
        r@ == trimmed_end(s@),
{
    let cs = chars_of(s);
    let end: usize = white_end(&cs, 0);
    assert(cs@.subrange(0, cs@.len() as int) =~= cs@);
    text_between(&cs, 0, end)
}

/// The end of `cs[from..]` without its trailing white space.
fn white_end(cs: &Vec<char>, from: usize) -> (end: usize)
    requires
        from <= cs@.len(),
    ensures
        from <= end <= cs@.len(),
        cs@.subrange(from as int, end as int) == trimmed_end(
            cs@.subrange(from as int, cs@.len() as int),
        ),
{
    let mut end: usize = cs.len();
    let ghost whole = cs@.subrange(from as int, cs@.len() as int);
    while end > from && is_space(cs[end - 1])
        invariant
            from <= end <= cs@.len(),
            trimmed_end(cs@.subrange(from as int, end as int)) == trimmed_end(whole),
        decreases end,
    {
        assert(cs@.subrange(from as int, end as int).drop_last() =~= cs@.subrange(
            from as int,
            end - 1,
        ));
        end = end - 1;
    }
    end
}

/// The start of `cs` without its leading white space.
fn white_start(cs: &Vec<char>) -> (start: usize)
    ensures
        start <= cs@.len(),
        cs@.subrange(start as int, cs@.len() as int) == trimmed_start(cs@),
{
    let mut i: usize = 0;
    assert(cs@.subrange(0, cs@.len() as int) =~= cs@);
    while i < cs.len() && is_space(cs[i])
        invariant
            i <= cs@.len(),
            trimmed_start(cs@.subrange(i as int, cs@.len() as int)) == trimmed_start(cs@),
        decreases cs@.len() - i,
    {
        assert(cs@.subrange(i as int, cs@.len() as int).skip(1) =~= cs@.subrange(
            i + 1,
            cs@.len() as int,
        ));
        i = i + 1;
    }
    i
}

/// `s` without its leading white space.
pub fn trim_start(s: &str) -> (r: String)
    ensures
        r@ == trimmed_start(s@),
{
    let cs = chars_of(s);
    let start: usize = white_start(&cs);
    text_between(&cs, start, cs.len())
}

/// `s` without leading and trailing white space.
pub fn trim(s: &str) -> (r: String)
    ensures
        r@ == trimmed(s@),
{
    let cs = chars_of(s);
    let start: usize = white_start(&cs);
    let end: usize = white_end(&cs, start);
    text_between(&cs, start, end)
}

/// The first position at or after `i` that holds `c`, or the end of `s`.
pub open spec fn next_at(s: Seq<char>, c: char, i: int) -> int
    decreases s.len() - i,
{
    if i < 0 || i >= s.len() || s[i] == c {
        i
    } else {
        next_at(s, c, i + 1)
    }
}

/// A search from `i` ends between `i` and the end of the text.
pub proof fn lemma_next_at(s: Seq<char>, c: char, i: int)
    requires
        0 <= i <= s.len(),
    ensures
        i <= next_at(s, c, i) <= s.len(),
    decreases s.len() - i,
{
    if i < s.len() && s[i] != c {
        lemma_next_at(s, c, i + 1);
    }
}

/// The first position at or after `i` that holds `c`, or the end of `cs`.
pub fn find_char(cs: &Vec<char>, c: char, i: usize) -> (r: usize)
    requires
        i <= cs@.len(),
    ensures
        i <= r <= cs@.len(),
        r == next_at(cs@, c, i as int),
{
    let mut j: usize = i;
    while j < cs.len() && cs[j] != c
        invariant
            i <= j <= cs@.len(),
            next_at(cs@, c, i as int) == next_at(cs@, c, j as int),
        decreases cs@.len() - j,
    {
        j = j + 1;
    }
    j
}

/// The parts of `s[i..]` between the characters `c`.
pub open spec fn parts_from(s: Seq<char>, c: char, i: int) -> Seq<Seq<char>>
    decreases s.len() - i + 1,
{
    if i < 0 || i > s.len() {
        Seq::empty()
    } else {
        let j = next_at(s, c, i);
        proof {
            lemma_next_at(s, c, i);
        }
        if j >= s.len() {
            seq![s.subrange(i, s.len() as int)]
        } else {
            seq![s.subrange(i, j)] + parts_from(s, c, j + 1)
        }
    }
}

/// The parts of `s` between the characters `c`.
pub open spec fn parts(s: Seq<char>, c: char) -> Seq<Seq<char>> {
    parts_from(s, c, 0)
}

/// The parts of `s` between the characters `c`.
pub fn split(s: &str, c: char) -> (r: Vec<String>)
    ensures
        texts(r@) == parts(s@, c),
{
    let cs = chars_of(s);
    let mut out: Vec<String> = Vec::new();
    let mut i: usize = 0;
    assert(texts(out@) + parts_from(s@, c, 0) =~= parts(s@, c));
    loop
        invariant
            cs@ == s@,
            i <= cs@.len(),
            texts(out@) + parts_from(s@, c, i as int) == parts(s@, c),
        decreases cs@.len() - i,
    {
        let j: usize = find_char(&cs, c, i);
        let part = text_between(&cs, i, j);
        proof {
            lemma_texts_push(out@, part);
        }
        let ghost before = texts(out@);
        out.push(part);
        if j >= cs.len() {
            assert(before + parts_from(s@, c, i as int) =~= texts(out@));
            return out;
        }
        assert(before + parts_from(s@, c, i as int) =~= texts(out@) + parts_from(s@, c, j + 1));
        i = j + 1;
    }
}

/// A line without the carriage return that stood before its line feed.
pub open spec fn without_cr(s: Seq<char>) -> Seq<char> {
    if s.len() > 0 && s.last() == '\r' {
        s.drop_last()
    } else {
        s
    }
}

/// The lines of `s[i..]`. A line ends in a line feed, which a carriage return
/// may precede; the last line may lack it.
pub open spec fn lines_from(s: Seq<char>, i: int) -> Seq<Seq<char>>
    decreases s.len() - i,
{
    if i < 0 || i >= s.len() {
        Seq::empty()
    } else {
        let j = next_at(s, '\n', i);
        proof {
            lemma_next_at(s, '\n', i);
        }
        if j >= s.len() {
            seq![s.subrange(i, s.len() as int)]
        } else {
            seq![without_cr(s.subrange(i, j))] + lines_from(s, j + 1)
        }
    }
}

/// The lines of `s`.
pub open spec fn lines_of(s: Seq<char>) -> Seq<Seq<char>> {
    lines_from(s, 0)
}

/// The lines of `s`.
pub fn lines(s: &str) -> (r: Vec<String>)
    ensures
        texts(r@) == lines_of(s@),
{
    let cs = chars_of(s);
    let mut out: Vec<String> = Vec::new();
    let mut i: usize = 0;
    assert(texts(out@) + lines_from(s@, 0) =~= lines_of(s@));
    while i < cs.len()
        invariant
            cs@ == s@,
            i <= cs@.len(),
            texts(out@) + lines_from(s@, i as int) == lines_of(s@),
        decreases cs@.len() - i,
    {
        let j: usize = find_char(&cs, '\n', i);
        let ghost before = texts(out@);
        if j >= cs.len() {
            let part = text_between(&cs, i, j);
            proof {
                lemma_texts_push(out@, part);
            }
            out.push(part);
            assert(before + lines_from(s@, i as int) =~= texts(out@));
            return out;
        }
        let end: usize = if j > i && cs[j - 1] == '\r' {
            j - 1
        } else {
            j
        };
        let part = text_between(&cs, i, end);
        assert(part@ =~= without_cr(s@.subrange(i as int, j as int)));
        proof {
            lemma_texts_push(out@, part);
        }
        out.push(part);
        assert(before + lines_from(s@, i as int) =~= texts(out@) + lines_from(s@, j + 1));
        i = j + 1;
    }
    assert(texts(out@) + lines_from(s@, i as int) =~= texts(out@));
    out
}

/// The first position at or after `i` whose character is white space or not, as
/// `white` says, or the end of `s`.
pub open spec fn next_white(s: Seq<char>, white: bool, i: int) -> int
    decreases s.len() - i,
{
    if i < 0 || i >= s.len() || is_white(s[i]) == white {
        i
    } else {
        next_white(s, white, i + 1)
    }
}

/// A search from `i` ends between `i` and the end of the text, at a character of
/// the kind sought unless at the end.
pub proof fn lemma_next_white(s: Seq<char>, white: bool, i: int)
    requires
        0 <= i <= s.len(),
    ensures
        i <= next_white(s, white, i) <= s.len(),
        next_white(s, white, i) < s.len() ==> is_white(s[next_white(s, white, i)]) == white,
    decreases s.len() - i,
{
    if i < s.len() && is_white(s[i]) != white {
        lemma_next_white(s, white, i + 1);
    }
}

fn find_white(cs: &Vec<char>, white: bool, i: usize) -> (r: usize)
    requires
        i <= cs@.len(),
    ensures
        i <= r <= cs@.len(),
        r == next_white(cs@, white, i as int),
{
    let mut j: usize = i;
    while j < cs.len() && is_space(cs[j]) != white
        invariant
            i <= j <= cs@.len(),
            next_white(cs@, white, i as int) == next_white(cs@, white, j as int),
        decreases cs@.len() - j,
    {
        j = j + 1;
    }
    j
}

/// The words of `s[i..]`: its longest runs without white space.
pub open spec fn words_from(s: Seq<char>, i: int) -> Seq<Seq<char>>
    decreases s.len() - i,
{
    if i < 0 || i > s.len() {
        Seq::empty()
    } else {
        let j = next_white(s, false, i);
        let k = next_white(s, true, j);
        proof {
            lemma_next_white(s, false, i);
            lemma_next_white(s, true, j);
        }
        if j >= s.len() || k <= j {
            Seq::empty()
        } else {
            seq![s.subrange(j, k)] + words_from(s, k)
        }
    }
}

/// The words of `s`: its longest runs without white space.
pub open spec fn words_of(s: Seq<char>) -> Seq<Seq<char>> {
    words_from(s, 0)
}

/// The words of `s`.
pub fn split_whitespace(s: &str) -> (r: Vec<String>)
    ensures
        texts(r@) == words_of(s@),
{
    let cs = chars_of(s);
    let mut out: Vec<String> = Vec::new();
    let mut i: usize = 0;
    assert(texts(out@) + words_from(s@, 0) =~= words_of(s@));
    loop
        invariant
            cs@ == s@,
            i <= cs@.len(),
            texts(out@) + words_from(s@, i as int) == words_of(s@),
        decreases cs@.len() - i,
    {
        let j: usize = find_white(&cs, false, i);
        if j >= cs.len() {
            assert(texts(out@) + words_from(s@, i as int) =~= texts(out@));
            return out;
        }
        let k: usize = find_white(&cs, true, j);
        proof {
            lemma_next_white(s@, false, i as int);
            lemma_next_white(s@, true, j as int);
            assert(k > j);
        }
        let part = text_between(&cs, j, k);
        proof {
            lemma_texts_push(out@, part);
        }
        let ghost before = texts(out@);
        out.push(part);
        assert(before + words_from(s@, i as int) =~= texts(out@) + words_from(s@, k as int));
        i = k;
    }
}

/// The last position of `c` in `s`.
pub open spec fn last_at(s: Seq<char>, c: char) -> Option<int>
    decreases s.len(),
{
    if s.len() == 0 {
        None
    } else if s.last() == c {
        Some(s.len() - 1)
    } else {
        last_at(s.drop_last(), c)
    }
}

/// `s` before and after the last `c` in it.
pub open spec fn around_last(s: Seq<char>, c: char) -> Option<(Seq<char>, Seq<char>)> {
    match last_at(s, c) {
        Some(i) => Some((s.subrange(0, i), s.subrange(i + 1, s.len() as int))),
        None => None,
    }
}

/// `s` before and after the last `c` in it.
pub fn rsplit_once(s: &str, c: char) -> (r: Option<(String, String)>)
    ensures
        match around_last(s@, c) {
            Some((a, b)) => r is Some && r->Some_0.0@ == a && r->Some_0.1@ == b,
            None => r is None,
        },
{
    let cs = chars_of(s);
    let mut i: usize = cs.len();
    assert(s@.take(s@.len() as int) =~= s@);
    while i > 0
        invariant
            cs@ == s@,
            i <= cs@.len(),
            last_at(s@, c) == last_at(s@.take(i as int), c),
        decreases i,
    {
        if cs[i - 1] == c {
            return Some((text_between(&cs, 0, i - 1), text_between(&cs, i, cs.len())));
        }
        assert(s@.take(i as int).drop_last() =~= s@.take(i - 1));
        i = i - 1;
    }
    None
}

/// Whether `c` is a decimal digit.
pub open spec fn is_digit(c: char) -> bool {
    '0' <= c <= '9'
}

/// The number that the digits `s` write in base ten.
pub open spec fn value_of(s: Seq<char>) -> nat
    decreases s.len(),
{
    if s.len() == 0 {
        0
    } else {
        value_of(s.drop_last()) * 10 + (s.last() as nat - 48) as nat
    }
}

/// The digits of a number as written: a leading plus sign is allowed.
pub open spec fn digits_of(s: Seq<char>) -> Seq<char> {
    if s.len() > 0 && s[0] == '+' {
        s.skip(1)
    } else {
        s
    }
}

/// The number that `s` writes in base ten, if it is one and at most `max`.
pub open spec fn number(s: Seq<char>, max: nat) -> Option<nat> {
    let d = digits_of(s);
    if d.len() > 0 && (forall|i: int| 0 <= i < d.len() ==> is_digit(#[trigger] d[i])) && value_of(d)
        <= max {
        Some(value_of(d))
    } else {
        None
    }
}

proof fn lemma_value_grows(s: Seq<char>, n: int)
    requires
        0 <= n <= s.len(),
        forall|i: int| 0 <= i < s.len() ==> is_digit(#[trigger] s[i]),
    ensures
        value_of(s.take(n)) <= value_of(s),
    decreases s.len(),
{
    if n == s.len() {
        assert(s.take(n) =~= s);
    } else {
        lemma_value_grows(s.drop_last(), n);
        assert(s.drop_last().take(n) =~= s.take(n));
    }
}

/// The number that `s` writes in base ten, if it is one and at most `max`.
pub fn parse_number(s: &str, max: u32) -> (r: Option<u32>)
    ensures
        match number(s@, max as nat) {
            Some(n) => r is Some && r->Some_0 == n,
            None => r is None,
        },
{
    let cs = chars_of(s);
    let start: usize = if cs.len() > 0 && cs[0] == '+' {
        1
    } else {
        0
    };
    let ghost d = digits_of(s@);
    assert(d =~= s@.skip(start as int));
    if start >= cs.len() {
        return None;
    }
    let mut n: u64 = 0;
    let mut i: usize = start;
    assert(d.take(0) =~= Seq::<char>::empty());
    while i < cs.len()
        invariant
            cs@ == s@,
            d == digits_of(s@),
            d == s@.skip(start as int),
            start <= i <= cs@.len(),
            n <= max,
            n == value_of(d.take(i - start)),
            forall|j: int| 0 <= j < i - start ==> is_digit(#[trigger] d[j]),
        decreases cs@.len() - i,
    {
        let c: char = cs[i];
        assert(d[i - start] == c);
        if c < '0' || c > '9' {
            return None;
        }
        n = n * 10 + (c as u32 - 48) as u64;
        assert(d.take(i - start + 1).drop_last() =~= d.take(i - start));
        if n > max as u64 {
            proof {
                if forall|j: int| 0 <= j < d.len() ==> is_digit(#[trigger] d[j]) {
                    lemma_value_grows(d, i - start + 1);
                }
            }
            return None;
        }
        i = i + 1;
    }
    assert(d.take(i - start) =~= d);
    Some(n as u32)
}

/// `c` with an ASCII capital letter made small.
pub open spec fn small(c: char) -> char {
    if 'A' <= c <= 'Z' {
        (c as nat + 32) as char
    } else {
        c
    }
}

/// Whether two texts differ at most in the case of ASCII letters.
pub open spec fn same_letters(a: Seq<char>, b: Seq<char>) -> bool {
    a.len() == b.len() && forall|i: int| 0 <= i < a.len() ==> small(#[trigger] a[i]) == small(b[i])
}

fn to_small(c: char) -> (r: char)
    ensures
        r == small(c),
{
    if 'A' <= c && c <= 'Z' {
        (c as u8 + 32) as char
    } else {
        c
    }
}

/// Whether two texts differ at most in the case of ASCII letters.
pub fn eq_ignore_ascii_case(a: &str, b: &str) -> (r: bool)
    ensures
        r == same_letters(a@, b@),
{
    let x = chars_of(a);
    let y = chars_of(b);
    if x.len() != y.len() {
        return false;
    }
    let n: usize = x.len();
    for i in 0..n
        invariant
            x@ == a@,
            y@ == b@,
            n == x@.len(),
            n == y@.len(),
            forall|j: int| 0 <= j < i ==> small(#[trigger] a@[j]) == small(b@[j]),
    {
        if to_small(x[i]) != to_small(y[i]) {
            assert(small(a@[i as int]) != small(b@[i as int]));
            return false;
        }
    }
    true
}

/// The text that some bytes write in UTF-8, with each ill-formed part replaced.
pub uninterp spec fn lossy_text(b: Seq<u8>) -> Seq<char>;

/// Calls `String::from_utf8_lossy`: the text depends on the bytes alone, and is
/// what they encode where they are UTF-8. How ill-formed parts are replaced is
/// left unsaid.
#[verifier::external_body]
pub(crate) fn lossy(b: &[u8]) -> (r: String)
    ensures
        r@ == lossy_text(b@),
        valid_utf8(b@) ==> r@ == decode_utf8(b@),
{
    String::from_utf8_lossy(b).into_owned()
}

/// The text that shows a string in quotes, with special characters escaped.
pub uninterp spec fn quoted(s: Seq<char>) -> Seq<char>;

/// Calls `Debug` of `str`: the text depends on the string alone. How characters
/// are escaped is left unsaid.
#[verifier::external_body]
pub(crate) fn quote(s: &str) -> (r: String)
    ensures
        r@ == quoted(s@),
{
    format!("{:?}", s)
}

/// A text in lower case.
pub uninterp spec fn lowercase(s: Seq<char>) -> Seq<char>;

/// Calls `str::to_lowercase`: the text depends on its argument alone. Which letters
/// have a lower case, and what it is, is left unsaid.
#[verifier::external_body]
pub(crate) fn to_lowercase(s: &str) -> (r: String)
    ensures
        r@ == lowercase(s@),
{
    s.to_lowercase()
}

/// Whether a character is a letter or a number.
pub uninterp spec fn alphanumeric(c: char) -> bool;

/// Calls `char::is_alphanumeric`: the answer depends on the character alone. Of
/// ASCII characters, letters and digits are alphanumeric and no others; which of the
/// rest are is left unsaid.
#[verifier::external_body]
pub(crate) fn is_alphanumeric(c: char) -> (r: bool)
    ensures
        r == alphanumeric(c),
        c < 128 as char ==> (r <==> ('0' <= c <= '9' || 'a' <= c <= 'z' || 'A' <= c <= 'Z')),
{
    c.is_alphanumeric()
}

/// A text with another text in place of each `c`.
pub open spec fn replaced(s: Seq<char>, c: char, with: Seq<char>) -> Seq<char>
    decreases s.len(),
{
    if s.len() == 0 {
        Seq::empty()
    } else {
        replaced(s.drop_last(), c, with) + if s.last() == c {
            with
        } else {
            seq![s.last()]
        }
    }
}

/// A text with another text in place of each `c`.
pub fn replace(s: &str, c: char, with: &str) -> (r: String)
    ensures
        r@ == replaced(s@, c, with@),
{
    let cs = chars_of(s);
    let n: usize = cs.len();
    let mut r = String::new();
    assert(cs@.take(0) =~= Seq::<char>::empty());
    assert(r@ =~= replaced(cs@.take(0), c, with@));
    for i in 0..n
        invariant
            n == cs@.len(),
            cs@ == s@,
            r@ == replaced(cs@.take(i as int), c, with@),
    {
        assert(cs@.take(i + 1).drop_last() =~= cs@.take(i as int));
        if cs[i] == c {
            r = r.concat(with);
        } else {
            let ghost before = r@;
            r.push(cs[i]);
            assert(r@ =~= before + seq![cs@[i as int]]);
        }
    }
    assert(cs@.take(n as int) =~= cs@);
    r
}

/// The word after the first `key`.
pub open spec fn word_after(words: Seq<Seq<char>>, key: Seq<char>) -> Option<Seq<char>>
    decreases words.len(),
{
    if words.len() < 2 {
        None
    } else if words[0] == key {
        Some(words[1])
    } else {
        word_after(words.skip(1), key)
    }
}

/// The word after the first `key`.
pub fn after_word(words: &Vec<String>, key: &str) -> (r: Option<String>)
    ensures
        match word_after(texts(words@), key@) {
            Some(w) => r is Some && r->Some_0@ == w,
            None => r is None,
        },
{
    let n: usize = words.len();
    let ghost all = texts(words@);
    let mut i: usize = 0;
    assert(all.skip(0) =~= all);
    while i < n
        invariant
            n == words@.len(),
            i <= n,
            all == texts(words@),
            word_after(all, key@) == word_after(all.skip(i as int), key@),
        decreases n - i,
    {
        if n - i < 2 {
            return None;
        }
        assert(all.skip(i as int)[0] == words@[i as int]@);
        assert(all.skip(i as int)[1] == words@[i + 1]@);
        if same(words[i].as_str(), key) {
            return Some(words[i + 1].clone());
        }
        assert(all.skip(i as int).skip(1) =~= all.skip(i + 1));
        i = i + 1;
    }
    None
}

/// The word after the first `key` in a text.
pub fn find_word_after(text: &str, key: &str) -> (r: Option<String>)
    ensures
        match word_after(words_of(text@), key@) {
            Some(w) => r is Some && r->Some_0@ == w,
            None => r is None,
        },
{
    let words = split_whitespace(text);
    after_word(&words, key)
}

/// A number in base ten is written with digits, without leading zeros, and reads back as
/// itself.
pub proof fn law_decimal(n: nat, max: nat)
    ensures
        decimal(n).len() > 0,
        forall|i: int| 0 <= i < decimal(n).len() ==> '0' <= #[trigger] decimal(n)[i] <= '9',
        n >= 10 ==> decimal(n)[0] != '0',
        value_of(decimal(n)) == n,
        n <= max ==> number(decimal(n), max) == Some(n),
        n > max ==> number(decimal(n), max) is None,
    decreases n,
{
    let d = decimal(n);
    if n < 10 {
        assert(d.drop_last() =~= Seq::<char>::empty());
        assert(value_of(d.drop_last()) == 0);
    } else {
        law_decimal(n / 10, max);
        assert(d.drop_last() =~= decimal(n / 10));
        assert(d[0] == decimal(n / 10)[0]);
        assert forall|i: int| 0 <= i < d.len() implies '0' <= #[trigger] d[i] <= '9' by {
            if i < d.len() - 1 {
                assert(d[i] == decimal(n / 10)[i]);
            }
        }
        if n / 10 < 10 {
            assert(decimal(n / 10)[0] == digit(n / 10));
        }
    }
    assert('0' <= d[0] <= '9');
    assert(d[0] != '+');
    assert(digits_of(d) == d);
}

/// Trimming takes off all white space around a text, and nothing else.
pub proof fn law_trim(before: Seq<char>, t: Seq<char>, after: Seq<char>)
    requires
        forall|i: int| 0 <= i < before.len() ==> is_white(#[trigger] before[i]),
        forall|i: int| 0 <= i < after.len() ==> is_white(#[trigger] after[i]),
        t.len() > 0 ==> !is_white(t[0]) && !is_white(t.last()),
    ensures
        trimmed(before + t + after) == t,
{
    lemma_trimmed_padded(before, t, after);
    lemma_trimmed_fixed(t);
}

proof fn lemma_next_at_skips(s: Seq<char>, c: char, k: int, i: int)
    requires
        0 <= k,
        0 <= i,
        k + i <= s.len(),
    ensures
        next_at(s, c, k + i) == k + next_at(s.skip(k), c, i),
    decreases s.len() - i,
{
    if k + i < s.len() {
        assert(s.skip(k)[i] == s[k + i]);
        if s[k + i] != c {
            lemma_next_at_skips(s, c, k, i + 1);
        }
    }
}

pub proof fn lemma_next_at_found(a: Seq<char>, c: char, b: Seq<char>, i: int)
    requires
        0 <= i <= a.len(),
        forall|j: int| 0 <= j < a.len() ==> #[trigger] a[j] != c,
    ensures
        next_at(a + seq![c] + b, c, i) == a.len(),
        next_at(a, c, i) == a.len(),
    decreases a.len() - i,
{
    if i < a.len() {
        assert((a + seq![c] + b)[i] == a[i]);
        lemma_next_at_found(a, c, b, i + 1);
    } else {
        assert((a + seq![c] + b)[i] == c);
    }
}

proof fn lemma_parts_skip(s: Seq<char>, c: char, k: int, i: int)
    requires
        0 <= k,
        0 <= i,
        k + i <= s.len(),
    ensures
        parts_from(s, c, k + i) == parts_from(s.skip(k), c, i),
    decreases s.len() - i,
{
    let t = s.skip(k);
    lemma_next_at_skips(s, c, k, i);
    lemma_next_at(t, c, i);
    let j = next_at(t, c, i);
    if j >= t.len() {
        assert(s.subrange(k + i, s.len() as int) =~= t.subrange(i, t.len() as int));
    } else {
        assert(s.subrange(k + i, k + j) =~= t.subrange(i, j));
        lemma_parts_skip(s, c, k, j + 1);
        assert(k + j + 1 == k + (j + 1));
    }
}

/// Splitting cuts at every separator: what stands before the first one is the first part,
/// and the rest is split in the same way. A text without one is its only part.
pub proof fn law_parts(a: Seq<char>, c: char, b: Seq<char>)
    requires
        forall|j: int| 0 <= j < a.len() ==> #[trigger] a[j] != c,
    ensures
        parts(a + seq![c] + b, c) == seq![a] + parts(b, c),
        parts(a, c) == seq![a],
{
    let s = a + seq![c] + b;
    lemma_next_at_found(a, c, b, 0);
    assert(s.subrange(0, a.len() as int) =~= a);
    assert(a.subrange(0, a.len() as int) =~= a);
    lemma_parts_skip(s, c, a.len() as int + 1, 0);
    assert(s.skip(a.len() as int + 1) =~= b);
}

proof fn lemma_lines_skip(s: Seq<char>, k: int, i: int)
    requires
        0 <= k,
        0 <= i,
        k + i <= s.len(),
    ensures
        lines_from(s, k + i) == lines_from(s.skip(k), i),
    decreases s.len() - i,
{
    let t = s.skip(k);
    if k + i < s.len() {
        lemma_next_at_skips(s, '\n', k, i);
        lemma_next_at(t, '\n', i);
        let j = next_at(t, '\n', i);
        if j >= t.len() {
            assert(s.subrange(k + i, s.len() as int) =~= t.subrange(i, t.len() as int));
        } else {
            assert(s.subrange(k + i, k + j) =~= t.subrange(i, j));
            lemma_lines_skip(s, k, j + 1);
            assert(k + j + 1 == k + (j + 1));
        }
    }
}

/// The lines of a text: what stands before the first line break, less one carriage return
/// at its end, and the lines of the rest. A text without line breaks is one line, and an
/// empty one is none.
pub proof fn law_lines(a: Seq<char>, b: Seq<char>)
    requires
        forall|j: int| 0 <= j < a.len() ==> #[trigger] a[j] != '\n',
    ensures
        lines_of(a + seq!['\n'] + b) == seq![
            if a.len() > 0 && a.last() == '\r' {
                a.drop_last()
            } else {
                a
            },
        ] + lines_of(b),
        a.len() > 0 ==> lines_of(a) == seq![a],
        a.len() == 0 ==> lines_of(a).len() == 0,
{
    let s = a + seq!['\n'] + b;
    lemma_next_at_found(a, '\n', b, 0);
    assert(s.subrange(0, a.len() as int) =~= a);
    assert(a.subrange(0, a.len() as int) =~= a);
    lemma_lines_skip(s, a.len() as int + 1, 0);
    assert(s.skip(a.len() as int + 1) =~= b);
}

proof fn lemma_next_white_skips(s: Seq<char>, white: bool, k: int, i: int)
    requires
        0 <= k,
        0 <= i,
        k + i <= s.len(),
    ensures
        next_white(s, white, k + i) == k + next_white(s.skip(k), white, i),
    decreases s.len() - i,
{
    if k + i < s.len() {
        assert(s.skip(k)[i] == s[k + i]);
        if is_white(s[k + i]) != white {
            lemma_next_white_skips(s, white, k, i + 1);
        }
    }
}

proof fn lemma_words_skip(s: Seq<char>, k: int, i: int)
    requires
        0 <= k,
        0 <= i,
        k + i <= s.len(),
    ensures
        words_from(s, k + i) == words_from(s.skip(k), i),
    decreases s.len() - i,
{
    let t = s.skip(k);
    let j = next_white(t, false, i);
    lemma_next_white(t, false, i);
    let e = next_white(t, true, j);
    lemma_next_white(t, true, j);
    lemma_next_white_skips(s, false, k, i);
    lemma_next_white_skips(s, true, k, j);
    if !(j >= t.len() || e <= j) {
        assert(s.subrange(k + j, k + e) =~= t.subrange(j, e));
        lemma_words_skip(s, k, e);
    }
}

proof fn lemma_next_white_found(w: Seq<char>, b: Seq<char>, i: int)
    requires
        0 <= i <= w.len(),
        forall|j: int| 0 <= j < w.len() ==> !is_white(#[trigger] w[j]),
        b.len() > 0 ==> is_white(b[0]),
    ensures
        next_white(w + b, true, i) == w.len(),
    decreases w.len() - i,
{
    if i < w.len() {
        assert((w + b)[i] == w[i]);
        lemma_next_white_found(w, b, i + 1);
    } else if b.len() > 0 {
        assert((w + b)[i] == b[0]);
    }
}

/// The words of a text: white space at its start is passed over; what stands before the
/// next white space, or before the end, is a word, and the words of the rest follow.
pub proof fn law_words(w: Seq<char>, b: Seq<char>)
    requires
        w.len() > 0,
        forall|j: int| 0 <= j < w.len() ==> !is_white(#[trigger] w[j]),
        b.len() > 0 ==> is_white(b[0]),
    ensures
        words_of(w + b) == seq![w] + words_of(b),
        b.len() > 0 ==> words_of(b) == words_of(b.skip(1)),
        words_of(Seq::empty()).len() == 0,
{
    let s = w + b;
    assert(s[0] == w[0]);
    lemma_next_white_found(w, b, 0);
    assert(s.subrange(0, w.len() as int) =~= w);
    lemma_words_skip(s, w.len() as int, 0);
    assert(s.skip(w.len() as int) =~= b);
    if b.len() > 0 {
        lemma_words_skip(b, 1, 0);
        assert(next_white(b, false, 0) == next_white(b, false, 1));
        let j = next_white(b, false, 1);
        lemma_next_white(b, false, 1);
        assert(words_from(b, 0) == words_from(b, 1));
    }
}

/// What stands around the last separator of a text; nothing if there is none.
pub proof fn law_around_last(h: Seq<char>, c: char, p: Seq<char>)
    requires
        forall|j: int| 0 <= j < p.len() ==> #[trigger] p[j] != c,
    ensures
        around_last(h + seq![c] + p, c) == Some((h, p)),
        around_last(p, c) is None,
{
    lemma_last_at(h, c, p);
    let s = h + seq![c] + p;
    assert(s.subrange(0, h.len() as int) =~= h);
    assert(s.subrange(h.len() as int + 1, s.len() as int) =~= p);
}

proof fn lemma_last_at(h: Seq<char>, c: char, p: Seq<char>)
    requires
        forall|j: int| 0 <= j < p.len() ==> #[trigger] p[j] != c,
    ensures
        last_at(h + seq![c] + p, c) == Some(h.len() as int),
        last_at(p, c) is None,
    decreases p.len(),
{
    let s = h + seq![c] + p;
    if p.len() > 0 {
        assert(s.last() == p.last());
        assert(s.drop_last() =~= h + seq![c] + p.drop_last());
        assert(p[p.len() - 1] != c);
        assert forall|j: int| 0 <= j < p.drop_last().len() implies #[trigger] p.drop_last()[j]
            != c by {
            assert(p[j] != c);
        }
        lemma_last_at(h, c, p.drop_last());
    } else {
        assert(s.last() == c);
    }
}

/// Taking a prefix off gives what follows it, and only a text that begins with the prefix
/// has it taken off.
pub proof fn law_without_prefix(p: Seq<char>, s: Seq<char>)
    ensures
        without_prefix(p + s, p) == Some(s),
        without_prefix(s, p) is Some ==> s == p + without_prefix(s, p)->Some_0,
{
    let t = p + s;
    assert(t.subrange(0, p.len() as int) =~= p);
    assert(t.skip(p.len() as int) =~= s);
    if without_prefix(s, p) is Some {
        assert(s.subrange(0, p.len() as int) == p);
        assert(s =~= p + s.skip(p.len() as int));
    }
}

/// A text stands in another just if the other is made of it with something before and
/// something after it.
pub proof fn law_occurs(a: Seq<char>, p: Seq<char>, b: Seq<char>, s: Seq<char>)
    ensures
        occurs(a + p + b, p),
        occurs(s, p) ==> exists|i: int|
            0 <= i && i + p.len() <= s.len() && s == #[trigger] s.take(i) + p + s.skip(
                i + p.len(),
            ),
{
    let t = a + p + b;
    assert(t.subrange(a.len() as int, a.len() as int + p.len()) =~= p);
    assert(occurs_at(t, p, a.len() as int));
    if occurs(s, p) {
        let i = choose|i: int| #[trigger] occurs_at(s, p, i);
        assert(s =~= s.take(i) + s.subrange(i, i + p.len()) + s.skip(i + p.len()));
    }
}

/// Replacing changes every place where the character stands, and nothing else.
pub proof fn law_replace(s: Seq<char>, x: char, c: char, with: Seq<char>)
    ensures
        replaced(Seq::empty(), c, with) == Seq::<char>::empty(),
        x == c ==> replaced(s.push(x), c, with) == replaced(s, c, with) + with,
        x != c ==> replaced(s.push(x), c, with) == replaced(s, c, with).push(x),
{
    assert(s.push(x).drop_last() =~= s);
    assert(replaced(s, c, with) + seq![x] =~= replaced(s, c, with).push(x));
}

/// The word after a key is what follows the first word that is the key.
pub proof fn law_word_after(words: Seq<Seq<char>>, key: Seq<char>, k: int)
    requires
        0 <= k,
        k + 1 < words.len(),
        words[k] == key,
        forall|j: int| 0 <= j < k ==> #[trigger] words[j] != key,
    ensures
        word_after(words, key) == Some(words[k + 1]),
    decreases k,
{
    if k > 0 {
        assert(words[0] != key);
        assert forall|j: int| 0 <= j < k - 1 implies #[trigger] words.skip(1)[j] != key by {
            assert(words[j + 1] != key);
        }
        law_word_after(words.skip(1), key, k - 1);
    }
}

/// Two texts that differ in the case of ASCII letters at most count as the same.
pub proof fn law_same_letters(a: Seq<char>, b: Seq<char>)
    ensures
        a == b ==> same_letters(a, b),
        a.len() != b.len() ==> !same_letters(a, b),
        a.len() == b.len() && (forall|i: int|
            0 <= i < a.len() ==> {
                ||| #[trigger] a[i] == b[i]
                ||| 'A' <= a[i] <= 'Z' && b[i] as nat == a[i] as nat + 32
                ||| 'A' <= b[i] <= 'Z' && a[i] as nat == b[i] as nat + 32
            }) ==> same_letters(a, b),
        forall|i: int|
            0 <= i < a.len() && same_letters(a, b) ==> {
                ||| #[trigger] a[i] == b[i]
                ||| 'A' <= a[i] <= 'Z' && b[i] as nat == a[i] as nat + 32
                ||| 'A' <= b[i] <= 'Z' && a[i] as nat == b[i] as nat + 32
            },
{
    assert forall|i: int| 0 <= i < a.len() && same_letters(a, b) implies {
        ||| #[trigger] a[i] == b[i]
        ||| 'A' <= a[i] <= 'Z' && b[i] as nat == a[i] as nat + 32
        ||| 'A' <= b[i] <= 'Z' && a[i] as nat == b[i] as nat + 32
    } by {
        assert(small(a[i]) == small(b[i]));
    }
}

/// Blanks, tabs and line breaks are white space; letters, digits and signs are not.
pub proof fn law_white_space(c: char)
    ensures
        is_white(' '),
        is_white('\t'),
        is_white('\n'),
        is_white('\r'),
        0x21 <= c as u32 <= 0x7e ==> !is_white(c),
        is_white(c) ==> c as u32 <= 0x20 || c as u32 >= 0x85,
{
}

/// Trimming one end takes off all white space there, and nothing else.
pub proof fn law_trim_one_end(white: Seq<char>, t: Seq<char>)
    requires
        forall|i: int| 0 <= i < white.len() ==> is_white(#[trigger] white[i]),
    ensures
        t.len() == 0 || !is_white(t[0]) ==> trimmed_start(white + t) == t,
        t.len() == 0 || !is_white(t.last()) ==> trimmed_end(t + white) == t,
    decreases white.len(),
{
    if white.len() == 0 {
        assert(white + t =~= t);
        assert(t + white =~= t);
    } else {
        let rest = white.skip(1);
        assert((white + t)[0] == white[0]);
        assert((white + t).skip(1) =~= rest + t);
        assert forall|i: int| 0 <= i < rest.len() implies is_white(#[trigger] rest[i]) by {
            assert(rest[i] == white[i + 1]);
        }
        law_trim_one_end(rest, t);
        let init = white.drop_last();
        assert((t + white).last() == white[white.len() - 1]);
        assert((t + white).drop_last() =~= t + init);
        assert forall|i: int| 0 <= i < init.len() implies is_white(#[trigger] init[i]) by {
            assert(init[i] == white[i]);
        }
        law_trim_one_end(init, t);
    }
}

/// A number may have a plus sign before its digits. Nothing else may stand in it, and it
/// has one digit at least.
pub proof fn law_numbers(n: nat, max: nat, t: Seq<char>, i: int)
    ensures
        n <= max ==> number(seq!['+'] + decimal(n), max) == Some(n),
        n > max ==> number(seq!['+'] + decimal(n), max) is None,
        number(Seq::empty(), max) is None,
        number(seq!['+'], max) is None,
        0 < i < t.len() && !('0' <= t[i] <= '9') ==> number(t, max) is None,
        t.len() > 0 && t[0] != '+' && !('0' <= t[0] <= '9') ==> number(t, max) is None,
{
    law_decimal(n, max);
    let s = seq!['+'] + decimal(n);
    assert(s[0] == '+');
    assert(s.skip(1) =~= decimal(n));
    assert(digits_of(decimal(n)) == decimal(n)) by {
        assert('0' <= decimal(n)[0] <= '9');
    }
    assert(seq!['+'].skip(1) =~= Seq::<char>::empty());
    if 0 < i < t.len() && !('0' <= t[i] <= '9') {
        if t[0] == '+' {
            assert(digits_of(t)[i - 1] == t[i]);
        } else {
            assert(digits_of(t)[i] == t[i]);
        }
    }
    if t.len() > 0 && t[0] != '+' && !('0' <= t[0] <= '9') {
        assert(digits_of(t)[0] == t[0]);
    }
}

}
