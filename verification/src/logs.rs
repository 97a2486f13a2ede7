//! The log lines that a front-end shows: the latest ones, up to a limit.

use std::collections::VecDeque;
use vstd::prelude::*;
use vstd::string::*;

use crate::text::{lossy, lossy_text, parts, split, texts, trim_end, trimmed_end};

verus! {

/// How many lines are kept.
pub const LOG_CAP: usize = 2000;

/// The log lines, oldest first.
pub struct LogRing {
    lines: VecDeque<String>,
}

/// The lines among some pieces of text: without white space at their ends, and
/// without those that are then empty.
pub open spec fn log_lines(pieces: Seq<Seq<char>>) -> Seq<Seq<char>>
    decreases pieces.len(),
{
    if pieces.len() == 0 {
        Seq::empty()
    } else {
        let before = log_lines(pieces.drop_last());
        let line = trimmed_end(pieces.last());
        if line.len() == 0 {
            before
        } else {
            before.push(line)
        }
    }
}

/// The last [`LOG_CAP`] of some lines.
pub open spec fn latest(s: Seq<Seq<char>>) -> Seq<Seq<char>> {
    if s.len() > LOG_CAP {
        s.skip(s.len() - LOG_CAP)
    } else {
        s
    }
}

impl LogRing {
    /// The lines, oldest first.
    pub closed spec fn view(&self) -> Seq<Seq<char>> {
        texts(self.lines@)
    }

    /// No more lines are kept than the limit says.
    pub open spec fn wf(&self) -> bool {
        self@.len() <= LOG_CAP
    }

    /// No lines yet.
    pub fn new() -> (r: LogRing)
        ensures
            r.wf(),
            r@ == Seq::<Seq<char>>::empty(),
    {
        let r = LogRing { lines: VecDeque::new() };
        assert(r@ =~= Seq::<Seq<char>>::empty());
        r
    }

    fn push(&mut self, line: String)
        requires
            old(self).wf(),
        ensures
            final(self).wf(),
            final(self)@ == latest(old(self)@.push(line@)),
    {
        broadcast use vstd::std_specs::vecdeque::group_vec_dequeue_axioms;

        let ghost before = self.lines@;
        if self.lines.len() >= LOG_CAP {
            let _ = self.lines.pop_front();
            assert(self.lines@ =~= before.skip(1));
        }
        self.lines.push_back(line);
        assert(self@ =~= latest(texts(before).push(line@)));
    }

    /// Takes up what one event wrote: each line of it, the oldest lines making
    /// room.
    pub fn write(&mut self, bytes: &[u8])
        requires
            old(self).wf(),
        ensures
            final(self).wf(),
            final(self)@ == latest(old(self)@ + log_lines(parts(lossy_text(bytes@), '\n'))),
    {
        let text = lossy(bytes);
        self.write_text(text.as_str());
    }

    /// Takes up a text: each line of it, the oldest lines making room.
    pub fn write_text(&mut self, text: &str)
        requires
            old(self).wf(),
        ensures
            final(self).wf(),
            final(self)@ == latest(old(self)@ + log_lines(parts(text@, '\n'))),
    {
        let pieces = split(text, '\n');
        let n: usize = pieces.len();
        let ghost all = texts(pieces@);
        assert(all.take(0) =~= Seq::<Seq<char>>::empty());
        assert(self@ + log_lines(all.take(0)) =~= self@);
        for i in 0..n
            invariant
                n == pieces@.len(),
                all == texts(pieces@),
                self.wf(),
                self@ == latest(old(self)@ + log_lines(all.take(i as int))),
        {
            assert(all.take(i + 1).drop_last() =~= all.take(i as int));
            assert(all.take(i + 1).last() == pieces@[i as int]@);
            let ghost so_far = old(self)@ + log_lines(all.take(i as int));
            let line = trim_end(pieces[i].as_str());
            if line.as_str().unicode_len() > 0 {
                let ghost l = line@;
                self.push(line);
                assert(latest(latest(so_far).push(l)) =~= latest(so_far.push(l)));
                assert(so_far.push(l) =~= old(self)@ + log_lines(all.take(i + 1)));
            }
        }
        assert(all.take(n as int) =~= all);
    }

    /// The lines, oldest first.
    pub fn get_logs(&self) -> (r: Vec<String>)
        ensures
            texts(r@) == self@,
    {
        broadcast use vstd::std_specs::vecdeque::group_vec_dequeue_axioms;

        let n: usize = self.lines.len();
        let mut r: Vec<String> = Vec::new();
        for i in 0..n
            invariant
                n == self.lines@.len(),
                r@ == self.lines@.take(i as int),
        {
            r.push(self.lines[i].clone());
            assert(r@ =~= self.lines@.take(i + 1));
        }
        assert(r@ =~= self.lines@);
        r
    }

    /// The lines in one text, one below the other.
    pub fn logs_text(&self) -> (r: String)
        ensures
            r@ == stacked(self@),
    {
        let lines = self.get_logs();
        let n: usize = lines.len();
        let ghost all = texts(lines@);
        let mut r = String::new();
        assert(all.take(0) =~= Seq::<Seq<char>>::empty());
        assert(r@ =~= stacked(all.take(0)));
        for i in 0..n
            invariant
                n == lines@.len(),
                all == texts(lines@),
                r@ == stacked(all.take(i as int)),
        {
            assert(all.take(i + 1).drop_last() =~= all.take(i as int));
            assert(all.take(i + 1).last() == lines@[i as int]@);
            if i == 0 {
                r = lines[i].clone();
            } else {
                r = r.concat("\n").concat(lines[i].as_str());
            }
        }
        assert(all.take(n as int) =~= all);
        r
    }
}

/// Lines one below the other.
pub open spec fn stacked(s: Seq<Seq<char>>) -> Seq<char>
    decreases s.len(),
{
    if s.len() == 0 {
        Seq::empty()
    } else if s.len() == 1 {
        s[0]
    } else {
        stacked(s.drop_last()) + "\n"@ + s.last()
    }
}

/// However much is written, the lines that are kept are the last ones of all that
/// was written.
pub proof fn law_logs_keep_the_latest(a: Seq<Seq<char>>, b: Seq<Seq<char>>, c: Seq<Seq<char>>)
    ensures
        latest(latest(a + b) + c) == latest(a + b + c),
        latest(a).len() <= LOG_CAP,
{
    assert(latest(latest(a + b) + c) =~= latest(a + b + c));
}

/// The lines of some text are logged in their order, without white space at their ends;
/// empty ones are passed over.
pub proof fn law_logged_lines(a: Seq<Seq<char>>, b: Seq<Seq<char>>, p: Seq<char>)
    ensures
        log_lines(a + b) == log_lines(a) + log_lines(b),
        log_lines(Seq::empty()).len() == 0,
        trimmed_end(p).len() > 0 ==> log_lines(seq![p]) == seq![trimmed_end(p)],
        trimmed_end(p).len() == 0 ==> log_lines(seq![p]).len() == 0,
    decreases b.len(),
{
    assert(seq![p].drop_last() =~= Seq::<Seq<char>>::empty());
    assert(log_lines(seq![p].drop_last()) =~= Seq::<Seq<char>>::empty());
    if b.len() == 0 {
        assert(a + b =~= a);
        assert(log_lines(a) + log_lines(b) =~= log_lines(a));
    } else {
        assert((a + b).drop_last() =~= a + b.drop_last());
        assert((a + b).last() == b.last());
        law_logged_lines(a, b.drop_last(), p);
        assert(log_lines(a + b) =~= log_lines(a) + log_lines(b));
    }
}

/// The log keeps the 2000 newest lines.
pub proof fn law_log_cap(s: Seq<Seq<char>>)
    ensures
        s.len() <= 2000 ==> latest(s) == s,
        s.len() > 2000 ==> latest(s) == s.subrange(s.len() - 2000, s.len() as int),
{
    if s.len() > 2000 {
        assert(s.skip(s.len() - 2000) =~= s.subrange(s.len() - 2000, s.len() as int));
    }
}

/// The log as a text has its lines in their order, a line break between them.
pub proof fn law_log_text(s: Seq<Seq<char>>, line: Seq<char>)
    ensures
        stacked(Seq::empty()).len() == 0,
        stacked(seq![line]) == line,
        s.len() > 0 ==> stacked(s.push(line)) == stacked(s) + seq!['\n'] + line,
{
    reveal_strlit("\n");
    assert("\n"@ =~= seq!['\n']);
    assert(s.push(line).drop_last() =~= s);
}

}
