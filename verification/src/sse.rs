//! Server-sent-event framing shared by every streaming path: bytes arrive in
//! arbitrary chunks, events end with a blank line (`\n\n`), and each `data:`
//! line of a complete event carries one payload.

use vstd::prelude::*;
use vstd::utf8::{decode_utf8, valid_utf8};
use crate::text::{
    first_non_ws_from, is_ws_char, starts_with, string_of_range, trim, trim_bounds, trim_start,
    views,
};

verus! {

/// Position of the first `\n` at or after `i` (or -1).
pub open spec fn first_nl_from(s: Seq<char>, i: int) -> int
    decreases s.len() - i,
{
    if i < 0 || i >= s.len() {
        -1
    } else if s[i] == '\n' {
        i
    } else {
        first_nl_from(s, i + 1)
    }
}

/// Position of the first blank line (`\n\n`) at or after `i` (or -1).
pub open spec fn first_blank_from(s: Seq<char>, i: int) -> int
    decreases s.len() - i,
{
    if i < 0 || i + 1 >= s.len() {
        -1
    } else if s[i] == '\n' && s[i + 1] == '\n' {
        i
    } else {
        first_blank_from(s, i + 1)
    }
}

/// A line without the `\r` of a `\r\n` ending.
pub open spec fn strip_cr(l: Seq<char>) -> Seq<char> {
    if l.len() > 0 && l.last() == '\r' {
        l.drop_last()
    } else {
        l
    }
}

/// The payload of a `data:` line (leading whitespace allowed before `data:`,
/// the value trimmed), if the line is one and the payload is not empty.
pub open spec fn data_list(line: Seq<char>) -> Seq<Seq<char>> {
    let t = trim_start(line);
    if starts_with(t, "data:"@) && trim(t.skip(5)).len() > 0 {
        seq![trim(t.skip(5))]
    } else {
        Seq::empty()
    }
}

/// Payloads of the `data:` lines of `s`, split as `str::lines` splits.
pub open spec fn payloads(s: Seq<char>) -> Seq<Seq<char>>
    decreases s.len(),
{
    let k = first_nl_from(s, 0);
    if k < 0 || k >= s.len() {
        if s.len() == 0 {
            Seq::empty()
        } else {
            data_list(s)
        }
    } else {
        data_list(strip_cr(s.take(k))) + payloads(s.skip(k + 1))
    }
}

/// Splits off every complete event of `s`: the payloads of those events, in
/// order, and what is left over (an incomplete event).
pub open spec fn drain(s: Seq<char>) -> (Seq<Seq<char>>, Seq<char>)
    decreases s.len(),
{
    let k = first_blank_from(s, 0);
    if k < 0 || k + 2 > s.len() {
        (Seq::empty(), s)
    } else {
        let rest = drain(s.skip(k + 2));
        (payloads(s.take(k + 2)) + rest.0, rest.1)
    }
}

/// Accumulates a stream's text and hands out the payloads of complete events.
pub struct SseBuffer {
    buf: Vec<char>,
}

impl View for SseBuffer {
    type V = Seq<char>;

    closed spec fn view(&self) -> Seq<char> {
        self.buf@
    }
}

/// `std::str::from_utf8`: the text the bytes encode, if they are valid UTF-8.
#[verifier::external_body]
fn utf8_text(bytes: &[u8]) -> (r: Option<String>)
    ensures
        r is Some <==> valid_utf8(bytes@),
        r matches Some(s) ==> s@ == decode_utf8(bytes@),
{
    std::str::from_utf8(bytes).ok().map(|s| s.to_string())
}

proof fn lemma_first_nl(s: Seq<char>, i: int)
    requires
        0 <= i <= s.len(),
    ensures
        first_nl_from(s, i) == -1 || (i <= first_nl_from(s, i) < s.len() && s[first_nl_from(
            s,
            i,
        )] == '\n'),
    decreases s.len() - i,
{
    if i < s.len() && s[i] != '\n' {
        lemma_first_nl(s, i + 1);
    }
}

proof fn lemma_first_blank(s: Seq<char>, i: int)
    requires
        0 <= i <= s.len(),
    ensures
        first_blank_from(s, i) == -1 || (i <= first_blank_from(s, i) && first_blank_from(s, i)
            + 1 < s.len()),
    decreases s.len() - i,
{
    if i + 1 < s.len() && !(s[i] == '\n' && s[i + 1] == '\n') {
        lemma_first_blank(s, i + 1);
    }
}

proof fn lemma_first_nl_shift(s: Seq<char>, p: int, j: int)
    requires
        0 <= p <= j <= s.len(),
    ensures
        first_nl_from(s.skip(p), j - p) == if first_nl_from(s, j) < 0 {
            -1
        } else {
            first_nl_from(s, j) - p
        },
    decreases s.len() - j,
{
    if j < s.len() && s[j] != '\n' {
        lemma_first_nl_shift(s, p, j + 1);
    }
}

proof fn lemma_first_blank_shift(s: Seq<char>, p: int, j: int)
    requires
        0 <= p <= j <= s.len(),
    ensures
        first_blank_from(s.skip(p), j - p) == if first_blank_from(s, j) < 0 {
            -1
        } else {
            first_blank_from(s, j) - p
        },
    decreases s.len() - j,
{
    if j + 1 < s.len() && !(s[j] == '\n' && s[j + 1] == '\n') {
        lemma_first_blank_shift(s, p, j + 1);
    }
}

/// The payload of one line, if it is a non-empty `data:` line.
fn line_data(line: &Vec<char>) -> (r: Option<String>)
    ensures
        match r {
            Some(d) => data_list(line@) == seq![d@],
            None => data_list(line@).len() == 0,
        },
{
    let mut a: usize = 0;
    while a < line.len() && is_ws_char(line[a])
        invariant
            a <= line.len(),
            first_non_ws_from(line@, 0) == first_non_ws_from(line@, a as int),
        decreases line.len() - a,
    {
        a += 1;
    }
    let ghost t = trim_start(line@);
    assert(t =~= line@.skip(a as int));
    proof {
        reveal_strlit("data:");
    }
    if line.len() - a >= 5 && line[a] == 'd' && line[a + 1] == 'a' && line[a + 2] == 't' && line[a
        + 3] == 'a' && line[a + 4] == ':' {
        assert(t.take(5) =~= "data:"@);
        let rest: Vec<char> = slice_vec(line, a + 5, line.len());
        assert(rest@ =~= t.skip(5));
        let (x, y) = trim_bounds(&rest);
        if x == y {
            None
        } else {
            Some(string_of_range(&rest, x, y))
        }
    } else {
        proof {
            if starts_with(t, "data:"@) {
                assert(t.take(5)[0] == 'd');
                assert(t.take(5)[1] == 'a');
                assert(t.take(5)[2] == 't');
                assert(t.take(5)[3] == 'a');
                assert(t.take(5)[4] == ':');
            }
        }
        None
    }
}

/// A copy of `v[from..to]`.
fn slice_vec(v: &Vec<char>, from: usize, to: usize) -> (r: Vec<char>)
    requires
        from <= to <= v.len(),
    ensures
        r@ == v@.subrange(from as int, to as int),
{
    let mut r: Vec<char> = Vec::new();
    let mut i = from;
    while i < to
        invariant
            from <= i <= to <= v.len(),
            r@ == v@.subrange(from as int, i as int),
        decreases to - i,
    {
        r.push(v[i]);
        assert(v@.subrange(from as int, i + 1) == v@.subrange(from as int, i as int).push(
            v@[i as int],
        ));
        i += 1;
    }
    r
}

/// Payloads of the `data:` lines of `ev`, appended to `out`.
fn push_payloads(ev: &Vec<char>, out: &mut Vec<String>)
    ensures
        views(final(out)@) == views(old(out)@) + payloads(ev@),
{
    let mut pos: usize = 0;
    let ghost start = views(out@);
    assert(ev@.skip(0) =~= ev@);
    assert(views(out@).skip(start.len() as int) =~= Seq::<Seq<char>>::empty());
    assert(views(out@).take(start.len() as int) =~= start);
    loop
        invariant_except_break
            pos <= ev.len(),
            payloads(ev@) == (views(out@).skip(start.len() as int) + payloads(
                ev@.skip(pos as int),
            )),
        invariant
            views(out@).take(start.len() as int) == start,
            views(out@).len() >= start.len(),
        ensures
            payloads(ev@) == views(out@).skip(start.len() as int),
        decreases ev.len() - pos,
    {
        let ghost t = ev@.skip(pos as int);
        let mut k: usize = pos;
        while k < ev.len() && ev[k] != '\n'
            invariant
                pos <= k <= ev.len(),
                t == ev@.skip(pos as int),
                first_nl_from(t, 0) == first_nl_from(t, k - pos),
            decreases ev.len() - k,
        {
            k += 1;
        }
        proof {
            lemma_first_nl(t, 0);
        }
        let ghost before = views(out@);
        if k >= ev.len() {
            assert(first_nl_from(t, k - pos) == -1);
            if pos < ev.len() {
                let line = slice_vec(ev, pos, ev.len());
                assert(line@ =~= t);
                match line_data(&line) {
                    Some(d) => {
                        out.push(d);
                        assert(views(out@) =~= before.push(d@));
                    },
                    None => {},
                }
            }
            assert(views(out@).skip(start.len() as int) =~= before.skip(start.len() as int)
                + payloads(t));
            assert(views(out@).take(start.len() as int) =~= start);
            assert(payloads(ev@) =~= views(out@).skip(start.len() as int));
            break;
        }
        assert(first_nl_from(t, 0) == k - pos);
        let end = if k > pos && ev[k - 1] == '\r' {
            k - 1
        } else {
            k
        };
        let line = slice_vec(ev, pos, end);
        assert(line@ =~= strip_cr(t.take(k - pos)));
        match line_data(&line) {
            Some(d) => {
                out.push(d);
                assert(views(out@) =~= before.push(d@));
            },
            None => {},
        }
        assert(t.skip(k - pos + 1) =~= ev@.skip(k + 1));
        assert(views(out@).skip(start.len() as int) =~= before.skip(start.len() as int)
            + data_list(strip_cr(t.take(k - pos))));
        assert(views(out@).take(start.len() as int) =~= start);
        pos = k + 1;
    }
    assert(views(out@) =~= start + views(out@).skip(start.len() as int));
}

impl SseBuffer {
    /// An empty buffer.
    pub fn new() -> (b: Self)
        ensures
            b@ == Seq::<char>::empty(),
    {
        SseBuffer { buf: Vec::new() }
    }

    /// Adds a chunk of text and returns the payloads of the events it completes.
    pub fn push_str(&mut self, chunk: &str) -> (out: Vec<String>)
        ensures
            views(out@) == drain(old(self)@ + chunk@).0,
            final(self)@ == drain(old(self)@ + chunk@).1,
    {
        let ghost all = self.buf@ + chunk@;
        for c in it: chunk.chars()
            invariant
                self.buf@ == old(self)@ + it.seq().take(it.index() as int),
        {
            self.buf.push(c);
        }
        assert(self.buf@ =~= all);
        let mut out: Vec<String> = Vec::new();
        let mut start: usize = 0;
        assert(all.skip(0) =~= all);
        assert(views(out@) + drain(all).0 =~= drain(all).0);
        loop
            invariant
                start <= self.buf.len(),
                self.buf@ == all,
                all == old(self)@ + chunk@,
                drain(all) == (views(out@) + drain(all.skip(start as int)).0, drain(
                    all.skip(start as int),
                ).1),
            decreases self.buf.len() - start,
        {
            let ghost t = all.skip(start as int);
            let mut j: usize = start;
            while self.buf.len() - j > 1 && !(self.buf[j] == '\n' && self.buf[j + 1] == '\n')
                invariant
                    start <= j,
                    j <= self.buf.len(),
                    self.buf@ == all,
                    t == all.skip(start as int),
                    first_blank_from(t, 0) == first_blank_from(t, j - start),
                decreases self.buf.len() - j,
            {
                j += 1;
            }
            proof {
                lemma_first_blank(t, 0);
            }
            if self.buf.len() - j <= 1 {
                assert(first_blank_from(t, j - start) == -1);
                let rest = slice_vec(&self.buf, start, self.buf.len());
                assert(rest@ =~= t);
                self.buf = rest;
                assert(drain(t) == (Seq::<Seq<char>>::empty(), t));
                assert(views(out@) + Seq::<Seq<char>>::empty() =~= views(out@));
                return out;
            }
            assert(first_blank_from(t, 0) == j - start);
            let ev = slice_vec(&self.buf, start, j + 2);
            assert(ev@ =~= t.take(j - start + 2));
            let ghost before = views(out@);
            push_payloads(&ev, &mut out);
            assert(t.skip(j - start + 2) =~= all.skip(j + 2));
            assert(drain(t) == (payloads(t.take(j - start + 2)) + drain(all.skip(j + 2)).0, drain(
                all.skip(j + 2),
            ).1));
            assert(views(out@) + drain(all.skip(j + 2)).0 =~= before + drain(t).0);
            start = j + 2;
        }
    }

    /// Adds a chunk of bytes; chunks that are not valid UTF-8 are ignored.
    pub fn push_bytes(&mut self, chunk: &[u8]) -> (out: Vec<String>)
        ensures
            valid_utf8(chunk@) ==> views(out@) == drain(old(self)@ + decode_utf8(chunk@)).0
                && final(self)@ == drain(old(self)@ + decode_utf8(chunk@)).1,
            !valid_utf8(chunk@) ==> out@.len() == 0 && final(self)@ == old(self)@,
    {
        match utf8_text(chunk) {
            Some(s) => self.push_str(s.as_str()),
            None => Vec::new(),
        }
    }
}


proof fn lemma_blank_prefix(s: Seq<char>, x: Seq<char>, i: int)
    requires
        0 <= i <= s.len(),
        first_blank_from(s, i) >= 0,
    ensures
        first_blank_from(s + x, i) == first_blank_from(s, i),
    decreases s.len() - i,
{
    lemma_first_blank(s, i);
    if !(s[i] == '\n' && s[i + 1] == '\n') {
        lemma_blank_prefix(s, x, i + 1);
    }
    assert((s + x)[i] == s[i]);
    assert((s + x)[i + 1] == s[i + 1]);
}

/// Chunk boundaries do not matter: feeding `s` and then `x` yields the same
/// payloads, in the same order, and the same leftover as feeding `s + x` at once.
pub proof fn law_drain_chunking(s: Seq<char>, x: Seq<char>)
    ensures
        drain(s + x) == (drain(s).0 + drain(drain(s).1 + x).0, drain(drain(s).1 + x).1),
    decreases s.len(),
{
    let k = first_blank_from(s, 0);
    lemma_first_blank(s, 0);
    if k < 0 {
        assert(drain(s) == (Seq::<Seq<char>>::empty(), s));
        assert(Seq::<Seq<char>>::empty() + drain(s + x).0 =~= drain(s + x).0);
    } else {
        lemma_blank_prefix(s, x, 0);
        lemma_first_blank(s + x, 0);
        let t = s.skip(k + 2);
        assert((s + x).take(k + 2) =~= s.take(k + 2));
        assert((s + x).skip(k + 2) =~= t + x);
        law_drain_chunking(t, x);
        assert(drain(s + x) == (payloads(s.take(k + 2)) + drain(t + x).0, drain(t + x).1));
        assert(drain(s) == (payloads(s.take(k + 2)) + drain(t).0, drain(t).1));
        assert(payloads(s.take(k + 2)) + (drain(t).0 + drain(drain(t).1 + x).0) =~= (payloads(
            s.take(k + 2),
        ) + drain(t).0) + drain(drain(t).1 + x).0);
    }
}

} // verus!
