//! A stateful parser for a line-framed server-sent-event stream.
//!
//! Chunks arrive with arbitrary boundaries.  The parser buffers a partial
//! line, collects the payloads of `data:` lines, and emits the join of the
//! collected payloads whenever a blank line ends an event.  Every other line
//! (event names, comments, ids) is ignored, and malformed input never fails:
//! it simply yields no events.

use vstd::prelude::*;
use vstd::string::*;

use crate::text::{buf_views, join_nl, str_chars, text_views};

verus! {

/// The parser state: a partial line and the pending `data:` payloads of the
/// current event.
pub struct SseSnap {
    pub line: Seq<char>,
    pub pending: Seq<Seq<char>>,
}

/// A line with one trailing carriage return stripped.
pub open spec fn chomp_cr(line: Seq<char>) -> Seq<char> {
    if line.len() > 0 && line.last() == '\r' {
        line.drop_last()
    } else {
        line
    }
}

/// The five characters that open a data line.
pub open spec fn data_tag() -> Seq<char> {
    seq!['d', 'a', 't', 'a', ':']
}

/// The payload of a data line: everything after `data:`, with one optional
/// leading space stripped.
pub open spec fn data_payload(line: Seq<char>) -> Seq<char> {
    let rest = line.skip(5);
    if rest.len() > 0 && rest[0] == ' ' {
        rest.drop_first()
    } else {
        rest
    }
}

/// What one completed raw line does to the state, and what it emits.
pub open spec fn sse_line_step(pending: Seq<Seq<char>>, raw: Seq<char>) -> (
    Seq<Seq<char>>,
    Seq<Seq<char>>,
) {
    let line = chomp_cr(raw);
    if line.len() == 0 {
        if pending.len() > 0 {
            (Seq::empty(), seq![join_nl(pending)])
        } else {
            (pending, Seq::empty())
        }
    } else if line.len() >= 5 && line.take(5) == data_tag() {
        (pending.push(data_payload(line)), Seq::empty())
    } else {
        (pending, Seq::empty())
    }
}

/// What one input character does to the state, and what it emits.
pub open spec fn sse_step(st: SseSnap, c: char) -> (SseSnap, Seq<Seq<char>>) {
    if c == '\n' {
        let (pending, events) = sse_line_step(st.pending, st.line);
        (SseSnap { line: Seq::empty(), pending }, events)
    } else {
        (SseSnap { line: st.line.push(c), pending: st.pending }, Seq::empty())
    }
}

/// What a whole input does to the state, and everything it emits, in order.
pub open spec fn sse_run(st: SseSnap, input: Seq<char>) -> (SseSnap, Seq<Seq<char>>)
    decreases input,
{
    if input.len() == 0 {
        (st, Seq::empty())
    } else {
        let (st1, evs) = sse_run(st, input.drop_last());
        let (st2, last_evs) = sse_step(st1, input.last());
        (st2, evs + last_evs)
    }
}

/// The state before any input.
pub open spec fn sse_init() -> SseSnap {
    SseSnap { line: Seq::empty(), pending: Seq::empty() }
}

/// Feeding input piecewise equals feeding it at once: the state agrees, and
/// the events of the whole are the events of the parts in order.  Splitting
/// into any number of chunks follows by applying this to one cut at a time.
pub proof fn lemma_sse_run_concat(st: SseSnap, a: Seq<char>, b: Seq<char>)
    ensures
        sse_run(st, a + b).0 == sse_run(sse_run(st, a).0, b).0,
        sse_run(st, a + b).1 == sse_run(st, a).1 + sse_run(sse_run(st, a).0, b).1,
    decreases b,
{
    if b.len() == 0 {
        assert(a + b =~= a);
        assert(sse_run(st, a).1 + sse_run(sse_run(st, a).0, b).1 =~= sse_run(st, a).1);
    } else {
        lemma_sse_run_concat(st, a, b.drop_last());
        assert((a + b).drop_last() =~= a + b.drop_last());
        assert((a + b).last() == b.last());
        assert(sse_run(st, a + b).1 =~= sse_run(st, a).1 + sse_run(sse_run(st, a).0, b).1);
    }
}

/// The concatenation of a list of chunks.
pub open spec fn concat_chunks(chunks: Seq<Seq<char>>) -> Seq<char>
    decreases chunks,
{
    if chunks.len() == 0 {
        Seq::empty()
    } else {
        concat_chunks(chunks.drop_last()) + chunks.last()
    }
}

/// What feeding a list of chunks one after another does: the state and
/// events of each run, chained, with all events in order.
pub open spec fn sse_run_all(st: SseSnap, chunks: Seq<Seq<char>>) -> (SseSnap, Seq<Seq<char>>)
    decreases chunks,
{
    if chunks.len() == 0 {
        (st, Seq::empty())
    } else {
        let first = sse_run_all(st, chunks.drop_last());
        let last = sse_run(first.0, chunks.last());
        (last.0, first.1 + last.1)
    }
}

/// Feeding any number of chunks equals feeding their concatenation at
/// once: the parser state agrees, and the events come out identical and in
/// the same order.  Since what `finish` returns is a function of the state
/// alone, it agrees too.
pub proof fn lemma_sse_run_split(st: SseSnap, chunks: Seq<Seq<char>>)
    ensures
        sse_run_all(st, chunks).0 == sse_run(st, concat_chunks(chunks)).0,
        sse_run_all(st, chunks).1 == sse_run(st, concat_chunks(chunks)).1,
    decreases chunks,
{
    if chunks.len() == 0 {
        assert(concat_chunks(chunks) =~= Seq::<char>::empty());
    } else {
        lemma_sse_run_split(st, chunks.drop_last());
        lemma_sse_run_concat(st, concat_chunks(chunks.drop_last()), chunks.last());
    }
}

/// The incremental SSE parser.
pub struct SseParser {
    line: Vec<char>,
    pending: Vec<Vec<char>>,
}

impl View for SseParser {
    type V = SseSnap;

    closed spec fn view(&self) -> SseSnap {
        SseSnap { line: self.line@, pending: buf_views(self.pending@) }
    }
}

impl SseParser {
    /// A parser with nothing buffered.
    pub fn new() -> (r: SseParser)
        ensures
            r@ == sse_init(),
    {
        SseParser { line: Vec::new(), pending: Vec::new() }
    }

    /// Feed one chunk; the completed event payloads come back in order.
    pub fn feed(&mut self, chunk: &str) -> (events: Vec<String>)
        ensures
            final(self)@ == sse_run(old(self)@, chunk@).0,
            text_views(events@) == sse_run(old(self)@, chunk@).1,
    {
        let cs = str_chars(chunk);
        let mut events: Vec<String> = Vec::new();
        let n = cs.len();
        let mut i: usize = 0;
        while i < n
            invariant
                0 <= i <= n,
                n == cs@.len(),
                cs@ == chunk@,
                self@ == sse_run(old(self)@, chunk@.take(i as int)).0,
                text_views(events@) == sse_run(old(self)@, chunk@.take(i as int)).1,
            decreases n - i,
        {
            let ghost st_before = self@;
            let ghost evs_before = text_views(events@);
            let c = cs[i];
            if c == '\n' {
                let blank = self.line.len() == 0 || (self.line.len() == 1 && self.line[0]
                    == '\r');
                proof {
                    assert(blank == (chomp_cr(st_before.line).len() == 0));
                }
                if blank {
                    if self.pending.len() > 0 {
                        let payload = crate::text::join_bufs(&self.pending);
                        let ghost evs_vec = events@;
                        events.push(payload);
                        self.pending = Vec::new();
                        proof {
                            assert(events@.drop_last() =~= evs_vec);
                            assert(events@.last() == payload);
                            assert(text_views(events@) == text_views(evs_vec).push(payload@));
                        }
                    }
                } else {
                    let is_data = self.data_line();
                    if is_data {
                        let payload = self.data_body();
                        let ghost pend_vec = self.pending@;
                        self.pending.push(payload);
                        proof {
                            assert(self.pending@.drop_last() =~= pend_vec);
                            assert(self.pending@.last() == payload);
                            assert(buf_views(self.pending@) == buf_views(pend_vec).push(
                                payload@,
                            ));
                        }
                    }
                }
                self.line = Vec::new();
            } else {
                self.line.push(c);
            }
            proof {
                assert(chunk@.take(i + 1 as int).drop_last() =~= chunk@.take(i as int));
                assert(chunk@.take(i + 1 as int).last() == chunk@[i as int]);
            }
            i = i + 1;
        }
        proof {
            assert(chunk@.take(n as int) =~= chunk@);
        }
        events
    }

    /// Whether the buffered line is a data line.
    fn data_line(&self) -> (r: bool)
        ensures
            r == {
                let line = chomp_cr(self@.line);
                line.len() >= 5 && line.take(5) == data_tag()
            },
    {
        let line = &self.line;
        let mut n = line.len();
        if n > 0 && line[n - 1] == '\r' {
            n = n - 1;
        }
        proof {
            assert(chomp_cr(self@.line).len() == n);
            assert(forall|j: int| 0 <= j < n ==> chomp_cr(self@.line)[j] == self@.line[j]);
        }
        if n < 5 {
            return false;
        }
        let r = line[0] == 'd' && line[1] == 'a' && line[2] == 't' && line[3] == 'a' && line[4]
            == ':';
        proof {
            let ch = chomp_cr(self@.line);
            if r {
                assert(ch.take(5) =~= data_tag());
            } else {
                assert(ch.take(5) != data_tag()) by {
                    if ch.take(5) == data_tag() {
                        assert(ch.take(5)[0] == 'd' && ch.take(5)[1] == 'a' && ch.take(5)[2]
                            == 't' && ch.take(5)[3] == 'a' && ch.take(5)[4] == ':');
                    }
                }
            }
        }
        r
    }

    /// The payload of the buffered data line.
    fn data_body(&self) -> (r: Vec<char>)
        requires
            ({
                let line = chomp_cr(self@.line);
                line.len() >= 5 && line.take(5) == data_tag()
            }),
        ensures
            r@ == data_payload(chomp_cr(self@.line)),
    {
        let line = &self.line;
        let mut n = line.len();
        if n > 0 && line[n - 1] == '\r' {
            n = n - 1;
        }
        proof {
            assert(chomp_cr(self@.line).len() == n);
            assert(forall|j: int| 0 <= j < n ==> chomp_cr(self@.line)[j] == self@.line[j]);
        }
        let mut start: usize = 5;
        if n > 5 && line[5] == ' ' {
            start = 6;
        }
        let mut out: Vec<char> = Vec::new();
        let mut k: usize = start;
        while k < n
            invariant
                start <= k <= n,
                n <= line@.len(),
                forall|j: int| 0 <= j < n ==> chomp_cr(self@.line)[j] == self@.line[j],
                chomp_cr(self@.line).len() == n,
                self.line == line,
                out@ =~= chomp_cr(self@.line).subrange(start as int, k as int),
            decreases n - k,
        {
            out.push(line[k]);
            proof {
                assert(chomp_cr(self@.line).subrange(start as int, k + 1 as int) =~= chomp_cr(
                    self@.line,
                ).subrange(start as int, k as int).push(chomp_cr(self@.line)[k as int]));
            }
            k = k + 1;
        }
        proof {
            let ch = chomp_cr(self@.line);
            let rest = ch.skip(5);
            if rest.len() > 0 && rest[0] == ' ' {
                assert(out@ =~= rest.drop_first());
            } else {
                assert(out@ =~= rest);
            }
        }
        out
    }

    /// The pending payloads at end of stream, if any: what `finish` returns.
    pub fn finish(&mut self) -> (r: Option<String>)
        ensures
            final(self)@ == old(self)@,
            match r {
                Some(s) => old(self)@.pending.len() > 0 && s@ == join_nl(old(self)@.pending),
                None => old(self)@.pending.len() == 0,
            },
    {
        if self.pending.len() == 0 {
            None
        } else {
            Some(crate::text::join_bufs(&self.pending))
        }
    }
}

} // verus!
