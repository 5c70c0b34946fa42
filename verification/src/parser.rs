//! Incremental decoder for newline-delimited JSON output.
//!
//! The child process writes one JSON document per line, but the bytes
//! arrive in arbitrary chunks: a chunk may hold several lines, a fraction
//! of one, or even a fraction of one character. The parser buffers bytes
//! until a terminator arrives, then decodes each completed line with
//! [`crate::decode`]; blank lines are skipped and lines of invalid JSON
//! are dropped, so one bad line never desynchronizes the stream.
//!
//! The stream's meaning is defined byte by byte by [`run_msgs`] and
//! [`run_rest`]: what messages a byte sequence produces, and what residue
//! it leaves for the next chunk. The laws at the end of the module show
//! that decoding is invariant under re-chunking and that bad lines are
//! dropped in isolation.

use vstd::prelude::*;
use crate::decode::MessageModel;
use crate::decode::StreamMessage;
use crate::decode::decode_line;
use crate::decode::line_decode;
use vstd::slice::slice_subrange;
use vstd::slice::slice_to_vec;
use vstd::utf8::valid_utf8;

verus! {

/// ASCII whitespace as line trimming understands it.
pub open spec fn is_space(b: u8) -> bool {
    b == 32 || (9 <= b && b <= 13)
}

pub open spec fn lead_ws(s: Seq<u8>) -> int
    decreases s.len(),
{
    if s.len() > 0 && is_space(s[0]) {
        1 + lead_ws(s.drop_first())
    } else {
        0
    }
}

pub open spec fn tail_ws(s: Seq<u8>) -> int
    decreases s.len(),
{
    if s.len() > 0 && is_space(s.last()) {
        1 + tail_ws(s.drop_last())
    } else {
        0
    }
}

/// `s` without leading and trailing ASCII whitespace.
pub open spec fn trimmed(s: Seq<u8>) -> Seq<u8> {
    if lead_ws(s) == s.len() {
        Seq::empty()
    } else {
        s.subrange(lead_ws(s), s.len() - tail_ws(s))
    }
}

/// The messages one completed line produces: none when blank or invalid,
/// one otherwise.
pub open spec fn line_msgs(line: Seq<u8>) -> Seq<MessageModel> {
    let t = trimmed(line);
    if t.len() == 0 {
        seq![]
    } else {
        match line_decode(t) {
            Some(m) => seq![m],
            None => seq![],
        }
    }
}

/// The messages produced by consuming `rest` byte by byte, with `pending`
/// already buffered for the current line.
pub open spec fn run_msgs(pending: Seq<u8>, rest: Seq<u8>) -> Seq<MessageModel>
    decreases rest.len(),
{
    if rest.len() == 0 {
        seq![]
    } else if rest[0] == 10 {
        line_msgs(pending) + run_msgs(Seq::empty(), rest.drop_first())
    } else {
        run_msgs(pending.push(rest[0]), rest.drop_first())
    }
}

/// The bytes left buffered after consuming `rest`, with `pending` already
/// buffered.
pub open spec fn run_rest(pending: Seq<u8>, rest: Seq<u8>) -> Seq<u8>
    decreases rest.len(),
{
    if rest.len() == 0 {
        pending
    } else if rest[0] == 10 {
        run_rest(Seq::empty(), rest.drop_first())
    } else {
        run_rest(pending.push(rest[0]), rest.drop_first())
    }
}

/// What end-of-stream flushing yields for a buffered residue.
pub open spec fn flush_model(b: Seq<u8>) -> Option<MessageModel> {
    if trimmed(b).len() == 0 {
        None
    } else {
        line_decode(trimmed(b))
    }
}

/// A parser for newline-delimited JSON that tolerates partial lines.
///
/// Its abstract state is the buffered residue of the current, not yet
/// terminated line.
pub struct StreamJsonParser {
    buffer: Vec<u8>,
}

impl View for StreamJsonParser {
    type V = Seq<u8>;

    closed spec fn view(&self) -> Seq<u8> {
        self.buffer@
    }
}

impl StreamJsonParser {
    /// The residue never holds a terminator.
    pub open spec fn wf(&self) -> bool {
        forall|i: int| 0 <= i < self@.len() ==> self@[i] != 10
    }

    /// Create a new parser instance.
    pub fn new() -> (r: Self)
        ensures
            r@ == Seq::<u8>::empty(),
            r.wf(),
    {
        StreamJsonParser { buffer: Vec::new() }
    }

    /// Parse a chunk of bytes, returning the messages of every line the
    /// chunk completes, in order.
    ///
    /// A chunk that is not valid text on its own is dropped whole, since a
    /// split multi-byte character cannot be told from corruption until
    /// later bytes arrive.
    #[verifier::loop_isolation(false)]
    pub fn parse_chunk(&mut self, chunk: &[u8]) -> (msgs: Vec<StreamMessage>)
        requires
            old(self).wf(),
        ensures
            final(self).wf(),
            valid_utf8(chunk@) ==> msgs.deep_view() == run_msgs(old(self)@, chunk@)
                && final(self)@ == run_rest(old(self)@, chunk@),
            !valid_utf8(chunk@) ==> msgs.deep_view() == Seq::<MessageModel>::empty()
                && final(self)@ == old(self)@,
    {
        let mut msgs: Vec<StreamMessage> = Vec::new();
        proof {
            assert(msgs.deep_view() =~= Seq::<MessageModel>::empty());
        }
        if !utf8_ok(chunk) {
            return msgs;
        }
        let ghost p0 = self.buffer@;
        let ghost c = chunk@;
        proof {
            assert(old(self)@ == p0);
            assert(forall|i: int| 0 <= i < p0.len() ==> p0[i] != 10);
        }
        self.buffer.extend_from_slice(chunk);
        proof {
            lemma_run_prepend(Seq::empty(), p0, c);
            assert(Seq::<u8>::empty() + p0 =~= p0);
            assert(p0 + c =~= self.buffer@);
        }
        let mut scanning = true;
        while scanning
            invariant
                msgs.deep_view() + run_msgs(Seq::empty(), self.buffer@) == run_msgs(p0, c),
                run_rest(Seq::empty(), self.buffer@) == run_rest(p0, c),
                !scanning ==> forall|i: int|
                    0 <= i < self.buffer@.len() ==> self.buffer@[i] != 10,
            decreases self.buffer@.len() + (if scanning { 1int } else { 0int }),
        {
            let i = match find_byte(self.buffer.as_slice(), 10) {
                None => {
                    scanning = false;
                    continue ;
                },
                Some(i) => i,
            };
            let len = self.buffer.len();
            let ghost b = self.buffer@;
            let ghost x = b.take(i as int);
            let ghost rest = b.skip(i + 1);
            proof {
                assert(b =~= x + seq![10u8] + rest);
                lemma_run_line(Seq::empty(), x, rest);
                assert(Seq::<u8>::empty() + x =~= x);
            }
            let line_msg: Option<StreamMessage> = {
                let line = slice_subrange(self.buffer.as_slice(), 0, i);
                let t = trim_slice(line);
                if t.len() > 0 {
                    decode_line(t)
                } else {
                    None
                }
            };
            let tail = slice_to_vec(slice_subrange(self.buffer.as_slice(), i + 1, len));
            self.buffer = tail;
            match line_msg {
                Some(m) => {
                    let ghost before = msgs.deep_view();
                    msgs.push(m);
                    proof {
                        assert(msgs.deep_view() =~= before.push(m.deep_view()));
                        assert(line_msgs(x) =~= seq![m.deep_view()]);
                        assert(before + line_msgs(x) + run_msgs(Seq::empty(), rest) =~= before.push(
                            m.deep_view(),
                        ) + run_msgs(Seq::empty(), rest));
                    }
                },
                None => {
                    proof {
                        assert(line_msgs(x) =~= Seq::<MessageModel>::empty());
                        assert(msgs.deep_view() + line_msgs(x) + run_msgs(Seq::empty(), rest)
                            =~= msgs.deep_view() + run_msgs(Seq::empty(), rest));
                    }
                },
            }
            proof {
                assert(msgs.deep_view() + (line_msgs(x) + run_msgs(Seq::empty(), rest))
                    =~= msgs.deep_view() + line_msgs(x) + run_msgs(Seq::empty(), rest));
            }
        }
        proof {
            lemma_run_no_nl(Seq::empty(), self.buffer@);
            assert(Seq::<u8>::empty() + self.buffer@ =~= self.buffer@);
            assert(msgs.deep_view() + Seq::<MessageModel>::empty() =~= msgs.deep_view());
        }
        msgs
    }

    /// Decode whatever remains buffered as one final line, then clear the
    /// buffer.
    pub fn flush(&mut self) -> (r: Option<StreamMessage>)
        ensures
            r.deep_view() == flush_model(old(self)@),
            final(self)@ == Seq::<u8>::empty(),
            final(self).wf(),
    {
        let r = {
            let t = trim_slice(self.buffer.as_slice());
            if t.len() == 0 {
                None
            } else {
                decode_line(t)
            }
        };
        self.buffer.clear();
        r
    }

    /// Discard buffered content without decoding it.
    pub fn clear(&mut self)
        ensures
            final(self)@ == Seq::<u8>::empty(),
            final(self).wf(),
    {
        self.buffer.clear();
    }

    /// Whether the buffer holds non-whitespace content not yet flushed.
    pub fn has_pending(&self) -> (r: bool)
        ensures
            r == (trimmed(self@).len() != 0),
    {
        let n = self.buffer.len();
        let mut i: usize = 0;
        while i < n
            invariant
                i <= n == self@.len(),
                forall|j: int| 0 <= j < i ==> is_space(#[trigger] self@[j]),
            decreases n - i,
        {
            if !is_space_byte(self.buffer[i]) {
                proof {
                    lemma_trimmed_nonempty(self@, i as int);
                }
                return true;
            }
            i = i + 1;
        }
        proof {
            lemma_lead_ws_scan(self@, self@.len() as int);
        }
        false
    }
}

/// Relies on `std::str::from_utf8`: it accepts exactly the valid UTF-8
/// byte sequences.
#[verifier::external_body]
fn utf8_ok(bytes: &[u8]) -> (r: bool)
    ensures
        r == valid_utf8(bytes@),
{
    core::str::from_utf8(bytes).is_ok()
}

fn is_space_byte(b: u8) -> (r: bool)
    ensures
        r == is_space(b),
{
    b == 32 || (9 <= b && b <= 13)
}

/// First occurrence of `b` in `s`.
fn find_byte(s: &[u8], b: u8) -> (r: Option<usize>)
    ensures
        (match r {
            Some(i) => i < s@.len() && s@[i as int] == b && forall|j: int|
                0 <= j < i ==> s@[j] != b,
            None => forall|j: int| 0 <= j < s@.len() ==> s@[j] != b,
        }),
{
    let n = s.len();
    let mut i: usize = 0;
    while i < n
        invariant
            i <= n == s@.len(),
            forall|j: int| 0 <= j < i ==> s@[j] != b,
        decreases n - i,
    {
        if s[i] == b {
            return Some(i);
        }
        i = i + 1;
    }
    None
}

proof fn lemma_lead_ws_scan(s: Seq<u8>, lo: int)
    requires
        0 <= lo <= s.len(),
        forall|j: int| 0 <= j < lo ==> is_space(#[trigger] s[j]),
        lo < s.len() ==> !is_space(s[lo]),
    ensures
        lead_ws(s) == lo,
    decreases s.len(),
{
    if s.len() == 0 {
    } else if lo == 0 {
    } else {
        assert(forall|j: int| 0 <= j < lo - 1 ==> s.drop_first()[j] == s[j + 1]);
        lemma_lead_ws_scan(s.drop_first(), lo - 1);
    }
}

proof fn lemma_tail_ws_scan(s: Seq<u8>, hi: int)
    requires
        0 <= hi <= s.len(),
        forall|j: int| hi <= j < s.len() ==> is_space(#[trigger] s[j]),
        hi > 0 ==> !is_space(s[hi - 1]),
    ensures
        tail_ws(s) == s.len() - hi,
    decreases s.len(),
{
    if s.len() == 0 {
    } else if hi == s.len() {
        assert(!is_space(s.last()));
    } else {
        assert(is_space(s.last()));
        assert(forall|j: int| 0 <= j < s.len() - 1 ==> s.drop_last()[j] == s[j]);
        lemma_tail_ws_scan(s.drop_last(), hi);
    }
}

/// A non-space byte guarantees a non-empty trim.
proof fn lemma_trimmed_nonempty(s: Seq<u8>, w: int)
    requires
        0 <= w < s.len(),
        !is_space(s[w]),
    ensures
        trimmed(s).len() != 0,
{
    lemma_lead_ws_le(s);
    if lead_ws(s) == s.len() {
        lemma_lead_ws_spaces(s, w);
        assert(false);
    } else {
        lemma_ws_bounds(s);
    }
}

/// Every index below `lead_ws` holds a space.
proof fn lemma_lead_ws_spaces(s: Seq<u8>, j: int)
    requires
        0 <= j < lead_ws(s),
        lead_ws(s) <= s.len(),
    ensures
        is_space(s[j]),
    decreases s.len(),
{
    if j > 0 {
        assert(s.drop_first()[j - 1] == s[j]);
        lemma_lead_ws_le(s.drop_first());
        lemma_lead_ws_spaces(s.drop_first(), j - 1);
    }
}

proof fn lemma_lead_ws_le(s: Seq<u8>)
    ensures
        0 <= lead_ws(s) <= s.len(),
        0 <= tail_ws(s) <= s.len(),
    decreases s.len(),
{
    if s.len() > 0 {
        lemma_lead_ws_le(s.drop_first());
        lemma_tail_le(s);
    }
}

proof fn lemma_tail_le(s: Seq<u8>)
    ensures
        0 <= tail_ws(s) <= s.len(),
    decreases s.len(),
{
    if s.len() > 0 {
        lemma_tail_le(s.drop_last());
    }
}

/// When some byte is not a space, the trim bounds are consistent:
/// the first non-space sits before the trailing spaces.
proof fn lemma_ws_bounds(s: Seq<u8>)
    requires
        lead_ws(s) < s.len(),
    ensures
        0 <= lead_ws(s),
        lead_ws(s) + tail_ws(s) < s.len(),
        !is_space(s[lead_ws(s)]),
        tail_ws(s) < s.len() ==> !is_space(s[s.len() - 1 - tail_ws(s)]),
    decreases s.len(),
{
    lemma_lead_ws_le(s);
    lemma_not_space_at_lead(s);
    lemma_tail_spaces_all(s);
    if lead_ws(s) + tail_ws(s) >= s.len() {
        // the non-space at lead_ws would lie in the trailing space region
        lemma_tail_spaces(s, lead_ws(s));
        assert(false);
    }
    if tail_ws(s) < s.len() {
        lemma_not_space_before_tail(s);
    }
}

proof fn lemma_not_space_at_lead(s: Seq<u8>)
    requires
        lead_ws(s) < s.len(),
    ensures
        !is_space(s[lead_ws(s)]),
    decreases s.len(),
{
    if s.len() > 0 && is_space(s[0]) {
        lemma_lead_ws_le(s.drop_first());
        lemma_not_space_at_lead(s.drop_first());
        assert(s.drop_first()[lead_ws(s.drop_first())] == s[lead_ws(s)]);
    }
}

proof fn lemma_not_space_before_tail(s: Seq<u8>)
    requires
        tail_ws(s) < s.len(),
    ensures
        !is_space(s[s.len() - 1 - tail_ws(s)]),
    decreases s.len(),
{
    if s.len() > 0 && is_space(s.last()) {
        lemma_tail_le(s.drop_last());
        lemma_not_space_before_tail(s.drop_last());
        assert(s.drop_last()[s.len() - 2 - tail_ws(s.drop_last())] == s[s.len() - 1 - tail_ws(
            s,
        )]);
    }
}

/// Every index in the trailing-space region holds a space.
proof fn lemma_tail_spaces(s: Seq<u8>, j: int)
    requires
        s.len() - tail_ws(s) <= j < s.len(),
        0 <= j,
    ensures
        is_space(s[j]),
    decreases s.len(),
{
    lemma_tail_le(s);
    if j == s.len() - 1 {
        assert(tail_ws(s) >= 1);
        assert(is_space(s.last()));
    } else {
        assert(tail_ws(s) >= 1);
        assert(is_space(s.last()));
        lemma_tail_le(s.drop_last());
        assert(s.drop_last()[j] == s[j]);
        lemma_tail_spaces(s.drop_last(), j);
    }
}

proof fn lemma_tail_spaces_all(s: Seq<u8>)
    ensures
        forall|j: int| s.len() - tail_ws(s) <= j < s.len() && 0 <= j ==> is_space(#[trigger] s[j]),
{
    assert forall|j: int| s.len() - tail_ws(s) <= j < s.len() && 0 <= j implies is_space(
        s[j],
    ) by {
        lemma_tail_spaces(s, j);
    }
}

/// Trims ASCII whitespace from both ends.
#[verifier::loop_isolation(false)]
fn trim_slice<'a>(s: &'a [u8]) -> (t: &'a [u8])
    ensures
        t@ == trimmed(s@),
{
    let n = s.len();
    let mut lo: usize = 0;
    while lo < n && is_space_byte(s[lo])
        invariant
            lo <= n,
            forall|j: int| 0 <= j < lo ==> is_space(#[trigger] s@[j]),
        decreases n - lo,
    {
        lo = lo + 1;
    }
    proof {
        lemma_lead_ws_scan(s@, lo as int);
    }
    if lo == n {
        let t = slice_subrange(s, 0, 0);
        proof {
            assert(t@ =~= trimmed(s@));
        }
        return t;
    }
    let mut hi: usize = n;
    while hi > lo + 1 && is_space_byte(s[hi - 1])
        invariant
            lo < hi <= n,
            forall|j: int| hi <= j < n ==> is_space(#[trigger] s@[j]),
        decreases hi,
    {
        hi = hi - 1;
    }
    proof {
        if hi == lo + 1 && is_space(s@[hi - 1]) {
            // the byte at lo is not a space, so the scan stopped exactly there
            assert(false);
        }
        lemma_tail_ws_scan(s@, hi as int);
    }
    slice_subrange(s, lo, hi)
}

/// Bytes buffered for the current line pass through unchanged: running
/// with them pre-buffered equals running with them prepended, as long as
/// none of them is a terminator.
proof fn lemma_run_prepend(q: Seq<u8>, p: Seq<u8>, x: Seq<u8>)
    requires
        forall|i: int| 0 <= i < p.len() ==> p[i] != 10,
    ensures
        run_msgs(q + p, x) == run_msgs(q, p + x),
        run_rest(q + p, x) == run_rest(q, p + x),
    decreases p.len(),
{
    if p.len() == 0 {
        assert(q + p =~= q);
        assert(p + x =~= x);
    } else {
        assert((p + x)[0] == p[0]);
        assert((p + x).drop_first() =~= p.drop_first() + x);
        assert(q.push(p[0]) + p.drop_first() =~= q + p);
        lemma_run_prepend(q.push(p[0]), p.drop_first(), x);
    }
}

/// A terminator-free suffix produces no message and stays buffered.
proof fn lemma_run_no_nl(p: Seq<u8>, x: Seq<u8>)
    requires
        forall|i: int| 0 <= i < x.len() ==> x[i] != 10,
    ensures
        run_msgs(p, x) == Seq::<MessageModel>::empty(),
        run_rest(p, x) == p + x,
    decreases x.len(),
{
    if x.len() == 0 {
        assert(p + x =~= p);
    } else {
        lemma_run_no_nl(p.push(x[0]), x.drop_first());
        assert(p.push(x[0]) + x.drop_first() =~= p + x);
    }
}

/// One complete line at the front of the input: its message, then the rest.
proof fn lemma_run_line(p: Seq<u8>, x: Seq<u8>, rest: Seq<u8>)
    requires
        forall|i: int| 0 <= i < x.len() ==> x[i] != 10,
    ensures
        run_msgs(p, x + seq![10u8] + rest) == line_msgs(p + x) + run_msgs(Seq::empty(), rest),
        run_rest(p, x + seq![10u8] + rest) == run_rest(Seq::empty(), rest),
    decreases x.len(),
{
    if x.len() == 0 {
        assert(x + seq![10u8] + rest =~= seq![10u8] + rest);
        assert((seq![10u8] + rest)[0] == 10);
        assert((seq![10u8] + rest).drop_first() =~= rest);
        assert(p + x =~= p);
    } else {
        let whole = x + seq![10u8] + rest;
        assert(whole[0] == x[0]);
        assert(whole.drop_first() =~= x.drop_first() + seq![10u8] + rest);
        lemma_run_line(p.push(x[0]), x.drop_first(), rest);
        assert(p.push(x[0]) + x.drop_first() =~= p + x);
    }
}

/// Decomposition: feeding `a` then `b` is feeding `a + b`.
pub proof fn lemma_run_append(p: Seq<u8>, a: Seq<u8>, b: Seq<u8>)
    ensures
        run_msgs(p, a + b) == run_msgs(p, a) + run_msgs(run_rest(p, a), b),
        run_rest(p, a + b) == run_rest(run_rest(p, a), b),
    decreases a.len(),
{
    if a.len() == 0 {
        assert(a + b =~= b);
        assert(run_msgs(p, a) + run_msgs(run_rest(p, a), b) =~= run_msgs(p, b));
    } else {
        assert((a + b)[0] == a[0]);
        assert((a + b).drop_first() =~= a.drop_first() + b);
        if a[0] == 10 {
            lemma_run_append(Seq::empty(), a.drop_first(), b);
            assert(line_msgs(p) + (run_msgs(Seq::empty(), a.drop_first()) + run_msgs(
                run_rest(Seq::empty(), a.drop_first()),
                b,
            )) =~= (line_msgs(p) + run_msgs(Seq::empty(), a.drop_first())) + run_msgs(
                run_rest(Seq::empty(), a.drop_first()),
                b,
            ));
        } else {
            lemma_run_append(p.push(a[0]), a.drop_first(), b);
        }
    }
}

/// The concatenation of a sequence of chunks.
pub open spec fn concat_chunks(chunks: Seq<Seq<u8>>) -> Seq<u8>
    decreases chunks.len(),
{
    if chunks.len() == 0 {
        Seq::empty()
    } else {
        chunks[0] + concat_chunks(chunks.drop_first())
    }
}

/// The messages collected by feeding `chunks` one after another.
pub open spec fn fed_msgs(p: Seq<u8>, chunks: Seq<Seq<u8>>) -> Seq<MessageModel>
    decreases chunks.len(),
{
    if chunks.len() == 0 {
        seq![]
    } else {
        run_msgs(p, chunks[0]) + fed_msgs(run_rest(p, chunks[0]), chunks.drop_first())
    }
}

/// The residue left after feeding `chunks` one after another.
pub open spec fn fed_rest(p: Seq<u8>, chunks: Seq<Seq<u8>>) -> Seq<u8>
    decreases chunks.len(),
{
    if chunks.len() == 0 {
        p
    } else {
        fed_rest(run_rest(p, chunks[0]), chunks.drop_first())
    }
}

/// Chunking invariance: however a byte stream is split into chunks, the
/// chunk-by-chunk decode produces exactly the messages and the residue of
/// decoding the whole stream at once.
pub proof fn lemma_chunking_invariance(p: Seq<u8>, chunks: Seq<Seq<u8>>)
    ensures
        fed_msgs(p, chunks) == run_msgs(p, concat_chunks(chunks)),
        fed_rest(p, chunks) == run_rest(p, concat_chunks(chunks)),
    decreases chunks.len(),
{
    if chunks.len() == 0 {
        lemma_run_no_nl(p, Seq::empty());
        assert(p + Seq::<u8>::empty() =~= p);
    } else {
        lemma_run_append(p, chunks[0], concat_chunks(chunks.drop_first()));
        lemma_chunking_invariance(run_rest(p, chunks[0]), chunks.drop_first());
    }
}

/// A line of invalid JSON is dropped in isolation: the lines after it
/// decode exactly as if it had never arrived.
pub proof fn lemma_bad_line_skipped(line: Seq<u8>, rest: Seq<u8>)
    requires
        forall|i: int| 0 <= i < line.len() ==> line[i] != 10,
        line_decode(trimmed(line)) is None || trimmed(line).len() == 0,
    ensures
        run_msgs(Seq::empty(), line + seq![10u8] + rest) == run_msgs(Seq::empty(), rest),
        run_rest(Seq::empty(), line + seq![10u8] + rest) == run_rest(Seq::empty(), rest),
{
    lemma_run_line(Seq::empty(), line, rest);
    assert(Seq::<u8>::empty() + line =~= line);
    assert(line_msgs(line) =~= Seq::<MessageModel>::empty());
    assert(Seq::<MessageModel>::empty() + run_msgs(Seq::empty(), rest) =~= run_msgs(
        Seq::empty(),
        rest,
    ));
}

/// Flushing yields the residual decode exactly once: `flush` leaves the
/// buffer empty, flushing an empty buffer yields nothing, and an empty
/// buffer has nothing pending.
pub proof fn lemma_flush_once()
    ensures
        flush_model(Seq::<u8>::empty()) is None,
        trimmed(Seq::<u8>::empty()).len() == 0,
{
}

} // verus!
