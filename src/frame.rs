//! Line framing of a streamed response body.
//!
//! Bytes arrive in fragments of any size. The parser keeps the bytes seen
//! since the last newline and hands out every completed line, trimmed of
//! surrounding ASCII whitespace. A partial line is never handed out.
use vstd::prelude::*;

verus! {

/// The byte that ends a line.
pub const NEWLINE: u8 = 10;

/// ASCII whitespace: tab, line feed, vertical tab, form feed, carriage
/// return and space.
pub open spec fn is_space(b: u8) -> bool {
    b == 9 || b == 10 || b == 11 || b == 12 || b == 13 || b == 32
}

/// `s` without its leading whitespace.
pub open spec fn trim_start(s: Seq<u8>) -> Seq<u8>
    decreases s.len(),
{
    if s.len() > 0 && is_space(s[0]) {
        trim_start(s.drop_first())
    } else {
        s
    }
}

/// `s` without its trailing whitespace.
pub open spec fn trim_end(s: Seq<u8>) -> Seq<u8>
    decreases s.len(),
{
    if s.len() > 0 && is_space(s.last()) {
        trim_end(s.drop_last())
    } else {
        s
    }
}

/// `s` without its surrounding whitespace.
pub open spec fn trim(s: Seq<u8>) -> Seq<u8> {
    trim_end(trim_start(s))
}

/// The state of a scan: the lines completed so far, and the bytes of the
/// line that is still open.
pub type ScanState = (Seq<Seq<u8>>, Seq<u8>);

/// One byte read: a newline closes the open line, any other byte extends it.
pub open spec fn scan_byte(st: ScanState, b: u8) -> ScanState {
    if b == NEWLINE {
        (st.0.push(trim(st.1)), Seq::empty())
    } else {
        (st.0, st.1.push(b))
    }
}

/// The state after reading the bytes of `s`, one by one, from `st`.
pub open spec fn scan(st: ScanState, s: Seq<u8>) -> ScanState
    decreases s.len(),
{
    if s.len() == 0 {
        st
    } else {
        scan_byte(scan(st, s.drop_last()), s.last())
    }
}

/// The complete lines of a whole stream, trimmed; trailing bytes that no
/// newline ends are not among them.
pub open spec fn lines_of(stream: Seq<u8>) -> Seq<Seq<u8>> {
    scan((Seq::empty(), Seq::empty()), stream).0
}

/// What a parser holding `pending` hands out and keeps when `fragments` are
/// pushed into it, one after another.
pub open spec fn feed(pending: Seq<u8>, fragments: Seq<Seq<u8>>) -> ScanState
    decreases fragments.len(),
{
    if fragments.len() == 0 {
        (Seq::empty(), pending)
    } else {
        let first = scan((Seq::empty(), pending), fragments[0]);
        let rest = feed(first.1, fragments.drop_first());
        (first.0 + rest.0, rest.1)
    }
}

/// Reading `s + t` is reading `s`, then `t`.
pub proof fn lemma_scan_append(st: ScanState, s: Seq<u8>, t: Seq<u8>)
    ensures
        scan(st, s + t) == scan(scan(st, s), t),
    decreases t.len(),
{
    if t.len() == 0 {
        assert(s + t =~= s);
    } else {
        assert((s + t).drop_last() =~= s + t.drop_last());
        assert((s + t).last() == t.last());
        lemma_scan_append(st, s, t.drop_last());
    }
}

/// Lines completed before a scan are kept, in front of those it completes.
pub proof fn lemma_scan_keeps_lines(lines: Seq<Seq<u8>>, open: Seq<u8>, s: Seq<u8>)
    ensures
        scan((lines, open), s) == (lines + scan((Seq::empty(), open), s).0, scan(
            (Seq::empty(), open),
            s,
        ).1),
    decreases s.len(),
{
    if s.len() > 0 {
        lemma_scan_keeps_lines(lines, open, s.drop_last());
        let inner = scan((Seq::empty(), open), s.drop_last());
        assert((lines + inner.0).push(trim(inner.1)) =~= lines + inner.0.push(trim(inner.1)));
    } else {
        assert(lines + Seq::<Seq<u8>>::empty() =~= lines);
    }
}

/// Pushing fragments one after another hands out the lines of their
/// concatenation, read from the pending bytes.
pub proof fn lemma_feed_is_scan(pending: Seq<u8>, fragments: Seq<Seq<u8>>)
    ensures
        feed(pending, fragments) == scan((Seq::empty(), pending), fragments.flatten()),
    decreases fragments.len(),
{
    if fragments.len() > 0 {
        let first = scan((Seq::empty(), pending), fragments[0]);
        lemma_feed_is_scan(first.1, fragments.drop_first());
        lemma_scan_append((Seq::empty(), pending), fragments[0], fragments.drop_first().flatten());
        lemma_scan_keeps_lines(first.0, first.1, fragments.drop_first().flatten());
    }
}

/// Chunking invariance: two ways of cutting the same byte stream into
/// fragments make the parser hand out the same lines, in the same order, and
/// leave it holding the same pending bytes.
pub proof fn lemma_chunking_invariance(a: Seq<Seq<u8>>, b: Seq<Seq<u8>>)
    requires
        a.flatten() == b.flatten(),
    ensures
        feed(Seq::empty(), a) == feed(Seq::empty(), b),
        feed(Seq::empty(), a).0 == lines_of(a.flatten()),
{
    lemma_feed_is_scan(Seq::empty(), a);
    lemma_feed_is_scan(Seq::empty(), b);
}

/// A line cut in two at any offset, the second part carrying the newline,
/// comes out as the same single line as when it arrives whole.
pub proof fn lemma_split_line(line: Seq<u8>, k: int)
    requires
        0 <= k <= line.len(),
        !line.contains(NEWLINE),
    ensures
        feed(Seq::empty(), seq![line.take(k), line.skip(k).push(NEWLINE)]) == feed(
            Seq::empty(),
            seq![line.push(NEWLINE)],
        ),
        feed(Seq::empty(), seq![line.push(NEWLINE)]).0 == seq![trim(line)],
{
    let split = seq![line.take(k), line.skip(k).push(NEWLINE)];
    let whole = seq![line.push(NEWLINE)];
    assert(split.drop_first().drop_first() =~= Seq::<Seq<u8>>::empty());
    assert(whole.drop_first() =~= Seq::<Seq<u8>>::empty());
    reveal_with_fuel(Seq::flatten, 3);
    assert(split.flatten() =~= line.take(k) + (line.skip(k).push(NEWLINE) + Seq::empty()));
    assert(whole.flatten() =~= line.push(NEWLINE) + Seq::empty());
    assert(split.flatten() =~= whole.flatten());
    lemma_chunking_invariance(split, whole);
    lemma_feed_is_scan(Seq::empty(), whole);
    lemma_scan_from_empty_line(line);
    assert((line.push(NEWLINE) + Seq::empty()).drop_last() =~= line);
}

/// Reading a line without a newline from nothing leaves it open, whole.
proof fn lemma_scan_from_empty_line(line: Seq<u8>)
    requires
        !line.contains(NEWLINE),
    ensures
        scan((Seq::empty(), Seq::empty()), line) == (Seq::<Seq<u8>>::empty(), line),
    decreases line.len(),
{
    if line.len() > 0 {
        assert(!line.drop_last().contains(NEWLINE)) by {
            assert forall|i: int| 0 <= i < line.drop_last().len() implies line.drop_last()[i]
                != NEWLINE by {
                assert(line.drop_last()[i] == line[i]);
            }
        }
        assert(line.last() == line[line.len() - 1]);
        lemma_scan_from_empty_line(line.drop_last());
        assert(line.drop_last().push(line.last()) =~= line);
    } else {
        assert(line =~= Seq::<u8>::empty());
    }
}

/// Whether `b` is ASCII whitespace.
pub fn is_space_byte(b: u8) -> (r: bool)
    ensures
        r == is_space(b),
{
    b == 9 || b == 10 || b == 11 || b == 12 || b == 13 || b == 32
}

proof fn lemma_trim_start_step(s: Seq<u8>, i: int)
    requires
        0 <= i < s.len(),
        is_space(s[i]),
    ensures
        trim_start(s.skip(i)) == trim_start(s.skip(i + 1)),
{
    assert(s.skip(i).drop_first() =~= s.skip(i + 1));
}

proof fn lemma_trim_end_step(s: Seq<u8>, j: int)
    requires
        0 < j <= s.len(),
        is_space(s[j - 1]),
    ensures
        trim_end(s.take(j)) == trim_end(s.take(j - 1)),
{
    assert(s.take(j).drop_last() =~= s.take(j - 1));
}

/// A copy of `line` without its surrounding whitespace.
pub fn trim_bytes(line: &[u8]) -> (r: Vec<u8>)
    ensures
        r@ == trim(line@),
{
    let n = line.len();
    let mut start: usize = 0;
    assert(line@.skip(0) =~= line@);
    while start < n && is_space_byte(line[start])
        invariant
            start <= n == line@.len(),
            trim_start(line@) == trim_start(line@.skip(start as int)),
        decreases n - start,
    {
        proof {
            lemma_trim_start_step(line@, start as int);
        }
        start = start + 1;
    }
    let ghost rest = line@.skip(start as int);
    assert(trim_start(line@) == rest) by {
        if rest.len() > 0 {
            assert(rest[0] == line@[start as int]);
        }
    }
    let mut end: usize = n;
    assert(rest.take(rest.len() as int) =~= rest);
    while end > start && is_space_byte(line[end - 1])
        invariant
            start <= end <= n == line@.len(),
            rest == line@.skip(start as int),
            trim_end(rest) == trim_end(rest.take(end - start)),
        decreases end,
    {
        proof {
            assert(rest[end - start - 1] == line@[end - 1]);
            lemma_trim_end_step(rest, end - start);
        }
        end = end - 1;
    }
    assert(trim_end(rest.take(end - start)) == rest.take(end - start)) by {
        if end > start {
            assert(rest.take(end - start).last() == line@[end - 1]);
        }
    }
    let mut r: Vec<u8> = Vec::new();
    let mut i: usize = start;
    while i < end
        invariant
            start <= i <= end <= n == line@.len(),
            r@ == line@.subrange(start as int, i as int),
        decreases end - i,
    {
        r.push(line[i]);
        i = i + 1;
        assert(r@ =~= line@.subrange(start as int, i as int));
    }
    assert(r@ =~= rest.take(end - start));
    r
}

/// Splits a byte stream into lines as its fragments arrive.
pub struct FrameParser {
    pending: Vec<u8>,
}

impl View for FrameParser {
    type V = Seq<u8>;

    /// The bytes received since the last newline.
    closed spec fn view(&self) -> Seq<u8> {
        self.pending@
    }
}

impl FrameParser {
    /// The pending bytes never hold a newline: each complete line has been
    /// handed out.
    pub closed spec fn wf(&self) -> bool {
        !self.pending@.contains(NEWLINE)
    }

    /// A parser that has received nothing.
    pub fn new() -> (p: FrameParser)
        ensures
            p.wf(),
            p@ == Seq::<u8>::empty(),
    {
        FrameParser { pending: Vec::new() }
    }

    /// Receives one fragment and returns the lines it completes, in order.
    /// The bytes after the last newline are kept for the next fragment.
    pub fn push(&mut self, fragment: &[u8]) -> (lines: Vec<Vec<u8>>)
        requires
            old(self).wf(),
        ensures
            final(self).wf(),
            (lines.deep_view(), final(self)@) == scan((Seq::empty(), old(self)@), fragment@),
    {
        let ghost start = self.pending@;
        let mut lines: Vec<Vec<u8>> = Vec::new();
        assert(fragment@.take(0) =~= Seq::<u8>::empty());
        for i in 0..fragment.len()
            invariant
                (lines.deep_view(), self.pending@) == scan(
                    (Seq::empty(), start),
                    fragment@.take(i as int),
                ),
                !self.pending@.contains(NEWLINE),
        {
            let b = fragment[i];
            assert(fragment@.take(i + 1).drop_last() =~= fragment@.take(i as int));
            assert(fragment@.take(i + 1).last() == b);
            if b == NEWLINE {
                let line = trim_bytes(self.pending.as_slice());
                let ghost lines_before = lines.deep_view();
                assert(line.deep_view() =~= line@);
                lines.push(line);
                assert(lines.deep_view() =~= lines_before.push(trim(self.pending@)));
                self.pending = Vec::new();
                assert(self.pending@ =~= Seq::<u8>::empty());
            } else {
                let ghost before = self.pending@;
                self.pending.push(b);
                assert forall|j: int| 0 <= j < self.pending@.len() implies self.pending@[j]
                    != NEWLINE by {
                    if j < before.len() {
                        assert(self.pending@[j] == before[j]);
                    }
                }
            }
        }
        assert(fragment@.take(fragment@.len() as int) =~= fragment@);
        lines
    }

    /// Whether bytes of an unfinished line are waiting for a newline.
    pub fn has_pending(&self) -> (r: bool)
        ensures
            r == (self@.len() > 0),
    {
        self.pending.len() > 0
    }
}

} // verus!
