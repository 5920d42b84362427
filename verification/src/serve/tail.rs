//! Reading a log that is still being written: only lines that end in a line feed count.
use vstd::prelude::*;

verus! {

/// The lines that have ended, without their line feeds, and the bytes after the last of them.
pub open spec fn line_split(buf: Seq<u8>) -> (Seq<Seq<u8>>, Seq<u8>)
    decreases buf.len(),
{
    if buf.len() == 0 {
        (Seq::empty(), Seq::empty())
    } else {
        let (done, open) = line_split(buf.drop_last());
        if buf.last() == 10 {
            (done.push(open), Seq::empty())
        } else {
            (done, open.push(buf.last()))
        }
    }
}

/// How many bytes the lines that have ended take.
pub open spec fn consumed(buf: Seq<u8>) -> nat {
    (buf.len() - line_split(buf).1.len()) as nat
}

/// The contents of a list of byte strings.
pub open spec fn byte_lines(lines: Seq<Vec<u8>>) -> Seq<Seq<u8>> {
    Seq::new(lines.len(), |i: int| lines[i]@)
}

/// Splits bytes into the lines that have ended, and counts the bytes that these take. An open line
/// at the end is left for later.
pub fn split_complete_lines(buf: &[u8]) -> (r: (Vec<Vec<u8>>, usize))
    ensures
        byte_lines(r.0@) == line_split(buf@).0,
        r.1 == consumed(buf@),
        r.1 <= buf.len(),
{
    let mut lines: Vec<Vec<u8>> = Vec::new();
    let mut open: Vec<u8> = Vec::new();
    let mut end: usize = 0;
    let mut i: usize = 0;
    assert(buf@.take(0) =~= Seq::<u8>::empty());
    assert(byte_lines(lines@) =~= Seq::<Seq<u8>>::empty());
    while i < buf.len()
        invariant
            0 <= i <= buf.len(),
            end + open.len() == i,
            byte_lines(lines@) == line_split(buf@.take(i as int)).0,
            open@ == line_split(buf@.take(i as int)).1,
        decreases buf.len() - i,
    {
        assert(buf@.take(i + 1).drop_last() =~= buf@.take(i as int));
        let b = buf[i];
        if b == 10 {
            let ghost before = byte_lines(lines@);
            let ghost line = open@;
            lines.push(open);
            assert(byte_lines(lines@) =~= before.push(line));
            open = Vec::new();
            end = i + 1;
        } else {
            open.push(b);
        }
        i = i + 1;
    }
    assert(buf@.take(i as int) =~= buf@);
    (lines, end)
}

/// How far a log has been read: always up to the end of a line.
#[derive(Clone, Copy, PartialEq, Eq, Structural, Debug)]
pub struct Tailer {
    offset: u64,
}

impl Tailer {
    /// How many bytes have been read.
    pub closed spec fn at(self) -> nat {
        self.offset as nat
    }

    /// Nothing read yet.
    pub fn new() -> (t: Tailer)
        ensures
            t.at() == 0,
    {
        Tailer { offset: 0 }
    }

    /// How many bytes have been read.
    pub fn offset(&self) -> (n: u64)
        ensures
            n == self.at(),
    {
        self.offset
    }

    /// Takes the lines that have ended from the bytes that follow what has been read.
    pub fn take(&mut self, buf: &[u8]) -> (lines: Vec<Vec<u8>>)
        requires
            old(self).at() + buf.len() <= u64::MAX,
        ensures
            byte_lines(lines@) == line_split(buf@).0,
            final(self).at() == old(self).at() + consumed(buf@),
    {
        let (lines, end) = split_complete_lines(buf);
        self.offset = self.offset + end as u64;
        lines
    }

    /// Passes over the lines that have ended.
    pub fn skip_to_end(&mut self, buf: &[u8])
        requires
            old(self).at() + buf.len() <= u64::MAX,
        ensures
            final(self).at() == old(self).at() + consumed(buf@),
    {
        let (_, end) = split_complete_lines(buf);
        self.offset = self.offset + end as u64;
    }
}

// ---------------------------------------------------------------------------
// Laws.
// ---------------------------------------------------------------------------

proof fn lemma_split_append(a: Seq<u8>, b: Seq<u8>)
    ensures
        line_split(a + b).0 == line_split(a).0 + line_split(line_split(a).1 + b).0,
        line_split(a + b).1 == line_split(line_split(a).1 + b).1,
    decreases b.len(),
{
    let open = line_split(a).1;
    if b.len() == 0 {
        assert(a + b =~= a);
        assert(open + b =~= open);
        lemma_open_line(a);
        lemma_no_line(open);
        assert(line_split(a).0 + Seq::<Seq<u8>>::empty() =~= line_split(a).0);
    } else {
        lemma_split_append(a, b.drop_last());
        assert((a + b).drop_last() =~= a + b.drop_last());
        assert((open + b).drop_last() =~= open + b.drop_last());
        let l = line_split(open + b.drop_last());
        assert(line_split(a).0 + l.0.push(l.1) =~= (line_split(a).0 + l.0).push(l.1));
    }
}

/// The open line holds no line feed and stands at the end.
proof fn lemma_open_line(buf: Seq<u8>)
    ensures
        line_split(buf).1.len() <= buf.len(),
        buf.skip(buf.len() - line_split(buf).1.len()) == line_split(buf).1,
        forall|i: int| 0 <= i < line_split(buf).1.len() ==> #[trigger] line_split(buf).1[i] != 10,
    decreases buf.len(),
{
    if buf.len() == 0 {
        assert(buf.skip(0) =~= Seq::<u8>::empty());
    } else {
        lemma_open_line(buf.drop_last());
        let open = line_split(buf.drop_last()).1;
        let k = buf.len() - line_split(buf).1.len();
        if buf.last() == 10 {
            assert(buf.skip(k) =~= Seq::<u8>::empty());
        } else {
            let before = buf.drop_last().skip(buf.drop_last().len() - open.len());
            assert(buf.skip(k) =~= before.push(buf.last()));
        }
    }
}

/// Bytes without a line feed are one open line.
proof fn lemma_no_line(s: Seq<u8>)
    requires
        forall|i: int| 0 <= i < s.len() ==> #[trigger] s[i] != 10,
    ensures
        line_split(s).0 == Seq::<Seq<u8>>::empty(),
        line_split(s).1 == s,
    decreases s.len(),
{
    if s.len() > 0 {
        lemma_no_line(s.drop_last());
        assert(line_split(s).1 =~= s);
    } else {
        assert(line_split(s).1 =~= s);
    }
}

/// Reading a log in two steps gives every line once and in order: the lines that had ended when
/// `first` was all there was, then, from where these end, the others.
pub proof fn tailing_loses_nothing(first: Seq<u8>, more: Seq<u8>)
    ensures
        ({
            let whole = first + more;
            let rest = whole.skip(consumed(first) as int);
            &&& line_split(whole).0 == line_split(first).0 + line_split(rest).0
            &&& consumed(whole) == consumed(first) + consumed(rest)
        }),
{
    let whole = first + more;
    let open = line_split(first).1;
    lemma_open_line(first);
    lemma_open_line(whole);
    lemma_split_append(first, more);
    let rest = whole.skip(consumed(first) as int);
    assert(rest =~= first.skip(consumed(first) as int) + more);
    lemma_open_line(rest);
}

/// What polls of a log give out in all, and where they stop: each one reads, from where the one before
/// it stopped, what the log holds then.
pub open spec fn polled(files: Seq<Seq<u8>>, n: int) -> (Seq<Seq<u8>>, nat)
    decreases n,
{
    if n <= 0 {
        (Seq::empty(), 0)
    } else {
        let (lines, at) = polled(files, n - 1);
        let rest = files[n - 1].skip(at as int);
        (lines + line_split(rest).0, at + consumed(rest))
    }
}

/// A log grows: what it held stays as it was.
pub open spec fn grows(a: Seq<u8>, b: Seq<u8>) -> bool {
    a.len() <= b.len() && b.take(a.len() as int) == a
}

/// However often a growing log is polled, and whenever: all polls together give out exactly the lines
/// that have ended in it at the last one, each once, whole and in order, and stop where these end.
pub proof fn polling_loses_nothing(files: Seq<Seq<u8>>, n: int)
    requires
        0 < n <= files.len(),
        forall|i: int| 0 < i < files.len() ==> grows(files[i - 1], #[trigger] files[i]),
    ensures
        polled(files, n) == (line_split(files[n - 1]).0, consumed(files[n - 1])),
    decreases n,
{
    let file = files[n - 1];
    if n == 1 {
        assert(polled(files, 0) == (Seq::<Seq<u8>>::empty(), 0nat));
        assert(file.skip(0) =~= file);
        assert(Seq::<Seq<u8>>::empty() + line_split(file).0 =~= line_split(file).0);
    } else {
        polling_loses_nothing(files, n - 1);
        let before = files[n - 2];
        assert(grows(files[(n - 1) - 1], files[n - 1]));
        let more = file.skip(before.len() as int);
        assert(before + more =~= file);
        tailing_loses_nothing(before, more);
    }
}

/// What has been read ends behind the last line feed, or at the start where there is none.
pub proof fn reading_stops_at_line_ends(buf: Seq<u8>)
    ensures
        consumed(buf) <= buf.len(),
        consumed(buf) > 0 ==> buf[consumed(buf) - 1] == 10,
        forall|i: int| consumed(buf) <= i < buf.len() ==> #[trigger] buf[i] != 10,
    decreases buf.len(),
{
    lemma_open_line(buf);
    let open = line_split(buf).1;
    let k = buf.len() - open.len();
    assert forall|i: int| k <= i < buf.len() implies #[trigger] buf[i] != 10 by {
        assert(open[i - k] == buf[i]);
    }
    if buf.len() > 0 && buf.last() != 10 {
        reading_stops_at_line_ends(buf.drop_last());
        lemma_open_line(buf.drop_last());
    }
}

/// An open line is never given out: while no line feed is written, nothing more comes.
pub proof fn torn_lines_wait(first: Seq<u8>, more: Seq<u8>)
    requires
        forall|i: int| 0 <= i < more.len() ==> #[trigger] more[i] != 10,
    ensures
        line_split((first + more).skip(consumed(first) as int)).0 == Seq::<Seq<u8>>::empty(),
{
    lemma_open_line(first);
    let open = line_split(first).1;
    let rest = (first + more).skip(consumed(first) as int);
    assert(rest =~= open + more);
    assert forall|i: int| 0 <= i < rest.len() implies #[trigger] rest[i] != 10 by {
        if i < open.len() {
            assert(open[i] != 10);
        } else {
            assert(more[i - open.len()] != 10);
        }
    }
    lemma_no_line(rest);
}

} // verus!
