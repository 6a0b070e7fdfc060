use vstd::prelude::*;
use crate::text::{lines_of, split_on, NEWLINE};

verus! {

/// The size of the chunks in which a stream is read.
pub const BUF_SIZE: usize = 1024;

/// The views of a list of byte buffers.
pub open spec fn views(v: Seq<Vec<u8>>) -> Seq<Seq<u8>> {
    v.map_values(|b: Vec<u8>| b@)
}

/// Splits a byte stream, fed in chunks of any size, into line artifacts: one per line, each
/// holding the line's bytes without its newline. A line may span any number of chunks.
pub struct Segmenter {
    lines: Vec<Vec<u8>>,
    consumed: Ghost<Seq<u8>>,
}

impl Segmenter {
    /// The bytes fed so far.
    pub closed spec fn text(&self) -> Seq<u8> {
        self.consumed@
    }

    /// The line artifacts built so far; the last one is still open.
    pub closed spec fn lines(&self) -> Seq<Seq<u8>> {
        views(self.lines@)
    }

    /// The artifacts are the lines of what was fed.
    pub open spec fn wf(&self) -> bool {
        self.lines() == lines_of(self.text())
    }

    /// A segmenter that has read nothing: it holds one empty line artifact.
    pub fn new() -> (s: Segmenter)
        ensures
            s.wf(),
            s.text() == Seq::<u8>::empty(),
            s.lines() == seq![Seq::<u8>::empty()],
    {
        let mut lines: Vec<Vec<u8>> = Vec::new();
        lines.push(Vec::new());
        let s = Segmenter { lines, consumed: Ghost(Seq::empty()) };
        assert(s.lines() =~= seq![Seq::<u8>::empty()]);
        s
    }

    /// Consumes the next chunk: its bytes go to the open artifact, and each newline closes
    /// it and opens the next one.
    pub fn feed(&mut self, chunk: &[u8])
        requires
            old(self).wf(),
        ensures
            final(self).wf(),
            final(self).text() == old(self).text() + chunk@,
    {
        let mut i: usize = 0;
        while i < chunk.len()
            invariant
                0 <= i <= chunk@.len(),
                self.wf(),
                self.text() == old(self).text() + chunk@.take(i as int),
            decreases chunk@.len() - i,
        {
            let b = chunk[i];
            let ghost before = self.text();
            let ghost prev = self.lines();
            proof {
                crate::text::lemma_split_len(before, NEWLINE);
            }
            if b == NEWLINE {
                self.lines.push(Vec::new());
                assert(self.lines() =~= prev.push(Seq::<u8>::empty()));
            } else {
                let mut line = self.lines.pop().unwrap();
                line.push(b);
                self.lines.push(line);
                assert(self.lines() =~= prev.update(prev.len() - 1, prev.last().push(b)));
            }
            self.consumed = Ghost(before.push(b));
            assert(self.text().drop_last() =~= before);
            i = i + 1;
            assert(chunk@.take(i as int) =~= chunk@.take(i - 1).push(b));
        }
        assert(chunk@.take(i as int) =~= chunk@);
    }

    /// The number of line artifacts: the number of newlines fed, plus one.
    pub fn line_count(&self) -> (n: usize)
        requires
            self.wf(),
        ensures
            n == lines_of(self.text()).len(),
    {
        self.lines.len()
    }

    /// Hands out the line artifacts, in the order of the lines.
    pub fn into_lines(self) -> (r: Vec<Vec<u8>>)
        requires
            self.wf(),
        ensures
            views(r@) == lines_of(self.text()),
    {
        self.lines
    }
}

/// Splits `input` into its lines, reading it in chunks of `BUF_SIZE` bytes.
pub fn segment(input: &[u8]) -> (r: Vec<Vec<u8>>)
    ensures
        views(r@) == lines_of(input@),
{
    let mut seg = Segmenter::new();
    let mut start: usize = 0;
    while start < input.len()
        invariant
            start <= input@.len(),
            seg.wf(),
            seg.text() == input@.take(start as int),
        decreases input@.len() - start,
    {
        let end = if input.len() - start < BUF_SIZE {
            input.len()
        } else {
            start + BUF_SIZE
        };
        let chunk = vstd::slice::slice_subrange(input, start, end);
        seg.feed(chunk);
        assert(input@.take(start as int) + input@.subrange(start as int, end as int)
            =~= input@.take(end as int));
        start = end;
    }
    assert(input@.take(start as int) =~= input@);
    seg.into_lines()
}

} // verus!
