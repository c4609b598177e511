//! Reading a log file backwards, a chunk at a time, the way `tail` does.
//!
//! The reader asks for the chunk of the file it needs next (`Read`), is
//! handed those bytes, and hands out complete lines, last line first.
use vstd::prelude::*;
use crate::lines::{has_two_newlines, lines_of, views, NL, split_lines, find_newline, two_newlines, lemma_lines_concat, lemma_lines_len};

verus! {

/// Size of the chunks read from the end of the file.
pub const BUFSIZE: u64 = 10240u64;

/// Where the chunk read next starts, given that everything from `pos` on
/// has been read: `BUFSIZE` bytes back, or the start of the file.
pub open spec fn read_start(pos: u64) -> u64 {
    if pos < BUFSIZE {
        0
    } else {
        (pos - BUFSIZE) as u64
    }
}

/// What the reader wants done next.
#[derive(Debug, PartialEq, Eq)]
pub enum RevLogStep {
    /// The next line, going backwards from the end of the file.
    Line(Vec<u8>),
    /// Read `len` bytes of the file from offset `start`, then `supply` them.
    Read { start: u64, len: u64 },
    /// Every line has been handed out.
    Finished,
}

/// Iterates backwards over the lines of a file of a given size.
pub struct RevLogIter {
    size: u64,
    pos: u64,
    chunk: Vec<u8>,
    buffered: Vec<Vec<u8>>,
    seen: Ghost<Seq<u8>>,
    rest: Ghost<Seq<u8>>,
    emitted: Ghost<Seq<Seq<u8>>>,
}

impl RevLogIter {
    /// The size of the file, in bytes.
    pub closed spec fn file_size(&self) -> u64 {
        self.size
    }

    /// The offset from which on the file has been read.
    pub closed spec fn position(&self) -> u64 {
        self.pos
    }

    /// The bytes read so far: those of the file from `position()` on.
    pub closed spec fn read_so_far(&self) -> Seq<u8> {
        self.seen@
    }

    /// The lines handed out so far, in the order they were handed out.
    pub closed spec fn emitted(&self) -> Seq<Seq<u8>> {
        self.emitted@
    }

    /// Whatever comes before the part of the file read so far, the lines
    /// handed out, reversed, end the lines of the file.
    pub open spec fn hands_out_last_lines(&self) -> bool {
        forall|before: Seq<u8>| before.len() == self.position() ==>
            self.emitted().reverse().is_suffix_of(#[trigger] lines_of(before + self.read_so_far()))
    }

    /// Bytes of the file that are read but not yet split into lines, plus
    /// lines not yet handed out: handing out a line lowers it.
    pub closed spec fn pending(&self) -> nat {
        self.chunk@.len() + self.buffered@.len()
    }

    /// The reader can go no further without reading more of the file.
    pub closed spec fn needs_read(&self) -> bool {
        &&& self.buffered@.len() == 0
        &&& self.pos != 0
        &&& !has_two_newlines(self.chunk@)
    }

    /// Every line of the file has been handed out.
    pub closed spec fn finished(&self) -> bool {
        &&& self.pos == 0
        &&& self.chunk@.len() == 0
        &&& self.buffered@.len() == 0
    }

    /// The reader's internal consistency.
    pub closed spec fn wf(&self) -> bool {
        &&& self.pos + self.seen@.len() == self.size
        &&& self.seen@ == self.chunk@ + self.rest@
        &&& lines_of(self.rest@) == views(self.buffered@) + self.emitted@.reverse()
        &&& self.rest@.len() == 0 || (self.chunk@.len() > 0 && self.chunk@.last() == NL) || (
        self.chunk@.len() == 0 && self.pos == 0)
    }

    /// A reader for a file of `size` bytes that has read nothing yet.
    pub fn new(size: u64) -> (it: Self)
        ensures
            it.wf(),
            it.hands_out_last_lines(),
            it.file_size() == size,
            it.position() == size,
            it.read_so_far() == Seq::<u8>::empty(),
            it.emitted() == Seq::<Seq<u8>>::empty(),
            it.pending() == 0,
    {
        let it = RevLogIter {
            size,
            pos: size,
            chunk: Vec::new(),
            buffered: Vec::new(),
            seen: Ghost(Seq::empty()),
            rest: Ghost(Seq::empty()),
            emitted: Ghost(Seq::empty()),
        };
        proof {
            assert(it.seen@ =~= it.chunk@ + it.rest@);
            assert(lines_of(it.rest@) =~= views(it.buffered@) + it.emitted@.reverse());
            lemma_hands_out_last_lines(&it);
        }
        it
    }

    /// The offset from which on the file has been read.
    pub fn pos(&self) -> (p: u64)
        ensures
            p == self.position(),
    {
        self.pos
    }

    /// Hands out the next line from the end, or asks for the chunk of the
    /// file it needs to find one, or says that no line is left.
    pub fn step(&mut self) -> (r: RevLogStep)
        requires
            old(self).wf(),
        ensures
            final(self).wf(),
            final(self).hands_out_last_lines(),
            final(self).file_size() == old(self).file_size(),
            final(self).read_so_far() == old(self).read_so_far(),
            final(self).position() == old(self).position(),
            old(self).finished() ==> r is Finished,
            match r {
                RevLogStep::Line(l) => {
                    &&& final(self).emitted() == old(self).emitted().push(l@)
                    &&& final(self).pending() < old(self).pending()
                },
                RevLogStep::Read { start, len } => {
                    &&& *final(self) == *old(self)
                    &&& final(self).needs_read()
                    &&& old(self).position() > 0
                    &&& len > 0
                    &&& start == read_start(old(self).position())
                    &&& start + len == old(self).position()
                },
                RevLogStep::Finished => {
                    &&& final(self).emitted() == old(self).emitted()
                    &&& final(self).finished()
                    &&& final(self).read_so_far().len() == final(self).file_size()
                    &&& final(self).emitted() == lines_of(final(self).read_so_far()).reverse()
                },
            },
    {
        let r = self.step_inner();
        proof {
            lemma_hands_out_last_lines(self);
        }
        r
    }

    /// One step of `step`, without the statement about the lines handed out.
    fn step_inner(&mut self) -> (r: RevLogStep)
        requires
            old(self).wf(),
        ensures
            final(self).wf(),
            final(self).file_size() == old(self).file_size(),
            final(self).read_so_far() == old(self).read_so_far(),
            final(self).position() == old(self).position(),
            old(self).finished() ==> r is Finished,
            match r {
                RevLogStep::Line(l) => {
                    &&& final(self).emitted() == old(self).emitted().push(l@)
                    &&& final(self).pending() < old(self).pending()
                },
                RevLogStep::Read { start, len } => {
                    &&& *final(self) == *old(self)
                    &&& final(self).needs_read()
                    &&& old(self).position() > 0
                    &&& len > 0
                    &&& start == read_start(old(self).position())
                    &&& start + len == old(self).position()
                },
                RevLogStep::Finished => {
                    &&& final(self).emitted() == old(self).emitted()
                    &&& final(self).finished()
                    &&& final(self).read_so_far().len() == final(self).file_size()
                    &&& final(self).emitted() == lines_of(final(self).read_so_far()).reverse()
                },
            },
    {
        if self.buffered.len() > 0 {
            return self.pop_line();
        }
        if self.pos != 0 && !two_newlines(&self.chunk) {
            let start = if self.pos < BUFSIZE {
                0
            } else {
                self.pos - BUFSIZE
            };
            return RevLogStep::Read { start, len: self.pos - start };
        }
        self.split_chunk();
        if self.buffered.len() > 0 {
            self.pop_line()
        } else {
            proof {
                lemma_finished_read_everything(self);
            }
            RevLogStep::Finished
        }
    }

    /// Hands out the last buffered line.
    fn pop_line(&mut self) -> (r: RevLogStep)
        requires
            old(self).wf(),
            old(self).buffered@.len() > 0,
        ensures
            final(self).wf(),
            final(self).size == old(self).size,
            final(self).seen == old(self).seen,
            final(self).pos == old(self).pos,
            final(self).chunk == old(self).chunk,
            final(self).buffered@.len() + 1 == old(self).buffered@.len(),
            r matches RevLogStep::Line(l) && final(self).emitted() == old(self).emitted().push(l@),
    {
        let ghost b0 = views(self.buffered@);
        let line = self.buffered.pop().unwrap();
        proof {
            let e0 = self.emitted@;
            self.emitted@ = self.emitted@.push(line@);
            assert(b0 =~= views(self.buffered@).push(line@));
            assert(self.emitted@.reverse() =~= seq![line@] + e0.reverse());
            assert(views(self.buffered@) + self.emitted@.reverse() =~= b0 + e0.reverse());
        }
        RevLogStep::Line(line)
    }

    /// Turns the complete lines of the chunk into buffered lines, keeping
    /// the first, possibly partial, line when the start of the file has not
    /// been reached.
    fn split_chunk(&mut self)
        requires
            old(self).wf(),
            old(self).buffered@.len() == 0,
            old(self).pos == 0 || has_two_newlines(old(self).chunk@),
        ensures
            final(self).wf(),
            final(self).size == old(self).size,
            final(self).seen == old(self).seen,
            final(self).pos == old(self).pos,
            final(self).emitted == old(self).emitted,
            final(self).buffered@.len() == 0 ==> final(self).finished(),
            final(self).pending() <= old(self).pending(),
    {
        let ghost chunk0 = self.chunk@;
        let ghost rest0 = self.rest@;
        if self.pos == 0 {
            let lines = split_lines(&self.chunk, 0);
            proof {
                assert(chunk0.skip(0) =~= chunk0);
                if rest0.len() == 0 {
                    assert(chunk0 + rest0 =~= chunk0);
                    assert(lines_of(chunk0) + lines_of(rest0) =~= lines_of(chunk0));
                } else {
                    lemma_lines_concat(chunk0, rest0);
                }
                lemma_lines_len(chunk0);
            }
            self.buffered = lines;
            self.chunk = Vec::new();
            proof {
                self.rest@ = chunk0 + rest0;
                assert(self.seen@ =~= self.chunk@ + self.rest@);
            }
        } else {
            let k = find_newline(&self.chunk, 0);
            let lines = split_lines(&self.chunk, k + 1);
            let ghost tail = chunk0.skip(k + 1);
            proof {
                let (i, j) = choose|i: int, j: int| 0 <= i < j < chunk0.len() && chunk0[i] == NL && chunk0[j] == NL;
                assert(k <= i);
                assert(tail[j - k - 1] == NL);
                assert(tail.last() == chunk0.last());
                if rest0.len() == 0 {
                    assert(tail + rest0 =~= tail);
                    assert(lines_of(tail) + lines_of(rest0) =~= lines_of(tail));
                } else {
                    lemma_lines_concat(tail, rest0);
                }
                lemma_lines_len(tail);
            }
            self.buffered = lines;
            self.chunk.truncate(k + 1);
            proof {
                self.rest@ = tail + rest0;
                assert(self.chunk@ =~= chunk0.take(k + 1));
                assert(self.seen@ =~= self.chunk@ + self.rest@);
                assert(self.chunk@.last() == NL);
            }
        }
    }

    /// Hands over the bytes asked for by the last `Read`.
    pub fn supply(&mut self, bytes: Vec<u8>)
        requires
            old(self).wf(),
            old(self).needs_read(),
            bytes@.len() + read_start(old(self).position()) == old(self).position(),
        ensures
            final(self).wf(),
            final(self).hands_out_last_lines(),
            final(self).file_size() == old(self).file_size(),
            final(self).position() == read_start(old(self).position()),
            final(self).position() < old(self).position(),
            final(self).read_so_far() == bytes@ + old(self).read_so_far(),
            final(self).emitted() == old(self).emitted(),
    {
        let ghost chunk0 = self.chunk@;
        let start = if self.pos < BUFSIZE {
            0
        } else {
            self.pos - BUFSIZE
        };
        let mut bytes = bytes;
        let ghost b0 = bytes@;
        bytes.append(&mut self.chunk);
        self.chunk = bytes;
        self.pos = start;
        proof {
            let s0 = self.seen@;
            self.seen@ = b0 + s0;
            assert(self.seen@ =~= self.chunk@ + self.rest@);
            if chunk0.len() > 0 {
                assert(self.chunk@.last() == chunk0.last());
            }
            lemma_hands_out_last_lines(self);
        }
    }
}

/// A consistent reader hands out the last lines of the file.
pub proof fn lemma_hands_out_last_lines(it: &RevLogIter)
    requires
        it.wf(),
    ensures
        it.hands_out_last_lines(),
{
    assert forall|before: Seq<u8>| before.len() == it.position() implies
        it.emitted().reverse().is_suffix_of(#[trigger] lines_of(before + it.read_so_far())) by {
        lemma_emitted_are_last_lines(it, before);
    }
}

/// Once the reader has finished, it has read the whole file and handed out
/// every one of its lines, the last one first.
pub proof fn lemma_finished_read_everything(it: &RevLogIter)
    requires
        it.wf(),
        it.finished(),
    ensures
        it.position() == 0,
        it.read_so_far().len() == it.file_size(),
        it.emitted() == lines_of(it.read_so_far()).reverse(),
{
    assert(it.seen@ =~= it.rest@);
    assert(views(it.buffered@) =~= Seq::<Seq<u8>>::empty());
    assert(lines_of(it.rest@) =~= it.emitted@.reverse());
    assert(it.emitted@.reverse().reverse() =~= it.emitted@);
}

/// Whatever comes before the part of the file read so far, the lines handed
/// out are the last lines of the file, last one first: reversed, they end
/// the file's lines.
pub proof fn lemma_emitted_are_last_lines(it: &RevLogIter, before: Seq<u8>)
    requires
        it.wf(),
        before.len() == it.position(),
    ensures
        it.emitted().reverse().is_suffix_of(lines_of(before + it.read_so_far())),
{
    let whole = before + it.seen@;
    let tail = views(it.buffered@) + it.emitted@.reverse();
    if it.rest@.len() == 0 {
        assert(it.emitted@.len() == 0) by {
            assert(lines_of(it.rest@).len() == 0);
            assert(tail.len() == views(it.buffered@).len() + it.emitted@.len());
        }
        assert(it.emitted@.reverse() =~= Seq::<Seq<u8>>::empty());
    } else if it.chunk@.len() == 0 {
        assert(before.len() == 0);
        assert(whole =~= it.rest@);
        assert(lines_of(whole) =~= views(it.buffered@) + it.emitted@.reverse());
    } else {
        let head = before + it.chunk@;
        assert(head.last() == NL);
        lemma_lines_concat(head, it.rest@);
        assert(whole =~= head + it.rest@);
        assert(lines_of(whole) =~= lines_of(head) + views(it.buffered@) + it.emitted@.reverse());
    }
    let lw = lines_of(whole);
    let r = it.emitted@.reverse();
    assert(r =~= lw.subrange(lw.len() - r.len(), lw.len() as int));
}

} // verus!
