//! Replay buffer handed back by a detector.
//!
//! A detector reads ahead of the bytes it actually consumes. The bytes it
//! read but did not consume are wrapped in a [`PrefixedStream`], which the
//! downstream protocol handler drains before falling through to live reads
//! on the underlying transport (the fall-through lives outside this crate).

use vstd::prelude::*;

verus! {

/// Bytes already pulled off the wire but not yet delivered downstream.
///
/// Delivery is in original wire order: `take` always returns the oldest
/// buffered bytes first, and once the buffer is drained it is never
/// repopulated.
pub struct PrefixedStream {
    buf: Vec<u8>,
    pos: usize,
}

impl PrefixedStream {
    /// The bytes still owed to the consumer, oldest first.
    pub closed spec fn view(&self) -> Seq<u8> {
        self.buf@.subrange(self.pos as int, self.buf@.len() as int)
    }

    pub closed spec fn wf(&self) -> bool {
        self.pos <= self.buf@.len()
    }

    pub fn new(buf: Vec<u8>) -> (r: Self)
        ensures
            r@ == buf@,
            r.wf(),
    {
        let r = PrefixedStream { buf, pos: 0 };
        proof {
            assert(r@ =~= r.buf@);
        }
        r
    }

    /// How many buffered bytes remain undelivered.
    pub fn remaining(&self) -> (r: usize)
        requires
            self.wf(),
        ensures
            r == self@.len(),
    {
        self.buf.len() - self.pos
    }

    /// Whether every buffered byte has been delivered.
    pub fn is_drained(&self) -> (r: bool)
        requires
            self.wf(),
        ensures
            r == (self@.len() == 0),
    {
        self.buf.len() == self.pos
    }

    /// Delivers up to `n` buffered bytes, oldest first, removing them
    /// from the buffer. Once the result is shorter than `n`, the buffer
    /// is empty and stays empty: a subsequent read belongs to the
    /// underlying stream.
    pub fn take(&mut self, n: usize) -> (r: Vec<u8>)
        requires
            old(self).wf(),
        ensures
            final(self).wf(),
            r@.len() == if n <= old(self)@.len() { n as int } else { old(self)@.len() as int },
            r@ == old(self)@.subrange(0, r@.len() as int),
            final(self)@ == old(self)@.subrange(r@.len() as int, old(self)@.len() as int),
    {
        let avail = self.buf.len() - self.pos;
        let count = if n <= avail { n } else { avail };
        let end = self.pos + count;
        let mut r: Vec<u8> = Vec::new();
        let mut k: usize = self.pos;
        while k < end
            invariant
                old(self).wf(),
                *self == *old(self),
                count <= old(self)@.len(),
                end == self.pos + count,
                end <= self.buf@.len(),
                self.pos <= k <= end,
                r@ =~= old(self)@.subrange(0, k - self.pos),
            decreases end - k,
        {
            r.push(self.buf[k]);
            k += 1;
        }
        self.pos = end;
        proof {
            assert(r@ =~= old(self)@.subrange(0, r@.len() as int));
            assert(self@ =~= old(self)@.subrange(r@.len() as int, old(self)@.len() as int));
        }
        r
    }

    /// A copy of every byte still owed, oldest first, without consuming.
    pub fn peek_all(&self) -> (r: Vec<u8>)
        requires
            self.wf(),
        ensures
            r@ == self@,
    {
        let mut r: Vec<u8> = Vec::new();
        let mut i: usize = self.pos;
        while i < self.buf.len()
            invariant
                self.wf(),
                self.pos <= i <= self.buf@.len(),
                r@ =~= self.buf@.subrange(self.pos as int, i as int),
            decreases self.buf@.len() - i,
        {
            r.push(self.buf[i]);
            i += 1;
        }
        proof {
            assert(r@ =~= self@);
        }
        r
    }
}

/// One observation made while reading the head of a stream: a chunk of
/// bytes, the end of the stream, or the expiry of the detection timeout.
/// The I/O loop that produces these lives outside this crate; a zero
/// length chunk counts as end of stream.
pub enum ReadEvent {
    Data(Vec<u8>),
    Eof,
    TimedOut,
}

/// What a detector hands back: a classification and the replay buffer
/// holding every byte the detection read.
pub struct DetectionOutcome<K> {
    pub classification: K,
    pub remainder: PrefixedStream,
}

} // verus!
