//! A queue of bytes with an upper limit on its length.

use std::collections::VecDeque;
use vstd::prelude::*;

verus! {

/// The smaller of two lengths.
pub open spec fn shorter(a: nat, b: nat) -> nat {
    if a <= b {
        a
    } else {
        b
    }
}

/// A first-in first-out queue of at most `limit` bytes.
#[derive(Debug)]
pub struct ByteQueue {
    bytes: VecDeque<u8>,
    limit: usize,
}

impl View for ByteQueue {
    type V = Seq<u8>;

    closed spec fn view(&self) -> Seq<u8> {
        self.bytes@
    }
}

impl ByteQueue {
    /// The greatest number of bytes that the queue may hold.
    pub closed spec fn limit(&self) -> nat {
        self.limit as nat
    }

    /// The queue holds no more than its limit.
    pub open spec fn wf(&self) -> bool {
        self@.len() <= self.limit() <= usize::MAX
    }

    /// An empty queue.
    pub fn new(limit: usize) -> (queue: Self)
        ensures
            queue.wf(),
            queue@ == Seq::<u8>::empty(),
            queue.limit() == limit,
    {
        ByteQueue { bytes: VecDeque::with_capacity(limit), limit }
    }

    /// How many bytes the queue holds.
    pub fn len(&self) -> (len: usize)
        ensures
            len == self@.len(),
    {
        self.bytes.len()
    }

    /// How many more bytes the queue takes.
    pub fn free(&self) -> (free: usize)
        requires
            self.wf(),
        ensures
            free == self.limit() - self@.len(),
    {
        self.limit - self.bytes.len()
    }

    /// Puts the first `n` bytes of `src` at the end of the queue.
    pub fn append_from(&mut self, src: &[u8], n: usize)
        requires
            old(self).wf(),
            n <= src@.len(),
            n <= old(self).limit() - old(self)@.len(),
        ensures
            final(self).wf(),
            final(self).limit() == old(self).limit(),
            final(self)@ == old(self)@ + src@.take(n as int),
    {
        let mut i: usize = 0;
        while i < n
            invariant
                i <= n <= src@.len(),
                self.limit == old(self).limit,
                self.bytes@ == old(self).bytes@ + src@.take(i as int),
            decreases n - i,
        {
            self.bytes.push_back(src[i]);
            i += 1;
        }
    }

    /// Takes the first `n` bytes out of the queue and writes them to the start of `dst`.
    pub fn pop_to_slice(&mut self, dst: &mut [u8], n: usize)
        requires
            old(self).wf(),
            n <= old(self)@.len(),
            n <= old(dst)@.len(),
        ensures
            final(self).wf(),
            final(self).limit() == old(self).limit(),
            final(self)@ == old(self)@.skip(n as int),
            final(dst)@ == old(self)@.take(n as int) + old(dst)@.skip(n as int),
    {
        let ghost queued = self.bytes@;
        let ghost before = dst@;
        let mut i: usize = 0;
        while i < n
            invariant
                i <= n <= queued.len(),
                n <= before.len(),
                self.limit == old(self).limit,
                self.bytes@ == queued.skip(i as int),
                dst@ == queued.take(i as int) + before.skip(i as int),
            decreases n - i,
        {
            if let Some(byte) = self.bytes.pop_front() {
                dst[i] = byte;
            }
            i += 1;
        }
    }

    /// Takes the first `n` bytes out of the queue and puts them at the end of `dst`.
    pub fn pop_to_vec(&mut self, dst: &mut Vec<u8>, n: usize)
        requires
            old(self).wf(),
            n <= old(self)@.len(),
        ensures
            final(self).wf(),
            final(self).limit() == old(self).limit(),
            final(self)@ == old(self)@.skip(n as int),
            final(dst)@ == old(dst)@ + old(self)@.take(n as int),
    {
        let ghost queued = self.bytes@;
        let ghost before = dst@;
        let mut i: usize = 0;
        while i < n
            invariant
                i <= n <= queued.len(),
                self.limit == old(self).limit,
                self.bytes@ == queued.skip(i as int),
                dst@ == before + queued.take(i as int),
            decreases n - i,
        {
            if let Some(byte) = self.bytes.pop_front() {
                dst.push(byte);
            }
            i += 1;
        }
    }
}

impl Clone for ByteQueue {
    /// A queue with the same bytes. Its limit is their number: a clone is only made as long as
    /// what it holds.
    fn clone(&self) -> (queue: Self)
        ensures
            queue.wf(),
            queue@ == self@,
            queue.limit() == self@.len(),
    {
        let bytes = self.bytes.clone();
        assert(bytes@ =~= self.bytes@);
        let limit = self.bytes.len();
        ByteQueue { bytes, limit }
    }
}

/// Buffers with the same bytes.
pub(crate) fn clone_bufs(bufs: &Vec<Vec<u8>>) -> (copy: Vec<Vec<u8>>)
    ensures
        copy@.len() == bufs@.len(),
        forall|i: int| 0 <= i < copy@.len() ==> (#[trigger] copy@[i])@ == bufs@[i]@,
{
    let copy = bufs.clone();
    assert forall|i: int| 0 <= i < copy@.len() implies (#[trigger] copy@[i])@ == bufs@[i]@ by {
        assert(cloned::<Vec<u8>>(bufs@[i], copy@[i]));
        assert(copy@[i]@ =~= bufs@[i]@);
    }
    copy
}

/// Writes the first `n` bytes of `src` to the start of `dst`.
pub fn copy_front(src: &[u8], dst: &mut [u8], n: usize)
    requires
        n <= src@.len(),
        n <= old(dst)@.len(),
    ensures
        final(dst)@ == src@.take(n as int) + old(dst)@.skip(n as int),
{
    let ghost before = dst@;
    let mut i: usize = 0;
    while i < n
        invariant
            i <= n <= src@.len(),
            n <= before.len(),
            dst@ == src@.take(i as int) + before.skip(i as int),
        decreases n - i,
    {
        dst[i] = src[i];
        i += 1;
    }
}

} // verus!
