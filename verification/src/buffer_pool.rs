//! A fixed-capacity pool of reusable read buffers.

use vstd::prelude::*;

verus! {

/// A read buffer. The pool hands out and takes back buffers of one size.
pub type Buffer = Vec<u8>;

/// A buffer of `size` zero bytes.
pub open spec fn zeroed(size: nat) -> Seq<u8> {
    Seq::new(size, |i: int| 0u8)
}

/// A stack of free buffers with a fixed number of slots. Its view is the
/// contents of the free buffers, the one handed out next being last.
pub struct ReuseBuffers {
    buffers: Vec<Option<Buffer>>,
    len: usize,
    buffer_size: usize,
}

impl View for ReuseBuffers {
    type V = Seq<Seq<u8>>;

    closed spec fn view(&self) -> Seq<Seq<u8>> {
        Seq::new(self.len as nat, |i: int| self.buffers@[i].unwrap()@)
    }
}

impl ReuseBuffers {
    /// The number of slots: the buffers that are free plus those handed out.
    pub closed spec fn capacity(&self) -> nat {
        self.buffers@.len()
    }

    /// The length of every buffer of this pool.
    pub closed spec fn buffer_size(&self) -> nat {
        self.buffer_size as nat
    }

    /// The number of buffers that are handed out.
    pub open spec fn checked_out(&self) -> nat {
        (self.capacity() - self@.len()) as nat
    }

    /// The free buffers fill the slots from the bottom, each has the pool's
    /// buffer size, and the slots above them are empty.
    pub closed spec fn wf(&self) -> bool {
        &&& self.len <= self.buffers@.len()
        &&& forall|i: int|
            0 <= i < self.len ==> (#[trigger] self.buffers@[i]).is_some()
                && self.buffers@[i].unwrap()@.len() == self.buffer_size
        &&& forall|i: int|
            self.len <= i < self.buffers@.len() ==> (#[trigger] self.buffers@[i]).is_none()
    }

    /// A well-formed pool never holds more free buffers than it has slots,
    /// and each free buffer has the pool's buffer size.
    pub proof fn lemma_bounds(&self)
        requires
            self.wf(),
        ensures
            self@.len() <= self.capacity(),
            self.checked_out() + self@.len() == self.capacity(),
            forall|i: int|
                0 <= i < self@.len() ==> (#[trigger] self@[i]).len() == self.buffer_size(),
    {
    }

    /// A pool of `ring_size` free buffers of `buffer_size` zero bytes each.
    pub fn new(ring_size: usize, buffer_size: usize) -> (pool: Self)
        ensures
            pool.wf(),
            pool.capacity() == ring_size,
            pool.buffer_size() == buffer_size,
            pool@ == Seq::new(ring_size as nat, |i: int| zeroed(buffer_size as nat)),
    {
        let mut buffers: Vec<Option<Buffer>> = Vec::new();
        let mut filled: usize = 0;
        while filled < ring_size
            invariant
                filled <= ring_size,
                buffers@.len() == filled,
                forall|i: int|
                    0 <= i < filled ==> (#[trigger] buffers@[i]).is_some() && buffers@[i].unwrap()@
                        == zeroed(buffer_size as nat),
            decreases ring_size - filled,
        {
            let buffer: Buffer = vec![0u8; buffer_size];
            assert(buffer@ =~= zeroed(buffer_size as nat));
            buffers.push(Some(buffer));
            filled += 1;
        }
        let pool = ReuseBuffers { buffers, len: ring_size, buffer_size };
        assert(pool@ =~= Seq::new(ring_size as nat, |i: int| zeroed(buffer_size as nat)));
        pool
    }

    /// The number of free buffers.
    pub fn available(&self) -> (free: usize)
        ensures
            free == self@.len(),
    {
        self.len
    }

    /// Hands out the free buffer that was returned last.
    pub fn get(&mut self) -> (buffer: Buffer)
        requires
            old(self).wf(),
            old(self)@.len() > 0,
        ensures
            final(self).wf(),
            buffer@ == old(self)@.last(),
            final(self)@ == old(self)@.drop_last(),
            final(self).capacity() == old(self).capacity(),
            final(self).buffer_size() == old(self).buffer_size(),
    {
        let index = self.len - 1;
        self.len -= 1;
        let buffer = self.buffers[index].take().unwrap();
        assert(self@ =~= old(self)@.drop_last());
        buffer
    }

    /// Takes a buffer back. It is the next one handed out.
    pub fn put(&mut self, buffer: Buffer)
        requires
            old(self).wf(),
            old(self)@.len() < old(self).capacity(),
            buffer@.len() == old(self).buffer_size(),
        ensures
            final(self).wf(),
            final(self)@ == old(self)@.push(buffer@),
            final(self).capacity() == old(self).capacity(),
            final(self).buffer_size() == old(self).buffer_size(),
    {
        let index = self.len;
        assert(index < self.buffers.len());
        self.len += 1;
        self.buffers[index] = Some(buffer);
        assert(self@ =~= old(self)@.push(buffer@));
    }
}

} // verus!
