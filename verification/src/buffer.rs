//! The disk-backed write buffer's verified core: an append-only, auto-spilling
//! byte sink.
//!
//! Bytes accumulate in an in-memory region of fixed capacity; whenever the
//! region fills up, its contents move in order onto the spill queue. The
//! caller (which owns the backing file — an I/O concern this library does not
//! touch) periodically drains the spill queue and appends it to the file, and
//! calls `flush` once at the end so that nothing stays buffered. The contract
//! guarantees zero loss and zero reordering: the history of every byte ever
//! written equals the drained bytes, then the queued bytes, then the buffered
//! bytes.

use vstd::prelude::*;

verus! {

pub struct WriteBuffer {
    /// In-memory region that has not reached capacity yet.
    region: Vec<u8>,
    /// Bytes spilled out of the region, not yet handed to the caller.
    spill: Vec<u8>,
    /// Capacity of the in-memory region.
    capacity: usize,
    /// Whether any byte was ever written.
    started: bool,
    /// All bytes ever written, in order.
    hist: Ghost<Seq<u8>>,
    /// All bytes already handed out by `drain`, in order.
    given: Ghost<Seq<u8>>,
}

impl WriteBuffer {
    /// Every byte ever written to this buffer, in order.
    pub closed spec fn history(&self) -> Seq<u8> {
        self.hist@
    }

    /// The bytes the caller has already drained (persisted), in order.
    pub closed spec fn drained(&self) -> Seq<u8> {
        self.given@
    }

    /// Spilled bytes waiting for the caller to drain them.
    pub closed spec fn queued(&self) -> Seq<u8> {
        self.spill@
    }

    /// Bytes still sitting in the in-memory region.
    pub closed spec fn buffered(&self) -> Seq<u8> {
        self.region@
    }

    /// The buffer never loses or reorders a byte: the written history is
    /// exactly the drained bytes, the queued bytes and the buffered bytes,
    /// in that order.
    pub closed spec fn wf(&self) -> bool {
        &&& self.hist@ == self.given@ + self.spill@ + self.region@
        &&& self.capacity >= 1
        &&& self.started == (self.hist@.len() > 0)
    }

    /// A fresh buffer with the given in-memory capacity and nothing written.
    pub fn new(capacity: usize) -> (b: WriteBuffer)
        requires
            capacity >= 1,
        ensures
            b.wf(),
            b.history() == Seq::<u8>::empty(),
            b.drained() == Seq::<u8>::empty(),
    {
        WriteBuffer {
            region: Vec::new(),
            spill: Vec::new(),
            capacity,
            started: false,
            hist: Ghost(Seq::empty()),
            given: Ghost(Seq::empty()),
        }
    }

    /// Appends bytes to the in-memory region, spilling the whole region onto
    /// the queue once it reaches capacity.
    pub fn write(&mut self, bytes: &[u8])
        requires
            old(self).wf(),
        ensures
            final(self).wf(),
            final(self).history() == old(self).history() + bytes@,
            final(self).drained() == old(self).drained(),
    {
        self.region.extend_from_slice(bytes);
        proof {
            self.hist@ = self.hist@ + bytes@;
            if bytes@.len() > 0 {
                assert(self.hist@.len() > 0);
            }
        }
        if bytes.len() > 0 {
            self.started = true;
        }
        if self.region.len() >= self.capacity {
            self.spill.extend_from_slice(self.region.as_slice());
            self.region.clear();
        }
        proof {
            assert(self.hist@ =~= self.given@ + self.spill@ + self.region@);
        }
    }

    /// Appends a single byte; used for the separators and newlines of the
    /// record format.
    pub fn write_byte(&mut self, byte: u8)
        requires
            old(self).wf(),
        ensures
            final(self).wf(),
            final(self).history() == old(self).history() + seq![byte],
            final(self).drained() == old(self).drained(),
    {
        self.region.push(byte);
        proof {
            self.hist@ = self.hist@ + seq![byte];
        }
        self.started = true;
        if self.region.len() >= self.capacity {
            self.spill.extend_from_slice(self.region.as_slice());
            self.region.clear();
        }
        proof {
            assert(self.hist@ =~= self.given@ + self.spill@ + self.region@);
        }
    }

    /// Moves everything still buffered onto the spill queue, so that a final
    /// `drain` hands out every remaining byte. Idempotent: flushing twice is
    /// the same as flushing once.
    pub fn flush(&mut self)
        requires
            old(self).wf(),
        ensures
            final(self).wf(),
            final(self).history() == old(self).history(),
            final(self).drained() == old(self).drained(),
            final(self).buffered() == Seq::<u8>::empty(),
    {
        self.spill.extend_from_slice(self.region.as_slice());
        self.region.clear();
        proof {
            assert(self.hist@ =~= self.given@ + self.spill@ + self.region@);
        }
    }

    /// Hands the queued bytes to the caller, which must append them to the
    /// backing file; the drained bytes thus always equal the file's contents.
    pub fn drain(&mut self) -> (out: Vec<u8>)
        requires
            old(self).wf(),
        ensures
            final(self).wf(),
            final(self).history() == old(self).history(),
            out@ == old(self).queued(),
            final(self).queued() == Seq::<u8>::empty(),
            final(self).drained() == old(self).drained() + out@,
            final(self).buffered() == old(self).buffered(),
    {
        let mut out: Vec<u8> = Vec::new();
        core::mem::swap(&mut out, &mut self.spill);
        proof {
            self.given@ = self.given@ + out@;
            assert(self.hist@ =~= self.given@ + self.spill@ + self.region@);
        }
        out
    }

    /// Whether zero bytes have ever been written, across every spill and
    /// drain so far.
    pub fn is_empty(&self) -> (r: bool)
        requires
            self.wf(),
        ensures
            r == (self.history().len() == 0),
    {
        !self.started
    }
}

} // verus!
