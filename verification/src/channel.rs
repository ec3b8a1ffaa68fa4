//! The data channel: a bounded FIFO of reading batches between the poller
//! and the session.
//!
//! The insert never blocks and never grows the queue past its capacity: a
//! batch offered to a full channel is dropped on the spot and is not
//! delivered later. Telemetry is best-effort; a stalled network must never
//! back up into the poller.

use vstd::prelude::*;

use crate::reading::Reading;

verus! {

/// Bounded drop-on-full FIFO of reading batches.
pub struct DataChannel {
    buf: Vec<Vec<Reading>>,
    capacity: usize,
}

impl DataChannel {
    /// The queued batches, oldest first.
    pub closed spec fn batches(&self) -> Seq<Vec<Reading>> {
        self.buf@
    }

    /// The fixed capacity the channel was created with.
    pub closed spec fn cap(&self) -> nat {
        self.capacity as nat
    }

    /// The queue never holds more batches than its capacity.
    pub open spec fn wf(&self) -> bool {
        self.batches().len() <= self.cap()
    }

    /// Creates an empty channel of the given capacity.
    pub fn new(capacity: usize) -> (c: DataChannel)
        ensures
            c.wf(),
            c.cap() == capacity,
            c.batches() == Seq::<Vec<Reading>>::empty(),
    {
        DataChannel { buf: Vec::new(), capacity }
    }

    /// Number of batches currently queued.
    pub fn len(&self) -> (n: usize)
        ensures
            n == self.batches().len(),
    {
        self.buf.len()
    }

    /// Offers a batch without blocking. A full channel refuses it: the
    /// batch is dropped and the queue is left exactly as it was, so a
    /// refused batch can never surface later.
    pub fn try_send(&mut self, batch: Vec<Reading>) -> (accepted: bool)
        requires
            old(self).wf(),
        ensures
            final(self).wf(),
            final(self).cap() == old(self).cap(),
            accepted == (old(self).batches().len() < old(self).cap()),
            accepted ==> final(self).batches() == old(self).batches().push(batch),
            !accepted ==> final(self).batches() == old(self).batches(),
    {
        if self.buf.len() < self.capacity {
            self.buf.push(batch);
            true
        } else {
            false
        }
    }

    /// Takes the oldest queued batch, if any. Waiting for one to arrive is
    /// the caller's affair.
    pub fn try_recv(&mut self) -> (r: Option<Vec<Reading>>)
        requires
            old(self).wf(),
        ensures
            final(self).wf(),
            final(self).cap() == old(self).cap(),
            old(self).batches().len() == 0 ==> r is None
                && final(self).batches() == old(self).batches(),
            old(self).batches().len() > 0 ==> r == Some(old(self).batches()[0])
                && final(self).batches() == old(self).batches().drop_first(),
    {
        if self.buf.len() == 0 {
            None
        } else {
            let batch = self.buf.remove(0);
            proof {
                assert(self.batches() =~= old(self).batches().drop_first());
            }
            Some(batch)
        }
    }
}

} // verus!
