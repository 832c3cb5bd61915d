//! Queue-descriptor table: allocates opaque integer handles with a type tag
//! and releases them on close. Descriptor values are never reused within one
//! table's lifetime (monotonic counter), so stale references are easy to
//! diagnose, and a double free is rejected.

use vstd::prelude::*;
use crate::fail::{Fail, EBADF};

verus! {

/// The kind of I/O queue a descriptor refers to.
#[derive(Clone, Copy, Debug, PartialEq, Eq, Structural)]
pub enum QType {
    /// A TCP (stream) socket.
    TcpSocket,
    /// A UDP (datagram) socket.
    UdpSocket,
}

/// Opaque handle into the queue table.
#[derive(Clone, Copy, Debug, PartialEq, Eq, Structural)]
pub struct QDesc {
    /// The raw slot number.
    pub val: u32,
}

/// Table of queue descriptors. A slot holds `Some(kind)` while the
/// descriptor is live and `None` once it has been freed; slots are never
/// recycled.
pub struct IoQueueTable {
    entries: Vec<Option<QType>>,
}

impl IoQueueTable {
    /// All slots ever allocated, in allocation order; freed slots are `None`.
    pub closed spec fn view(self) -> Seq<Option<QType>> {
        self.entries@
    }

    /// True when `qd` names a live (allocated, not yet freed) descriptor.
    pub open spec fn is_live(self, qd: QDesc) -> bool {
        qd.val < self.view().len() && self.view()[qd.val as int] is Some
    }

    /// Creates an empty table.
    pub fn new() -> (r: IoQueueTable)
        ensures
            r@ == Seq::<Option<QType>>::empty(),
    {
        IoQueueTable { entries: Vec::new() }
    }

    /// Number of slots ever allocated.
    pub fn len(&self) -> (r: usize)
        ensures
            r == self@.len(),
    {
        self.entries.len()
    }

    /// Allocates a fresh descriptor with the given type tag. The returned
    /// value is the monotonic slot counter, so no previously issued
    /// descriptor is ever returned again.
    pub fn allocate(&mut self, qtype: QType) -> (r: QDesc)
        requires
            old(self)@.len() < u32::MAX,
        ensures
            final(self)@ == old(self)@.push(Some(qtype)),
            r.val == old(self)@.len(),
            final(self).is_live(r),
    {
        let qd = QDesc { val: self.entries.len() as u32 };
        self.entries.push(Some(qtype));
        qd
    }

    /// Looks a descriptor up, returning its type tag while it is live.
    pub fn get(&self, qd: QDesc) -> (r: Option<QType>)
        ensures
            r == (if qd.val < self@.len() {
                self@[qd.val as int]
            } else {
                None::<QType>
            }),
    {
        if (qd.val as usize) < self.entries.len() {
            self.entries[qd.val as usize]
        } else {
            None
        }
    }

    /// Releases a descriptor. A descriptor that was never allocated, or was
    /// already freed, is rejected with `EBADF`.
    pub fn free(&mut self, qd: QDesc) -> (r: Result<(), Fail>)
        ensures
            old(self).is_live(qd) ==> r is Ok
                && final(self)@ == old(self)@.update(qd.val as int, None::<QType>),
            !old(self).is_live(qd) ==> (r matches Err(f) && f.errno == EBADF
                && final(self)@ == old(self)@),
    {
        if (qd.val as usize) < self.entries.len() && self.entries[qd.val as usize].is_some() {
            self.entries.set(qd.val as usize, None);
            Ok(())
        } else {
            Err(Fail::new(EBADF))
        }
    }
}

} // verus!
