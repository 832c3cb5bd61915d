//! User memory region for the zero-copy transport: a pre-registered region
//! carved into fixed-size chunks. The registration metadata (total size,
//! chunk size, headroom) is immutable after construction; buffers are
//! checked out of the region's pool and returned to it, never allocated
//! afresh. The region's base address is a raw pointer that only the packet
//! driver reads; it stays with the unverified registration code, which binds
//! it to this model's chunk identifiers.

use vstd::prelude::*;
use crate::buffer::{BufferPool, DataBuffer};
use crate::fail::Fail;

verus! {

/// A registered user memory region.
#[derive(Debug)]
pub struct UmemReg {
    total_size: u64,
    headroom: u16,
    pool: BufferPool,
}

impl UmemReg {
    /// Total bytes in the region.
    pub closed spec fn spec_total_size(self) -> u64 {
        self.total_size
    }

    /// Bytes of every chunk, headroom included.
    pub closed spec fn spec_chunk_size(self) -> u16 {
        self.pool.spec_chunk_size()
    }

    /// Headroom reserved at the front of every checked-out buffer.
    pub closed spec fn spec_headroom(self) -> u16 {
        self.headroom
    }

    /// Chunks currently checked out.
    pub closed spec fn in_use(self) -> Set<u32> {
        self.pool.in_use()
    }

    /// Chunks currently free.
    pub closed spec fn spec_free_count(self) -> nat {
        self.pool.spec_free_count()
    }

    /// Structural soundness of the region.
    pub closed spec fn wf(self) -> bool {
        &&& self.pool.wf()
        &&& self.headroom <= self.pool.spec_chunk_size()
        &&& self.total_size == self.pool.spec_total_chunks() as u64
            * self.pool.spec_chunk_size() as u64
    }

    /// Registers a region of `count` chunks of `chunk_size` bytes, each
    /// reserving `headroom` front bytes for framing headers. A zero chunk
    /// size or a headroom larger than a chunk is rejected with `EINVAL`; a
    /// region with no chunks is rejected with `ENOMEM`.
    pub fn new(count: u32, chunk_size: u16, headroom: u16) -> (r: Result<UmemReg, Fail>)
        ensures
            r matches Ok(u) ==> ({
                &&& u.wf()
                &&& count > 0
                &&& 0 < chunk_size
                &&& headroom <= chunk_size
                &&& u.spec_total_size() == count as u64 * chunk_size as u64
                &&& u.spec_chunk_size() == chunk_size
                &&& u.spec_headroom() == headroom
                &&& u.spec_free_count() == count
                &&& u.in_use() =~= Set::<u32>::empty()
            }),
            count > 0 && 0 < chunk_size && headroom <= chunk_size ==> r is Ok,
            // A zero chunk size or an oversized headroom is invalid; a
            // region with no chunks at all is out of memory.
            chunk_size == 0 || headroom > chunk_size ==> (r matches Err(f) && f.errno
                == crate::fail::EINVAL),
            chunk_size > 0 && headroom <= chunk_size && count == 0 ==> (r matches Err(f) && f.errno
                == crate::fail::ENOMEM),
    {
        if headroom > chunk_size {
            return Err(Fail::new(crate::fail::EINVAL));
        }
        let pool = BufferPool::new(count, chunk_size)?;
        proof {
            assert(count as u64 * chunk_size as u64 <= u32::MAX as u64 * u16::MAX as u64)
                by (nonlinear_arith)
                requires count <= u32::MAX && chunk_size <= u16::MAX;
        }
        let total_size: u64 = count as u64 * chunk_size as u64;
        Ok(UmemReg { total_size, headroom, pool })
    }

    /// Usable bytes of one chunk, headroom excluded.
    pub fn chunk_capacity(&self) -> (r: u16)
        requires
            self.wf(),
        ensures
            r == self.spec_chunk_size() - self.spec_headroom(),
    {
        self.pool.chunk_size() - self.headroom
    }

    /// Checks a buffer out of the region's pool. The buffer shows
    /// `chunk_size - headroom` zeroed bytes behind `headroom` bytes of
    /// reserved front space. Returns `None` when every chunk is in use.
    pub fn get_buffer(&mut self) -> (r: Option<DataBuffer>)
        requires
            old(self).wf(),
        ensures
            final(self).wf(),
            final(self).spec_total_size() == old(self).spec_total_size(),
            final(self).spec_chunk_size() == old(self).spec_chunk_size(),
            final(self).spec_headroom() == old(self).spec_headroom(),
            old(self).spec_free_count() == 0 ==> r is None
                && final(self).in_use() == old(self).in_use(),
            old(self).spec_free_count() > 0 ==> ({
                &&& r matches Some(b)
                &&& b.wf()
                &&& b@.len() == old(self).spec_chunk_size() - old(self).spec_headroom()
                &&& forall|i: int| 0 <= i < b@.len() ==> b@[i] == 0u8
                &&& b.spec_headroom() == old(self).spec_headroom()
                &&& b.spec_chunk() matches Some(id)
                &&& !old(self).in_use().contains(id)
                &&& final(self).in_use() == old(self).in_use().insert(id)
                &&& final(self).spec_free_count() == old(self).spec_free_count() - 1
            }),
    {
        match self.pool.checkout() {
            None => None,
            Some(mut buf) => {
                let ghost full = buf@;
                buf.trim_front(self.headroom as usize);
                proof {
                    assert forall|i: int| 0 <= i < buf@.len() implies buf@[i] == 0u8 by {
                        assert(buf@[i] == full[i + self.headroom as int]);
                    }
                }
                Some(buf)
            },
        }
    }

    /// Returns a chunk to the region's pool. An identifier that is not
    /// checked out is rejected with `EINVAL`, so freeing a chunk twice is
    /// impossible.
    pub fn put_buffer(&mut self, id: u32) -> (r: Result<(), Fail>)
        requires
            old(self).wf(),
        ensures
            final(self).wf(),
            final(self).spec_total_size() == old(self).spec_total_size(),
            final(self).spec_chunk_size() == old(self).spec_chunk_size(),
            final(self).spec_headroom() == old(self).spec_headroom(),
            old(self).in_use().contains(id) ==> (r is Ok
                && final(self).in_use() == old(self).in_use().remove(id)
                && final(self).spec_free_count() == old(self).spec_free_count() + 1),
            !old(self).in_use().contains(id) ==> (r matches Err(f)
                && f.errno == crate::fail::EINVAL
                && final(self).in_use() == old(self).in_use()),
    {
        self.pool.give_back(id)
    }
}

} // verus!
