//! Buffer subsystem: a byte container with a headroom region, and a pool
//! allocator that carves a pre-registered memory region into fixed-size
//! chunks for the zero-copy transport.
//!
//! The headroom lets lower layers prepend framing headers without copying
//! the payload. A pool never grows after construction: checkout fails by
//! returning `None` rather than allocating new chunks.

use vstd::prelude::*;
use crate::fail::{Fail, EINVAL, ENOMEM};

verus! {

/// A byte container. The visible contents are `bytes[head..]`; the first
/// `head` bytes are headroom reserved for prepending headers.
#[derive(Debug)]
pub struct DataBuffer {
    bytes: Vec<u8>,
    head: usize,
    chunk: Option<u32>,
}

impl DataBuffer {
    /// The visible bytes, headroom excluded.
    pub closed spec fn view(self) -> Seq<u8> {
        self.bytes@.skip(self.head as int)
    }

    /// Current headroom in bytes.
    pub closed spec fn spec_headroom(self) -> nat {
        self.head as nat
    }

    /// The pool chunk this buffer was checked out of, if any.
    pub closed spec fn spec_chunk(self) -> Option<u32> {
        self.chunk
    }

    /// Structural soundness: the headroom offset stays inside the backing
    /// storage.
    pub closed spec fn wf(self) -> bool {
        self.head <= self.bytes@.len()
    }

    /// Allocates a zero-filled heap-backed buffer of `len` bytes with no
    /// headroom.
    pub fn new(len: u16) -> (r: DataBuffer)
        ensures
            r.wf(),
            r@ == Seq::<u8>::new(len as nat, |i: int| 0u8),
            r.spec_headroom() == 0,
            r.spec_chunk() is None,
    {
        let mut bytes: Vec<u8> = Vec::new();
        let mut i: usize = 0;
        while i < len as usize
            invariant
                i <= len as usize,
                bytes@ == Seq::<u8>::new(i as nat, |j: int| 0u8),
            decreases len as usize - i,
        {
            bytes.push(0);
            proof {
                assert(bytes@ =~= Seq::<u8>::new((i + 1) as nat, |j: int| 0u8));
            }
            i = i + 1;
        }
        DataBuffer { bytes, head: 0, chunk: None }
    }

    /// Copies a slice into a fresh heap-backed buffer with no headroom.
    pub fn from_slice(data: &[u8]) -> (r: DataBuffer)
        ensures
            r.wf(),
            r@ == data@,
            r.spec_headroom() == 0,
            r.spec_chunk() is None,
    {
        let mut bytes: Vec<u8> = Vec::new();
        let mut i: usize = 0;
        while i < data.len()
            invariant
                i <= data@.len(),
                bytes@ == data@.take(i as int),
            decreases data@.len() - i,
        {
            bytes.push(data[i]);
            proof {
                assert(bytes@ =~= data@.take((i + 1) as int));
            }
            i = i + 1;
        }
        proof {
            assert(bytes@ =~= data@);
        }
        DataBuffer { bytes, head: 0, chunk: None }
    }

    /// Number of visible bytes.
    pub fn len(&self) -> (r: usize)
        requires
            self.wf(),
        ensures
            r == self@.len(),
    {
        self.bytes.len() - self.head
    }

    /// Reads the visible byte at index `i`.
    pub fn at(&self, i: usize) -> (r: u8)
        requires
            self.wf(),
            i < self@.len(),
        ensures
            r == self@[i as int],
    {
        let storage_len = self.bytes.len();
        proof {
            assert(self@.len() == storage_len - self.head);
        }
        self.bytes[self.head + i]
    }

    /// Overwrites the visible byte at index `i`.
    pub fn set(&mut self, i: usize, v: u8)
        requires
            old(self).wf(),
            i < old(self)@.len(),
        ensures
            final(self).wf(),
            final(self)@ == old(self)@.update(i as int, v),
            final(self).spec_headroom() == old(self).spec_headroom(),
            final(self).spec_chunk() == old(self).spec_chunk(),
    {
        let storage_len = self.bytes.len();
        proof {
            assert(old(self)@.len() == storage_len - old(self).head);
        }
        let idx = self.head + i;
        self.bytes.set(idx, v);
        proof {
            assert(final(self)@ =~= old(self)@.update(i as int, v));
        }
    }

    /// Trims `n` bytes off the front by growing the headroom, as when a
    /// decoder strips a header in place.
    pub fn trim_front(&mut self, n: usize)
        requires
            old(self).wf(),
            n <= old(self)@.len(),
        ensures
            final(self).wf(),
            final(self)@ == old(self)@.skip(n as int),
            final(self).spec_headroom() == old(self).spec_headroom() + n,
            final(self).spec_chunk() == old(self).spec_chunk(),
    {
        let storage_len = self.bytes.len();
        proof {
            assert(old(self)@.len() == storage_len - old(self).head);
        }
        self.head = self.head + n;
        proof {
            assert(final(self)@ =~= old(self)@.skip(n as int));
        }
    }

    /// Exposes `n` bytes of headroom again, as when an encoder prepends a
    /// header in place. The exposed bytes keep whatever values the backing
    /// storage held.
    pub fn restore_front(&mut self, n: usize)
        requires
            old(self).wf(),
            n <= old(self).spec_headroom(),
        ensures
            final(self).wf(),
            final(self)@.len() == old(self)@.len() + n,
            final(self)@.skip(n as int) == old(self)@,
            final(self).spec_headroom() == old(self).spec_headroom() - n,
            final(self).spec_chunk() == old(self).spec_chunk(),
    {
        self.head = self.head - n;
        proof {
            assert(final(self)@.skip(n as int) =~= old(self)@);
        }
    }

    /// The pool chunk backing this buffer, if it came from a pool.
    pub fn chunk_id(&self) -> (r: Option<u32>)
        ensures
            r == self.spec_chunk(),
    {
        self.chunk
    }

    /// A second buffer with the same visible contents. Sharing the backing
    /// storage by reference count is an optimization this model renders as a
    /// copy; the duplicate is heap-backed and owns no pool chunk.
    pub fn duplicate(&self) -> (r: DataBuffer)
        requires
            self.wf(),
        ensures
            r.wf(),
            r@ == self@,
            r.spec_chunk() is None,
    {
        let bytes = self.to_vec();
        DataBuffer { bytes, head: 0, chunk: None }
    }

    /// Copies the visible bytes out into a fresh vector.
    pub fn to_vec(&self) -> (r: Vec<u8>)
        requires
            self.wf(),
        ensures
            r@ == self@,
    {
        let mut out: Vec<u8> = Vec::new();
        let n = self.len();
        let mut i: usize = 0;
        while i < n
            invariant
                self.wf(),
                n == self@.len(),
                i <= n,
                out@ == self@.take(i as int),
            decreases n - i,
        {
            out.push(self.at(i));
            proof {
                assert(out@ =~= self@.take((i + 1) as int));
            }
            i = i + 1;
        }
        proof {
            assert(out@ =~= self@);
        }
        out
    }
}

/// A pre-allocated region carved into fixed-size chunks. Chunk metadata is
/// immutable after construction; the in-use set is, by construction, the
/// complement of the free list among all chunk identifiers.
#[derive(Debug)]
pub struct BufferPool {
    chunk_size: u16,
    total_chunks: u32,
    free: Vec<u32>,
}

impl BufferPool {
    /// Fixed size of every chunk.
    pub closed spec fn spec_chunk_size(self) -> u16 {
        self.chunk_size
    }

    /// Number of chunks carved at construction.
    pub closed spec fn spec_total_chunks(self) -> u32 {
        self.total_chunks
    }

    /// The identifiers currently on the free list.
    pub closed spec fn free_set(self) -> Set<u32> {
        self.free@.to_set()
    }

    /// Number of chunks currently free.
    pub closed spec fn spec_free_count(self) -> nat {
        self.free@.len()
    }

    /// The identifiers currently checked out.
    pub open spec fn in_use(self) -> Set<u32> {
        Set::new(|id: u32| id < self.spec_total_chunks() && !self.free_set().contains(id))
    }

    /// Structural soundness: the free list holds distinct identifiers of
    /// real chunks, and chunks are non-empty.
    pub closed spec fn wf(self) -> bool {
        &&& self.free@.no_duplicates()
        &&& forall|i: int| 0 <= i < self.free@.len() ==> (#[trigger] self.free@[i]) < self.total_chunks
        &&& self.chunk_size > 0
    }

    /// Carves a region into `count` chunks of `chunk_size` bytes each. A
    /// zero chunk size is rejected with `EINVAL`; a pool with no chunks at
    /// all is rejected with `ENOMEM`.
    pub fn new(count: u32, chunk_size: u16) -> (r: Result<BufferPool, Fail>)
        ensures
            chunk_size == 0 ==> (r matches Err(f) && f.errno == EINVAL),
            chunk_size > 0 && count == 0 ==> (r matches Err(f) && f.errno == ENOMEM),
            chunk_size > 0 && count > 0 ==> (r matches Ok(p)
                && p.wf()
                && p.spec_chunk_size() == chunk_size
                && p.spec_total_chunks() == count
                && p.spec_free_count() == count
                && p.in_use() =~= Set::<u32>::empty()),
    {
        if chunk_size == 0 {
            return Err(Fail::new(EINVAL));
        }
        if count == 0 {
            return Err(Fail::new(ENOMEM));
        }
        let mut free: Vec<u32> = Vec::new();
        let mut i: u32 = 0;
        while i < count
            invariant
                i <= count,
                free@.len() == i as nat,
                forall|j: int| 0 <= j < i ==> (#[trigger] free@[j]) == j,
            decreases count - i,
        {
            free.push(i);
            i = i + 1;
        }
        let p = BufferPool { chunk_size, total_chunks: count, free };
        proof {
            assert(p.free@.no_duplicates());
            assert forall|id: u32| p.in_use().contains(id) implies false by {
                if id < count {
                    assert(p.free@[id as int] == id);
                    assert(p.free_set().contains(id));
                }
            }
            assert(p.in_use() =~= Set::<u32>::empty());
        }
        Ok(p)
    }

    /// Fixed chunk size of this pool.
    pub fn chunk_size(&self) -> (r: u16)
        ensures
            r == self.spec_chunk_size(),
    {
        self.chunk_size
    }

    /// Checks one chunk out of the pool as a zero-filled buffer whose
    /// headroom is initially empty. When no chunk is free, returns `None`
    /// rather than growing the pool; otherwise the returned buffer's chunk
    /// moves from the free list to the in-use set.
    pub fn checkout(&mut self) -> (r: Option<DataBuffer>)
        requires
            old(self).wf(),
        ensures
            final(self).wf(),
            final(self).spec_chunk_size() == old(self).spec_chunk_size(),
            final(self).spec_total_chunks() == old(self).spec_total_chunks(),
            old(self).spec_free_count() == 0 ==> r is None
                && final(self).in_use() == old(self).in_use()
                && final(self).spec_free_count() == 0,
            old(self).spec_free_count() > 0 ==> ({
                &&& r matches Some(b)
                &&& b.wf()
                &&& b@ == Seq::<u8>::new(old(self).spec_chunk_size() as nat, |i: int| 0u8)
                &&& b.spec_headroom() == 0
                &&& b.spec_chunk() matches Some(id)
                &&& old(self).free_set().contains(id)
                &&& !old(self).in_use().contains(id)
                &&& final(self).in_use() == old(self).in_use().insert(id)
                &&& final(self).spec_free_count() == old(self).spec_free_count() - 1
            }),
    {
        match self.free.pop() {
            None => None,
            Some(id) => {
                let mut buf = DataBuffer::new(self.chunk_size);
                buf.chunk = Some(id);
                proof {
                    let of = old(self).free@;
                    assert(of[of.len() - 1] == id);
                    assert(of.contains(id));
                    assert(old(self).free_set().contains(id));
                    assert(id < old(self).total_chunks);
                    // The popped identifier occurs nowhere else on the free
                    // list, so the remaining free set is the old one minus it.
                    assert forall|x: u32| #[trigger] self.free_set().contains(x)
                        implies old(self).free_set().contains(x) && x != id by {
                        let j = choose|j: int| 0 <= j < self.free@.len() && self.free@[j] == x;
                        assert(of[j] == x);
                        assert(of.contains(x));
                        if x == id {
                            assert(of[j] == of[of.len() - 1]);
                            assert(!of.no_duplicates());
                        }
                    }
                    assert forall|x: u32| old(self).free_set().contains(x) && x != id
                        implies #[trigger] self.free_set().contains(x) by {
                        let j = choose|j: int| 0 <= j < of.len() && of[j] == x;
                        assert(j < of.len() - 1);
                        assert(self.free@[j] == x);
                        assert(self.free@.contains(x));
                    }
                    assert(final(self).in_use() =~= old(self).in_use().insert(id));
                }
                Some(buf)
            },
        }
    }

    /// Returns a chunk to the free list. An identifier that does not name a
    /// checked-out chunk is rejected with `EINVAL`, so a double return is
    /// impossible and the free list stays disjoint from the in-use set.
    pub fn give_back(&mut self, id: u32) -> (r: Result<(), Fail>)
        requires
            old(self).wf(),
        ensures
            final(self).wf(),
            final(self).spec_chunk_size() == old(self).spec_chunk_size(),
            final(self).spec_total_chunks() == old(self).spec_total_chunks(),
            old(self).in_use().contains(id) ==> (r is Ok
                && final(self).in_use() == old(self).in_use().remove(id)
                && final(self).spec_free_count() == old(self).spec_free_count() + 1),
            !old(self).in_use().contains(id) ==> (r matches Err(f) && f.errno == EINVAL
                && final(self).in_use() == old(self).in_use()
                && final(self).spec_free_count() == old(self).spec_free_count()),
    {
        if id >= self.total_chunks || self.free_contains(id) {
            proof {
                assert(final(self).in_use() =~= old(self).in_use());
            }
            return Err(Fail::new(EINVAL));
        }
        self.free.push(id);
        proof {
            let of = old(self).free@;
            assert forall|x: u32| #[trigger] self.free_set().contains(x)
                implies old(self).free_set().contains(x) || x == id by {
                let j = choose|j: int| 0 <= j < self.free@.len() && self.free@[j] == x;
                if j < of.len() {
                    assert(of[j] == x);
                    assert(of.contains(x));
                } else {
                    assert(x == id);
                }
            }
            assert forall|x: u32| old(self).free_set().contains(x)
                implies #[trigger] self.free_set().contains(x) by {
                let j = choose|j: int| 0 <= j < of.len() && of[j] == x;
                assert(self.free@[j] == x);
                assert(self.free@.contains(x));
            }
            assert(self.free@[self.free@.len() - 1] == id);
            assert(self.free@.contains(id));
            assert(self.free_set().contains(id));
            assert(final(self).in_use() =~= old(self).in_use().remove(id));
        }
        Ok(())
    }

    /// Linear scan of the free list.
    fn free_contains(&self, id: u32) -> (r: bool)
        ensures
            r == self.free_set().contains(id),
    {
        let mut i: usize = 0;
        while i < self.free.len()
            invariant
                i <= self.free@.len(),
                forall|j: int| 0 <= j < i ==> (#[trigger] self.free@[j]) != id,
            decreases self.free@.len() - i,
        {
            if self.free[i] == id {
                assert(self.free@.contains(id));
                return true;
            }
            i = i + 1;
        }
        proof {
            if self.free_set().contains(id) {
                let j = choose|j: int| 0 <= j < self.free@.len() && self.free@[j] == id;
                assert(false);
            }
        }
        false
    }
}

/// Checking a chunk out and giving it straight back is a no-op on the
/// in-use set: the two `ensures` above expose the set as an insertion of a
/// fresh identifier followed by its removal, which cancel.
pub proof fn lemma_checkout_give_back_no_op(in_use: Set<u32>, id: u32)
    requires
        !in_use.contains(id),
    ensures
        in_use.insert(id).remove(id) == in_use,
{
    assert(in_use.insert(id).remove(id) =~= in_use);
}

} // verus!
