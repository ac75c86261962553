use vstd::prelude::*;
use std::sync::Arc;
use crate::util::error::{Error, Result, msg};
use crate::util::text::{bytes_eq, decimal_digits, push_decimal};
use crate::util::samples::filled;

verus! {

/// The number of `Arc` pointers to the value that `a` points to.
///
/// Wraps `Arc::strong_count`; the contract claims only that a live pointer
/// counts itself, since the count depends on the rest of the program.
#[verifier::external_body]
fn arc_strong_count(a: &Arc<Vec<u8>>) -> (r: usize)
    ensures r >= 1,
{
    Arc::strong_count(a)
}

/// Exclusive access to the vector behind `a`, copying it first when other
/// pointers share it.
///
/// Wraps `Arc::make_mut`: the vector handed out holds the value that `a`
/// pointed to, and afterwards `a` points to what was written through it.
#[verifier::external_body]
fn arc_make_mut(a: &mut Arc<Vec<u8>>) -> (r: &mut Vec<u8>)
    ensures
        *r == **old(a),
        **final(a) == *final(r),
{
    Arc::make_mut(a)
}

/// Another pointer to the vector behind `a`.
///
/// Wraps `Arc::clone`, which points the new `Arc` at the same allocation, so
/// both hold the same value.
#[verifier::external_body]
fn arc_clone(a: &Arc<Vec<u8>>) -> (r: Arc<Vec<u8>>)
    ensures r == *a,
{
    Arc::clone(a)
}

/// The vector behind `a`: moved out when `a` is its only pointer, else cloned.
///
/// Wraps `Arc::unwrap_or_clone`; either way the result holds the same bytes.
#[verifier::external_body]
fn arc_unwrap_or_clone(a: Arc<Vec<u8>>) -> (r: Vec<u8>)
    ensures r@ == (*a)@,
{
    Arc::unwrap_or_clone(a)
}

/// A reference-counted, optionally shared byte buffer.
///
/// Cloning a `Buffer` creates a new reference to the same underlying data
/// (cheap, O(1)). The data is shared and immutable while multiple references
/// exist. Use [`make_writable`](Buffer::make_writable) to get exclusive
/// mutable access — it will copy-on-write if there are other references.
/// Its view is its bytes.
#[derive(Clone, Debug)]
pub struct Buffer {
    inner: Arc<Vec<u8>>,
}

impl Buffer {
    /// The buffer's bytes.
    pub closed spec fn view(&self) -> Seq<u8> {
        (*self.inner)@
    }

    /// Allocate a new buffer of `size` bytes, initialized to zero.
    pub fn allocate(size: usize) -> (r: Result<Buffer>)
        ensures r matches Ok(b) && b.view() == Seq::new(size as nat, |_i: int| 0u8),
    {
        Ok(Buffer { inner: Arc::new(filled(size, 0)) })
    }

    /// Create a buffer from existing data (takes ownership).
    pub fn from_vec(data: Vec<u8>) -> (r: Buffer)
        ensures r.view() == data@,
    {
        Buffer { inner: Arc::new(data) }
    }

    /// Create a buffer from a byte slice (copies the data).
    pub fn from_slice(data: &[u8]) -> (r: Buffer)
        ensures r.view() == data@,
    {
        Buffer { inner: Arc::new(vstd::slice::slice_to_vec(data)) }
    }

    /// Another reference to the same bytes (what `clone` does).
    pub fn share(&self) -> (r: Buffer)
        ensures r == *self,
    {
        Buffer { inner: arc_clone(&self.inner) }
    }

    /// Returns the byte length of the buffer.
    pub fn len(&self) -> (r: usize)
        ensures r == self.view().len(),
    {
        self.inner.len()
    }

    /// Returns true if the buffer has zero length.
    pub fn is_empty(&self) -> (r: bool)
        ensures r == (self.view().len() == 0),
    {
        self.inner.len() == 0
    }

    /// The underlying bytes.
    pub fn data(&self) -> (r: &[u8])
        ensures r@ == self.view(),
    {
        self.inner.as_slice()
    }

    /// The underlying bytes.
    pub fn as_ref(&self) -> (r: &[u8])
        ensures r@ == self.view(),
    {
        self.data()
    }

    /// Returns true if this is the only reference (safe to mutate in place).
    /// That depends on the rest of the program, so no clause states it.
    pub fn is_writable(&self) -> bool {
        self.ref_count() == 1
    }

    /// Returns the number of active references to this buffer (at least one).
    pub fn ref_count(&self) -> (r: usize)
        ensures r >= 1,
    {
        arc_strong_count(&self.inner)
    }

    /// The debugging text of the buffer: its length and the number of
    /// references that share it, which depends on the rest of the program.
    pub fn debug_text(&self) -> (r: String)
        ensures
            exists|refs: nat| #![trigger decimal_digits(refs)] r@ == "Buffer { len: "@ + decimal_digits(self.view().len())
                + ", refs: "@ + decimal_digits(refs) + " }"@,
    {
        let mut s = String::new();
        s.append("Buffer { len: ");
        push_decimal(&mut s, self.len() as u64);
        s.append(", refs: ");
        let refs = self.ref_count();
        push_decimal(&mut s, refs as u64);
        s.append(" }");
        assert(s@ == "Buffer { len: "@ + decimal_digits(self.view().len()) + ", refs: "@
            + decimal_digits(refs as nat) + " }"@);
        s
    }

    /// Ensure exclusive ownership: if other references exist, the data is
    /// copied into a new allocation. Returns the bytes for writing; what is
    /// written there becomes this buffer's contents.
    pub fn make_writable(&mut self) -> (r: &mut [u8])
        ensures
            r@ == old(self).view(),
            final(self).view() == final(r)@,
    {
        let v = arc_make_mut(&mut self.inner);
        v.as_mut_slice()
    }

    /// Resize the buffer; new bytes are zero. If other references exist,
    /// the data is copied first.
    pub fn resize(&mut self, new_size: usize)
        ensures
            final(self).view() == (if new_size <= old(self).view().len() {
                old(self).view().take(new_size as int)
            } else {
                old(self).view() + Seq::new((new_size - old(self).view().len()) as nat, |_i: int| 0u8)
            }),
    {
        let v = arc_make_mut(&mut self.inner);
        v.resize(new_size, 0);
    }
}

impl PartialEq for Buffer {
    fn eq(&self, other: &Self) -> (r: bool) {
        bytes_eq(self.inner.as_slice(), other.inner.as_slice())
    }
}

impl vstd::std_specs::cmp::PartialEqSpecImpl for Buffer {
    open spec fn obeys_eq_spec() -> bool { true }
    open spec fn eq_spec(&self, other: &Self) -> bool { self.view() == other.view() }
}

impl Eq for Buffer {}

/// The number of cached buffers after a get: one fewer, unless none was
/// cached.
pub open spec fn cached_after_get(cached: nat) -> nat {
    if cached > 0 { (cached - 1) as nat } else { 0 }
}

/// The number of cached buffers after a buffer of `len` bytes shared by
/// `refs` pointers is put back into a pool of buffers of `size` bytes that
/// keeps at most `max`: one more when the buffer is unshared, of the pool's
/// size and the cache has room.
pub open spec fn cached_after_put(cached: nat, max: nat, size: nat, len: nat, refs: nat) -> nat {
    if refs == 1 && len == size && cached < max { cached + 1 } else { cached }
}

/// An unshared buffer of the pool's size put back into a pool with room is
/// what the next get takes: the cache count returns to what it was.
pub proof fn law_pool_reuse(cached: nat, max: nat, size: nat)
    requires cached < max,
    ensures
        cached_after_put(cached, max, size, size, 1) == cached + 1,
        cached_after_get(cached_after_put(cached, max, size, size, 1)) == cached,
{
}

/// A pool of reusable buffers of one size.
///
/// Avoids repeated allocation by keeping a cache of previously used buffers:
/// a request is served from the cache when it holds one, else by a new
/// allocation.
#[derive(Debug)]
pub struct BufferPool {
    pool: Vec<Vec<u8>>,
    buf_size: usize,
    max_count: usize,
}

impl BufferPool {
    /// Well-formedness: the cache holds at most `max_count` buffers, each of
    /// the pool's size.
    pub closed spec fn wf(&self) -> bool {
        &&& self.max_count > 0
        &&& self.pool@.len() <= self.max_count
        &&& forall|i: int| 0 <= i < self.pool@.len() ==> #[trigger] self.pool@[i]@.len() == self.buf_size
    }

    /// Number of cached buffers.
    pub closed spec fn spec_cached(&self) -> nat { self.pool@.len() }

    /// Size of the buffers handed out.
    pub closed spec fn spec_buf_size(&self) -> nat { self.buf_size as nat }

    /// Most buffers kept in the cache.
    pub closed spec fn spec_max_count(&self) -> nat { self.max_count as nat }

    /// Create a pool that hands out buffers of `buf_size` bytes; at most
    /// `max_count` buffers are cached, excess ones are dropped.
    pub fn new(buf_size: usize, max_count: usize) -> (r: Result<BufferPool>)
        ensures
            max_count == 0 <==> r matches Err(Error::InvalidArgument(_)),
            max_count > 0 ==> r is Ok,
            r matches Ok(p) ==> p.wf() && p.spec_cached() == 0 && p.spec_buf_size() == buf_size
                && p.spec_max_count() == max_count,
    {
        if max_count == 0 {
            return Err(Error::InvalidArgument(msg("max_count must be > 0")));
        }
        Ok(BufferPool { pool: Vec::new(), buf_size, max_count })
    }

    /// Get a zeroed buffer: a cached one if available, else a new one.
    pub fn get(&mut self) -> (r: Result<Buffer>)
        requires old(self).wf(),
        ensures
            final(self).wf(),
            final(self).spec_buf_size() == old(self).spec_buf_size(),
            final(self).spec_max_count() == old(self).spec_max_count(),
            final(self).spec_cached() == cached_after_get(old(self).spec_cached()),
            r matches Ok(b) && b.view() == Seq::new(old(self).spec_buf_size(), |_i: int| 0u8),
    {
        match self.pool.pop() {
            Some(v) => {
                let n = v.len();
                Ok(Buffer::from_vec(filled(n, 0)))
            }
            None => Buffer::allocate(self.buf_size),
        }
    }

    /// Return a buffer's storage to the pool for reuse. It is kept when it
    /// is the sole owner of its bytes, has the pool's size and the cache is
    /// not full; otherwise it is dropped.
    pub fn put(&mut self, buf: Buffer)
        requires old(self).wf(),
        ensures
            final(self).wf(),
            final(self).spec_buf_size() == old(self).spec_buf_size(),
            final(self).spec_max_count() == old(self).spec_max_count(),
            final(self).spec_cached() == old(self).spec_cached()
                || final(self).spec_cached() == old(self).spec_cached() + 1,
            final(self).spec_cached() == old(self).spec_cached() + 1 ==>
                buf.view().len() == old(self).spec_buf_size() && old(self).spec_cached() < old(self).spec_max_count(),
            buf.view().len() != old(self).spec_buf_size() || old(self).spec_cached() >= old(self).spec_max_count()
                ==> final(self).spec_cached() == old(self).spec_cached(),
            exists|refs: nat| refs >= 1 && #[trigger] cached_after_put(old(self).spec_cached(), old(self).spec_max_count(),
                old(self).spec_buf_size(), buf.view().len(), refs) == final(self).spec_cached(),
    {
        let refs = buf.ref_count();
        self.keep(buf, refs);
    }

    /// Keep `buf`'s storage in the cache when `refs`, the number of pointers
    /// that share its bytes (what [`Buffer::ref_count`] gives), is one, it
    /// has the pool's size and the cache is not full; otherwise drop it.
    pub fn keep(&mut self, buf: Buffer, refs: usize)
        requires old(self).wf(),
        ensures
            final(self).wf(),
            final(self).spec_buf_size() == old(self).spec_buf_size(),
            final(self).spec_max_count() == old(self).spec_max_count(),
            final(self).spec_cached() == cached_after_put(old(self).spec_cached(), old(self).spec_max_count(),
                old(self).spec_buf_size(), buf.view().len(), refs as nat),
    {
        if refs != 1 || buf.len() != self.buf_size {
            return;
        }
        let v = arc_unwrap_or_clone(buf.inner);
        if self.pool.len() < self.max_count {
            self.pool.push(v);
        }
    }

    /// Returns the number of buffers currently cached in the pool.
    pub fn cached_count(&self) -> (r: usize)
        ensures r == self.spec_cached(),
    {
        self.pool.len()
    }

    /// The size of buffers this pool hands out.
    pub fn buffer_size(&self) -> (r: usize)
        ensures r == self.spec_buf_size(),
    {
        self.buf_size
    }
}

} // verus!
