use vstd::prelude::*;
use crate::util::error::{Error, Result, msg};

verus! {

/// A ring buffer (FIFO queue) of bytes.
///
/// Fixed capacity; read, write, peek and drain work without allocation
/// after construction. Its contents, oldest first, are its view.
pub struct Fifo {
    buf: Vec<u8>,
    read_pos: usize,
    write_pos: usize,
    count: usize,
}

/// Position in a ring of `cap` slots that lies `i` slots after `start`.
pub open spec fn ring_index(start: int, i: int, cap: int) -> int {
    if start + i < cap { start + i } else { start + i - cap }
}

impl Fifo {
    /// Well-formedness: positions lie inside the buffer and the write
    /// position follows the last queued byte.
    pub closed spec fn wf(&self) -> bool {
        &&& self.buf@.len() > 0
        &&& self.buf@.len() <= usize::MAX
        &&& self.read_pos < self.buf@.len()
        &&& self.count <= self.buf@.len()
        &&& (self.count < self.buf@.len() ==> self.write_pos == ring_index(
            self.read_pos as int, self.count as int, self.buf@.len() as int))
        &&& (self.count == self.buf@.len() ==> self.write_pos == self.read_pos)
    }

    /// The queued bytes, oldest first.
    pub closed spec fn view(&self) -> Seq<u8> {
        Seq::new(self.count as nat, |i: int| self.buf@[ring_index(
            self.read_pos as int, i, self.buf@.len() as int)])
    }

    /// The capacity in bytes.
    pub closed spec fn spec_capacity(&self) -> nat {
        self.buf@.len()
    }

    /// Create a FIFO with the given capacity in bytes.
    pub fn new(capacity: usize) -> (r: Result<Fifo>)
        ensures
            capacity == 0 <==> r matches Err(Error::InvalidArgument(_)),
            capacity > 0 ==> r is Ok,
            r matches Ok(f) ==> f.wf() && f.view() == Seq::<u8>::empty()
                && f.spec_capacity() == capacity,
    {
        if capacity == 0 {
            return Err(Error::InvalidArgument(msg("fifo capacity must be > 0")));
        }
        let buf = crate::util::samples::filled(capacity, 0);
        let f = Fifo { buf, read_pos: 0, write_pos: 0, count: 0 };
        assert(f.view() =~= Seq::<u8>::empty());
        Ok(f)
    }

    /// Total capacity.
    pub fn capacity(&self) -> (r: usize)
        ensures r == self.spec_capacity(),
    {
        self.buf.len()
    }

    /// Number of bytes available to read.
    pub fn readable(&self) -> (r: usize)
        ensures r == self.view().len(),
    {
        self.count
    }

    /// Number of bytes of free space for writing.
    pub fn writable(&self) -> (r: usize)
        requires self.wf(),
        ensures r == self.spec_capacity() - self.view().len(),
    {
        self.buf.len() - self.count
    }

    /// Returns true if the FIFO is empty.
    pub fn is_empty(&self) -> (r: bool)
        ensures r == (self.view().len() == 0),
    {
        self.count == 0
    }

    /// Returns true if the FIFO is full.
    pub fn is_full(&self) -> (r: bool)
        ensures r == (self.view().len() == self.spec_capacity()),
    {
        self.count == self.buf.len()
    }

    fn advance(&self, pos: usize) -> (r: usize)
        requires self.wf(), pos < self.buf@.len(),
        ensures r == ring_index(pos as int, 1, self.buf@.len() as int),
    {
        let n = self.buf.len();
        if pos + 1 == n { 0 } else { pos + 1 }
    }

    /// Write data into the FIFO; fails, changing nothing, if there is not enough space.
    pub fn write(&mut self, data: &[u8]) -> (r: Result<()>)
        requires old(self).wf(),
        ensures
            final(self).wf(),
            final(self).spec_capacity() == old(self).spec_capacity(),
            r is Err <==> data@.len() > old(self).spec_capacity() - old(self).view().len(),
            r is Err ==> r == Err::<(), Error>(Error::NoMemory) && final(self).view() == old(self).view(),
            r is Ok ==> final(self).view() == old(self).view() + data@,
    {
        if data.len() > self.buf.len() - self.count {
            return Err(Error::NoMemory);
        }
        let ghost old_view = self.view();
        let mut i: usize = 0;
        while i < data.len()
            invariant
                self.wf(), i <= data@.len(),
                self.buf@.len() == old(self).buf@.len(),
                self.count + data@.len() - i <= self.buf@.len(),
                self.view() == old_view + data@.take(i as int),
            decreases data.len() - i,
        {
            let ghost before = self.view();
            let wp = self.write_pos;
            self.buf.set(wp, data[i]);
            self.write_pos = self.advance(wp);
            self.count = self.count + 1;
            i += 1;
            assert(self.view() =~= before.push(data@[i - 1]));
            assert(data@.take(i as int) =~= data@.take(i - 1).push(data@[i - 1]));
            assert(self.view() =~= old_view + data@.take(i as int));
        }
        assert(data@.take(i as int) =~= data@);
        Ok(())
    }

    /// Read data from the FIFO into `dst`; fails, changing nothing, if not
    /// enough is queued.
    pub fn read(&mut self, dst: &mut [u8]) -> (r: Result<()>)
        requires old(self).wf(),
        ensures
            final(self).wf(),
            final(self).spec_capacity() == old(self).spec_capacity(),
            r is Err <==> old(dst)@.len() > old(self).view().len(),
            r is Err ==> r == Err::<(), Error>(Error::Eof) && final(self).view() == old(self).view()
                && final(dst)@ == old(dst)@,
            r is Ok ==> final(dst)@ == old(self).view().take(old(dst)@.len() as int)
                && final(self).view() == old(self).view().skip(old(dst)@.len() as int),
    {
        if dst.len() > self.count {
            return Err(Error::Eof);
        }
        let ghost old_view = self.view();
        let n = dst.len();
        let mut i: usize = 0;
        while i < n
            invariant
                self.wf(), i <= n, n == dst@.len(), n == old(dst)@.len(),
                self.buf@.len() == old(self).buf@.len(),
                n <= old_view.len(),
                self.view() == old_view.skip(i as int),
                self.count == old_view.len() - i,
                dst@.take(i as int) == old_view.take(i as int),
            decreases n - i,
        {
            let ghost before = self.view();
            let rp = self.read_pos;
            assert(before[0] == old_view[i as int]);
            let ghost prev_dst = dst@;
            dst[i] = self.buf[rp];
            assert(dst@ == prev_dst.update(i as int, old_view[i as int]));
            self.read_pos = self.advance(rp);
            self.count = self.count - 1;
            assert(self.view() =~= before.drop_first());
            i += 1;
            assert(self.view() =~= old_view.skip(i as int));
            assert(dst@.take(i as int) =~= old_view.take(i as int));
        }
        assert(dst@.take(n as int) =~= dst@);
        Ok(())
    }

    /// Peek at `len` bytes without consuming them.
    pub fn peek(&self, len: usize) -> (r: Result<Vec<u8>>)
        requires self.wf(),
        ensures
            r is Err <==> len > self.view().len(),
            r is Err ==> r == Err::<Vec<u8>, Error>(Error::Eof),
            r matches Ok(v) ==> v@ == self.view().take(len as int),
    {
        if len > self.count {
            return Err(Error::Eof);
        }
        let mut out: Vec<u8> = Vec::new();
        let mut pos = self.read_pos;
        let mut i: usize = 0;
        while i < len
            invariant
                self.wf(), i <= len, len <= self.count,
                pos == ring_index(self.read_pos as int, i as int, self.buf@.len() as int),
                out@ == self.view().take(i as int),
            decreases len - i,
        {
            out.push(self.buf[pos]);
            pos = self.advance(pos);
            i += 1;
            assert(out@ =~= self.view().take(i as int));
        }
        Ok(out)
    }

    /// Discard `len` bytes from the read side; fails, changing nothing, if
    /// not enough is queued.
    pub fn drain(&mut self, len: usize) -> (r: Result<()>)
        requires old(self).wf(),
        ensures
            final(self).wf(),
            final(self).spec_capacity() == old(self).spec_capacity(),
            r is Err <==> len > old(self).view().len(),
            r is Err ==> r == Err::<(), Error>(Error::Eof) && final(self).view() == old(self).view(),
            r is Ok ==> final(self).view() == old(self).view().skip(len as int),
    {
        if len > self.count {
            return Err(Error::Eof);
        }
        let cap = self.buf.len();
        let room = cap - self.read_pos;
        self.read_pos = if len >= room { len - room } else { self.read_pos + len };
        self.count = self.count - len;
        assert(self.view() =~= old(self).view().skip(len as int));
        Ok(())
    }

    /// Reset to the empty state.
    pub fn reset(&mut self)
        requires old(self).wf(),
        ensures
            final(self).wf(),
            final(self).view() == Seq::<u8>::empty(),
            final(self).spec_capacity() == old(self).spec_capacity(),
    {
        self.read_pos = 0;
        self.write_pos = 0;
        self.count = 0;
        assert(self.view() =~= Seq::<u8>::empty());
    }
}

} // verus!
