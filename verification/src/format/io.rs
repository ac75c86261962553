use vstd::prelude::*;
use crate::util::error::{Error, Result, msg};

verus! {

/// The bytes of `v` in a `width`-byte field, least significant first.
pub open spec fn le_bytes(v: nat, width: nat) -> Seq<u8>
    decreases width,
{
    if width == 0 { Seq::empty() } else { seq![(v % 256) as u8] + le_bytes(v / 256, (width - 1) as nat) }
}

/// Value of bytes, least significant first.
pub open spec fn le_value(b: Seq<u8>) -> nat
    decreases b.len(),
{
    if b.len() == 0 { 0 } else { b[0] as nat + 256 * le_value(b.drop_first()) }
}

/// Value of bytes, most significant first.
pub open spec fn be_value(b: Seq<u8>) -> nat {
    le_value(b.reverse())
}

/// The bytes of `v` in a `width`-byte field, most significant first.
pub open spec fn be_bytes(v: nat, width: nat) -> Seq<u8> {
    le_bytes(v, width).reverse()
}

/// `d` after writing `b` at `pos`: a gap before `pos` is filled with zero
/// bytes, bytes at `pos..` are overwritten, and the data grows as needed.
pub open spec fn write_at(d: Seq<u8>, pos: nat, b: Seq<u8>) -> Seq<u8> {
    let len: int = if pos + b.len() > d.len() { (pos + b.len()) as int } else { d.len() as int };
    Seq::new(len as nat, |i: int|
        if pos <= i < pos + b.len() { b[i - pos] } else if i < d.len() { d[i] } else { 0u8 })
}

/// An in-memory I/O context: a byte vector with a position, read and
/// written with endian-aware helpers. Reads past the end fail with
/// `Error::Eof` and leave the position at the end; writes at or past the
/// end extend the data.
pub struct IOContext {
    data: Vec<u8>,
    pos: u64,
    /// True if this context supports seeking.
    pub seekable: bool,
    /// Total size in bytes (-1 if unknown).
    pub size: i64,
}

impl IOContext {
    /// The bytes held.
    pub closed spec fn spec_data(&self) -> Seq<u8> { self.data@ }
    /// The position of the next read or write.
    pub closed spec fn spec_pos(&self) -> u64 { self.pos }
    /// Whether seeking is allowed.
    pub closed spec fn spec_seekable(&self) -> bool { self.seekable }
    /// The size recorded at creation.
    pub closed spec fn spec_size(&self) -> i64 { self.size }

    /// What reading `n` bytes does: `Some` of the bytes read when they are
    /// there, `None` when the data ends first.
    pub open spec fn spec_read(&self, n: nat) -> Option<Seq<u8>> {
        if self.spec_pos() + n <= self.spec_data().len() {
            Some(self.spec_data().subrange(self.spec_pos() as int, self.spec_pos() + n))
        } else {
            None
        }
    }

    /// `other` is this context after a read of `n` bytes: the data is kept
    /// and the position advances, or goes to the end when the read fails.
    pub open spec fn read_step(&self, other: &IOContext, n: nat) -> bool {
        &&& other.spec_data() == self.spec_data()
        &&& other.spec_seekable() == self.spec_seekable() && other.spec_size() == self.spec_size()
        &&& other.spec_pos() == (if self.spec_pos() + n <= self.spec_data().len() {
                self.spec_pos() + n } else { self.spec_data().len() as int })
    }

    /// The size recorded at creation.
    pub(crate) fn total_size(&self) -> (r: i64)
        ensures r == self.spec_size(),
    {
        self.size
    }

    /// Create from an in-memory buffer (read+write+seek).
    pub fn from_memory(data: Vec<u8>) -> (r: Self)
        ensures r.spec_data() == data@, r.spec_pos() == 0, r.spec_seekable(),
            r.spec_size() == data@.len() as i64,
    {
        let size = #[verifier::truncate] (data.len() as i64);
        IOContext { data, pos: 0, seekable: true, size }
    }

    /// Create an empty writable memory buffer.
    pub fn memory_writer() -> (r: Self)
        ensures r.spec_data() == Seq::<u8>::empty(), r.spec_pos() == 0, r.spec_seekable(), r.spec_size() == 0,
    {
        IOContext { data: Vec::new(), pos: 0, seekable: true, size: 0 }
    }

    // ── Read helpers ──

    /// Read `len` bytes into a new Vec.
    pub fn read_bytes(&mut self, len: usize) -> (r: Result<Vec<u8>>)
        ensures
            old(self).read_step(&*final(self), len as nat),
            old(self).spec_read(len as nat) matches Some(b) ==> r matches Ok(v) && v@ == b,
            old(self).spec_read(len as nat) is None ==> r == Err::<Vec<u8>, Error>(Error::Eof),
    {
        let n = self.data.len();
        if self.pos > n as u64 || len > n - (self.pos as usize) {
            self.pos = n as u64;
            return Err(Error::Eof);
        }
        let start = self.pos as usize;
        let mut out: Vec<u8> = Vec::new();
        let mut i: usize = 0;
        while i < len
            invariant
                i <= len, start + len <= n, n == self.data@.len(),
                out@ == self.data@.subrange(start as int, start + i),
            decreases len - i,
        {
            out.push(self.data[start + i]);
            i += 1;
            assert(out@ =~= self.data@.subrange(start as int, start + i));
        }
        self.pos = (start + len) as u64;
        Ok(out)
    }

    /// Read exactly `buf.len()` bytes.
    pub fn read_exact(&mut self, buf: &mut [u8]) -> (r: Result<()>)
        ensures
            old(self).read_step(&*final(self), old(buf)@.len()),
            old(self).spec_read(old(buf)@.len()) matches Some(b) ==> r is Ok && final(buf)@ == b,
            old(self).spec_read(old(buf)@.len()) is None ==> r == Err::<(), Error>(Error::Eof)
                && final(buf)@ == old(buf)@,
    {
        let n = self.data.len();
        let len = buf.len();
        if self.pos > n as u64 || len > n - (self.pos as usize) {
            self.pos = n as u64;
            return Err(Error::Eof);
        }
        let start = self.pos as usize;
        let mut i: usize = 0;
        while i < len
            invariant
                i <= len, len == buf@.len(), start + len <= n, n == self.data@.len(),
                forall|j: int| 0 <= j < i ==> buf@[j] == self.data@[start + j],
            decreases len - i,
        {
            buf[i] = self.data[start + i];
            i += 1;
        }
        assert(buf@ =~= self.data@.subrange(start as int, start + len));
        self.pos = (start + len) as u64;
        Ok(())
    }

    /// Read a single byte.
    pub fn read_u8(&mut self) -> (r: Result<u8>)
        ensures
            old(self).read_step(&*final(self), 1),
            old(self).spec_read(1) matches Some(b) ==> r == Ok::<u8, Error>(b[0]),
            old(self).spec_read(1) is None ==> r == Err::<u8, Error>(Error::Eof),
    {
        let b = self.read_bytes(1)?;
        Ok(b[0])
    }

    /// Read u16 little-endian.
    pub fn read_u16_le(&mut self) -> (r: Result<u16>)
        ensures
            old(self).read_step(&*final(self), 2),
            old(self).spec_read(2) matches Some(b) ==> r matches Ok(v) && v == le_value(b),
            old(self).spec_read(2) is None ==> r == Err::<u16, Error>(Error::Eof),
    {
        let b = self.read_bytes(2)?;
        proof { lemma_le_value_2(b@); }
        Ok(b[0] as u16 + (b[1] as u16) * 256)
    }

    /// Read u16 big-endian.
    pub fn read_u16_be(&mut self) -> (r: Result<u16>)
        ensures
            old(self).read_step(&*final(self), 2),
            old(self).spec_read(2) matches Some(b) ==> r matches Ok(v) && v == be_value(b),
            old(self).spec_read(2) is None ==> r == Err::<u16, Error>(Error::Eof),
    {
        let b = self.read_bytes(2)?;
        proof { lemma_le_value_2(b@.reverse()); }
        Ok(b[1] as u16 + (b[0] as u16) * 256)
    }

    /// Read u32 little-endian.
    pub fn read_u32_le(&mut self) -> (r: Result<u32>)
        ensures
            old(self).read_step(&*final(self), 4),
            old(self).spec_read(4) matches Some(b) ==> r matches Ok(v) && v == le_value(b),
            old(self).spec_read(4) is None ==> r == Err::<u32, Error>(Error::Eof),
    {
        let b = self.read_bytes(4)?;
        proof { lemma_le_value_4(b@); }
        Ok(u32_of(b[0], b[1], b[2], b[3]))
    }

    /// Read u32 big-endian.
    pub fn read_u32_be(&mut self) -> (r: Result<u32>)
        ensures
            old(self).read_step(&*final(self), 4),
            old(self).spec_read(4) matches Some(b) ==> r matches Ok(v) && v == be_value(b),
            old(self).spec_read(4) is None ==> r == Err::<u32, Error>(Error::Eof),
    {
        let b = self.read_bytes(4)?;
        proof { lemma_le_value_4(b@.reverse()); }
        Ok(u32_of(b[3], b[2], b[1], b[0]))
    }

    /// Read u64 little-endian.
    pub fn read_u64_le(&mut self) -> (r: Result<u64>)
        ensures
            old(self).read_step(&*final(self), 8),
            old(self).spec_read(8) matches Some(b) ==> r matches Ok(v) && v == le_value(b),
            old(self).spec_read(8) is None ==> r == Err::<u64, Error>(Error::Eof),
    {
        let b = self.read_bytes(8)?;
        proof { lemma_le_value_8(b@); }
        let lo = u32_of(b[0], b[1], b[2], b[3]) as u64;
        let hi = u32_of(b[4], b[5], b[6], b[7]) as u64;
        Ok(lo + hi * 4294967296)
    }

    /// Read u64 big-endian.
    pub fn read_u64_be(&mut self) -> (r: Result<u64>)
        ensures
            old(self).read_step(&*final(self), 8),
            old(self).spec_read(8) matches Some(b) ==> r matches Ok(v) && v == be_value(b),
            old(self).spec_read(8) is None ==> r == Err::<u64, Error>(Error::Eof),
    {
        let b = self.read_bytes(8)?;
        proof { lemma_le_value_8(b@.reverse()); }
        let lo = u32_of(b[7], b[6], b[5], b[4]) as u64;
        let hi = u32_of(b[3], b[2], b[1], b[0]) as u64;
        Ok(lo + hi * 4294967296)
    }

    // ── Write helpers ──

    /// Write all bytes from `buf` at the position, which then moves past
    /// them. A position beyond what a vector can hold is refused.
    pub fn write_all(&mut self, buf: &[u8]) -> (r: Result<()>)
        ensures
            old(self).spec_pos() + buf@.len() <= usize::MAX <==> r is Ok,
            r is Err ==> (r matches Err(Error::InvalidArgument(_)) && *final(self) == *old(self)),
            r is Ok ==> final(self).spec_data() == write_at(old(self).spec_data(), old(self).spec_pos() as nat, buf@)
                && final(self).spec_pos() == old(self).spec_pos() + buf@.len(),
            final(self).spec_seekable() == old(self).spec_seekable(),
            final(self).spec_size() == old(self).spec_size(),
    {
        if self.pos > usize::MAX as u64 || buf.len() > usize::MAX - (self.pos as usize) {
            return Err(Error::InvalidArgument(msg("cursor position exceeds maximum possible vector length")));
        }
        let pos = self.pos as usize;
        let ghost d0 = self.data@;
        while self.data.len() < pos
            invariant
                self.pos == old(self).pos, self.seekable == old(self).seekable, self.size == old(self).size,
                pos <= usize::MAX, self.data@.len() <= pos || self.data@.len() == d0.len(),
                self.data@.len() >= d0.len(),
                forall|i: int| 0 <= i < self.data@.len() ==> #[trigger] self.data@[i] == (if i < d0.len() { d0[i] } else { 0u8 }),
            decreases pos - self.data@.len(),
        {
            self.data.push(0u8);
        }
        let mut i: usize = 0;
        while i < buf.len()
            invariant
                self.seekable == old(self).seekable, self.size == old(self).size,
                i <= buf@.len(), pos + buf@.len() <= usize::MAX,
                self.data@.len() == (if pos + i > d0.len() { pos + i } else { d0.len() as int }),
                self.data@.len() >= pos,
                forall|j: int| 0 <= j < self.data@.len() ==> #[trigger] self.data@[j] ==
                    (if pos <= j < pos + i { buf@[j - pos] } else if j < d0.len() { d0[j] } else { 0u8 }),
            decreases buf.len() - i,
        {
            if pos + i < self.data.len() {
                self.data.set(pos + i, buf[i]);
            } else {
                self.data.push(buf[i]);
            }
            i += 1;
        }
        assert(self.data@ =~= write_at(d0, pos as nat, buf@));
        self.pos = (pos + buf.len()) as u64;
        Ok(())
    }

    /// Write one byte.
    pub fn write_u8(&mut self, v: u8) -> (r: Result<()>)
        ensures
            old(self).spec_pos() + 1 <= usize::MAX <==> r is Ok,
            r is Err ==> (r matches Err(Error::InvalidArgument(_))) && *final(self) == *old(self),
            r is Ok ==> final(self).spec_data() == write_at(old(self).spec_data(), old(self).spec_pos() as nat, seq![v])
                && final(self).spec_pos() == old(self).spec_pos() + 1,
            final(self).spec_seekable() == old(self).spec_seekable(),
            final(self).spec_size() == old(self).spec_size(),
    {
        let b = [v];
        assert(b@ =~= seq![v]);
        self.write_all(&b)
    }

    /// Write u16 little-endian.
    pub fn write_u16_le(&mut self, v: u16) -> (r: Result<()>)
        ensures
            old(self).spec_pos() + 2 <= usize::MAX <==> r is Ok,
            r is Err ==> (r matches Err(Error::InvalidArgument(_))) && *final(self) == *old(self),
            r is Ok ==> final(self).spec_data() == write_at(old(self).spec_data(), old(self).spec_pos() as nat, le_bytes(v as nat, 2))
                && final(self).spec_pos() == old(self).spec_pos() + 2,
            final(self).spec_seekable() == old(self).spec_seekable(),
            final(self).spec_size() == old(self).spec_size(),
    {
        let b = le_bytes_exec(v as u64, 2);
        self.write_all(b.as_slice())
    }

    /// Write u16 big-endian.
    pub fn write_u16_be(&mut self, v: u16) -> (r: Result<()>)
        ensures
            old(self).spec_pos() + 2 <= usize::MAX <==> r is Ok,
            r is Err ==> (r matches Err(Error::InvalidArgument(_))) && *final(self) == *old(self),
            r is Ok ==> final(self).spec_data() == write_at(old(self).spec_data(), old(self).spec_pos() as nat, be_bytes(v as nat, 2))
                && final(self).spec_pos() == old(self).spec_pos() + 2,
            final(self).spec_seekable() == old(self).spec_seekable(),
            final(self).spec_size() == old(self).spec_size(),
    {
        let b = be_bytes_exec(v as u64, 2);
        self.write_all(b.as_slice())
    }

    /// Write u32 little-endian.
    pub fn write_u32_le(&mut self, v: u32) -> (r: Result<()>)
        ensures
            old(self).spec_pos() + 4 <= usize::MAX <==> r is Ok,
            r is Err ==> (r matches Err(Error::InvalidArgument(_))) && *final(self) == *old(self),
            r is Ok ==> final(self).spec_data() == write_at(old(self).spec_data(), old(self).spec_pos() as nat, le_bytes(v as nat, 4))
                && final(self).spec_pos() == old(self).spec_pos() + 4,
            final(self).spec_seekable() == old(self).spec_seekable(),
            final(self).spec_size() == old(self).spec_size(),
    {
        let b = le_bytes_exec(v as u64, 4);
        self.write_all(b.as_slice())
    }

    /// Write u32 big-endian.
    pub fn write_u32_be(&mut self, v: u32) -> (r: Result<()>)
        ensures
            old(self).spec_pos() + 4 <= usize::MAX <==> r is Ok,
            r is Err ==> (r matches Err(Error::InvalidArgument(_))) && *final(self) == *old(self),
            r is Ok ==> final(self).spec_data() == write_at(old(self).spec_data(), old(self).spec_pos() as nat, be_bytes(v as nat, 4))
                && final(self).spec_pos() == old(self).spec_pos() + 4,
            final(self).spec_seekable() == old(self).spec_seekable(),
            final(self).spec_size() == old(self).spec_size(),
    {
        let b = be_bytes_exec(v as u64, 4);
        self.write_all(b.as_slice())
    }

    /// Write u64 little-endian.
    pub fn write_u64_le(&mut self, v: u64) -> (r: Result<()>)
        ensures
            old(self).spec_pos() + 8 <= usize::MAX <==> r is Ok,
            r is Err ==> (r matches Err(Error::InvalidArgument(_))) && *final(self) == *old(self),
            r is Ok ==> final(self).spec_data() == write_at(old(self).spec_data(), old(self).spec_pos() as nat, le_bytes(v as nat, 8))
                && final(self).spec_pos() == old(self).spec_pos() + 8,
            final(self).spec_seekable() == old(self).spec_seekable(),
            final(self).spec_size() == old(self).spec_size(),
    {
        let b = le_bytes_exec(v, 8);
        self.write_all(b.as_slice())
    }

    /// Write u64 big-endian.
    pub fn write_u64_be(&mut self, v: u64) -> (r: Result<()>)
        ensures
            old(self).spec_pos() + 8 <= usize::MAX <==> r is Ok,
            r is Err ==> (r matches Err(Error::InvalidArgument(_))) && *final(self) == *old(self),
            r is Ok ==> final(self).spec_data() == write_at(old(self).spec_data(), old(self).spec_pos() as nat, be_bytes(v as nat, 8))
                && final(self).spec_pos() == old(self).spec_pos() + 8,
            final(self).spec_seekable() == old(self).spec_seekable(),
            final(self).spec_size() == old(self).spec_size(),
    {
        let b = be_bytes_exec(v, 8);
        self.write_all(b.as_slice())
    }

    /// Flush: memory needs none.
    pub fn flush(&mut self) -> (r: Result<()>)
        ensures r is Ok, *final(self) == *old(self),
    {
        Ok(())
    }

    // ── Seek helpers ──

    /// Seek to an absolute byte position.
    pub fn seek(&mut self, pos: u64) -> (r: Result<u64>)
        ensures
            !old(self).spec_seekable() ==> (r matches Err(Error::Unsupported(_)) && *final(self) == *old(self)),
            old(self).spec_seekable() ==> r == Ok::<u64, Error>(pos) && final(self).spec_pos() == pos
                && final(self).spec_data() == old(self).spec_data()
                && final(self).spec_seekable() && final(self).spec_size() == old(self).spec_size(),
    {
        if !self.seekable {
            return Err(Error::Unsupported(msg("non-seekable source")));
        }
        self.pos = pos;
        Ok(pos)
    }

    /// Get the current byte position.
    pub fn position(&mut self) -> (r: Result<u64>)
        ensures r == Ok::<u64, Error>(old(self).spec_pos()), *final(self) == *old(self),
    {
        Ok(self.pos)
    }

    /// Move `n` bytes from the position (back for negative `n`); a target
    /// before the start or past the largest position is refused.
    pub fn skip(&mut self, n: i64) -> (r: Result<u64>)
        ensures
            0 <= old(self).spec_pos() + n <= u64::MAX ==> r == Ok::<u64, Error>((old(self).spec_pos() + n) as u64)
                && final(self).spec_pos() == old(self).spec_pos() + n
                && final(self).spec_data() == old(self).spec_data()
                && final(self).spec_seekable() == old(self).spec_seekable()
                && final(self).spec_size() == old(self).spec_size(),
            !(0 <= old(self).spec_pos() + n <= u64::MAX) ==> (r matches Err(Error::InvalidArgument(_))
                && *final(self) == *old(self)),
    {
        if n >= 0 {
            let k = n as u64;
            if k > u64::MAX - self.pos {
                return Err(Error::InvalidArgument(msg("invalid seek to a negative or overflowing position")));
            }
            self.pos = self.pos + k;
        } else {
            let k = if n == i64::MIN { 9223372036854775808u64 } else { (-n) as u64 };
            if k > self.pos {
                return Err(Error::InvalidArgument(msg("invalid seek to a negative or overflowing position")));
            }
            self.pos = self.pos - k;
        }
        Ok(self.pos)
    }

    /// All the bytes the context holds, seekable or not: what a writer
    /// hands on to its sink.
    pub fn bytes(&self) -> (r: &[u8])
        ensures r@ == self.spec_data(),
    {
        self.data.as_slice()
    }

    /// Consume the context and return all the bytes it holds.
    pub fn into_vec(self) -> (r: Result<Vec<u8>>)
        ensures
            self.spec_seekable() ==> (r matches Ok(v) && v@ == self.spec_data()),
            !self.spec_seekable() ==> r matches Err(Error::Unsupported(_)),
    {
        if !self.seekable {
            return Err(Error::Unsupported(msg("non-seekable source")));
        }
        Ok(self.data)
    }
}

fn u32_of(b0: u8, b1: u8, b2: u8, b3: u8) -> (r: u32)
    ensures r == b0 + 256 * (b1 + 256 * (b2 + 256 * b3 as int)),
{
    b0 as u32 + (b1 as u32 + (b2 as u32 + (b3 as u32) * 256) * 256) * 256
}

proof fn lemma_le_value_2(b: Seq<u8>)
    requires b.len() == 2,
    ensures le_value(b) == b[0] + 256 * b[1],
{
    assert(b.drop_first().drop_first().len() == 0);
    assert(le_value(b.drop_first()) == b[1] + 256 * le_value(b.drop_first().drop_first()));
}

proof fn lemma_le_value_4(b: Seq<u8>)
    requires b.len() == 4,
    ensures le_value(b) == b[0] + 256 * (b[1] + 256 * (b[2] + 256 * b[3] as int)),
{
    let b1 = b.drop_first();
    let b2 = b1.drop_first();
    let b3 = b2.drop_first();
    assert(b3.drop_first().len() == 0);
    assert(le_value(b3) == b[3] + 256 * le_value(b3.drop_first()));
    assert(le_value(b2) == b[2] + 256 * le_value(b3));
    assert(le_value(b1) == b[1] + 256 * le_value(b2));
}

proof fn lemma_le_value_split(b: Seq<u8>, k: int)
    requires 0 <= k <= b.len(),
    ensures le_value(b) == le_value(b.take(k)) + pow256(k) * le_value(b.skip(k)),
    decreases k,
{
    if k == 0 {
        assert(b.skip(0) =~= b);
        assert(b.take(0).len() == 0);
    } else {
        lemma_le_value_split(b.drop_first(), k - 1);
        assert(b.take(k).drop_first() =~= b.drop_first().take(k - 1));
        assert(b.drop_first().skip(k - 1) =~= b.skip(k));
        assert(pow256(k) == 256 * pow256(k - 1));
        let t = le_value(b.drop_first().take(k - 1));
        let s = le_value(b.skip(k));
        assert(256 * (t + pow256(k - 1) * s) == 256 * t + (256 * pow256(k - 1)) * s) by (nonlinear_arith);
    }
}

/// 256 to the power `k`.
pub open spec fn pow256(k: int) -> int
    decreases k,
{
    if k <= 0 { 1 } else { 256 * pow256(k - 1) }
}

proof fn lemma_le_value_8(b: Seq<u8>)
    requires b.len() == 8,
    ensures le_value(b) == le_value(b.take(4)) + 4294967296 * le_value(b.skip(4)),
        le_value(b.take(4)) == b[0] + 256 * (b[1] + 256 * (b[2] + 256 * b[3] as int)),
        le_value(b.skip(4)) == b[4] + 256 * (b[5] + 256 * (b[6] + 256 * b[7] as int)),
{
    lemma_le_value_split(b, 4);
    reveal_with_fuel(pow256, 5);
    lemma_le_value_4(b.take(4));
    lemma_le_value_4(b.skip(4));
}

/// A `width`-byte field has `width` bytes.
pub proof fn lemma_le_bytes_len(v: nat, width: nat)
    ensures le_bytes(v, width).len() == width,
    decreases width,
{
    if width > 0 { lemma_le_bytes_len(v / 256, (width - 1) as nat); }
}

/// The `width` bytes of `v`, least significant first.
pub(crate) fn le_bytes_exec(v: u64, width: usize) -> (r: Vec<u8>)
    requires width <= 8,
    ensures r@ == le_bytes(v as nat, width as nat), r@.len() == width,
{
    proof { lemma_le_bytes_len(v as nat, width as nat); }
    let mut out: Vec<u8> = Vec::new();
    let mut x = v;
    let mut i: usize = 0;
    while i < width
        invariant i <= width, out@ + le_bytes(x as nat, (width - i) as nat) == le_bytes(v as nat, width as nat),
        decreases width - i,
    {
        let ghost before = out@;
        out.push((x % 256) as u8);
        proof {
            assert(le_bytes(x as nat, (width - i) as nat)
                == seq![(x as nat % 256) as u8] + le_bytes(x as nat / 256, (width - i - 1) as nat));
            assert(before + (seq![(x as nat % 256) as u8] + le_bytes(x as nat / 256, (width - i - 1) as nat))
                =~= out@ + le_bytes(x as nat / 256, (width - i - 1) as nat));
        }
        x = x / 256;
        i += 1;
    }
    assert(le_bytes(x as nat, 0) =~= Seq::<u8>::empty());
    assert(out@ + Seq::<u8>::empty() =~= out@);
    out
}

/// The `width` bytes of `v`, most significant first.
pub(crate) fn be_bytes_exec(v: u64, width: usize) -> (r: Vec<u8>)
    requires width <= 8,
    ensures r@ == be_bytes(v as nat, width as nat), r@.len() == width,
{
    let le = le_bytes_exec(v, width);
    let mut out: Vec<u8> = Vec::new();
    let mut i: usize = le.len();
    while i > 0
        invariant i <= le@.len(), out@ == le@.subrange(i as int, le@.len() as int).reverse(),
        decreases i,
    {
        i -= 1;
        out.push(le[i]);
        assert(out@ =~= le@.subrange(i as int, le@.len() as int).reverse());
    }
    assert(le@.subrange(0, le@.len() as int) =~= le@);
    out
}

/// Reading a field back gives the value written into it: the bytes of a
/// value that fits in `width` bytes, read least significant first, are the
/// value.
pub proof fn law_le_roundtrip(v: nat, width: nat)
    requires v < pow256(width as int),
    ensures le_value(le_bytes(v, width)) == v,
    decreases width,
{
    if width > 0 {
        let b = le_bytes(v, width);
        assert(b.drop_first() =~= le_bytes(v / 256, (width - 1) as nat));
        assert(v / 256 < pow256(width - 1)) by (nonlinear_arith)
            requires v < 256 * pow256(width - 1);
        law_le_roundtrip(v / 256, (width - 1) as nat);
        assert(b[0] as nat == v % 256);
    } else {
        assert(v == 0);
    }
}

/// The same for most-significant-first fields.
pub proof fn law_be_roundtrip(v: nat, width: nat)
    requires v < pow256(width as int),
    ensures be_value(be_bytes(v, width)) == v,
{
    law_le_roundtrip(v, width);
    assert(be_bytes(v, width).reverse() =~= le_bytes(v, width));
}

/// What a read gives back of a write: after writing `b` at `pos`, the
/// bytes at `pos..pos + b.len()` are `b`, whatever the data was.
pub proof fn law_read_back_write(d: Seq<u8>, pos: nat, b: Seq<u8>)
    ensures
        write_at(d, pos, b).len() >= pos + b.len(),
        write_at(d, pos, b).subrange(pos as int, (pos + b.len()) as int) == b,
{
    assert(write_at(d, pos, b).subrange(pos as int, (pos + b.len()) as int) =~= b);
}

/// A write leaves the bytes outside what it writes as they were.
pub proof fn law_write_keeps_rest(d: Seq<u8>, pos: nat, b: Seq<u8>, i: int)
    requires 0 <= i < d.len(), !(pos <= i < pos + b.len()),
    ensures write_at(d, pos, b)[i] == d[i],
{
}

/// Two writes one after the other are one write of both: writing `a` at
/// `pos` and then `b` right after it leaves what writing `a + b` at `pos`
/// leaves.
pub proof fn law_write_append(d: Seq<u8>, pos: nat, a: Seq<u8>, b: Seq<u8>)
    ensures write_at(write_at(d, pos, a), pos + a.len(), b) == write_at(d, pos, a + b),
{
    assert(write_at(write_at(d, pos, a), pos + a.len(), b) =~= write_at(d, pos, a + b));
}

} // verus!
