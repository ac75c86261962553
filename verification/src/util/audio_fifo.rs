use vstd::prelude::*;
use crate::util::error::{Error, Result, msg};
use crate::util::fifo::ring_index;
use crate::util::samples::filled;
use crate::util::samplefmt::SampleFormat;

verus! {

/// How far `idx` lies after `start` in a ring of `cap` slots.
pub open spec fn ring_offset(start: int, idx: int, cap: int) -> int {
    if idx >= start { idx - start } else { idx + cap - start }
}

/// `len` slots of a ring of `cap` slots, from slot `start` on.
pub open spec fn ring_view(plane: Seq<u8>, start: int, len: int, cap: int) -> Seq<u8> {
    Seq::new(len as nat, |j: int| plane[ring_index(start, j, cap)])
}

/// Writing `n` bytes at slot `w`, just after `q` queued bytes from slot `r`,
/// leaves those queued bytes alone and appends the written ones.
proof fn lemma_ring_append(old_p: Seq<u8>, new_p: Seq<u8>, src: Seq<u8>, r: int, q: int, n: int, cap: int)
    requires
        0 <= r < cap, 0 <= q, 0 <= n, q + n <= cap, n <= src.len(),
        old_p.len() == cap, new_p.len() == cap,
        forall|idx: int| 0 <= idx < cap ==> #[trigger] new_p[idx] == (
            if ring_offset(ring_index(r, q, cap), idx, cap) < n {
                src[ring_offset(ring_index(r, q, cap), idx, cap)]
            } else {
                old_p[idx]
            }),
    ensures
        ring_view(new_p, r, q, cap) == ring_view(old_p, r, q, cap),
        ring_view(new_p, r, q + n, cap) == ring_view(old_p, r, q, cap) + src.take(n),
{
    let w = ring_index(r, q, cap);
    assert forall|j: int| 0 <= j < q + n implies #[trigger] new_p[ring_index(r, j, cap)] == (
        if j < q { old_p[ring_index(r, j, cap)] } else { src[j - q] }) by {
        let idx = ring_index(r, j, cap);
        assert(0 <= idx < cap);
        if j < q {
            assert(ring_offset(w, idx, cap) >= n);
        } else {
            assert(ring_offset(w, idx, cap) == j - q);
        }
    }
    assert(ring_view(new_p, r, q, cap) =~= ring_view(old_p, r, q, cap));
    assert(ring_view(new_p, r, q + n, cap) =~= ring_view(old_p, r, q, cap) + src.take(n));
}

/// Bytes of one sample in one plane: a sample of one channel for planar
/// formats, of all channels for interleaved ones.
pub open spec fn plane_sample_bytes(format: SampleFormat, channels: nat) -> nat {
    if format.spec_is_planar() { format.spec_bytes_per_sample() } else { format.spec_bytes_per_sample() * channels }
}

/// Number of planes: one per channel for planar formats, else one.
pub open spec fn fifo_planes(format: SampleFormat, channels: nat) -> nat {
    if format.spec_is_planar() { channels } else { 1 }
}

/// Writes `src[0..n]` into the ring `plane` from slot `start` on.
fn ring_write(plane: &mut Vec<u8>, start: usize, src: &[u8], n: usize)
    requires start < old(plane)@.len(), n <= old(plane)@.len(), n <= src@.len(),
    ensures
        final(plane)@.len() == old(plane)@.len(),
        forall|idx: int| 0 <= idx < final(plane)@.len() ==> #[trigger] final(plane)@[idx] == (
            if ring_offset(start as int, idx, old(plane)@.len() as int) < n {
                src@[ring_offset(start as int, idx, old(plane)@.len() as int)]
            } else {
                old(plane)@[idx]
            }),
{
    let cap = plane.len();
    let mut pos = start;
    let mut k: usize = 0;
    while k < n
        invariant
            k <= n, n <= cap, n <= src@.len(), cap == plane@.len(), cap == old(plane)@.len(), start < cap,
            pos == ring_index(start as int, k as int, cap as int),
            forall|idx: int| 0 <= idx < cap ==> #[trigger] plane@[idx] == (
                if ring_offset(start as int, idx, cap as int) < k {
                    src@[ring_offset(start as int, idx, cap as int)]
                } else {
                    old(plane)@[idx]
                }),
        decreases n - k,
    {
        plane.set(pos, src[k]);
        pos = if pos + 1 == cap { 0 } else { pos + 1 };
        k += 1;
    }
}

/// `dst` with its first `n` bytes read from the ring `plane` from slot `start` on.
fn ring_read(plane: &Vec<u8>, start: usize, dst: &Vec<u8>, n: usize) -> (r: Vec<u8>)
    requires start < plane@.len(), n <= plane@.len(), n <= dst@.len(),
    ensures
        r@.len() == dst@.len(),
        forall|k: int| 0 <= k < r@.len() ==> #[trigger] r@[k] == (
            if k < n { plane@[ring_index(start as int, k, plane@.len() as int)] } else { dst@[k] }),
{
    let cap = plane.len();
    let mut out: Vec<u8> = Vec::new();
    let mut pos = start;
    let mut k: usize = 0;
    while k < dst.len()
        invariant
            k <= dst@.len(), n <= cap, n <= dst@.len(), cap == plane@.len(), start < cap,
            k <= n ==> pos == ring_index(start as int, k as int, cap as int),
            out@.len() == k,
            forall|j: int| 0 <= j < k ==> #[trigger] out@[j] == (
                if j < n { plane@[ring_index(start as int, j, cap as int)] } else { dst@[j] }),
        decreases dst.len() - k,
    {
        if k < n {
            out.push(plane[pos]);
            pos = if pos + 1 == cap { 0 } else { pos + 1 };
        } else {
            out.push(dst[k]);
        }
        k += 1;
    }
    out
}

/// Taking `n` of `q` queued bytes from slot `r` leaves the rest queued from
/// the slot after them.
proof fn lemma_ring_skip(p: Seq<u8>, r: int, q: int, n: int, cap: int)
    requires 0 <= r < cap, 0 <= n <= q <= cap, p.len() == cap,
    ensures
        ring_view(p, ring_index(r, n, cap), q - n, cap) == ring_view(p, r, q, cap).skip(n),
        ring_view(p, r, n, cap) == ring_view(p, r, q, cap).take(n),
        0 <= ring_index(r, n, cap) < cap || n == cap,
{
    assert(ring_view(p, ring_index(r, n, cap), q - n, cap) =~= ring_view(p, r, q, cap).skip(n));
    assert(ring_view(p, r, n, cap) =~= ring_view(p, r, q, cap).take(n));
}

/// Positions in samples scale to positions in bytes.
proof fn lemma_scale_ring(r: int, q: int, c: int, b: int)
    requires 0 <= r < c, 0 <= q <= c, b > 0,
    ensures
        ring_index(r, q, c) * b == ring_index(r * b, q * b, c * b),
        0 <= r * b < c * b, q * b <= c * b,
{
    assert(r * b < c * b) by (nonlinear_arith) requires 0 <= r < c, b > 0;
    assert(0 <= r * b) by (nonlinear_arith) requires 0 <= r, b > 0;
    assert(q * b <= c * b) by (nonlinear_arith) requires 0 <= q <= c, b > 0;
    assert((r + q) * b == r * b + q * b) by (nonlinear_arith);
    assert((r + q - c) * b == r * b + q * b - c * b) by (nonlinear_arith);
    if r + q < c {
        assert(r * b + q * b < c * b) by (nonlinear_arith) requires r + q < c, b > 0, (r + q) * b == r * b + q * b;
    } else {
        assert(r * b + q * b >= c * b) by (nonlinear_arith) requires r + q >= c, b > 0, (r + q) * b == r * b + q * b;
    }
}

/// A FIFO queue of audio samples: one ring of bytes per plane, counted in
/// samples. Its view is, per plane, the queued bytes, oldest first.
#[derive(Debug)]
pub struct AudioFifo {
    planes: Vec<Vec<u8>>,
    read_pos: usize,
    write_pos: usize,
    queued: u32,
    capacity: u32,
    format: SampleFormat,
    channels: u16,
    bytes_per_sample_per_plane: usize,
}

/// Every plane of `data` up to and including `last` holds at least `bytes` bytes.
pub open spec fn planes_long_enough(data: Seq<Vec<u8>>, last: int, bytes: int) -> bool {
    forall|q: int| 0 <= q <= last ==> #[trigger] data[q]@.len() >= bytes
}

impl AudioFifo {
    /// Bytes of one plane's ring.
    pub closed spec fn cap_bytes(&self) -> int {
        self.capacity * self.bytes_per_sample_per_plane
    }

    /// Well-formedness of the rings and positions.
    pub closed spec fn wf(&self) -> bool {
        &&& self.capacity > 0
        &&& self.bytes_per_sample_per_plane == plane_sample_bytes(self.format, self.channels as nat)
        &&& self.bytes_per_sample_per_plane > 0
        &&& self.cap_bytes() <= usize::MAX
        &&& self.planes@.len() == fifo_planes(self.format, self.channels as nat)
        &&& forall|p: int| 0 <= p < self.planes@.len() ==> #[trigger] self.planes@[p]@.len() == self.cap_bytes()
        &&& self.read_pos < self.capacity
        &&& self.queued <= self.capacity
        &&& self.write_pos == ring_index(self.read_pos as int, self.queued as int, self.capacity as int)
    }

    /// The queued bytes of every plane, oldest first.
    pub closed spec fn view(&self) -> Seq<Seq<u8>> {
        Seq::new(self.planes@.len(), |p: int| ring_view(self.planes@[p]@,
            self.read_pos * self.bytes_per_sample_per_plane,
            self.queued * self.bytes_per_sample_per_plane, self.cap_bytes()))
    }

    /// Samples queued.
    pub closed spec fn spec_queued(&self) -> nat { self.queued as nat }

    /// Capacity in samples.
    pub closed spec fn spec_capacity(&self) -> nat { self.capacity as nat }

    /// Bytes of one sample in one plane.
    pub closed spec fn spec_sample_bytes(&self) -> nat { self.bytes_per_sample_per_plane as nat }

    /// The sample format.
    pub closed spec fn spec_format(&self) -> SampleFormat { self.format }

    /// The channel count.
    pub closed spec fn spec_channels(&self) -> u16 { self.channels }

    /// Capacity, sample size, format, channels and plane count agree.
    pub open spec fn same_shape(&self, other: &AudioFifo) -> bool {
        &&& self.spec_capacity() == other.spec_capacity()
        &&& self.spec_sample_bytes() == other.spec_sample_bytes()
        &&& self.spec_format() == other.spec_format()
        &&& self.spec_channels() == other.spec_channels()
        &&& self.view().len() == other.view().len()
    }

    /// Create an audio FIFO holding up to `capacity` samples.
    pub fn new(format: SampleFormat, channels: u16, capacity: u32) -> (r: Result<AudioFifo>)
        requires plane_sample_bytes(format, channels as nat) * capacity <= usize::MAX,
        ensures
            channels == 0 || capacity == 0 <==> r matches Err(Error::InvalidArgument(_)),
            channels > 0 && capacity > 0 ==> r is Ok,
            r matches Ok(f) ==> f.wf() && f.spec_queued() == 0 && f.spec_capacity() == capacity
                && f.spec_format() == format && f.spec_channels() == channels
                && f.spec_sample_bytes() == plane_sample_bytes(format, channels as nat)
                && f.view().len() == fifo_planes(format, channels as nat)
                && forall|p: int| 0 <= p < f.view().len() ==> #[trigger] f.view()[p].len() == 0,
    {
        if channels == 0 {
            return Err(Error::InvalidArgument(msg("channels must be > 0")));
        }
        if capacity == 0 {
            return Err(Error::InvalidArgument(msg("capacity must be > 0")));
        }
        let nb_planes: usize = if format.is_planar() { channels as usize } else { 1 };
        let bps: usize = if format.is_planar() {
            format.bytes_per_sample()
        } else {
            assert(format.spec_bytes_per_sample() * channels <= format.spec_bytes_per_sample() * channels * capacity)
                by (nonlinear_arith) requires capacity >= 1;
            format.bytes_per_sample() * channels as usize
        };
        assert(bps >= 1) by (nonlinear_arith) requires bps == plane_sample_bytes(format, channels as nat),
            format.spec_bytes_per_sample() >= 1, channels >= 1;
        let plane_bytes = bps * capacity as usize;
        let mut planes: Vec<Vec<u8>> = Vec::new();
        let mut i: usize = 0;
        while i < nb_planes
            invariant i <= nb_planes, planes@.len() == i,
                forall|p: int| 0 <= p < i ==> #[trigger] planes@[p]@.len() == plane_bytes,
            decreases nb_planes - i,
        {
            planes.push(filled(plane_bytes, 0));
            i += 1;
        }
        let f = AudioFifo {
            planes, read_pos: 0, write_pos: 0, queued: 0, capacity, format, channels,
            bytes_per_sample_per_plane: bps,
        };
        assert(f.cap_bytes() == plane_bytes) by (nonlinear_arith)
            requires f.cap_bytes() == capacity * bps, plane_bytes == bps * capacity;
        Ok(f)
    }

    /// Number of samples available to read.
    pub fn queued_samples(&self) -> (r: u32)
        ensures r == self.spec_queued(),
    {
        self.queued
    }

    /// Number of samples of free space.
    pub fn available_space(&self) -> (r: u32)
        requires self.wf(),
        ensures r == self.spec_capacity() - self.spec_queued(),
    {
        self.capacity - self.queued
    }

    /// Maximum capacity in samples.
    pub fn capacity(&self) -> (r: u32)
        ensures r == self.spec_capacity(),
    {
        self.capacity
    }

    /// True if no samples are queued.
    pub fn is_empty(&self) -> (r: bool)
        ensures r == (self.spec_queued() == 0),
    {
        self.queued == 0
    }

    /// Write `nb_samples` samples from each plane of `data` (one plane for
    /// interleaved formats, one per channel for planar ones). Nothing is
    /// queued when it fails.
    pub fn write(&mut self, data: &[&[u8]], nb_samples: u32) -> (r: Result<()>)
        requires old(self).wf(),
        ensures
            final(self).wf(),
            final(self).same_shape(old(self)),
            nb_samples > 0 && nb_samples > old(self).spec_capacity() - old(self).spec_queued()
                ==> r == Err::<(), Error>(Error::NoMemory),
            r is Ok <==> nb_samples == 0 || (nb_samples <= old(self).spec_capacity() - old(self).spec_queued()
                && data@.len() >= old(self).view().len()
                && forall|p: int| 0 <= p < old(self).view().len()
                    ==> #[trigger] data@[p]@.len() >= nb_samples * old(self).spec_sample_bytes()),
            r is Err ==> r == Err::<(), Error>(Error::NoMemory) || r matches Err(Error::InvalidArgument(_)),
            r is Err && nb_samples <= old(self).spec_capacity() - old(self).spec_queued()
                ==> r matches Err(Error::InvalidArgument(_)),
            r is Err ==> final(self).view() == old(self).view() && final(self).spec_queued() == old(self).spec_queued(),
            r is Ok ==> final(self).spec_queued() == old(self).spec_queued() + nb_samples
                && forall|p: int| 0 <= p < final(self).view().len() ==> #[trigger] final(self).view()[p]
                    == old(self).view()[p] + data@[p]@.take(nb_samples * old(self).spec_sample_bytes()),
    {
        if nb_samples == 0 {
            proof {
                let sb = old(self).spec_sample_bytes();
                assert(nb_samples * sb == 0) by (nonlinear_arith) requires nb_samples == 0;
                assert forall|p: int| 0 <= p < self.view().len() implies #[trigger] self.view()[p]
                    == old(self).view()[p] + data@[p]@.take(0) by {
                    assert(old(self).view()[p] + data@[p]@.take(0) =~= old(self).view()[p]);
                }
            }
            return Ok(());
        }
        if nb_samples > self.capacity - self.queued {
            return Err(Error::NoMemory);
        }
        let nb_planes = self.planes.len();
        if data.len() < nb_planes {
            return Err(Error::InvalidArgument(msg("too few sample planes")));
        }
        let bps = self.bytes_per_sample_per_plane;
        let ghost cap = self.cap_bytes();
        let ghost rb = self.read_pos * bps;
        let ghost qb = self.queued * bps;
        let ghost q0 = self.queued as int;
        proof {
            lemma_scale_ring(self.read_pos as int, self.queued as int, self.capacity as int, bps as int);
            assert((self.queued + nb_samples) * bps == self.queued * bps + nb_samples * bps) by (nonlinear_arith);
            assert((self.queued + nb_samples) * bps <= self.capacity * bps) by (nonlinear_arith)
                requires self.queued + nb_samples <= self.capacity, bps > 0;
        }
        let bytes = nb_samples as usize * bps;
        let start = self.write_pos * bps;
        let ghost old_planes = self.planes@;
        let mut i: usize = 0;
        while i < nb_planes
            invariant
                old(self).wf(), i <= nb_planes, nb_planes == self.planes@.len(), data@.len() >= nb_planes,
                0 < nb_samples <= self.capacity - self.queued, old_planes.len() == nb_planes,
                self.read_pos == old(self).read_pos, self.write_pos == old(self).write_pos,
                self.queued == old(self).queued, self.capacity == old(self).capacity,
                self.bytes_per_sample_per_plane == bps, self.format == old(self).format,
                self.channels == old(self).channels, old_planes == old(self).planes@,
                bps == old(self).bytes_per_sample_per_plane, cap == old(self).cap_bytes(),
                rb == self.read_pos * bps, qb == self.queued * bps,
                bytes == nb_samples * bps, start == ring_index(rb, qb, cap), 0 <= rb < cap,
                qb + bytes <= cap, 0 <= start < cap,
                forall|p: int| 0 <= p < i ==> #[trigger] data@[p]@.len() >= bytes,
                forall|p: int| 0 <= p < nb_planes ==> (#[trigger] self.planes@[p])@.len() == cap,
                forall|p: int| 0 <= p < nb_planes ==> (#[trigger] old_planes[p])@.len() == cap,
                forall|p: int, idx: int| 0 <= p < nb_planes && 0 <= idx < cap ==>
                    #[trigger] self.planes@[p]@[idx] == (
                    if p < i && ring_offset(start as int, idx, cap) < bytes {
                        data@[p]@[ring_offset(start as int, idx, cap)]
                    } else {
                        old_planes[p]@[idx]
                    }),
            decreases nb_planes - i,
        {
            if data[i].len() < bytes {
                proof {
                    assert forall|p: int| 0 <= p < nb_planes implies
                        #[trigger] self.view()[p] == old(self).view()[p] by {
                        lemma_ring_append(old_planes[p]@, self.planes@[p]@,
                            if p < i { data@[p]@ } else { old_planes[p]@.take(0) }, rb, qb, if p < i { bytes as int } else { 0 }, cap);
                        assert(self.view()[p] == ring_view(self.planes@[p]@, rb, qb, cap));
                        assert(old(self).view()[p] == ring_view(old_planes[p]@, rb, qb, cap));
                    }
                    assert(self.view() =~= old(self).view());
                }
                return Err(Error::InvalidArgument(msg("sample plane too small")));
            }
            let ghost before = self.planes@;
            ring_write(vec_index_mut(&mut self.planes, i), start, data[i], bytes);
            i += 1;
        }
        let room = self.capacity as usize - self.write_pos;
        self.write_pos = if nb_samples as usize >= room { nb_samples as usize - room } else { self.write_pos + nb_samples as usize };
        self.queued = self.queued + nb_samples;
        proof {
            assert forall|p: int| 0 <= p < nb_planes implies
                #[trigger] ring_view(self.planes@[p]@, rb, qb + bytes, cap)
                    == ring_view(old_planes[p]@, rb, qb, cap) + data@[p]@.take(bytes as int) by {
                lemma_ring_append(old_planes[p]@, self.planes@[p]@, data@[p]@, rb, qb, bytes as int, cap);
            }
            assert((self.queued as int) * bps == qb + bytes) by (nonlinear_arith)
                requires self.queued == q0 + nb_samples, qb == q0 * bps, bytes == nb_samples * bps;
            assert forall|p: int| 0 <= p < self.view().len() implies #[trigger] self.view()[p]
                == old(self).view()[p] + data@[p]@.take(nb_samples * old(self).spec_sample_bytes()) by {
            }
        }
        Ok(())
    }

    /// Read `nb_samples` samples into the first bytes of each plane of
    /// `data`. Nothing is taken from the queue when it fails; when a plane
    /// of `data` is too short, the planes before it have been filled.
    pub fn read(&mut self, data: &mut [Vec<u8>], nb_samples: u32) -> (r: Result<()>)
        requires old(self).wf(),
        ensures
            final(self).wf(),
            final(self).same_shape(old(self)),
            final(data)@.len() == old(data)@.len(),
            nb_samples > 0 && nb_samples > old(self).spec_queued() ==> r == Err::<(), Error>(Error::Eof),
            r is Ok <==> nb_samples == 0 || (nb_samples <= old(self).spec_queued()
                && old(data)@.len() >= old(self).view().len()
                && forall|p: int| 0 <= p < old(self).view().len()
                    ==> #[trigger] old(data)@[p]@.len() >= nb_samples * old(self).spec_sample_bytes()),
            r is Err ==> r == Err::<(), Error>(Error::Eof) || r matches Err(Error::InvalidArgument(_)),
            r is Err ==> forall|p: int| 0 <= p < final(data)@.len() ==> #[trigger] final(data)@[p]@ == (
                if nb_samples <= old(self).spec_queued() && old(data)@.len() >= old(self).view().len()
                    && p < old(self).view().len()
                    && planes_long_enough(old(data)@, p, nb_samples * old(self).spec_sample_bytes()) {
                    old(self).view()[p].take(nb_samples * old(self).spec_sample_bytes())
                        + old(data)@[p]@.skip(nb_samples * old(self).spec_sample_bytes())
                } else {
                    old(data)@[p]@
                }),
            r is Err ==> final(self).view() == old(self).view() && final(self).spec_queued() == old(self).spec_queued(),
            r is Ok ==> final(self).spec_queued() == old(self).spec_queued() - nb_samples
                && forall|p: int| 0 <= p < final(self).view().len() ==> #[trigger] final(self).view()[p]
                    == old(self).view()[p].skip(nb_samples * old(self).spec_sample_bytes()),
            r is Ok ==> forall|p: int| 0 <= p < final(data)@.len() ==> #[trigger] final(data)@[p]@ == (
                if p < old(self).view().len() {
                    old(self).view()[p].take(nb_samples * old(self).spec_sample_bytes())
                        + old(data)@[p]@.skip(nb_samples * old(self).spec_sample_bytes())
                } else {
                    old(data)@[p]@
                }),
    {
        if nb_samples == 0 {
            proof {
                let sb = old(self).spec_sample_bytes();
                assert(nb_samples * sb == 0) by (nonlinear_arith) requires nb_samples == 0;
                assert forall|p: int| 0 <= p < self.view().len() implies #[trigger] self.view()[p]
                    == old(self).view()[p].skip(0) by {
                    assert(old(self).view()[p].skip(0) =~= old(self).view()[p]);
                }
                assert forall|p: int| 0 <= p < data@.len() implies #[trigger] data@[p]@ == (
                    if p < old(self).view().len() {
                        old(self).view()[p].take(0) + old(data)@[p]@.skip(0)
                    } else {
                        old(data)@[p]@
                    }) by {
                    if p < old(self).view().len() {
                        assert(old(self).view()[p].take(0) + old(data)@[p]@.skip(0) =~= old(data)@[p]@);
                    }
                }
            }
            return Ok(());
        }
        if nb_samples > self.queued {
            return Err(Error::Eof);
        }
        let nb_planes = self.planes.len();
        if data.len() < nb_planes {
            return Err(Error::InvalidArgument(msg("too few sample planes")));
        }
        let bps = self.bytes_per_sample_per_plane;
        let ghost cap = self.cap_bytes();
        let ghost rb = self.read_pos * bps;
        let ghost qb = self.queued * bps;
        let ghost q0 = self.queued as int;
        proof {
            lemma_scale_ring(self.read_pos as int, nb_samples as int, self.capacity as int, bps as int);
            lemma_scale_ring(self.read_pos as int, self.queued as int, self.capacity as int, bps as int);
            assert(nb_samples * bps <= self.queued * bps) by (nonlinear_arith)
                requires nb_samples <= self.queued, bps > 0;
        }
        let bytes = nb_samples as usize * bps;
        let start = self.read_pos * bps;
        let mut i: usize = 0;
        while i < nb_planes
            invariant
                old(self).wf(), *self == *old(self), i <= nb_planes, nb_planes == self.planes@.len(),
                0 < nb_samples <= self.queued,
                data@.len() == old(data)@.len(), data@.len() >= nb_planes,
                bps == self.bytes_per_sample_per_plane, cap == self.cap_bytes(),
                rb == self.read_pos * bps, qb == self.queued * bps, start == rb,
                bytes == nb_samples * bps, bytes <= qb, qb <= cap, 0 <= rb < cap,
                forall|p: int| 0 <= p < i ==> #[trigger] old(data)@[p]@.len() >= bytes,
                forall|p: int| 0 <= p < data@.len() ==> #[trigger] data@[p]@ == (
                    if p < i {
                        self.view()[p].take(bytes as int) + old(data)@[p]@.skip(bytes as int)
                    } else {
                        old(data)@[p]@
                    }),
            decreases nb_planes - i,
        {
            if data[i].len() < bytes {
                proof {
                    assert forall|p: int| 0 <= p < data@.len() implies #[trigger] data@[p]@ == (
                        if nb_samples <= old(self).spec_queued() && old(data)@.len() >= old(self).view().len()
                            && p < old(self).view().len()
                            && planes_long_enough(old(data)@, p, nb_samples * old(self).spec_sample_bytes()) {
                            old(self).view()[p].take(nb_samples * old(self).spec_sample_bytes())
                                + old(data)@[p]@.skip(nb_samples * old(self).spec_sample_bytes())
                        } else {
                            old(data)@[p]@
                        }) by {
                        if p >= i {
                            assert(old(data)@[i as int]@.len() < bytes);
                            assert(!planes_long_enough(old(data)@, p, bytes as int));
                        } else {
                            assert(planes_long_enough(old(data)@, p, bytes as int));
                        }
                    }
                }
                return Err(Error::InvalidArgument(msg("sample plane too small")));
            }
            let out = ring_read(&self.planes[i], start, &data[i], bytes);
            proof {
                lemma_ring_skip(self.planes@[i as int]@, rb, qb, bytes as int, cap);
                assert(out@ =~= self.view()[i as int].take(bytes as int) + old(data)@[i as int]@.skip(bytes as int));
            }
            data[i] = out;
            i += 1;
        }
        let ghost old_view = self.view();
        let room = self.capacity as usize - self.read_pos;
        self.read_pos = if nb_samples as usize >= room { nb_samples as usize - room } else { self.read_pos + nb_samples as usize };
        self.queued = self.queued - nb_samples;
        proof {
            assert(self.read_pos * bps == ring_index(rb, bytes as int, cap));
            assert((self.queued as int) * bps == qb - bytes) by (nonlinear_arith)
                requires self.queued == q0 - nb_samples, qb == q0 * bps, bytes == nb_samples * bps;
            assert forall|p: int| 0 <= p < self.view().len() implies #[trigger] self.view()[p]
                == old_view[p].skip(bytes as int) by {
                lemma_ring_skip(self.planes@[p]@, rb, qb, bytes as int, cap);
            }
            if self.queued < self.capacity {
            }
        }
        Ok(())
    }

    /// Discard `nb_samples` from the read side; fails, changing nothing, if
    /// fewer are queued.
    pub fn drain(&mut self, nb_samples: u32) -> (r: Result<()>)
        requires old(self).wf(),
        ensures
            final(self).wf(),
            final(self).same_shape(old(self)),
            r is Err <==> nb_samples > old(self).spec_queued(),
            r is Err ==> r == Err::<(), Error>(Error::Eof) && final(self).view() == old(self).view()
                && final(self).spec_queued() == old(self).spec_queued(),
            r is Ok ==> final(self).spec_queued() == old(self).spec_queued() - nb_samples
                && forall|p: int| 0 <= p < final(self).view().len() ==> #[trigger] final(self).view()[p]
                    == old(self).view()[p].skip(nb_samples * old(self).spec_sample_bytes()),
    {
        if nb_samples > self.queued {
            return Err(Error::Eof);
        }
        let bps = self.bytes_per_sample_per_plane;
        let ghost cap = self.cap_bytes();
        let ghost rb = self.read_pos * bps;
        let ghost qb = self.queued * bps;
        let ghost q0 = self.queued as int;
        let ghost bytes = nb_samples * bps;
        proof {
            lemma_scale_ring(self.read_pos as int, nb_samples as int, self.capacity as int, bps as int);
            lemma_scale_ring(self.read_pos as int, self.queued as int, self.capacity as int, bps as int);
            assert(nb_samples * bps <= self.queued * bps) by (nonlinear_arith)
                requires nb_samples <= self.queued, bps > 0;
        }
        let ghost old_view = self.view();
        let room = self.capacity as usize - self.read_pos;
        self.read_pos = if nb_samples as usize >= room { nb_samples as usize - room } else { self.read_pos + nb_samples as usize };
        self.queued = self.queued - nb_samples;
        proof {
            assert(self.read_pos * bps == ring_index(rb, bytes, cap));
            assert((self.queued as int) * bps == qb - bytes) by (nonlinear_arith)
                requires self.queued == q0 - nb_samples, qb == q0 * bps, bytes == nb_samples * bps;
            assert forall|p: int| 0 <= p < self.view().len() implies #[trigger] self.view()[p]
                == old_view[p].skip(bytes) by {
                lemma_ring_skip(self.planes@[p]@, rb, qb, bytes, cap);
            }
        }
        Ok(())
    }

    /// Reset to the empty state.
    pub fn reset(&mut self)
        requires old(self).wf(),
        ensures
            final(self).wf(), final(self).same_shape(old(self)), final(self).spec_queued() == 0,
            forall|p: int| 0 <= p < final(self).view().len() ==> #[trigger] final(self).view()[p].len() == 0,
    {
        self.read_pos = 0;
        self.write_pos = 0;
        self.queued = 0;
    }

    /// The sample format of this FIFO.
    pub fn format(&self) -> (r: SampleFormat)
        ensures r == self.spec_format(),
    {
        self.format
    }

    /// The number of channels.
    pub fn channels(&self) -> (r: u16)
        ensures r == self.spec_channels(),
    {
        self.channels
    }
}

/// A mutable reference to element `i` of `v`.
fn vec_index_mut<T>(v: &mut Vec<T>, i: usize) -> (r: &mut T)
    requires i < old(v)@.len(),
    ensures *r == old(v)@[i as int], final(v)@ == old(v)@.update(i as int, *final(r)),
{
    &mut v[i]
}

/// What a call does to one plane of a FIFO: a write appends the bytes it
/// queues, a read or a drain takes bytes from the front.
pub enum PlaneOp {
    /// Bytes queued at the back.
    Append(Seq<u8>),
    /// A number of bytes taken from the front.
    Take(nat),
}

/// A plane's queued bytes after the calls `ops`, from empty (see the
/// `ensures` of [`AudioFifo::write`], [`AudioFifo::read`] and
/// [`AudioFifo::drain`]).
pub open spec fn plane_after(ops: Seq<PlaneOp>) -> Seq<u8>
    decreases ops.len(),
{
    if ops.len() == 0 {
        Seq::empty()
    } else {
        let v = plane_after(ops.drop_last());
        match ops.last() {
            PlaneOp::Append(x) => v + x,
            PlaneOp::Take(n) => v.skip(n as int),
        }
    }
}

/// All the bytes the calls `ops` queued, in order.
pub open spec fn appended(ops: Seq<PlaneOp>) -> Seq<u8>
    decreases ops.len(),
{
    if ops.len() == 0 {
        Seq::empty()
    } else {
        match ops.last() {
            PlaneOp::Append(x) => appended(ops.drop_last()) + x,
            PlaneOp::Take(_) => appended(ops.drop_last()),
        }
    }
}

/// How many bytes the calls `ops` took.
pub open spec fn taken(ops: Seq<PlaneOp>) -> nat
    decreases ops.len(),
{
    if ops.len() == 0 {
        0
    } else {
        match ops.last() {
            PlaneOp::Append(_) => taken(ops.drop_last()),
            PlaneOp::Take(n) => taken(ops.drop_last()) + n,
        }
    }
}

/// Each call of `ops` that takes bytes takes no more than are queued (as
/// a read or drain must to succeed).
pub open spec fn takes_fit(ops: Seq<PlaneOp>) -> bool
    decreases ops.len(),
{
    if ops.len() == 0 {
        true
    } else {
        &&& takes_fit(ops.drop_last())
        &&& ops.last() matches PlaneOp::Take(n) ==> n <= plane_after(ops.drop_last()).len()
    }
}

/// A FIFO plane is first in, first out over a whole run of calls: after
/// successful writes, reads and drains from empty, the queued bytes are all
/// the bytes written with those taken so far removed from the front, and
/// each read hands out the written bytes that follow those taken before it.
pub proof fn law_fifo_history(ops: Seq<PlaneOp>, n: nat)
    requires takes_fit(ops),
    ensures
        taken(ops) <= appended(ops).len(),
        plane_after(ops) == appended(ops).skip(taken(ops) as int),
        n <= plane_after(ops).len() ==> plane_after(ops).take(n as int)
            == appended(ops).subrange(taken(ops) as int, (taken(ops) + n) as int),
    decreases ops.len(),
{
    if ops.len() > 0 {
        let pre = ops.drop_last();
        law_fifo_history(pre, 0);
        match ops.last() {
            PlaneOp::Append(x) => {
                assert(plane_after(ops) =~= appended(ops).skip(taken(ops) as int));
            }
            PlaneOp::Take(k) => {
                assert(plane_after(ops) =~= appended(ops).skip(taken(ops) as int));
            }
        }
    } else {
        assert(plane_after(ops) =~= appended(ops).skip(0));
    }
    if n <= plane_after(ops).len() {
        assert(plane_after(ops).take(n as int) =~= appended(ops).subrange(taken(ops) as int, (taken(ops) + n) as int));
    }
}

} // verus!
