use vstd::prelude::*;
use crate::util::error::{Error, Result, msg};
use crate::util::samplefmt::SampleFormat;

verus! {

/// Number of sample planes: one per channel for planar formats, else one.
pub open spec fn plane_count(format: SampleFormat, channels: nat) -> nat {
    if format.spec_is_planar() { channels } else { 1 }
}

/// A byte vector of `n` copies of `b`.
pub fn filled(n: usize, b: u8) -> (r: Vec<u8>)
    ensures r@ == Seq::new(n as nat, |_i: int| b),
{
    let mut v: Vec<u8> = Vec::new();
    let mut i: usize = 0;
    while i < n
        invariant i <= n, v@ == Seq::new(i as nat, |_i: int| b),
        decreases n - i,
    {
        v.push(b);
        i += 1;
        assert(v@ =~= Seq::new(i as nat, |_i: int| b));
    }
    v
}

/// Allocate zeroed (silent for signed and float formats) buffers for audio samples.
///
/// For interleaved formats, returns a single buffer.
/// For planar formats, returns one buffer per channel.
pub fn alloc_samples(format: SampleFormat, channels: u16, nb_samples: u32) -> (r: Result<Vec<Vec<u8>>>)
    requires format.spec_buffer_size(nb_samples as nat, channels as nat) <= usize::MAX,
    ensures
        channels == 0 <==> r matches Err(Error::InvalidArgument(_)),
        channels != 0 ==> (r matches Ok(v) && v@.len() == plane_count(format, channels as nat)
            && forall|i: int| 0 <= i < v@.len() ==> #[trigger] v@[i]@ == Seq::new(
                format.spec_buffer_size(nb_samples as nat, channels as nat), |_j: int| 0u8)),
{
    if channels == 0 {
        return Err(Error::InvalidArgument(msg("channels must be > 0")));
    }
    let size = format.buffer_size(nb_samples, channels);
    let planes: usize = if format.is_planar() { channels as usize } else { 1 };
    let mut out: Vec<Vec<u8>> = Vec::new();
    let mut i: usize = 0;
    while i < planes
        invariant
            i <= planes,
            out@.len() == i,
            forall|k: int| 0 <= k < i ==> #[trigger] out@[k]@ == Seq::new(size as nat, |_j: int| 0u8),
        decreases planes - i,
    {
        out.push(filled(size, 0));
        i += 1;
    }
    Ok(out)
}

/// The state of plane `i` after `copy`: its first `n` bytes are those of the
/// source plane, when every plane up to it was large enough.
pub open spec fn copied_plane(old_plane: Seq<u8>, src_plane: Seq<u8>, n: nat) -> Seq<u8> {
    src_plane.subrange(0, n as int) + old_plane.subrange(n as int, old_plane.len() as int)
}

/// Planes `0..=i` of both sides hold at least `n` bytes.
pub open spec fn planes_fit(dst: Seq<Vec<u8>>, src: Seq<Vec<u8>>, i: int, n: nat) -> bool {
    forall|j: int| 0 <= j <= i ==> #[trigger] src[j]@.len() >= n && dst[j]@.len() >= n
}

fn copy_prefix(dst: &Vec<u8>, src: &Vec<u8>, n: usize) -> (r: Vec<u8>)
    requires n <= dst@.len(), n <= src@.len(),
    ensures r@ == copied_plane(dst@, src@, n as nat),
{
    let mut out: Vec<u8> = Vec::new();
    let mut k: usize = 0;
    while k < dst.len()
        invariant
            n <= dst@.len(), n <= src@.len(), k <= dst@.len(),
            out@ =~= copied_plane(dst@, src@, n as nat).subrange(0, k as int),
        decreases dst.len() - k,
    {
        if k < n {
            out.push(src[k]);
        } else {
            out.push(dst[k]);
        }
        k += 1;
    }
    out
}

/// Every plane that `copy` touches is present and large enough on both sides.
pub open spec fn copy_fits(dst: Seq<Vec<u8>>, src: Seq<Vec<u8>>, format: SampleFormat, channels: nat, nb_samples: nat) -> bool {
    let p = plane_count(format, channels) as int;
    &&& channels != 0
    &&& dst.len() >= p
    &&& src.len() >= p
    &&& planes_fit(dst, src, p - 1, format.spec_buffer_size(nb_samples, channels))
}

/// Plane `i` of `dst` after `copy`: copied when it is one of the format's
/// planes and it and every plane before it are large enough, else unchanged.
pub open spec fn copy_result_plane(dst: Seq<Vec<u8>>, src: Seq<Vec<u8>>, format: SampleFormat, channels: nat, nb_samples: nat, i: int) -> Seq<u8> {
    let p = plane_count(format, channels) as int;
    let n = format.spec_buffer_size(nb_samples, channels);
    if channels != 0 && dst.len() >= p && src.len() >= p && i < p && planes_fit(dst, src, i, n) {
        copied_plane(dst[i]@, src[i]@, n)
    } else {
        dst[i]@
    }
}

/// When plane `i` is too small after planes `0..i` were copied, the state of
/// `dst` is the one that `copy` promises on failure.
proof fn lemma_copy_stopped(old_dst: Seq<Vec<u8>>, src: Seq<Vec<u8>>, dst: Seq<Vec<u8>>, i: int, p: int, n: nat)
    requires
        0 <= i < p, p <= old_dst.len(), p <= src.len(), dst.len() == old_dst.len(),
        i > 0 ==> planes_fit(old_dst, src, i - 1, n),
        !(src[i]@.len() >= n && old_dst[i]@.len() >= n),
        forall|k: int| 0 <= k < dst.len() ==> #[trigger] dst[k]@ == (
            if k < i { copied_plane(old_dst[k]@, src[k]@, n) } else { old_dst[k]@ }),
    ensures
        !planes_fit(old_dst, src, p - 1, n),
        forall|k: int| 0 <= k < dst.len() ==> #[trigger] dst[k]@ == (
            if k < p && planes_fit(old_dst, src, k, n) { copied_plane(old_dst[k]@, src[k]@, n) }
            else { old_dst[k]@ }),
{
    assert forall|k: int| 0 <= k < dst.len() implies #[trigger] dst[k]@ == (
            if k < p && planes_fit(old_dst, src, k, n) { copied_plane(old_dst[k]@, src[k]@, n) }
            else { old_dst[k]@ }) by {
        if k < i {
            assert forall|j: int| 0 <= j <= k implies #[trigger] src[j]@.len() >= n && old_dst[j]@.len() >= n by {
                assert(planes_fit(old_dst, src, i - 1, n));
            }
        } else {
            assert(!planes_fit(old_dst, src, k, n)) by {
                if planes_fit(old_dst, src, k, n) { assert(src[i]@.len() >= n && old_dst[i]@.len() >= n); }
            }
        }
    }
    assert(!planes_fit(old_dst, src, p - 1, n)) by {
        if planes_fit(old_dst, src, p - 1, n) { assert(src[i]@.len() >= n && old_dst[i]@.len() >= n); }
    }
}

/// Copy samples from `src` to `dst`.
///
/// Both must be the same format, channels, and have at least `nb_samples`
/// worth of data. For planar, copies each plane independently; a plane is
/// copied when it and every plane before it are large enough.
pub fn copy(dst: &mut Vec<Vec<u8>>, src: &Vec<Vec<u8>>, format: SampleFormat, channels: u16, nb_samples: u32) -> (r: Result<()>)
    requires format.spec_buffer_size(nb_samples as nat, channels as nat) <= usize::MAX,
    ensures
        r is Ok <==> copy_fits(old(dst)@, src@, format, channels as nat, nb_samples as nat),
        r is Err ==> r matches Err(Error::InvalidArgument(_)),
        final(dst)@.len() == old(dst)@.len(),
        forall|i: int| 0 <= i < final(dst)@.len() ==> #[trigger] final(dst)@[i]@
            == copy_result_plane(old(dst)@, src@, format, channels as nat, nb_samples as nat, i),
{
    let ghost n = format.spec_buffer_size(nb_samples as nat, channels as nat);
    if channels == 0 {
        return Err(Error::InvalidArgument(msg("channels must be > 0")));
    }
    let expected: usize = if format.is_planar() { channels as usize } else { 1 };
    if dst.len() < expected || src.len() < expected {
        return Err(Error::InvalidArgument(msg("too few sample planes")));
    }
    let bytes = format.buffer_size(nb_samples, channels);
    let ghost old_dst = dst@;
    let mut i: usize = 0;
    while i < expected
        invariant
            expected == plane_count(format, channels as nat), channels != 0,
            i <= expected, expected <= old_dst.len(), expected <= src@.len(),
            dst@.len() == old_dst.len(), bytes == n, old_dst == old(dst)@,
            n == format.spec_buffer_size(nb_samples as nat, channels as nat),
            i > 0 ==> planes_fit(old_dst, src@, i - 1, n),
            forall|k: int| 0 <= k < dst@.len() ==> #[trigger] dst@[k]@ == (
                if k < i { copied_plane(old_dst[k]@, src@[k]@, n) } else { old_dst[k]@ }),
        decreases expected - i,
    {
        if src[i].len() < bytes || dst[i].len() < bytes {
            proof { lemma_copy_stopped(old_dst, src@, dst@, i as int, expected as int, n); }
            return Err(Error::InvalidArgument(msg("sample plane too small")));
        }
        let plane = copy_prefix(&dst[i], &src[i], bytes);
        dst.set(i, plane);
        i += 1;
    }
    Ok(())
}

/// The byte that means silence in `format`: 0x80 for unsigned 8-bit, else 0.
pub open spec fn silence_byte(format: SampleFormat) -> u8 {
    if format == SampleFormat::U8 || format == SampleFormat::U8p { 0x80 } else { 0 }
}

/// `plane` with its first `min(n, len)` bytes set to `b`.
pub open spec fn filled_prefix(plane: Seq<u8>, n: nat, b: u8) -> Seq<u8> {
    Seq::new(plane.len(), |j: int| if j < n { b } else { plane[j] })
}

fn fill_prefix(plane: &Vec<u8>, n: usize, b: u8) -> (r: Vec<u8>)
    ensures r@ == filled_prefix(plane@, n as nat, b),
{
    let mut out: Vec<u8> = Vec::new();
    let mut k: usize = 0;
    while k < plane.len()
        invariant k <= plane@.len(), out@ =~= filled_prefix(plane@, n as nat, b).subrange(0, k as int),
        decreases plane.len() - k,
    {
        if k < n { out.push(b); } else { out.push(plane[k]); }
        k += 1;
    }
    out
}

/// Fill sample buffers with silence.
///
/// For integer and float formats, silence is 0x00. For unsigned 8-bit, it is 0x80.
pub fn silence(data: &mut Vec<Vec<u8>>, format: SampleFormat, channels: u16, nb_samples: u32) -> (r: Result<()>)
    requires format.spec_buffer_size(nb_samples as nat, channels as nat) <= usize::MAX,
    ensures
        ({
            let n = format.spec_buffer_size(nb_samples as nat, channels as nat);
            let p = plane_count(format, channels as nat) as int;
            &&& r is Ok <==> channels != 0 && old(data)@.len() >= p
            &&& (r is Err ==> (r matches Err(Error::InvalidArgument(_))) && final(data)@ == old(data)@)
            &&& final(data)@.len() == old(data)@.len()
            &&& r is Ok ==> forall|i: int| 0 <= i < final(data)@.len() ==> #[trigger] final(data)@[i]@ == (
                if i < p { filled_prefix(old(data)@[i]@, n, silence_byte(format)) } else { old(data)@[i]@ })
        }),
{
    if channels == 0 {
        return Err(Error::InvalidArgument(msg("channels must be > 0")));
    }
    let expected: usize = if format.is_planar() { channels as usize } else { 1 };
    if data.len() < expected {
        return Err(Error::InvalidArgument(msg("too few sample planes")));
    }
    let fill: u8 = match format {
        SampleFormat::U8 | SampleFormat::U8p => 0x80,
        _ => 0x00,
    };
    let bytes = format.buffer_size(nb_samples, channels);
    let ghost old_data = data@;
    let mut i: usize = 0;
    while i < expected
        invariant
            expected == plane_count(format, channels as nat), i <= expected, expected <= old_data.len(),
            data@.len() == old_data.len(), fill == silence_byte(format),
            bytes == format.spec_buffer_size(nb_samples as nat, channels as nat),
            forall|k: int| 0 <= k < data@.len() ==> #[trigger] data@[k]@ == (
                if k < i { filled_prefix(old_data[k]@, bytes as nat, fill) } else { old_data[k]@ }),
        decreases expected - i,
    {
        let plane = fill_prefix(&data[i], bytes, fill);
        data.set(i, plane);
        i += 1;
    }
    Ok(())
}

} // verus!
