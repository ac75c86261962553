use vstd::prelude::*;
use crate::util::error::{Error, Result, msg};
use crate::util::pixfmt::PixelFormat;

verus! {

/// Default line size alignment (common for SIMD: 32 bytes).
pub const DEFAULT_ALIGN: u32 = 32;

/// `x` divided by two to the power `l`, rounded up.
pub open spec fn ceil_shift(x: nat, l: nat) -> nat {
    (x + vstd::arithmetic::power2::pow2(l) - 1) as nat / vstd::arithmetic::power2::pow2(l)
}

/// Whether a plane index of a format can be sized for an image of that width.
pub open spec fn plane_sizable(format: PixelFormat, width: nat, plane: nat) -> bool {
    width > 0 && !format.spec_layout().is_hwaccel && plane < format.spec_layout().nb_planes
}

/// Width in pixels of a plane: chroma planes of multi-component formats are
/// subsampled horizontally.
pub open spec fn plane_width(format: PixelFormat, width: nat, plane: nat) -> nat {
    let l = format.spec_layout();
    if plane > 0 && l.nb_components > 1 { ceil_shift(width, l.log2_chroma_w as nat) } else { width }
}

/// Height in rows of a plane: chroma planes of multi-component formats are
/// subsampled vertically.
pub open spec fn plane_height(format: PixelFormat, height: nat, plane: nat) -> nat {
    let l = format.spec_layout();
    if plane > 0 && l.nb_components > 1 { ceil_shift(height, l.log2_chroma_h as nat) } else { height }
}

/// Unaligned bytes of one line of a plane: packed formats hold every
/// component in their one plane, planar formats one per plane; components
/// wider than 8 bits take two bytes.
pub open spec fn raw_line_size(format: PixelFormat, width: nat, plane: nat) -> nat {
    let l = format.spec_layout();
    let bytes: nat = if l.bits_per_component > 8 { 2 } else { 1 };
    let comps: nat = if l.nb_planes == 1 { l.nb_components as nat } else { 1 };
    plane_width(format, width, plane) * comps * bytes
}

/// The alignment actually used: at least one.
pub open spec fn effective_align(align: u32) -> u32 {
    if align >= 1 { align } else { 1 }
}

/// `size` rounded up by masking with the alignment, as a 32-bit value.
pub open spec fn aligned_size(size: nat, align: u32) -> u32 {
    let a = effective_align(align);
    ((size + a - 1) as u32) & !((a - 1) as u32)
}

/// No step of the line size computation overflows 32 bits.
pub open spec fn line_size_fits(format: PixelFormat, width: nat, plane: nat, align: u32) -> bool {
    &&& width + vstd::arithmetic::power2::pow2(format.spec_layout().log2_chroma_w as nat) <= u32::MAX
    &&& raw_line_size(format, width, plane) + effective_align(align) <= u32::MAX
}

proof fn lemma_layout_shifts(format: PixelFormat)
    ensures
        format.spec_layout().log2_chroma_w <= 1, format.spec_layout().log2_chroma_h <= 1,
        format.spec_layout().nb_planes <= 4,
        format.spec_layout().is_hwaccel <==> format.spec_layout().nb_planes == 0,
{
}

fn shift_up(x: u32, l: u8) -> (r: u32)
    requires l <= 1, x + vstd::arithmetic::power2::pow2(l as nat) <= u32::MAX,
    ensures r == ceil_shift(x as nat, l as nat),
{
    proof { vstd::arithmetic::power2::lemma2_to64(); }
    if l == 0 {
        x
    } else {
        let s = x + 1;
        assert(s >> 1u32 == s / 2) by (bit_vector);
        s >> 1u32
    }
}

/// Compute the line size (stride) in bytes for a single plane.
///
/// `width` is the image width in pixels. `plane` is the plane index (0 for Y,
/// 1/2 for chroma in YUV). `align` is the byte alignment (must be power of 2).
pub fn image_line_size(format: PixelFormat, width: u32, plane: usize, align: u32) -> (r: Result<u32>)
    requires plane_sizable(format, width as nat, plane as nat) ==> line_size_fits(format, width as nat, plane as nat, align),
    ensures
        width == 0 ==> r matches Err(Error::InvalidArgument(_)),
        width != 0 && format.spec_layout().is_hwaccel ==> r matches Err(Error::Unsupported(_)),
        width != 0 && !format.spec_layout().is_hwaccel && plane >= format.spec_layout().nb_planes
            ==> r matches Err(Error::InvalidArgument(_)),
        plane_sizable(format, width as nat, plane as nat)
            ==> r == Ok::<u32, Error>(aligned_size(raw_line_size(format, width as nat, plane as nat), align)),
{
    if width == 0 {
        return Err(Error::InvalidArgument(msg("width must be > 0")));
    }
    let desc = format.descriptor();
    if desc.is_hwaccel {
        return Err(Error::Unsupported(msg("cannot compute line size for HW format")));
    }
    if plane >= desc.nb_planes as usize {
        return Err(Error::InvalidArgument(msg("plane out of range for format")));
    }
    proof { lemma_layout_shifts(format); }
    let pw: u32 = if plane > 0 && desc.nb_components > 1 {
        shift_up(width, desc.log2_chroma_w)
    } else {
        width
    };
    let bytes_per_component: u32 = if desc.bits_per_component > 8 { 2 } else { 1 };
    let components: u32 = if desc.nb_planes == 1 { desc.nb_components as u32 } else { 1 };
    proof {
        let raw = raw_line_size(format, width as nat, plane as nat);
        assert(raw == pw * components * bytes_per_component);
        assert(pw * components <= raw) by (nonlinear_arith)
            requires bytes_per_component >= 1, raw == pw * components * bytes_per_component;
    }
    let linesize = pw * components * bytes_per_component;
    let a: u32 = if align >= 1 { align } else { 1 };
    assert(a == effective_align(align));
    assert(linesize == raw_line_size(format, width as nat, plane as nat));
    Ok((linesize + a - 1) & !(a - 1))
}

/// Sum over planes `0..n` of line size times plane height.
pub open spec fn planes_size(format: PixelFormat, width: nat, height: nat, align: u32, n: nat) -> nat
    decreases n,
{
    if n == 0 {
        0
    } else {
        planes_size(format, width, height, align, (n - 1) as nat)
            + aligned_size(raw_line_size(format, width, (n - 1) as nat), align) as nat
            * plane_height(format, height, (n - 1) as nat)
    }
}

/// No step of the buffer size computation overflows.
pub open spec fn buffer_size_fits(format: PixelFormat, width: nat, height: nat, align: u32) -> bool {
    let l = format.spec_layout();
    &&& forall|p: nat| p < l.nb_planes ==> #[trigger] line_size_fits(format, width, p, align)
    &&& height + vstd::arithmetic::power2::pow2(l.log2_chroma_h as nat) <= u32::MAX
    &&& planes_size(format, width, height, align, l.nb_planes as nat) <= usize::MAX
}

proof fn lemma_planes_size_monotone(format: PixelFormat, width: nat, height: nat, align: u32, i: nat, n: nat)
    requires i <= n,
    ensures planes_size(format, width, height, align, i) <= planes_size(format, width, height, align, n),
    decreases n - i,
{
    if i < n {
        lemma_planes_size_monotone(format, width, height, align, i, (n - 1) as nat);
    }
}

/// Compute the total buffer size needed for an image: the sum over planes
/// of line size times plane height.
pub fn image_buffer_size(format: PixelFormat, width: u32, height: u32, align: u32) -> (r: Result<usize>)
    requires
        width > 0 && height > 0 && !format.spec_layout().is_hwaccel
            ==> buffer_size_fits(format, width as nat, height as nat, align),
    ensures
        width == 0 || height == 0 ==> r matches Err(Error::InvalidArgument(_)),
        width != 0 && height != 0 && format.spec_layout().is_hwaccel ==> r matches Err(Error::Unsupported(_)),
        width != 0 && height != 0 && !format.spec_layout().is_hwaccel ==> r == Ok::<usize, Error>(
            planes_size(format, width as nat, height as nat, align, format.spec_layout().nb_planes as nat) as usize),
{
    if width == 0 || height == 0 {
        return Err(Error::InvalidArgument(msg("dimensions must be > 0")));
    }
    let desc = format.descriptor();
    if desc.is_hwaccel {
        return Err(Error::Unsupported(msg("cannot compute buffer size for HW format")));
    }
    proof { lemma_layout_shifts(format); }
    let n = desc.nb_planes as usize;
    let mut total: usize = 0;
    let mut plane: usize = 0;
    while plane < n
        invariant
            plane <= n, n == format.spec_layout().nb_planes, width > 0, height > 0,
            !format.spec_layout().is_hwaccel,
            buffer_size_fits(format, width as nat, height as nat, align),
            desc.nb_components == format.spec_layout().nb_components,
            desc.log2_chroma_h == format.spec_layout().log2_chroma_h,
            desc.log2_chroma_h <= 1,
            total == planes_size(format, width as nat, height as nat, align, plane as nat),
        decreases n - plane,
    {
        assert(line_size_fits(format, width as nat, plane as nat, align));
        let linesize = match image_line_size(format, width, plane, align) {
            Ok(v) => v,
            Err(e) => { return Err(e); }
        };
        let ph: u32 = if plane > 0 && desc.nb_components > 1 {
            shift_up(height, desc.log2_chroma_h)
        } else {
            height
        };
        proof {
            lemma_planes_size_monotone(format, width as nat, height as nat, align, (plane + 1) as nat, n as nat);
        }
        total = total + linesize as usize * ph as usize;
        plane += 1;
    }
    Ok(total)
}

/// How many of the first `h` rows of `linesize` bytes fit wholly in `len` bytes.
pub open spec fn rows_fit(len: nat, linesize: nat, h: nat) -> nat
    decreases h,
{
    if h == 0 { 0 } else if h * linesize <= len { h } else { rows_fit(len, linesize, (h - 1) as nat) }
}

/// `data` after filling with `fill` the rows, among the first `height` of
/// `linesize` bytes, that fit wholly.
pub open spec fn filled_rows(data: Seq<u8>, linesize: nat, height: nat, fill: u8) -> Seq<u8> {
    Seq::new(data.len(), |j: int| if j < rows_fit(data.len(), linesize, height) * linesize { fill } else { data[j] })
}

fn fill_range(data: &mut [u8], start: usize, end: usize, fill: u8)
    requires start <= end <= old(data)@.len(),
    ensures
        final(data)@.len() == old(data)@.len(),
        forall|j: int| 0 <= j < final(data)@.len() ==> #[trigger] final(data)@[j]
            == if start <= j < end { fill } else { old(data)@[j] },
{
    let mut k = start;
    while k < end
        invariant
            start <= k <= end, end <= data@.len(), data@.len() == old(data)@.len(),
            forall|j: int| 0 <= j < data@.len() ==> #[trigger] data@[j]
                == if start <= j < k { fill } else { old(data)@[j] },
        decreases end - k,
    {
        data[k] = fill;
        k += 1;
    }
}

/// Fill a plane buffer with black (zero for YUV luma, 128 for chroma, 0 for RGB).
///
/// `data` is the plane buffer, `linesize` is the byte stride, `height` is
/// the number of rows, `plane` is the plane index, `is_yuv` selects the
/// fill value for chroma planes. Rows that do not fit wholly are left alone.
pub fn fill_plane_black(data: &mut [u8], linesize: u32, height: u32, plane: usize, is_yuv: bool)
    ensures
        final(data)@ == filled_rows(old(data)@, linesize as nat, height as nat,
            if is_yuv && plane > 0 { 128u8 } else { 0u8 }),
{
    let fill: u8 = if is_yuv && plane > 0 { 128 } else { 0 };
    let dlen = data.len();
    let len = dlen as u64;
    let ls = linesize as u64;
    let mut row: u64 = 0;
    while row < height as u64
        invariant
            row <= height, data@.len() == old(data)@.len(), len == old(data)@.len(), ls == linesize,
            len == dlen,
            fill == (if is_yuv && plane > 0 { 128u8 } else { 0u8 }),
            forall|j: int| 0 <= j < data@.len() ==> #[trigger] data@[j] == (
                if j < rows_fit(len as nat, ls as nat, row as nat) * ls { fill } else { old(data)@[j] }),
        decreases height - row,
    {
        assert(row * ls <= 0xffff_ffff * 0xffff_ffff) by (nonlinear_arith)
            requires row <= 0xffff_ffff, ls <= 0xffff_ffff;
        let start = row * ls;
        let end = start + ls;
        assert(end == (row + 1) * ls) by (nonlinear_arith) requires end == start + ls, start == row * ls;
        if end <= len {
            assert(row * ls <= len);
            assert(rows_fit(len as nat, ls as nat, row as nat) == row) by {
                if row > 0 { assert(row * ls <= len); }
            }
            fill_range(data, start as usize, end as usize, fill);
            assert(rows_fit(len as nat, ls as nat, (row + 1) as nat) == row + 1);
            assert(rows_fit(len as nat, ls as nat, (row + 1) as nat) * ls == end);
        } else {
            assert(rows_fit(len as nat, ls as nat, (row + 1) as nat) == rows_fit(len as nat, ls as nat, row as nat));
        }
        row += 1;
    }
    assert(data@ =~= filled_rows(old(data)@, linesize as nat, height as nat, fill));
}

} // verus!
